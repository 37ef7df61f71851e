//! Results of a whole run.
use crate::driver::ClientStats;
use vstd::prelude::*;

verus! {

/// The statistics of all workers, one after the other.
pub open spec fn joined<E>(workers: Seq<Result<Vec<ClientStats>, E>>) -> Seq<ClientStats>
    decreases workers.len(),
{
    if workers.len() == 0 {
        Seq::empty()
    } else {
        joined(workers.drop_last()) + workers.last()->Ok_0@
    }
}

/// Puts the statistics of all workers together, in the order of the workers, or gives the error
/// of the first worker that failed.
pub fn merge_worker_stats<E>(workers: Vec<Result<Vec<ClientStats>, E>>) -> (all: Result<
    Vec<ClientStats>,
    E,
>)
    ensures
        match all {
            Ok(stats) => {
                &&& forall|i: int| 0 <= i < workers@.len() ==> (#[trigger] workers@[i]) is Ok
                &&& stats@ == joined(workers@)
            },
            Err(error) => exists|k: int|
                0 <= k < workers@.len() && #[trigger] workers@[k] == Err::<Vec<ClientStats>, E>(
                    error,
                ) && forall|j: int| 0 <= j < k ==> (#[trigger] workers@[j]) is Ok,
        },
{
    let mut all: Vec<ClientStats> = Vec::new();
    assert(workers@.take(0) =~= Seq::empty());
    for worker in it: workers
        invariant
            it.seq() == workers@,
            forall|j: int| 0 <= j < it.index() ==> (#[trigger] workers@[j]) is Ok,
            all@ == joined(workers@.take(it.index())),
    {
        let ghost k = it.index();
        assert(worker == workers@[k]);
        match worker {
            Ok(stats) => {
                let mut stats = stats;
                all.append(&mut stats);
                assert(workers@.take(k + 1).drop_last() =~= workers@.take(k));
            },
            Err(error) => return Err(error),
        }
    }
    assert(workers@.take(workers@.len() as int) =~= workers@);
    Ok(all)
}

/// The statistics of all workers are theirs in a row, with none left out, added or moved.
pub proof fn joined_statistics_are_in_a_row<E>(workers: Seq<Result<Vec<ClientStats>, E>>)
    ensures
        joined(workers) == workers.map_values(
            |worker: Result<Vec<ClientStats>, E>| worker->Ok_0@,
        ).flatten(),
    decreases workers.len(),
{
    let lists = workers.map_values(|worker: Result<Vec<ClientStats>, E>| worker->Ok_0@);
    lists.lemma_flatten_and_flatten_alt_are_equivalent();
    if workers.len() > 0 {
        let front = workers.drop_last();
        joined_statistics_are_in_a_row(front);
        let front_lists = front.map_values(|worker: Result<Vec<ClientStats>, E>| worker->Ok_0@);
        front_lists.lemma_flatten_and_flatten_alt_are_equivalent();
        assert(lists.drop_last() =~= front_lists);
        assert(lists.last() == workers.last()->Ok_0@);
    }
}

} // verus!
