//! A pool of URLs that is handed out one by one.
use crate::random::{entropy_generator, shuffle};
#[allow(unused_imports)]
use crate::random::{generator_numbers, is_ordering, reordered, shuffled_order};
use crate::text::is_blank;
#[allow(unused_imports)]
use crate::text::{blank, is_white_space};
use rand::rngs::ChaCha8Rng;
#[allow(unused_imports)]
use vstd::multiset::Multiset;
use vstd::prelude::*;

verus! {

/// What a pool is made of, and for how long it lasts.
#[derive(Clone, Debug)]
pub struct URLPoolConfig {
    /// Endpoint URL prefix to send requests to.
    pub endpoint: String,
    /// Shuffle the order of paths.
    ///
    /// Shuffle is post-limit.
    pub shuffle: bool,
    /// Limit the number of paths to read from the path file.
    pub limit: Option<usize>,
    /// Wall time to repeat the URL pool, in seconds.
    ///
    /// If set, the URL pool will repeat until the wall time has elapsed, rather than stopping
    /// when all paths have been used.
    pub wall_time: Option<u64>,
}

/// Why a pool cannot be made.
#[derive(Debug)]
pub enum URLPoolError {
    /// A line of the path file could not be read.
    Read(std::io::Error),
    /// The path file contains no request paths.
    NoPaths,
}

impl URLPoolError {
    /// The error in words. What an error of the operating system says of itself is taken over.
    pub fn describe(&self) -> (text: String)
        ensures
            match self {
                URLPoolError::Read(error) => vstd::string::to_string_from_display_ensures(
                    error,
                    text,
                ),
                URLPoolError::NoPaths => text@ == "path file contains no request paths"@,
            },
    {
        match self {
            URLPoolError::Read(error) => error.to_string(),
            URLPoolError::NoPaths => "path file contains no request paths".to_owned(),
        }
    }
}

/// A line of a path file, with its text.
pub open spec fn line_view(line: Result<String, std::io::Error>) -> Result<
    Seq<char>,
    std::io::Error,
> {
    match line {
        Ok(text) => Ok(text@),
        Err(error) => Err(error),
    }
}

/// The lines of a path file, with their text.
pub open spec fn lines_view(lines: Seq<Result<String, std::io::Error>>) -> Seq<
    Result<Seq<char>, std::io::Error>,
> {
    lines.map_values(|line: Result<String, std::io::Error>| line_view(line))
}

/// Whether a line counts: it is not blank, or it could not be read.
pub open spec fn line_counts(line: Result<Seq<char>, std::io::Error>) -> bool {
    match line {
        Ok(text) => !blank(text),
        Err(_) => true,
    }
}

/// The first `n` elements of `s`, or all of them where there are fewer.
pub open spec fn up_to<T>(s: Seq<T>, n: nat) -> Seq<T> {
    if n < s.len() {
        s.take(n as int)
    } else {
        s
    }
}

/// The lines that are used of a path file: those that count, up to the limit.
pub open spec fn used_lines(
    lines: Seq<Result<Seq<char>, std::io::Error>>,
    limit: Option<usize>,
) -> Seq<Result<Seq<char>, std::io::Error>> {
    let counting = lines.filter(|line: Result<Seq<char>, std::io::Error>| line_counts(line));
    match limit {
        Some(limit) => up_to(counting, limit as nat),
        None => counting,
    }
}

/// Whether line `k` is the first of `lines` that could not be read.
pub open spec fn first_failure(lines: Seq<Result<Seq<char>, std::io::Error>>, k: int) -> bool {
    &&& 0 <= k < lines.len()
    &&& lines[k] is Err
    &&& forall|j: int| 0 <= j < k ==> (#[trigger] lines[j]) is Ok
}

/// The URLs of `lines`: each line behind the endpoint.
pub open spec fn urls(endpoint: Seq<char>, lines: Seq<Result<Seq<char>, std::io::Error>>) -> Seq<
    Seq<char>,
> {
    lines.map_values(|line: Result<Seq<char>, std::io::Error>| endpoint + line->Ok_0)
}

/// The texts of a list of strings.
pub open spec fn texts(strings: Seq<String>) -> Seq<Seq<char>> {
    strings.map_values(|string: String| string@)
}

/// A pool of URLs. Times are nanoseconds on a clock of the caller's that never goes back.
#[derive(Debug)]
pub struct URLPool {
    paths: Vec<String>,
    index: usize,
    wall_end: Option<u128>,
}

/// What a `URLPool` stands for.
pub struct URLPoolView {
    /// The URLs, in the order in which they are handed out.
    pub paths: Seq<Seq<char>>,
    /// How often the pool was asked, up to the point where that number starts over.
    pub index: usize,
    /// When the pool closes, if it is to repeat until then.
    pub wall_end: Option<nat>,
}

impl View for URLPool {
    type V = URLPoolView;

    closed spec fn view(&self) -> URLPoolView {
        URLPoolView {
            paths: texts(self.paths@),
            index: self.index,
            wall_end: match self.wall_end {
                Some(end) => Some(end as nat),
                None => None,
            },
        }
    }
}

impl URLPoolView {
    /// A pool that was just made, at the time `now`, and lasts for `wall_time` seconds where that
    /// is given.
    pub open spec fn fresh(paths: Seq<Seq<char>>, wall_time: Option<u64>, now: u64) -> URLPoolView {
        URLPoolView {
            paths,
            index: 0,
            wall_end: match wall_time {
                Some(seconds) => Some((now + seconds * 1_000_000_000) as nat),
                None => None,
            },
        }
    }

    /// The URL that the pool hands out at the time `now`, if any.
    pub open spec fn next(self, now: nat) -> Option<Seq<char>> {
        match self.wall_end {
            Some(end) => if now < end {
                Some(self.paths[self.index as int % self.paths.len() as int])
            } else {
                None
            },
            None => if self.index < self.paths.len() {
                Some(self.paths[self.index as int])
            } else {
                None
            },
        }
    }

    /// The pool after it was asked once more.
    pub open spec fn asked(self) -> URLPoolView {
        URLPoolView {
            index: if self.index < usize::MAX {
                (self.index + 1) as usize
            } else {
                0
            },
            ..self
        }
    }

    /// The pool after it was asked `n` times more.
    pub open spec fn asked_times(self, n: nat) -> URLPoolView
        decreases n,
    {
        if n == 0 {
            self
        } else {
            self.asked_times((n - 1) as nat).asked()
        }
    }
}

/// Tells how far a path file has to be read.
#[derive(Clone, Copy, Debug)]
pub struct PathReader {
    /// How many more lines are used at most, if there is a limit.
    left: Option<usize>,
    failed: bool,
}

/// What a `PathReader` stands for.
pub struct PathReaderView {
    /// How many more lines are used at most, if there is a limit.
    pub left: Option<nat>,
    /// Whether a line could not be read.
    pub failed: bool,
}

impl View for PathReader {
    type V = PathReaderView;

    closed spec fn view(&self) -> PathReaderView {
        PathReaderView {
            left: match self.left {
                Some(left) => Some(left as nat),
                None => None,
            },
            failed: self.failed,
        }
    }
}

impl PathReaderView {
    /// The reader before a line has been read.
    pub open spec fn initial(limit: Option<usize>) -> PathReaderView {
        PathReaderView {
            left: match limit {
                Some(limit) => Some(limit as nat),
                None => None,
            },
            failed: false,
        }
    }

    /// Whether the next line is needed.
    pub open spec fn wants_more(self) -> bool {
        !self.failed && self.left != Some(0nat)
    }

    /// The reader after one more line.
    pub open spec fn after(self, line: Result<Seq<char>, std::io::Error>) -> PathReaderView {
        PathReaderView {
            left: match self.left {
                Some(left) => if line_counts(line) && left > 0 {
                    Some((left - 1) as nat)
                } else {
                    Some(left)
                },
                None => None,
            },
            failed: self.failed || line is Err,
        }
    }

    /// The reader after `lines`.
    pub open spec fn after_all(
        self,
        lines: Seq<Result<Seq<char>, std::io::Error>>,
    ) -> PathReaderView
        decreases lines.len(),
    {
        if lines.len() == 0 {
            self
        } else {
            self.after_all(lines.drop_last()).after(lines.last())
        }
    }
}

impl PathReader {
    /// Starts on a path file of which up to `limit` lines are used.
    pub fn new(limit: Option<usize>) -> (reader: PathReader)
        ensures
            reader@ == PathReaderView::initial(limit),
    {
        PathReader { left: limit, failed: false }
    }

    /// Whether the next line is needed.
    pub fn wants_more(&self) -> (yes: bool)
        ensures
            yes == self@.wants_more(),
    {
        let enough = match self.left {
            Some(left) => left == 0,
            None => false,
        };
        !self.failed && !enough
    }

    /// Takes note of a line.
    pub fn on_line(&mut self, line: &Result<String, std::io::Error>)
        ensures
            final(self)@ == old(self)@.after(line_view(*line)),
    {
        let counts = match line {
            Ok(text) => !is_blank(text.as_str()),
            Err(_) => {
                self.failed = true;
                true
            },
        };
        if let Some(left) = self.left {
            if counts && left > 0 {
                self.left = Some(left - 1);
            }
        }
    }
}

proof fn lemma_filter_prefix<T>(s: Seq<T>, pred: spec_fn(T) -> bool, i: int)
    requires
        0 <= i <= s.len(),
    ensures
        s.take(i).filter(pred).len() <= s.filter(pred).len(),
        s.filter(pred).take(s.take(i).filter(pred).len() as int) == s.take(i).filter(pred),
{
    assert(s =~= s.take(i) + s.skip(i));
    Seq::filter_distributes_over_add(s.take(i), s.skip(i), pred);
    assert(s.filter(pred).take(s.take(i).filter(pred).len() as int) =~= s.take(i).filter(pred));
}

/// The URLs of the lines that are used of a path file, or the error of the first of them that
/// could not be read.
fn read_urls(
    endpoint: &String,
    limit: Option<usize>,
    lines: Vec<Result<String, std::io::Error>>,
) -> (read: Result<Vec<String>, std::io::Error>)
    ensures
        match read {
            Ok(paths) => {
                &&& texts(paths@) == urls(endpoint@, used_lines(lines_view(lines@), limit))
                &&& forall|k: int| !first_failure(used_lines(lines_view(lines@), limit), k)
            },
            Err(error) => exists|k: int|
                first_failure(used_lines(lines_view(lines@), limit), k) && used_lines(
                    lines_view(lines@),
                    limit,
                )[k] == Err::<Seq<char>, _>(error),
        },
{
    let ghost views = lines_view(lines@);
    let ghost counts = |line: Result<Seq<char>, std::io::Error>| line_counts(line);
    let ghost used = used_lines(views, limit);
    let count: usize = lines.len();
    let most: usize = match limit {
        Some(limit) => limit,
        None => count,
    };
    proof {
        views.lemma_filter_len(counts);
        assert(views.take(0) =~= Seq::empty());
        assert(up_to(views.take(0).filter(counts), most as nat) =~= Seq::empty());
        assert(used == up_to(views.filter(counts), most as nat));
    }
    let mut paths: Vec<String> = Vec::new();
    assert(texts(paths@) =~= urls(endpoint@, up_to(views.take(0).filter(counts), most as nat)));
    for line in it: lines
        invariant
            it.seq() == lines@,
            views == lines_view(lines@),
            counts == |line: Result<Seq<char>, std::io::Error>| line_counts(line),
            used == used_lines(views, limit),
            used == up_to(views.filter(counts), most as nat),
            texts(paths@) == urls(
                endpoint@,
                up_to(views.take(it.index()).filter(counts), most as nat),
            ),
            forall|k: int|
                0 <= k < paths@.len() ==> (#[trigger] up_to(
                    views.take(it.index()).filter(counts),
                    most as nat,
                )[k]) is Ok,
    {
        let ghost j = it.index();
        let ghost found = views.take(j).filter(counts);
        let ghost before = up_to(found, most as nat);
        let ghost after = up_to(views.take(j + 1).filter(counts), most as nat);
        proof {
            assert(views[j] == line_view(line));
            assert(views.take(j + 1) =~= views.take(j).push(views[j]));
            views.take(j).lemma_filter_push(views[j], counts);
            lemma_filter_prefix(views, counts, j + 1);
            assert(paths@.len() == before.len()) by {
                assert(texts(paths@).len() == urls(endpoint@, before).len());
            }
        }
        if paths.len() < most {
            assert(before == found);
            match line {
                Ok(text) => {
                    if !is_blank(text.as_str()) {
                        let path = endpoint.clone().concat(text.as_str());
                        let ghost old_paths = paths@;
                        paths.push(path);
                        proof {
                            assert(after =~= before.push(views[j]));
                            assert(texts(paths@) =~= texts(old_paths).push(path@));
                            assert(texts(paths@) =~= urls(endpoint@, after));
                        }
                    } else {
                        assert(after =~= before);
                    }
                },
                Err(error) => {
                    proof {
                        let k = before.len() as int;
                        assert(views.take(j + 1).filter(counts) =~= found.push(views[j]));
                        assert(views.filter(counts).take(k + 1) == found.push(views[j]));
                        assert(views.filter(counts)[k] == views.filter(counts).take(k + 1)[k]);
                        assert forall|i: int| 0 <= i < k implies (#[trigger] used[i]) is Ok by {
                            assert(views.filter(counts)[i] == views.filter(counts).take(
                                k + 1,
                            )[i]);
                            assert(before[i] is Ok);
                        }
                        assert(first_failure(used, k));
                    }
                    return Err(error);
                },
            }
        } else {
            assert(after =~= before);
        }
    }
    proof {
        assert(views.take(views.len() as int) =~= views);
        assert forall|k: int| !first_failure(used, k) by {
            if 0 <= k < used.len() {
                assert(used.len() == paths@.len()) by {
                    assert(texts(paths@).len() == urls(endpoint@, used).len());
                }
                assert(used[k] is Ok);
            }
        }
    }
    Ok(paths)
}

impl URLPool {
    #[verifier::type_invariant]
    spec fn has_paths(self) -> bool {
        self.paths@.len() > 0
    }

    /// Makes a pool of the lines of a path file, at the time `now`. Lines beyond those that a
    /// [`PathReader`] wants need not be given.
    pub fn load(
        config: &URLPoolConfig,
        lines: Vec<Result<String, std::io::Error>>,
        now: u64,
    ) -> (pool: Result<URLPool, URLPoolError>)
        ensures
            ({
                let used = used_lines(lines_view(lines@), config.limit);
                let listed = urls(config.endpoint@, used);
                match pool {
                    Ok(pool) => {
                        &&& used.len() > 0
                        &&& forall|k: int| !first_failure(used, k)
                        &&& !config.shuffle ==> pool@ == URLPoolView::fresh(
                            listed,
                            config.wall_time,
                            now,
                        )
                        &&& config.shuffle ==> exists|numbers: Map<Seq<usize>, usize>|
                            is_ordering(#[trigger] shuffled_order(numbers, used.len()), used.len())
                                && pool@ == URLPoolView::fresh(
                                reordered(listed, shuffled_order(numbers, used.len())),
                                config.wall_time,
                                now,
                            )
                    },
                    Err(URLPoolError::Read(error)) => exists|k: int| #[trigger]
                        first_failure(used, k) && used[k] == Err::<Seq<char>, _>(error),
                    Err(URLPoolError::NoPaths) => used.len() == 0,
                }
            }),
    {
        if config.shuffle {
            return URLPool::load_shuffled(config, lines, entropy_generator(), now);
        }
        let paths = match read_urls(&config.endpoint, config.limit, lines) {
            Ok(paths) => paths,
            Err(error) => return Err(URLPoolError::Read(error)),
        };
        assert(texts(paths@).len() == paths@.len());
        URLPool::with_paths(paths, config.wall_time, now)
    }

    /// Makes a pool of the lines of a path file, in the order into which the generator shuffles
    /// them, at the time `now`.
    pub fn load_shuffled(
        config: &URLPoolConfig,
        lines: Vec<Result<String, std::io::Error>>,
        rng: ChaCha8Rng,
        now: u64,
    ) -> (pool: Result<URLPool, URLPoolError>)
        ensures
            ({
                let used = used_lines(lines_view(lines@), config.limit);
                let order = shuffled_order(generator_numbers(rng), used.len());
                match pool {
                    Ok(pool) => {
                        &&& used.len() > 0
                        &&& forall|k: int| !first_failure(used, k)
                        &&& is_ordering(order, used.len())
                        &&& pool@ == URLPoolView::fresh(
                            reordered(urls(config.endpoint@, used), order),
                            config.wall_time,
                            now,
                        )
                    },
                    Err(URLPoolError::Read(error)) => exists|k: int| #[trigger]
                        first_failure(used, k) && used[k] == Err::<Seq<char>, _>(error),
                    Err(URLPoolError::NoPaths) => used.len() == 0,
                }
            }),
    {
        let ghost used = used_lines(lines_view(lines@), config.limit);
        let ghost listed = urls(config.endpoint@, used);
        let ghost order = shuffled_order(generator_numbers(rng), used.len());
        let mut paths = match read_urls(&config.endpoint, config.limit, lines) {
            Ok(paths) => paths,
            Err(error) => return Err(URLPoolError::Read(error)),
        };
        let ghost before = paths@;
        assert(texts(before).len() == listed.len());
        shuffle(&mut paths, rng);
        proof {
            assert forall|i: int| 0 <= i < before.len() implies texts(paths@)[i] == reordered(
                listed,
                order,
            )[i] by {
                assert(0 <= order[i] < before.len());
                assert(texts(before)[order[i]] == listed[order[i]]);
            }
            assert(texts(paths@) =~= reordered(listed, order));
        }
        URLPool::with_paths(paths, config.wall_time, now)
    }

    /// Makes a pool of URLs that are handed out in the order given, at the time `now`.
    pub fn with_paths(paths: Vec<String>, wall_time: Option<u64>, now: u64) -> (pool: Result<
        URLPool,
        URLPoolError,
    >)
        ensures
            match pool {
                Ok(pool) => {
                    &&& paths@.len() > 0
                    &&& pool@ == URLPoolView::fresh(texts(paths@), wall_time, now)
                },
                Err(error) => paths@.len() == 0 && error is NoPaths,
            },
    {
        if paths.len() == 0 {
            return Err(URLPoolError::NoPaths);
        }
        let wall_end: Option<u128> = match wall_time {
            Some(seconds) => Some(now as u128 + seconds as u128 * 1_000_000_000),
            None => None,
        };
        Ok(URLPool { paths, index: 0, wall_end })
    }

    /// Hands out the next URL at the time `now`, unless the pool has none left or is closed.
    pub fn next_path(&mut self, now: u64) -> (path: Option<String>)
        ensures
            match path {
                Some(path) => old(self)@.next(now as nat) == Some(path@),
                None => old(self)@.next(now as nat) is None,
            },
            final(self)@ == old(self)@.asked(),
    {
        proof {
            use_type_invariant(&*self);
        }
        let index: usize = self.index;
        self.index = index.wrapping_add(1);
        assert(texts(self.paths@).len() == self.paths@.len());
        match self.wall_end {
            Some(end) => {
                if (now as u128) < end {
                    Some(self.paths[index % self.paths.len()].clone())
                } else {
                    None
                }
            },
            None => {
                if index < self.paths.len() {
                    Some(self.paths[index].clone())
                } else {
                    None
                }
            },
        }
    }
}

/// A pool is made of lines of the path file that are not blank, or that could not be read, and
/// of no more of them than the limit allows.
pub proof fn used_lines_are_within_limit(
    lines: Seq<Result<Seq<char>, std::io::Error>>,
    limit: Option<usize>,
    k: int,
)
    requires
        0 <= k < used_lines(lines, limit).len(),
    ensures
        line_counts(used_lines(lines, limit)[k]),
        lines.contains(used_lines(lines, limit)[k]),
        limit is Some ==> used_lines(lines, limit).len() <= limit->0,
{
    let counts = |line: Result<Seq<char>, std::io::Error>| line_counts(line);
    lines.lemma_filter_pred(counts, k);
    assert(lines.filter(counts).contains(lines.filter(counts)[k]));
    lines.lemma_filter_contains_rev(counts, lines.filter(counts)[k]);
}

/// No line that counts is passed over unless the limit is reached.
pub proof fn counting_lines_are_used(
    lines: Seq<Result<Seq<char>, std::io::Error>>,
    limit: Option<usize>,
    i: int,
)
    requires
        0 <= i < lines.len(),
        line_counts(lines[i]),
    ensures
        used_lines(lines, limit).contains(lines[i]) || limit is Some && used_lines(
            lines,
            limit,
        ).len() == limit->0,
{
    let counts = |line: Result<Seq<char>, std::io::Error>| line_counts(line);
    lines.lemma_filter_contains(counts, i);
}

proof fn lemma_reader_after(limit: Option<usize>, lines: Seq<Result<Seq<char>, std::io::Error>>)
    ensures
        ({
            let reader = PathReaderView::initial(limit).after_all(lines);
            let counting = lines.filter(
                |line: Result<Seq<char>, std::io::Error>| line_counts(line),
            ).len();
            &&& reader.left == match limit {
                Some(limit) => Some(
                    if counting < limit {
                        (limit - counting) as nat
                    } else {
                        0nat
                    },
                ),
                None => None,
            }
            &&& reader.failed <==> exists|i: int| 0 <= i < lines.len() && (#[trigger] lines[i]) is Err
        }),
    decreases lines.len(),
{
    let counts = |line: Result<Seq<char>, std::io::Error>| line_counts(line);
    if lines.len() > 0 {
        let front = lines.drop_last();
        lemma_reader_after(limit, front);
        assert(lines =~= front.push(lines.last()));
        front.lemma_filter_push(lines.last(), counts);
        let reader = PathReaderView::initial(limit).after_all(lines);
        if reader.failed {
            if lines.last() is Err {
                assert(lines[lines.len() - 1] is Err);
            } else {
                let i = choose|i: int| 0 <= i < front.len() && (#[trigger] front[i]) is Err;
                assert(lines[i] is Err);
            }
        }
        if exists|i: int| 0 <= i < lines.len() && (#[trigger] lines[i]) is Err {
            let i = choose|i: int| 0 <= i < lines.len() && (#[trigger] lines[i]) is Err;
            if i < front.len() {
                assert(front[i] is Err);
            }
        }
    } else {
        assert(lines.filter(counts).len() == 0) by {
            reveal(Seq::filter);
        }
    }
}

proof fn lemma_some_failure_is_first(lines: Seq<Result<Seq<char>, std::io::Error>>, i: int)
    requires
        0 <= i < lines.len(),
        lines[i] is Err,
    ensures
        exists|k: int| first_failure(lines, k),
    decreases i,
{
    if forall|j: int| 0 <= j < i ==> (#[trigger] lines[j]) is Ok {
        assert(first_failure(lines, i));
    } else {
        let j = choose|j: int| 0 <= j < i && !((#[trigger] lines[j]) is Ok);
        lemma_some_failure_is_first(lines, j);
    }
}

/// What a path file holds beyond the lines that its reader wants makes no difference: the same
/// lines are used, or the same line is the first that could not be read.
pub proof fn reader_wants_enough(
    limit: Option<usize>,
    lines: Seq<Result<Seq<char>, std::io::Error>>,
    more: Seq<Result<Seq<char>, std::io::Error>>,
)
    requires
        !PathReaderView::initial(limit).after_all(lines).wants_more(),
    ensures
        ({
            let used = used_lines(lines, limit);
            let all_used = used_lines(lines + more, limit);
            ||| all_used == used
            ||| exists|k: int| #[trigger]
                first_failure(used, k) && first_failure(all_used, k) && all_used[k] == used[k]
        }),
{
    let counts = |line: Result<Seq<char>, std::io::Error>| line_counts(line);
    let used = used_lines(lines, limit);
    let all_used = used_lines(lines + more, limit);
    let counting = lines.filter(counts);
    lemma_reader_after(limit, lines);
    Seq::filter_distributes_over_add(lines, more, counts);
    if PathReaderView::initial(limit).after_all(lines).left == Some(0nat) {
        assert(all_used =~= used);
    } else {
        assert(used == counting);
        let i = choose|i: int| 0 <= i < lines.len() && (#[trigger] lines[i]) is Err;
        lines.lemma_filter_contains(counts, i);
        let at = choose|at: int| 0 <= at < counting.len() && counting[at] == lines[i];
        lemma_some_failure_is_first(used, at);
        let k = choose|k: int| first_failure(used, k);
        assert forall|j: int| 0 <= j < counting.len() implies all_used[j] == #[trigger] used[j] by {}
        assert forall|j: int| 0 <= j < k implies (#[trigger] all_used[j]) is Ok by {
            assert(used[j] is Ok);
        }
        assert(all_used[k] == used[k]);
        assert(first_failure(all_used, k));
    }
}

proof fn lemma_asked_times(pool: URLPoolView, n: nat)
    requires
        pool.index + n <= usize::MAX,
    ensures
        pool.asked_times(n) == (URLPoolView { index: (pool.index + n) as usize, ..pool }),
    decreases n,
{
    if n > 0 {
        lemma_asked_times(pool, (n - 1) as nat);
    }
}

/// A pool without a wall time hands out its URLs in order, each once, and then no more. The
/// number of times that a pool can be asked before it starts over is the limit of a `usize`.
pub proof fn pool_hands_out_each_path_once(pool: URLPoolView, n: nat, now: nat)
    requires
        pool.index == 0,
        pool.wall_end is None,
        n <= usize::MAX,
    ensures
        pool.asked_times(n).next(now) == if n < pool.paths.len() {
            Some(pool.paths[n as int])
        } else {
            None
        },
{
    lemma_asked_times(pool, n);
}

impl URLPoolView {
    /// What the pool answers when it is asked at each of `times` in turn.
    pub open spec fn answers(self, times: Seq<nat>) -> Seq<Option<Seq<char>>> {
        Seq::new(times.len(), |i: int| self.asked_times(i as nat).next(times[i]))
    }
}

/// The URLs among `answers` that `asker` got. Each answer went to the asker at the same position
/// in `askers`.
pub open spec fn received(
    answers: Seq<Option<Seq<char>>>,
    askers: Seq<nat>,
    asker: nat,
) -> Multiset<Seq<char>>
    decreases answers.len(),
{
    if answers.len() == 0 {
        Multiset::empty()
    } else {
        let before = received(answers.drop_last(), askers.drop_last(), asker);
        match answers.last() {
            Some(url) => if askers.last() == asker {
                before.insert(url)
            } else {
                before
            },
            None => before,
        }
    }
}

/// The URLs that all askers below `count` got, taken together.
pub open spec fn received_by_all(
    answers: Seq<Option<Seq<char>>>,
    askers: Seq<nat>,
    count: nat,
) -> Multiset<Seq<char>>
    decreases count,
{
    if count == 0 {
        Multiset::empty()
    } else {
        received_by_all(answers, askers, (count - 1) as nat).add(
            received(answers, askers, (count - 1) as nat),
        )
    }
}

proof fn lemma_received_by_all(answers: Seq<Option<Seq<char>>>, askers: Seq<nat>, count: nat)
    requires
        answers.len() == askers.len() > 0,
    ensures
        received_by_all(answers, askers, count) == match answers.last() {
            Some(url) => if askers.last() < count {
                received_by_all(answers.drop_last(), askers.drop_last(), count).insert(url)
            } else {
                received_by_all(answers.drop_last(), askers.drop_last(), count)
            },
            None => received_by_all(answers.drop_last(), askers.drop_last(), count),
        },
    decreases count,
{
    broadcast use vstd::multiset::group_multiset_axioms;

    if count > 0 {
        let less = (count - 1) as nat;
        let front = answers.drop_last();
        let front_askers = askers.drop_last();
        lemma_received_by_all(answers, askers, less);
        let before = received_by_all(front, front_askers, less);
        let own = received(front, front_askers, less);
        if let Some(url) = answers.last() {
            assert(before.insert(url).add(own) =~= before.add(own).insert(url));
            assert(before.add(own.insert(url)) =~= before.add(own).insert(url));
        }
    }
}

proof fn lemma_no_answers(askers: Seq<nat>, count: nat)
    ensures
        received_by_all(Seq::empty(), askers, count) == Multiset::<Seq<char>>::empty(),
    decreases count,
{
    broadcast use vstd::multiset::group_multiset_axioms;

    if count > 0 {
        lemma_no_answers(askers, (count - 1) as nat);
        assert(Multiset::<Seq<char>>::empty().add(Multiset::empty()) =~= Multiset::empty());
    }
}

proof fn lemma_first_answers_are_paths(
    paths: Seq<Seq<char>>,
    answers: Seq<Option<Seq<char>>>,
    askers: Seq<nat>,
    count: nat,
)
    requires
        answers.len() == askers.len(),
        forall|i: int| 0 <= i < askers.len() ==> #[trigger] askers[i] < count,
        forall|i: int|
            0 <= i < answers.len() ==> #[trigger] answers[i] == if i < paths.len() {
                Some(paths[i])
            } else {
                None
            },
    ensures
        received_by_all(answers, askers, count) == up_to(paths, answers.len()).to_multiset(),
    decreases answers.len(),
{
    broadcast use vstd::multiset::group_multiset_axioms;

    if answers.len() == 0 {
        assert(answers =~= Seq::empty());
        lemma_no_answers(askers, count);
        assert(up_to(paths, 0) =~= Seq::empty());
        up_to(paths, 0).to_multiset_ensures();
        assert(up_to(paths, 0).to_multiset() =~= Multiset::empty());
    } else {
        let front = answers.drop_last();
        let last = answers.len() - 1;
        assert forall|i: int| 0 <= i < front.len() implies #[trigger] front[i] == if i
            < paths.len() {
            Some(paths[i])
        } else {
            None
        } by {
            assert(front[i] == answers[i]);
        }
        assert forall|i: int| 0 <= i < askers.drop_last().len() implies #[trigger] askers.drop_last()[i]
            < count by {
            assert(askers.drop_last()[i] == askers[i]);
        }
        lemma_first_answers_are_paths(paths, front, askers.drop_last(), count);
        lemma_received_by_all(answers, askers, count);
        assert(askers[last] < count);
        assert(answers[last] == answers.last());
        if last < paths.len() {
            vstd::seq_lib::to_multiset_build(up_to(paths, last as nat), paths[last]);
            assert(up_to(paths, last as nat).push(paths[last]) =~= up_to(paths, answers.len()));
        } else {
            assert(up_to(paths, last as nat) =~= up_to(paths, answers.len()));
        }
    }
}

/// Askers that share a pool without a wall time get its URLs between them, each once, whoever asks
/// when and how often. Once all URLs are handed out, every asker gets nothing.
pub proof fn askers_share_paths(
    pool: URLPoolView,
    times: Seq<nat>,
    askers: Seq<nat>,
    count: nat,
)
    requires
        pool.index == 0,
        pool.wall_end is None,
        askers.len() == times.len(),
        forall|i: int| 0 <= i < askers.len() ==> #[trigger] askers[i] < count,
        pool.paths.len() <= times.len() <= usize::MAX,
    ensures
        received_by_all(pool.answers(times), askers, count) == pool.paths.to_multiset(),
        forall|i: int|
            pool.paths.len() <= i < times.len() ==> (#[trigger] pool.answers(times)[i]) is None,
{
    let answers = pool.answers(times);
    assert forall|i: int| 0 <= i < answers.len() implies #[trigger] answers[i] == if i
        < pool.paths.len() {
        Some(pool.paths[i])
    } else {
        None
    } by {
        pool_hands_out_each_path_once(pool, i as nat, times[i]);
    }
    lemma_first_answers_are_paths(pool.paths, answers, askers, count);
    assert(up_to(pool.paths, answers.len()) =~= pool.paths);
}

/// A pool with a wall time hands out its URLs round by round until the wall time has elapsed.
pub proof fn pool_repeats_until_wall_end(pool: URLPoolView, n: nat, now: nat)
    requires
        pool.index == 0,
        pool.paths.len() > 0,
        pool.wall_end is Some,
        now < pool.wall_end->0,
        n <= usize::MAX,
    ensures
        pool.asked_times(n).next(now) == Some(pool.paths[n as int % pool.paths.len() as int]),
{
    lemma_asked_times(pool, n);
}

proof fn lemma_asking_keeps_rest(pool: URLPoolView, n: nat)
    ensures
        pool.asked_times(n).paths == pool.paths,
        pool.asked_times(n).wall_end == pool.wall_end,
    decreases n,
{
    if n > 0 {
        lemma_asking_keeps_rest(pool, (n - 1) as nat);
    }
}

/// A pool hands out nothing once the wall time has elapsed, however often it was asked.
pub proof fn pool_closes_at_wall_end(pool: URLPoolView, n: nat, now: nat)
    requires
        pool.wall_end is Some,
        now >= pool.wall_end->0,
    ensures
        pool.asked_times(n).next(now) is None,
{
    lemma_asking_keeps_rest(pool, n);
}

/// What a pool hands out is always one of its URLs.
pub proof fn pool_hands_out_its_paths(pool: URLPoolView, n: nat, now: nat)
    requires
        pool.paths.len() > 0,
        pool.asked_times(n).next(now) is Some,
    ensures
        pool.paths.contains(pool.asked_times(n).next(now)->0),
{
    lemma_asking_keeps_rest(pool, n);
    let asked = pool.asked_times(n);
    let turn = asked.index as int % pool.paths.len() as int;
    assert(0 <= turn < pool.paths.len());
    assert(pool.paths.contains(pool.paths[turn]));
}

proof fn lemma_ordering_reaches(order: Seq<int>, n: nat, x: int)
    requires
        is_ordering(order, n),
        0 <= x < n,
    ensures
        order.contains(x),
{
    let positions = vstd::set_lib::set_int_range(0, n as int);
    vstd::set_lib::lemma_int_range(0, n as int);
    order.unique_seq_to_set();
    assert(order.to_set().subset_of(positions)) by {
        assert forall|p: int| order.to_set().contains(p) implies positions.contains(p) by {
            let i = choose|i: int| 0 <= i < order.len() && order[i] == p;
            assert(0 <= order[i] < n);
        }
    }
    vstd::set_lib::lemma_subset_equality(order.to_set(), positions);
    assert(order.to_set().contains(x));
}

/// A pool that was shuffled has the URLs of the lines, each as often as it is listed, whatever
/// the order.
pub proof fn shuffling_keeps_paths(paths: Seq<Seq<char>>, order: Seq<int>)
    requires
        is_ordering(order, paths.len()),
    ensures
        reordered(paths, order).to_multiset() == paths.to_multiset(),
    decreases paths.len(),
{
    broadcast use vstd::multiset::group_multiset_axioms;

    let mixed = reordered(paths, order);
    if paths.len() > 0 {
        let n = paths.len() as int;
        lemma_ordering_reaches(order, paths.len(), n - 1);
        let k = choose|k: int| 0 <= k < order.len() && order[k] == n - 1;
        let rest = order.remove(k);
        assert forall|i: int| 0 <= i < n - 1 implies 0 <= #[trigger] rest[i] < n - 1 by {
            let at = if i < k {
                i
            } else {
                i + 1
            };
            assert(rest[i] == order[at]);
            assert(0 <= order[at] < n);
            assert(order[at] != order[k]);
        }
        assert(is_ordering(rest, paths.drop_last().len()));
        shuffling_keeps_paths(paths.drop_last(), rest);
        assert(mixed.remove(k) =~= reordered(paths.drop_last(), rest));
        vstd::seq_lib::to_multiset_remove(mixed, k);
        vstd::seq_lib::to_multiset_build(paths.drop_last(), paths.last());
        assert(paths.drop_last().push(paths.last()) =~= paths);
        assert(mixed[k] == paths.last());
        assert(mixed.contains(mixed[k]));
        mixed.to_multiset_ensures();
        assert(mixed.to_multiset() =~= mixed.to_multiset().remove(mixed[k]).insert(mixed[k]));
    } else {
        assert(mixed =~= paths);
    }
}

/// A pool made at the time `now` with a wall time of `seconds` hands out a URL at every time before
/// that many seconds have passed, and none from then on, however often it was asked. The URLs come
/// in order, round by round.
pub proof fn pool_lasts_for_its_wall_time(
    paths: Seq<Seq<char>>,
    seconds: u64,
    now: u64,
    n: nat,
    time: nat,
)
    requires
        paths.len() > 0,
    ensures
        ({
            let answer = URLPoolView::fresh(paths, Some(seconds), now).asked_times(n).next(time);
            &&& answer is Some <==> time - now < seconds * 1_000_000_000
            &&& answer is Some && n <= usize::MAX ==> answer == Some(
                paths[n as int % paths.len() as int],
            )
        }),
{
    let pool = URLPoolView::fresh(paths, Some(seconds), now);
    lemma_asking_keeps_rest(pool, n);
    if n <= usize::MAX {
        lemma_asked_times(pool, n);
    }
}

/// A pool made without a wall time hands out its URLs in order, each once, and then no more,
/// whatever the time.
pub proof fn pool_without_wall_time_ends_with_its_paths(
    paths: Seq<Seq<char>>,
    now: u64,
    n: nat,
    time: nat,
)
    requires
        n <= usize::MAX,
    ensures
        URLPoolView::fresh(paths, None, now).asked_times(n).next(time) == if n < paths.len() {
            Some(paths[n as int])
        } else {
            None
        },
{
    pool_hands_out_each_path_once(URLPoolView::fresh(paths, None, now), n, time);
}

/// A pool is asked one time after the other. Being asked changes its position alone, by one, until
/// that starts over.
pub proof fn pool_is_asked_in_turn(pool: URLPoolView, n: nat)
    ensures
        pool.asked_times(0) == pool,
        pool.asked_times(n + 1) == pool.asked_times(n).asked(),
        pool.asked().paths == pool.paths,
        pool.asked().wall_end == pool.wall_end,
        pool.index < usize::MAX ==> pool.asked().index == pool.index + 1,
        pool.index == usize::MAX ==> pool.asked().index == 0,
{
}

/// The lines that are used of a path file are those that are not all white space, in the order of
/// the file, and of those the first ones, as many as the limit allows. A line that could not be read
/// counts as one that is used.
pub proof fn used_lines_are_the_first_that_count(
    lines: Seq<Result<Seq<char>, std::io::Error>>,
    limit: usize,
)
    ensures
        ({
            let counting = lines.filter(
                |line: Result<Seq<char>, std::io::Error>|
                    line is Err || exists|i: int|
                        0 <= i < line->Ok_0.len() && !is_white_space(#[trigger] line->Ok_0[i]),
            );
            &&& used_lines(lines, None) == counting
            &&& used_lines(lines, Some(limit)) == if limit < counting.len() {
                counting.take(limit as int)
            } else {
                counting
            }
        }),
{
    let counts = |line: Result<Seq<char>, std::io::Error>| line_counts(line);
    let has_text = |line: Result<Seq<char>, std::io::Error>|
        line is Err || exists|i: int|
            0 <= i < line->Ok_0.len() && !is_white_space(#[trigger] line->Ok_0[i]);
    assert forall|line: Result<Seq<char>, std::io::Error>| #[trigger] counts(line) == has_text(line) by {}
    assert(counts =~= has_text);
}

/// The URL of a line is the endpoint with the whole line behind it.
pub proof fn url_is_endpoint_and_line(
    endpoint: Seq<char>,
    lines: Seq<Result<Seq<char>, std::io::Error>>,
    i: int,
)
    requires
        0 <= i < lines.len(),
        lines[i] is Ok,
    ensures
        urls(endpoint, lines).len() == lines.len(),
        urls(endpoint, lines)[i] == endpoint + lines[i]->Ok_0,
{
}

/// The first line that could not be read is one that could not, after none that could not.
pub proof fn first_failure_comes_after_none(
    lines: Seq<Result<Seq<char>, std::io::Error>>,
    k: int,
)
    requires
        0 <= k < lines.len(),
    ensures
        first_failure(lines, k) <==> lines[k] is Err && !(exists|j: int|
            0 <= j < k && (#[trigger] lines[j]) is Err),
{
}

/// Lines and lists of strings stand for the texts that they hold.
pub proof fn lines_stand_for_their_texts(
    lines: Seq<Result<String, std::io::Error>>,
    strings: Seq<String>,
    i: int,
)
    ensures
        lines_view(lines).len() == lines.len(),
        texts(strings).len() == strings.len(),
        0 <= i < lines.len() && lines[i] is Ok ==> lines_view(lines)[i] == Ok::<
            Seq<char>,
            std::io::Error,
        >(lines[i]->Ok_0@),
        0 <= i < lines.len() && lines[i] is Err ==> lines_view(lines)[i] == Err::<
            Seq<char>,
            std::io::Error,
        >(lines[i]->Err_0),
        0 <= i < lines.len() ==> line_view(lines[i]) == lines_view(lines)[i],
        0 <= i < strings.len() ==> texts(strings)[i] == strings[i]@,
{
}

/// A path file is read on if and only if every line so far could be read and fewer of them are used
/// than the limit allows.
pub proof fn reader_stops_when_it_has_enough(
    limit: Option<usize>,
    lines: Seq<Result<Seq<char>, std::io::Error>>,
    line: Result<Seq<char>, std::io::Error>,
)
    ensures
        PathReaderView::initial(limit).after_all(lines).wants_more() <==> !(exists|i: int|
            0 <= i < lines.len() && (#[trigger] lines[i]) is Err) && (limit is Some ==> used_lines(
            lines,
            None,
        ).len() < limit->0),
        PathReaderView::initial(limit).after_all(Seq::empty()) == PathReaderView::initial(limit),
        PathReaderView::initial(limit).after_all(lines.push(line)) == PathReaderView::initial(
            limit,
        ).after_all(lines).after(line),
{
    lemma_reader_after(limit, lines);
    assert(lines.push(line).drop_last() =~= lines);
}

} // verus!
