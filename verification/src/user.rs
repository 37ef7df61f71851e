//! The user that the program runs as.
use vstd::prelude::*;

verus! {

/// Asks `nix::unistd::Uid::current` for the user id of the calling process. Any id may come
/// back.
#[verifier::external_body]
pub(crate) fn current_uid() -> (uid: u32) {
    nix::unistd::Uid::current().as_raw()
}

} // verus!
