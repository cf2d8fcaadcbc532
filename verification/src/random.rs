//! The library's source of chance.
//!
//! Both functions draw from the random number generator that the `rand`
//! crate keeps for the current thread. Nothing is proved of them: what their
//! contracts say is taken from `rand`.

use rand::Rng;
use vstd::prelude::*;

verus! {

/// `rand::Rng::choose` on `rand::thread_rng()`: a random element of `values`.
///
/// The contract claims that the result is `None` exactly when `values` is
/// empty, and is otherwise a reference to one of the elements of `values`.
/// Which one is left open.
#[verifier::external_body]
pub(crate) fn pick_one<'a, T>(values: &'a [T]) -> (picked: Option<&'a T>)
    ensures
        picked is None <==> values@.len() == 0,
        picked matches Some(value) ==> values@.contains(*value),
{
    rand::thread_rng().choose(values)
}

/// `rand::random` for `u64`: a random number. The contract claims nothing of
/// it.
#[verifier::external_body]
pub(crate) fn random_u64() -> u64 {
    rand::random()
}

} // verus!
