//! Drawing random positions.

use vstd::prelude::*;

verus! {

/// `rand::rngs::ThreadRng`, the handle of the thread's random number
/// generator. Nothing of its inside is known here.
#[verifier::external_type_specification]
#[verifier::external_body]
pub struct ExThreadRng(rand::rngs::ThreadRng);

/// `amount` different numbers below `length`.
pub open spec fn is_sample(picked: Seq<usize>, length: nat, amount: nat) -> bool {
    &&& picked.len() == amount
    &&& picked.no_duplicates()
    &&& forall|k: int| 0 <= k < picked.len() ==> (#[trigger] picked[k]) < length
}

/// Calls `rand::thread_rng`, which hands out the generator of the current
/// thread. Nothing is claimed of it. It panics where the operating system
/// gives it no seed; no condition on a caller can rule that out.
#[verifier::external_body]
pub(crate) fn thread_rng() -> (rng: rand::rngs::ThreadRng) {
    rand::thread_rng()
}

/// Calls `rand::seq::index::sample` and hands out its indices as a vector.
///
/// Believed of it, as its documentation says: it returns exactly `amount`
/// distinct indices from `0..length`. Which ones, and in what order, is
/// left open.
///
/// It panics on two kinds of arguments, and both are required not to be
/// given. One is `amount > length`. The other is `amount == length` with
/// `length` above `u32::MAX`: such a length is handed to the method of
/// rejection, which asserts that `amount` is below `length`.
///
/// It also panics where the generator is due for a fresh seed and the
/// operating system gives none; no condition on a caller can rule that out.
#[verifier::external_body]
pub(crate) fn sample(rng: &mut rand::rngs::ThreadRng, length: usize, amount: usize) -> (picked: Vec<usize>)
    requires
        amount <= length,
        amount < length || length <= u32::MAX,
    ensures
        is_sample(picked@, length as nat, amount as nat),
{
    rand::seq::index::sample(rng, length, amount).into_vec()
}

} // verus!
