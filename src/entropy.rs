use vstd::prelude::*;

verus! {

/// Relies on rand::random::<u32>: a value drawn from the thread-local
/// generator. Nothing is known of which value comes.
#[verifier::external_body]
pub(crate) fn random_u32() -> (r: u32) {
    rand::random::<u32>()
}

} // verus!
