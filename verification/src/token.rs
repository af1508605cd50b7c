//! Random identifier tokens.

use vstd::prelude::*;

use rand::distributions::Alphanumeric;
use rand::{thread_rng, Rng};

verus! {

/// Relies on `rand`'s `thread_rng` with the `Alphanumeric` distribution:
/// every sample is one ASCII alphanumeric byte, so collecting `len` of
/// them as characters gives a string of exactly `len` characters.  The
/// content is random; nothing is promised of it.
#[verifier::external_body]
pub fn random_alphanumeric(len: usize) -> (r: String)
    ensures
        r@.len() == len as nat,
{
    thread_rng().sample_iter(&Alphanumeric).take(len).map(char::from).collect()
}

} // verus!
