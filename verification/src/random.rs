//! Randomness from the operating system.

use ring::rand::{SecureRandom, SystemRandom};
use vstd::prelude::*;

verus! {

/// `ring`'s `SystemRandom::fill`. Which bytes come out is chance, so nothing is claimed of
/// them; it does not return when the system has no randomness to give.
#[verifier::external_body]
pub(crate) fn random_bytes<const N: usize>() -> [u8; N] {
    let mut bytes = [0u8; N];
    SystemRandom::new().fill(&mut bytes).expect("system randomness");
    bytes
}

} // verus!
