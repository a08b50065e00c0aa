//! The places where the controller asks for randomness.
//!
//! Nothing here is proved: each function hands the question to `rand` or to
//! `eff_wordlist` and states only what holds of every answer.

use rand::seq::SliceRandom;
use rand::Rng;
use vstd::prelude::*;

use crate::database::BridgeInfo;

verus! {

/// Rearranges the rows at random.
///
/// Calls `rand::seq::SliceRandom::shuffle` with the thread's generator.  That
/// function only swaps elements of the slice, so the rows afterwards are the
/// rows before, each as often as before; in which order is not known.
#[verifier::external_body]
pub(crate) fn shuffle_rows(rows: &mut Vec<BridgeInfo>)
    ensures
        final(rows)@.to_multiset() == old(rows)@.to_multiset(),
{
    rows.shuffle(&mut rand::thread_rng());
}

/// A random 64-bit number, from `rand::Rng::gen` on the thread's generator.
/// Nothing is known of the value.
#[verifier::external_body]
pub(crate) fn random_u64() -> (out: u64)
{
    rand::thread_rng().gen::<u64>()
}

/// A random word of the large EFF word list, from
/// `eff_wordlist::large::random_word`.  The list is a constant of that crate
/// and holds no empty word, so the word is not empty.  No more is claimed:
/// the list holds words with a dash in them.
#[verifier::external_body]
pub(crate) fn random_word() -> (out: String)
    ensures
        out@.len() > 0,
{
    eff_wordlist::large::random_word().to_string()
}

} // verus!
