//! The random draws that placement and fights rely on.
use vstd::prelude::*;
use rand::rngs::StdRng;
use rand::seq::SliceRandom;
use rand::Rng;
use crate::model::Pos;

verus! {

/// The seeded random number generator that drives placement and combat.
#[verifier::external_type_specification]
#[verifier::external_body]
pub struct ExStdRng(StdRng);

/// Relies on rand's `Rng::gen_ratio`: true with probability
/// `numerator / denominator`; documented to be always false when the
/// numerator is 0 and always true when it equals the denominator. It panics
/// when the denominator is 0 or below the numerator, which `requires`
/// excludes.
#[verifier::external_body]
pub(crate) fn gen_ratio(rng: &mut StdRng, numerator: u32, denominator: u32) -> (hit: bool)
    requires
        0 < denominator,
        numerator <= denominator,
    ensures
        numerator == 0 ==> !hit,
        numerator == denominator ==> hit,
{
    rng.gen_ratio(numerator, denominator)
}

/// Relies on rand's `SliceRandom::choose_multiple`: `amount` elements of the
/// slice, picked at random without repetition (at distinct indices), in
/// random order. With `amount` at most the slice's length it yields exactly
/// `amount` of them.
#[verifier::external_body]
pub(crate) fn choose_cells(rng: &mut StdRng, cells: &Vec<Pos>, amount: usize) -> (r: Vec<Pos>)
    requires
        amount <= cells@.len(),
    ensures
        r@.len() == amount,
        forall|i: int| 0 <= i < r@.len() ==> cells@.contains(#[trigger] r@[i]),
        cells@.no_duplicates() ==> r@.no_duplicates(),
{
    cells.choose_multiple(rng, amount).cloned().collect()
}

} // verus!
