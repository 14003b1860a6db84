//! Planet names: one letter each, in order of creation.
use vstd::prelude::*;

verus! {

/// Planets are named by single letters, in the order they were created.
pub const PLANET_NAMES: &'static str = "ABCDEFGHIJKLMNOPQRSTUVWXYZ";

/// How many planets can have a name.
pub const MAX_PLANETS: usize = 26;

/// The name of the planet at index `i`.
pub open spec fn planet_letter(i: int) -> Seq<char> {
    PLANET_NAMES@.subrange(i, i + 1)
}

pub proof fn lemma_planet_names_len()
    ensures
        PLANET_NAMES@.len() == MAX_PLANETS,
{
    reveal_strlit("ABCDEFGHIJKLMNOPQRSTUVWXYZ");
}

/// Distinct planets have distinct names.
pub proof fn lemma_planet_letters_distinct(i: int, j: int)
    requires
        0 <= i < MAX_PLANETS,
        0 <= j < MAX_PLANETS,
        planet_letter(i) == planet_letter(j),
    ensures
        i == j,
{
    reveal_strlit("ABCDEFGHIJKLMNOPQRSTUVWXYZ");
    assert(planet_letter(i)[0] == PLANET_NAMES@[i]);
    assert(planet_letter(j)[0] == PLANET_NAMES@[j]);
}

/// The name of the planet at index `i`, as a string.
pub fn planet_name(i: usize) -> (r: String)
    requires
        i < MAX_PLANETS,
    ensures
        r@ == planet_letter(i as int),
        r@.len() == 1,
{
    proof {
        lemma_planet_names_len();
    }
    PLANET_NAMES.substring_char(i, i + 1).to_owned()
}

} // verus!
