//! Fights between an arriving fleet and the planet it attacks.
use vstd::prelude::*;
use rand::rngs::StdRng;
use crate::random::gen_ratio;

verus! {

/// Rounds in a row in which neither side hits after which a fight ends and
/// the defenders hold. Two sides of power zero reach it for sure; with any
/// other powers reaching it is vanishingly unlikely, and it keeps every
/// fight finite.
pub const MAX_IDLE_ROUNDS: usize = 10000;

/// One shot of a side of power `percent`: it hits with that chance.
fn roll(rng: &mut StdRng, percent: usize) -> (hit: bool)
    requires
        percent <= 100,
    ensures
        percent == 0 ==> !hit,
        percent == 100 ==> hit,
{
    gen_ratio(rng, percent as u32, 100)
}

/// How a fight between an arriving fleet and a planet ended.
#[derive(Clone, Copy, Debug, PartialEq, Eq, Structural)]
pub enum DuelOutcome {
    /// The fleet is spent; the planet keeps `defenders_left` ships.
    Repelled { defenders_left: usize },
    /// The planet is taken; `attackers_left` ships of the fleet land on it.
    Captured { attackers_left: usize },
}

/// The outcomes a fight can have: the losers' ships only go down, a side of
/// power zero never hits, and a fleet of full power against defenders of
/// power zero always wins without loss.
pub open spec fn duel_allowed(
    attackers: int,
    attack_power: int,
    defenders: int,
    defense_power: int,
    r: DuelOutcome,
) -> bool {
    match r {
        DuelOutcome::Repelled { defenders_left } => {
            &&& defenders_left <= defenders
            &&& attack_power == 0 ==> defenders_left == defenders
            &&& !(attack_power == 100 && defense_power == 0)
        },
        DuelOutcome::Captured { attackers_left } => {
            &&& 1 <= attackers_left <= attackers
            &&& attack_power > 0
            &&& defense_power == 0 ==> attackers_left == attackers
        },
    }
}

/// Fights `attackers` ships of power `attack_power` against `defenders`
/// ships of power `defense_power`, round by round. In each round the
/// defenders fire first: a hit destroys one attacking ship, and the fight is
/// lost once none is left. Then the attackers fire: a hit on a planet with
/// no ship left takes it, otherwise it destroys one defending ship.
pub fn duel(
    attackers: usize,
    attack_power: usize,
    defenders: usize,
    defense_power: usize,
    rng: &mut StdRng,
) -> (r: DuelOutcome)
    requires
        attackers >= 1,
        attack_power <= 100,
        defense_power <= 100,
    ensures
        duel_allowed(attackers as int, attack_power as int, defenders as int, defense_power as int, r),
{
    let mut a: usize = attackers;
    let mut d: usize = defenders;
    let mut idle: usize = 0;
    loop
        invariant
            1 <= a <= attackers,
            d <= defenders,
            attack_power <= 100,
            defense_power <= 100,
            attack_power == 0 ==> d == defenders,
            defense_power == 0 ==> a == attackers,
            idle < MAX_IDLE_ROUNDS,
        decreases a + d, MAX_IDLE_ROUNDS - idle,
    {
        let mut hit = false;
        if roll(rng, defense_power) {
            hit = true;
            if a == 1 {
                return DuelOutcome::Repelled { defenders_left: d };
            }
            a = a - 1;
        }
        if roll(rng, attack_power) {
            hit = true;
            if d == 0 {
                return DuelOutcome::Captured { attackers_left: a };
            }
            d = d - 1;
        }
        if hit {
            idle = 0;
        } else {
            if idle + 1 >= MAX_IDLE_ROUNDS {
                return DuelOutcome::Repelled { defenders_left: d };
            }
            idle = idle + 1;
        }
    }
}

} // verus!
