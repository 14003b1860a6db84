//! Properties of the game that hold for every state and every turn.
use vstd::prelude::*;
use crate::combat::{duel_allowed, DuelOutcome};
use crate::game::{
    fresh_game, game_ok, is_home_planet, order_verdict, queued_from, GameView, SendShipsCommand,
    START_PRODUCTION, START_SHIPS, START_STRENGTH,
};
use crate::model::{CouldNotSend, Fleet, Message, PlanetId, Player, PlayerId};
use crate::geometry::{square_distance, travel_time};
use crate::model::Pos;
use crate::turn::{arrive, with_ships};

verus! {

/// No planet ever holds a negative number of ships.
pub proof fn law_ships_never_negative(v: GameView)
    ensures
        forall|i: int| 0 <= i < v.planets.len() ==> #[trigger] v.planets[i].ships >= 0,
        forall|i: int| 0 <= i < v.fleets.len() ==> #[trigger] v.fleets[i].ships >= 0,
{
}

/// Travel takes as long in both directions.
pub proof fn law_travel_time_symmetric(a: Pos, b: Pos)
    ensures
        travel_time(a, b) == travel_time(b, a),
{
    assert(square_distance(a, b) == square_distance(b, a));
}

/// Two orders from the same planet share its ships: once an order of `a`
/// ships is queued, an order of `b` more from the same planet is accepted
/// exactly when both fit in the ships not yet claimed, and is refused for
/// want of ships otherwise.
pub proof fn law_orders_share_ships(
    v: GameView,
    player: PlayerId,
    source: PlanetId,
    destination: PlanetId,
    a: usize,
    b: usize,
)
    requires
        game_ok(v),
        order_verdict(v, player, source, destination, a) is Ok,
    ensures
        ({
            let queued = GameView {
                orders: v.orders.push(
                    (player, SendShipsCommand { source_planet_id: source, destination_planet_id: destination, count: a }),
                ),
                ..v
            };
            let free = v.planets[source.0 as int].ships - queued_from(v.orders, source.0 as int);
            &&& a + b <= free ==> order_verdict(queued, player, source, destination, b) is Ok
            &&& a + b > free ==> order_verdict(queued, player, source, destination, b) == Err::<(), CouldNotSend>(
                CouldNotSend::NotEnoughShips,
            )
        }),
{
    let o = (player, SendShipsCommand { source_planet_id: source, destination_planet_id: destination, count: a });
    assert(v.orders.push(o).drop_last() =~= v.orders);
}

/// A fleet that arrives at a planet of its owner joins it: its ships are
/// added to the planet and reinforcements are announced, whatever a fight
/// would have given, since there is none.
pub proof fn law_friendly_arrival_reinforces(ps: Seq<crate::model::Planet>, f: Fleet, o: DuelOutcome)
    requires
        f.turns_to_arrival == 0,
        0 <= f.destination.0 < ps.len(),
        ps[f.destination.0 as int].owner == Some(f.owner),
    ensures
        arrive(ps, f, o) == (
            ps.update(
                f.destination.0 as int,
                with_ships(ps[f.destination.0 as int], ps[f.destination.0 as int].ships + f.ships),
            ),
            seq![Message::ReinforcementsArrived(f)],
        ),
{
}

/// A fleet of power zero never takes a planet: the fight ends with the
/// fleet repelled and the defenders untouched.
pub proof fn law_powerless_attack_fails(attackers: int, defenders: int, defense_power: int, r: DuelOutcome)
    requires
        duel_allowed(attackers, 0, defenders, defense_power, r),
    ensures
        r == (DuelOutcome::Repelled { defenders_left: defenders as usize }),
{
}

/// A game just created without neutral planets has one planet per player:
/// planet `i` is the home of player `i`, with the starting ships, power and
/// production, so no two players share a planet.
pub proof fn law_fresh_game_homes(v: GameView, players: Seq<Player>, w: usize, h: usize)
    requires
        fresh_game(v, players, Seq::empty(), w, h),
    ensures
        v.planets.len() == players.len(),
        forall|i: int|
            0 <= i < v.planets.len() ==> {
                let p = #[trigger] v.planets[i];
                &&& p.owner == Some(PlayerId(i as usize))
                &&& p.ships == START_SHIPS
                &&& p.strength == START_STRENGTH
                &&& p.production == START_PRODUCTION
            },
        forall|i: int, j: int|
            0 <= i < v.planets.len() && 0 <= j < v.planets.len() && i != j ==> #[trigger] v.planets[i].owner
                != #[trigger] v.planets[j].owner,
{
    assert forall|i: int| 0 <= i < v.planets.len() implies is_home_planet(#[trigger] v.planets[i], i) by {}
    assert forall|i: int, j: int|
        0 <= i < v.planets.len() && 0 <= j < v.planets.len() && i != j implies #[trigger] v.planets[i].owner
            != #[trigger] v.planets[j].owner by {
        assert(is_home_planet(v.planets[i], i));
        assert(is_home_planet(v.planets[j], j));
    }
}

} // verus!
