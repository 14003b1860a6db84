//! What one turn does to a game, stated step by step as functions of the
//! state before it.
use vstd::prelude::*;
use crate::combat::{duel_allowed, DuelOutcome};
use crate::game::{queued_from, GameView, QueuedOrder};
use crate::geometry::travel_time;
use crate::model::{Fleet, Message, Planet, Player, PlayerId};
use crate::sums::{all_nonneg, sum};

verus! {

pub open spec fn planet_ships(ps: Seq<Planet>) -> Seq<int> {
    ps.map_values(|p: Planet| p.ships as int)
}

pub open spec fn fleet_ships(fs: Seq<Fleet>) -> Seq<int> {
    fs.map_values(|f: Fleet| f.ships as int)
}

/// What each planet produces in a turn: its production while it has an
/// owner, nothing otherwise.
pub open spec fn owned_production(ps: Seq<Planet>) -> Seq<int> {
    ps.map_values(|p: Planet| if p.owner is Some { p.production as int } else { 0 })
}

/// All ships of the game, on planets and in flight.
pub open spec fn ships_total(v: GameView) -> int {
    sum(planet_ships(v.planets)) + sum(fleet_ships(v.fleets))
}

/// A turn keeps every count within `usize`: the ships of the game plus one
/// turn of production fit in it. Fights and moves never add ships.
pub open spec fn turn_fits(v: GameView) -> bool {
    ships_total(v) + sum(owned_production(v.planets)) <= usize::MAX
}

pub open spec fn with_ships(p: Planet, ships: int) -> Planet {
    Planet { ships: ships as usize, ..p }
}

/// A planet after production: an owned planet gains its production.
pub open spec fn produced(p: Planet) -> Planet {
    if p.owner is Some {
        with_ships(p, p.ships + p.production)
    } else {
        p
    }
}

pub open spec fn after_production(ps: Seq<Planet>) -> Seq<Planet> {
    ps.map_values(|p: Planet| produced(p))
}

/// The planets once the queued orders have taken their ships.
pub open spec fn after_dispatch(ps: Seq<Planet>, orders: Seq<QueuedOrder>) -> Seq<Planet> {
    Seq::new(ps.len(), |i: int| with_ships(ps[i], ps[i].ships - queued_from(orders, i)))
}

/// The fleet an order becomes: it carries the source's power and needs the
/// travel time between the two planets.
pub open spec fn launched(ps: Seq<Planet>, o: QueuedOrder) -> Fleet {
    let src = ps[o.1.source_planet_id.0 as int];
    let dst = ps[o.1.destination_planet_id.0 as int];
    Fleet {
        ships: o.1.count,
        strength: src.strength,
        turns_to_arrival: travel_time(src.pos, dst.pos) as usize,
        destination: o.1.destination_planet_id,
        owner: o.0,
    }
}

/// The fleets the orders become, in order; an order of no ships becomes none.
pub open spec fn launches(ps: Seq<Planet>, orders: Seq<QueuedOrder>) -> Seq<Fleet>
    decreases orders.len(),
{
    if orders.len() == 0 {
        Seq::empty()
    } else {
        launches(ps, orders.drop_last()) + if orders.last().1.count > 0 {
            seq![launched(ps, orders.last())]
        } else {
            Seq::empty()
        }
    }
}

/// A fleet one turn closer to its destination.
pub open spec fn advanced(f: Fleet) -> Fleet {
    Fleet { turns_to_arrival: (f.turns_to_arrival - 1) as usize, ..f }
}

/// What fleet `f` does to the planets when its turn to arrive comes, given
/// how its fight would end: a fleet that reaches a planet of its owner
/// joins it; any other fleet fights.
pub open spec fn arrive(ps: Seq<Planet>, f: Fleet, o: DuelOutcome) -> (Seq<Planet>, Seq<Message>) {
    let d = f.destination.0 as int;
    let p = ps[d];
    if f.turns_to_arrival != 0 {
        (ps, Seq::empty())
    } else if p.owner == Some(f.owner) {
        (ps.update(d, with_ships(p, p.ships + f.ships)), seq![Message::ReinforcementsArrived(f)])
    } else {
        match o {
            DuelOutcome::Repelled { defenders_left } => (
                ps.update(d, with_ships(p, defenders_left as int)),
                seq![Message::AttackFailed(Fleet { ships: 0, ..f })],
            ),
            DuelOutcome::Captured { attackers_left } => (
                ps.update(d, Planet { ships: attackers_left, owner: Some(f.owner), ..p }),
                seq![Message::AttackSucceeded(Fleet { ships: attackers_left, ..f })],
            ),
        }
    }
}

/// `o` is a way the fight of fleet `f`, if it has one, can end.
pub open spec fn arrival_allowed(ps: Seq<Planet>, f: Fleet, o: DuelOutcome) -> bool {
    let p = ps[f.destination.0 as int];
    f.turns_to_arrival == 0 && p.owner != Some(f.owner) ==> duel_allowed(
        f.ships as int,
        f.strength as int,
        p.ships as int,
        p.strength as int,
        o,
    )
}

/// The fleets `fs` arrive one after the other, the fights ending as `outs` says.
pub open spec fn arrivals(ps: Seq<Planet>, fs: Seq<Fleet>, outs: Seq<DuelOutcome>) -> (Seq<Planet>, Seq<Message>)
    decreases fs.len(),
{
    if fs.len() == 0 {
        (ps, Seq::empty())
    } else {
        let before = arrivals(ps, fs.drop_last(), outs.drop_last());
        let step = arrive(before.0, fs.last(), outs.last());
        (step.0, before.1 + step.1)
    }
}

pub open spec fn arrivals_allowed(ps: Seq<Planet>, fs: Seq<Fleet>, outs: Seq<DuelOutcome>) -> bool
    decreases fs.len(),
{
    if fs.len() == 0 {
        true
    } else {
        &&& arrivals_allowed(ps, fs.drop_last(), outs.drop_last())
        &&& arrival_allowed(arrivals(ps, fs.drop_last(), outs.drop_last()).0, fs.last(), outs.last())
    }
}

/// The fleets still on their way.
pub open spec fn survivors(fs: Seq<Fleet>) -> Seq<Fleet>
    decreases fs.len(),
{
    if fs.len() == 0 {
        Seq::empty()
    } else {
        survivors(fs.drop_last()) + if fs.last().turns_to_arrival > 0 {
            seq![fs.last()]
        } else {
            Seq::empty()
        }
    }
}

/// A player is still in the game while it owns a planet or a fleet.
pub open spec fn is_remaining(ps: Seq<Planet>, fs: Seq<Fleet>, p: PlayerId) -> bool {
    ||| exists|i: int| 0 <= i < ps.len() && #[trigger] ps[i].owner == Some(p)
    ||| exists|j: int| 0 <= j < fs.len() && #[trigger] fs[j].owner == p
}

/// One message for each of the first `n` players who was in the game
/// before and is not after, by increasing identity.
pub open spec fn eliminations(
    players: Seq<Player>,
    before: (Seq<Planet>, Seq<Fleet>),
    after: (Seq<Planet>, Seq<Fleet>),
    n: int,
) -> Seq<Message>
    decreases n,
{
    if n <= 0 {
        Seq::empty()
    } else {
        let id = PlayerId((n - 1) as usize);
        eliminations(players, before, after, n - 1) + if is_remaining(before.0, before.1, id)
            && !is_remaining(after.0, after.1, id) {
            seq![Message::PlayerEliminated(players[n - 1])]
        } else {
            Seq::empty()
        }
    }
}

/// The fleets at the moment they move: those in flight, then those the
/// orders launched, each one turn closer.
pub open spec fn moving_fleets(v: GameView) -> Seq<Fleet> {
    (v.fleets + launches(after_production(v.planets), v.orders)).map_values(|f: Fleet| advanced(f))
}

/// The planets when the fleets start to arrive.
pub open spec fn planets_before_arrivals(v: GameView) -> Seq<Planet> {
    after_dispatch(after_production(v.planets), v.orders)
}

/// `v1` and `messages` are what one turn makes of `v0` when the fights end
/// as `outs` says: production, then the orders become fleets, every fleet
/// moves one turn, the arriving ones join or fight in order, those on their
/// way remain, and the players left with nothing are eliminated.
pub open spec fn turn_played(v0: GameView, v1: GameView, messages: Seq<Message>, outs: Seq<DuelOutcome>) -> bool {
    let ps = planets_before_arrivals(v0);
    let fs = moving_fleets(v0);
    let landed = arrivals(ps, fs, outs);
    &&& outs.len() == fs.len()
    &&& arrivals_allowed(ps, fs, outs)
    &&& v1.planets == landed.0
    &&& v1.fleets == survivors(fs)
    &&& v1.orders == Seq::<QueuedOrder>::empty()
    &&& v1.players == v0.players
    &&& v1.w == v0.w
    &&& v1.h == v0.h
    &&& messages == landed.1 + eliminations(
        v0.players,
        (v0.planets, v0.fleets),
        (v1.planets, v1.fleets),
        v0.players.len() as int,
    )
}

/// Production adds to the ships on planets exactly the production of the
/// owned planets.
pub proof fn lemma_production_total(ps: Seq<Planet>)
    requires
        forall|i: int|
            0 <= i < ps.len() && (#[trigger] ps[i].owner) is Some ==> ps[i].ships + ps[i].production <= usize::MAX,
    ensures
        sum(planet_ships(after_production(ps))) == sum(planet_ships(ps)) + sum(owned_production(ps)),
    decreases ps.len(),
{
    if ps.len() > 0 {
        let init = ps.drop_last();
        lemma_production_total(init);
        assert(planet_ships(after_production(ps)).drop_last() =~= planet_ships(after_production(init)));
        assert(planet_ships(ps).drop_last() =~= planet_ships(init));
        assert(owned_production(ps).drop_last() =~= owned_production(init));
        assert(ps.last() == ps[ps.len() - 1]);
    }
}

pub proof fn lemma_counts_nonneg(ps: Seq<Planet>, fs: Seq<Fleet>)
    ensures
        all_nonneg(planet_ships(ps)),
        all_nonneg(owned_production(ps)),
        all_nonneg(fleet_ships(fs)),
{
    assert forall|i: int| 0 <= i < planet_ships(ps).len() implies 0 <= #[trigger] planet_ships(ps)[i] by {}
    assert forall|i: int| 0 <= i < owned_production(ps).len() implies 0 <= #[trigger] owned_production(ps)[i] by {}
    assert forall|i: int| 0 <= i < fleet_ships(fs).len() implies 0 <= #[trigger] fleet_ships(fs)[i] by {}
}

} // verus!
