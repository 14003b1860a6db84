//! The state of a game, its invariant, and the operations that create it,
//! queue orders and play turns.
use vstd::prelude::*;
use rand::rngs::StdRng;
use crate::combat::{duel, DuelOutcome};
use crate::geometry::{distance, lemma_distinct_cells_take_time, lemma_grid_distance_fits};
use crate::model::{CouldNotCreateGame, CouldNotSend, Fleet, Message, Planet, PlanetId, Player, PlayerId, Pos};
use crate::names::{lemma_planet_names_len, planet_letter, planet_name, MAX_PLANETS};
use crate::random::choose_cells;
use crate::sums::{
    lemma_elem_le_sum, lemma_sum_nonneg, lemma_sum_prefix_le, lemma_sum_push, lemma_sum_take_succ, lemma_sum_update,
    sum,
};
use crate::turn::{
    advanced, after_dispatch, after_production, arrivals, arrivals_allowed, eliminations, fleet_ships, is_remaining,
    launched, launches, lemma_counts_nonneg, lemma_production_total, moving_fleets, owned_production, planet_ships,
    planets_before_arrivals, produced, survivors, turn_fits, turn_played, with_ships,
};

verus! {

/// An order to send `count` ships from one planet to another when the turn ends.
#[derive(Clone, Copy, Debug)]
pub struct SendShipsCommand {
    pub source_planet_id: PlanetId,
    pub destination_planet_id: PlanetId,
    pub count: usize,
}

/// A queued order together with the player who gave it.
pub type QueuedOrder = (PlayerId, SendShipsCommand);

/// The whole state of a game.
pub struct Game {
    planets: Vec<Planet>,
    players: Vec<Player>,
    fleets: Vec<Fleet>,
    queued_commands: Vec<QueuedOrder>,
    w: usize,
    h: usize,
}

/// What a game holds, as mathematical values.
pub struct GameView {
    pub planets: Seq<Planet>,
    pub players: Seq<Player>,
    pub fleets: Seq<Fleet>,
    pub orders: Seq<QueuedOrder>,
    pub w: usize,
    pub h: usize,
}

impl View for Game {
    type V = GameView;

    closed spec fn view(&self) -> GameView {
        GameView {
            planets: self.planets@,
            players: self.players@,
            fleets: self.fleets@,
            orders: self.queued_commands@,
            w: self.w,
            h: self.h,
        }
    }
}

/// Ships that the orders already queued will take from planet `p`.
pub open spec fn queued_from(orders: Seq<QueuedOrder>, p: int) -> int
    decreases orders.len(),
{
    if orders.len() == 0 {
        0
    } else {
        queued_from(orders.drop_last(), p) + if orders.last().1.source_planet_id.0 == p {
            orders.last().1.count as int
        } else {
            0
        }
    }
}

/// Ships of planet `p` that no queued order has claimed yet.
pub open spec fn available(v: GameView, p: int) -> int {
    v.planets[p].ships - queued_from(v.orders, p)
}

pub open spec fn in_grid(v: GameView, i: int) -> bool {
    v.planets[i].pos.0 < v.w && v.planets[i].pos.1 < v.h
}

pub open spec fn is_player(v: GameView, p: PlayerId) -> bool {
    p.0 < v.players.len()
}

pub open spec fn is_planet(v: GameView, p: PlanetId) -> bool {
    p.0 < v.planets.len()
}

/// A fleet that is still on its way.
pub open spec fn fleet_ok(v: GameView, f: Fleet) -> bool {
    &&& f.ships >= 1
    &&& f.turns_to_arrival >= 1
    &&& f.strength <= 100
    &&& is_planet(v, f.destination)
    &&& is_player(v, f.owner)
}

/// A queued order that can be carried out: both planets exist and differ,
/// and the source belongs to the player who gave it.
pub open spec fn order_ok(v: GameView, o: QueuedOrder) -> bool {
    &&& is_planet(v, o.1.source_planet_id)
    &&& is_planet(v, o.1.destination_planet_id)
    &&& o.1.source_planet_id != o.1.destination_planet_id
    &&& is_player(v, o.0)
    &&& v.planets[o.1.source_planet_id.0 as int].owner == Some(o.0)
}

/// The invariant of a game: planets lie on distinct cells of the grid, power
/// ratings are percentages, every identity refers to an existing planet or
/// player, and the queued orders claim no more ships than their sources have.
pub open spec fn game_ok(v: GameView) -> bool {
    &&& v.w * v.h <= usize::MAX
    &&& forall|i: int| 0 <= i < v.planets.len() ==> #[trigger] in_grid(v, i)
    &&& forall|i: int, j: int|
        0 <= i < v.planets.len() && 0 <= j < v.planets.len() && i != j
            ==> #[trigger] v.planets[i].pos != #[trigger] v.planets[j].pos
    &&& forall|i: int| 0 <= i < v.planets.len() ==> #[trigger] v.planets[i].strength <= 100
    &&& forall|i: int|
        0 <= i < v.planets.len() && (#[trigger] v.planets[i].owner) is Some
            ==> is_player(v, v.planets[i].owner->0)
    &&& forall|i: int| 0 <= i < v.fleets.len() ==> fleet_ok(v, #[trigger] v.fleets[i])
    &&& forall|i: int| 0 <= i < v.orders.len() ==> order_ok(v, #[trigger] v.orders[i])
    &&& forall|p: int| 0 <= p < v.planets.len() ==> #[trigger] queued_from(v.orders, p) <= v.planets[p].ships
}

/// A fleet just launched by an order: a valid fleet whose owner owns a planet.
pub open spec fn launch_ok(v: GameView, f: Fleet) -> bool {
    &&& fleet_ok(v, f)
    &&& exists|k: int| 0 <= k < v.planets.len() && #[trigger] v.planets[k].owner == Some(f.owner)
}

/// What moving the fleets needs: fleets with ships, still on their way, to
/// existing planets, power ratings that are percentages, and all ships
/// counted within `usize`.
pub open spec fn landing_ready(v: GameView) -> bool {
    &&& forall|i: int| 0 <= i < v.fleets.len() ==> {
        let f = #[trigger] v.fleets[i];
        &&& f.ships >= 1
        &&& f.turns_to_arrival >= 1
        &&& f.strength <= 100
        &&& is_planet(v, f.destination)
    }
    &&& forall|i: int| 0 <= i < v.planets.len() ==> #[trigger] v.planets[i].strength <= 100
    &&& sum(planet_ships(v.planets)) + sum(fleet_ships(v.fleets)) <= usize::MAX
}

/// A fleet still on its way after a turn, owned by a player who was in the
/// game before it.
pub open spec fn in_flight_ok(v: GameView, f: Fleet) -> bool {
    &&& f.ships >= 1
    &&& f.turns_to_arrival >= 1
    &&& f.strength <= 100
    &&& is_planet(v, f.destination)
    &&& is_remaining(v.planets, v.fleets, f.owner)
}

/// Ships, power and production of a player's home planet.
pub const START_SHIPS: usize = 10;
pub const START_STRENGTH: usize = 40;
pub const START_PRODUCTION: usize = 10;

/// Production that every neutral planet has on top of its drawn production.
pub const NEUTRAL_BASE_PRODUCTION: usize = 5;

/// The random draws for a neutral planet: its power, and its production on
/// top of the base.
#[derive(Clone, Copy, Debug)]
pub struct NeutralPlanet {
    pub strength: usize,
    pub production: usize,
}

pub open spec fn neutral_ok(n: NeutralPlanet) -> bool {
    n.strength <= 100 && n.production + NEUTRAL_BASE_PRODUCTION <= usize::MAX
}

/// The home planet of player `i`, which is planet `i`.
pub open spec fn is_home_planet(p: Planet, i: int) -> bool {
    &&& p.name@ == planet_letter(i)
    &&& p.ships == START_SHIPS
    &&& p.strength == START_STRENGTH
    &&& p.production == START_PRODUCTION
    &&& p.owner == Some(PlayerId(i as usize))
}

/// Planet `i`, neutral, made from the draws `n`.
pub open spec fn is_neutral_planet(p: Planet, i: int, n: NeutralPlanet) -> bool {
    &&& p.name@ == planet_letter(i)
    &&& p.ships == 0
    &&& p.strength == n.strength
    &&& p.production == n.production + NEUTRAL_BASE_PRODUCTION
    &&& p.owner is None
}

/// A game just created: the players' home planets, then the neutral planets,
/// on distinct cells of the grid; no fleet and no order yet.
pub open spec fn fresh_game(v: GameView, players: Seq<Player>, neutral: Seq<NeutralPlanet>, w: usize, h: usize) -> bool {
    &&& v.players == players
    &&& v.w == w
    &&& v.h == h
    &&& v.fleets.len() == 0
    &&& v.orders.len() == 0
    &&& v.planets.len() == players.len() + neutral.len()
    &&& v.planets.len() <= MAX_PLANETS
    &&& forall|i: int| 0 <= i < players.len() ==> is_home_planet(#[trigger] v.planets[i], i)
    &&& forall|i: int|
        players.len() <= i < v.planets.len() ==> is_neutral_planet(
            #[trigger] v.planets[i],
            i,
            neutral[i - players.len()],
        )
}

/// Every cell of a `w` by `h` grid, column by column.
fn grid_cells(w: usize, h: usize) -> (r: Vec<Pos>)
    requires
        w * h <= usize::MAX,
    ensures
        r@.len() == w * h,
        r@.no_duplicates(),
        forall|i: int| 0 <= i < r@.len() ==> (#[trigger] r@[i]).0 < w && r@[i].1 < h,
{
    let mut cells: Vec<Pos> = Vec::new();
    let mut x: usize = 0;
    while x < w
        invariant
            w * h <= usize::MAX,
            x <= w,
            cells@.len() == x * h,
            forall|i: int| 0 <= i < cells@.len() ==> (#[trigger] cells@[i]).0 < x && cells@[i].1 < h,
            forall|i: int, j: int| 0 <= i < j < cells@.len() ==> cell_before(#[trigger] cells@[i], #[trigger] cells@[j]),
        decreases w - x,
    {
        let mut y: usize = 0;
        while y < h
            invariant
                w * h <= usize::MAX,
                x < w,
                y <= h,
                cells@.len() == x * h + y,
                forall|i: int| 0 <= i < cells@.len() ==> (#[trigger] cells@[i]).0 <= x && cells@[i].1 < h,
                forall|i: int| 0 <= i < cells@.len() ==> cell_before(#[trigger] cells@[i], (x, y)),
                forall|i: int, j: int| 0 <= i < j < cells@.len() ==> cell_before(#[trigger] cells@[i], #[trigger] cells@[j]),
            decreases h - y,
        {
            proof {
                assert(x * h + y < w * h) by (nonlinear_arith)
                    requires x < w, y < h;
            }
            cells.push((x, y));
            y = y + 1;
        }
        proof {
            assert((x + 1) * h == x * h + h) by (nonlinear_arith);
        }
        x = x + 1;
    }
    proof {
        assert forall|i: int, j: int| 0 <= i < cells@.len() && 0 <= j < cells@.len() && i != j
            implies cells@[i] != cells@[j] by {
            if i < j {
                assert(cell_before(cells@[i], cells@[j]));
            } else {
                assert(cell_before(cells@[j], cells@[i]));
            }
        }
    }
    cells
}

/// Column by column order of the cells.
spec fn cell_before(a: Pos, b: Pos) -> bool {
    a.0 < b.0 || (a.0 == b.0 && a.1 < b.1)
}

/// How many planets have a name: one letter each, as far as the letters go.
pub open spec fn named_planets(v: GameView) -> int {
    if v.planets.len() < MAX_PLANETS {
        v.planets.len() as int
    } else {
        MAX_PLANETS as int
    }
}

/// `p` is the only player left in the game.
pub open spec fn sole_remaining(v: GameView, p: PlayerId) -> bool {
    remaining(v, p) && forall|q: PlayerId| remaining(v, q) ==> q == p
}

proof fn lemma_after_prefixes_exceed(ships: Seq<int>, prod: Seq<int>, flying: Seq<int>, i: int)
    requires
        crate::sums::all_nonneg(ships),
        crate::sums::all_nonneg(prod),
        crate::sums::all_nonneg(flying),
        0 <= i <= ships.len(),
        ships.len() == prod.len(),
        sum(ships.take(i)) + sum(prod.take(i)) > usize::MAX,
    ensures
        sum(ships) + sum(prod) + sum(flying) > usize::MAX,
{
    lemma_sum_prefix_le(ships, i);
    lemma_sum_prefix_le(prod, i);
    crate::sums::lemma_sum_nonneg(flying);
}

/// What an order to send `count` ships from `source` to `destination` by
/// `player` gets: the first check that fails, in this order, or success.
pub open spec fn order_verdict(
    v: GameView,
    player: PlayerId,
    source: PlanetId,
    destination: PlanetId,
    count: usize,
) -> Result<(), CouldNotSend> {
    if !is_planet(v, source) || !is_planet(v, destination) {
        Err(CouldNotSend::NoSuchPlanet)
    } else if v.planets[source.0 as int].owner != Some(player) {
        Err(CouldNotSend::NotYourPlanet)
    } else if source == destination {
        Err(CouldNotSend::SamePlanet)
    } else if count > available(v, source.0 as int) {
        Err(CouldNotSend::NotEnoughShips)
    } else {
        Ok(())
    }
}

proof fn lemma_queued_from_prefix(orders: Seq<QueuedOrder>, p: int, i: int)
    requires
        0 <= i <= orders.len(),
    ensures
        queued_from(orders.take(i), p) <= queued_from(orders, p),
    decreases orders.len(),
{
    if i < orders.len() {
        lemma_queued_from_prefix(orders.drop_last(), p, i);
        assert(orders.drop_last().take(i) =~= orders.take(i));
    } else {
        assert(orders.take(i) =~= orders);
    }
}

proof fn lemma_queued_from_nonneg(orders: Seq<QueuedOrder>, p: int)
    ensures
        queued_from(orders, p) >= 0,
    decreases orders.len(),
{
    if orders.len() > 0 {
        lemma_queued_from_nonneg(orders.drop_last(), p);
    }
}

proof fn lemma_queued_from_push(orders: Seq<QueuedOrder>, o: QueuedOrder, p: int)
    ensures
        queued_from(orders.push(o), p) == queued_from(orders, p) + if o.1.source_planet_id.0 == p {
            o.1.count as int
        } else {
            0
        },
{
    assert(orders.push(o).drop_last() =~= orders);
}

/// The players still in the game.
pub open spec fn remaining(v: GameView, p: PlayerId) -> bool {
    is_remaining(v.planets, v.fleets, p)
}

/// Owners of planets and fleets are players of the game.
pub open spec fn owners_ok(v: GameView) -> bool {
    &&& forall|i: int|
        0 <= i < v.planets.len() && (#[trigger] v.planets[i].owner) is Some
            ==> is_player(v, v.planets[i].owner->0)
    &&& forall|i: int| 0 <= i < v.fleets.len() ==> is_player(v, (#[trigger] v.fleets[i]).owner)
}

impl Game {
    pub open spec fn well_formed(&self) -> bool {
        game_ok(self@)
    }

    /// Creates a game on a `w` by `h` grid: one home planet for each player,
    /// in the order of `players`, then one neutral planet for each entry of
    /// `neutral_planets`, all on distinct cells drawn from `rng`. Planets are
    /// named by letters in that order. Fails when the grid has fewer cells
    /// than planets.
    pub fn new(
        w: usize,
        h: usize,
        players: Vec<Player>,
        neutral_planets: Vec<NeutralPlanet>,
        rng: &mut StdRng,
    ) -> (r: Result<Game, CouldNotCreateGame>)
        requires
            players@.len() + neutral_planets@.len() <= MAX_PLANETS,
            w * h <= usize::MAX,
            forall|k: int| 0 <= k < neutral_planets@.len() ==> neutral_ok(#[trigger] neutral_planets@[k]),
        ensures
            r is Err <==> players@.len() + neutral_planets@.len() > w * h,
            r is Err ==> r == Err::<Game, CouldNotCreateGame>(CouldNotCreateGame::TooManyPlanets),
            r matches Ok(g) ==> {
                &&& g.well_formed()
                &&& fresh_game(g@, players@, neutral_planets@, w, h)
            },
    {
        let np = players.len();
        let total = np + neutral_planets.len();
        if total > w * h {
            return Err(CouldNotCreateGame::TooManyPlanets);
        }
        let cells = grid_cells(w, h);
        let chosen = choose_cells(rng, &cells, total);
        proof {
            assert forall|i: int| 0 <= i < chosen@.len() implies (#[trigger] chosen@[i]).0 < w && chosen@[i].1 < h by {
                assert(cells@.contains(chosen@[i]));
            }
        }
        let mut planets: Vec<Planet> = Vec::new();
        let mut i: usize = 0;
        while i < total
            invariant
                np == players@.len(),
                total == np + neutral_planets@.len(),
                total <= MAX_PLANETS,
                chosen@.len() == total,
                i <= total,
                planets@.len() == i,
                forall|k: int| 0 <= k < neutral_planets@.len() ==> neutral_ok(#[trigger] neutral_planets@[k]),
                forall|k: int| 0 <= k < i ==> (#[trigger] planets@[k]).pos == chosen@[k],
                forall|k: int| 0 <= k < i && k < np ==> is_home_planet(#[trigger] planets@[k], k),
                forall|k: int|
                    0 <= k < i && np <= k ==> is_neutral_planet(#[trigger] planets@[k], k, neutral_planets@[k - np]),
            decreases total - i,
        {
            let name = planet_name(i);
            if i < np {
                planets.push(Planet {
                    name,
                    ships: START_SHIPS,
                    strength: START_STRENGTH,
                    production: START_PRODUCTION,
                    pos: chosen[i],
                    owner: Some(PlayerId(i)),
                });
            } else {
                let stats = neutral_planets[i - np];
                assert(neutral_ok(neutral_planets@[i - np]));
                planets.push(Planet {
                    name,
                    ships: 0,
                    strength: stats.strength,
                    production: stats.production + NEUTRAL_BASE_PRODUCTION,
                    pos: chosen[i],
                    owner: None,
                });
            }
            i = i + 1;
        }
        let g = Game { planets, players, fleets: Vec::new(), queued_commands: Vec::new(), w, h };
        proof {
            let v = g@;
            assert forall|k: int| 0 <= k < v.planets.len() implies #[trigger] in_grid(v, k) by {
                assert(v.planets[k].pos == chosen@[k]);
            }
            assert forall|a: int, b: int|
                0 <= a < v.planets.len() && 0 <= b < v.planets.len() && a != b
                    implies #[trigger] v.planets[a].pos != #[trigger] v.planets[b].pos by {
                assert(v.planets[a].pos == chosen@[a]);
                assert(v.planets[b].pos == chosen@[b]);
            }
            assert forall|k: int| 0 <= k < v.planets.len() implies #[trigger] v.planets[k].strength <= 100 by {
                if k >= np {
                    assert(neutral_ok(neutral_planets@[k - np]));
                }
            }
            assert forall|p: int| 0 <= p < v.planets.len() implies #[trigger] queued_from(v.orders, p) <= v.planets[p].ships by {}
        }
        Ok(g)
    }

    /// For each player, by identity, whether it is still in the game.
    fn alive_flags(&self) -> (r: Vec<bool>)
        requires
            owners_ok(self@),
        ensures
            r@.len() == self@.players.len(),
            forall|p: int| 0 <= p < r@.len() ==> #[trigger] r@[p] == remaining(self@, PlayerId(p as usize)),
    {
        let ghost v = self@;
        let mut flags: Vec<bool> = Vec::new();
        let mut p: usize = 0;
        while p < self.players.len()
            invariant
                self@ == v,
                p <= v.players.len(),
                flags@.len() == p,
                forall|q: int| 0 <= q < p ==> !#[trigger] flags@[q],
            decreases v.players.len() - p,
        {
            flags.push(false);
            p = p + 1;
        }
        let mut i: usize = 0;
        while i < self.planets.len()
            invariant
                self@ == v,
                owners_ok(v),
                v.players.len() <= usize::MAX,
                i <= v.planets.len(),
                flags@.len() == v.players.len(),
                forall|q: int| 0 <= q < flags@.len() ==> #[trigger] flags@[q] == exists|k: int|
                    0 <= k < i && #[trigger] v.planets[k].owner == Some(PlayerId(q as usize)),
            decreases v.planets.len() - i,
        {
            let ghost prev = flags@;
            match self.planets[i].owner {
                Some(o) => {
                    flags.set(o.0, true);
                },
                None => {},
            }
            assert forall|q: int| 0 <= q < flags@.len() implies #[trigger] flags@[q] == exists|k: int|
                0 <= k < i + 1 && #[trigger] v.planets[k].owner == Some(PlayerId(q as usize)) by {
                if v.planets[i as int].owner == Some(PlayerId(q as usize)) {
                    assert((v.planets[i as int].owner->0).0 == q);
                    assert(flags@[q]);
                } else {
                    assert(flags@[q] == prev[q]);
                    if exists|k: int| 0 <= k < i + 1 && #[trigger] v.planets[k].owner == Some(PlayerId(q as usize)) {
                        let k = choose|k: int| 0 <= k < i + 1 && #[trigger] v.planets[k].owner == Some(PlayerId(q as usize));
                        assert(k < i);
                    }
                }
            }
            i = i + 1;
        }
        let mut j: usize = 0;
        while j < self.fleets.len()
            invariant
                self@ == v,
                owners_ok(v),
                v.players.len() <= usize::MAX,
                j <= v.fleets.len(),
                flags@.len() == v.players.len(),
                forall|q: int| 0 <= q < flags@.len() ==> #[trigger] flags@[q] == ((exists|k: int|
                    0 <= k < v.planets.len() && #[trigger] v.planets[k].owner == Some(PlayerId(q as usize)))
                    || (exists|k: int| 0 <= k < j && #[trigger] v.fleets[k].owner == PlayerId(q as usize))),
            decreases v.fleets.len() - j,
        {
            let o = self.fleets[j].owner;
            assert(is_player(v, v.fleets[j as int].owner));
            let ghost prev = flags@;
            flags.set(o.0, true);
            assert forall|q: int| 0 <= q < flags@.len() implies #[trigger] flags@[q] == ((exists|k: int|
                0 <= k < v.planets.len() && #[trigger] v.planets[k].owner == Some(PlayerId(q as usize)))
                || (exists|k: int| 0 <= k < j + 1 && #[trigger] v.fleets[k].owner == PlayerId(q as usize))) by {
                if v.fleets[j as int].owner == PlayerId(q as usize) {
                    assert(o.0 == q);
                    assert(flags@[q]);
                } else {
                    assert(flags@[q] == prev[q]);
                    if exists|k: int| 0 <= k < j + 1 && #[trigger] v.fleets[k].owner == PlayerId(q as usize) {
                        let k = choose|k: int| 0 <= k < j + 1 && #[trigger] v.fleets[k].owner == PlayerId(q as usize);
                        assert(k < j);
                    }
                }
            }
            j = j + 1;
        }
        flags
    }

    /// Every planet with an owner gains its production.
    fn produce(&mut self)
        requires
            sum(planet_ships(old(self)@.planets)) + sum(owned_production(old(self)@.planets)) <= usize::MAX,
        ensures
            final(self)@ == (GameView { planets: after_production(old(self)@.planets), ..old(self)@ }),
    {
        let ghost v = self@;
        let ghost prod = owned_production(v.planets);
        let mut i: usize = 0;
        while i < self.planets.len()
            invariant
                self@ == (GameView { planets: self@.planets, ..v }),
                self@.planets.len() == v.planets.len(),
                prod == owned_production(v.planets),
                sum(planet_ships(v.planets)) + sum(prod) <= usize::MAX,
                0 <= i <= v.planets.len(),
                forall|k: int| 0 <= k < i ==> self@.planets[k] == produced(#[trigger] v.planets[k]),
                forall|k: int| i <= k < v.planets.len() ==> #[trigger] self@.planets[k] == v.planets[k],
                sum(planet_ships(self@.planets)) == sum(planet_ships(v.planets)) + sum(prod.take(i as int)),
            decreases v.planets.len() - i,
        {
            let ghost cur = self@.planets;
            proof {
                lemma_counts_nonneg(cur, seq![]);
                lemma_counts_nonneg(v.planets, seq![]);
                lemma_elem_le_sum(planet_ships(cur), i as int);
                lemma_sum_take_succ(prod, i as int);
                lemma_sum_prefix_le(prod, i + 1);
            }
            if self.planets[i].owner.is_some() {
                let ships = self.planets[i].ships + self.planets[i].production;
                self.planets[i].ships = ships;
                proof {
                    assert(self@.planets[i as int] == produced(v.planets[i as int]));
                    assert(planet_ships(self@.planets) =~= planet_ships(cur).update(i as int, ships as int));
                    lemma_sum_update(planet_ships(cur), i as int, ships as int);
                }
            } else {
                assert(self@.planets[i as int] == produced(v.planets[i as int]));
            }
            i = i + 1;
        }
        proof {
            assert(self@.planets =~= after_production(v.planets));
        }
    }

    /// Every queued order takes its ships from its source and, unless it
    /// sends none, becomes a fleet; the queue is emptied.
    fn dispatch(&mut self)
        requires
            game_ok(old(self)@),
        ensures
            forall|i: int|
                old(self)@.fleets.len() <= i < final(self)@.fleets.len() ==> launch_ok(
                    old(self)@,
                    #[trigger] final(self)@.fleets[i],
                ),
            final(self)@ == (GameView {
                planets: after_dispatch(old(self)@.planets, old(self)@.orders),
                fleets: old(self)@.fleets + launches(old(self)@.planets, old(self)@.orders),
                orders: Seq::empty(),
                ..old(self)@
            }),
            sum(planet_ships(final(self)@.planets)) + sum(fleet_ships(final(self)@.fleets))
                == sum(planet_ships(old(self)@.planets)) + sum(fleet_ships(old(self)@.fleets)),
    {
        let ghost v = self@;
        let ghost total = sum(planet_ships(v.planets)) + sum(fleet_ships(v.fleets));
        proof {
            assert(v.orders.take(0) =~= Seq::<QueuedOrder>::empty());
            assert(after_dispatch(v.planets, v.orders.take(0)) =~= v.planets);
            assert(v.fleets + launches(v.planets, v.orders.take(0)) =~= v.fleets);
        }
        let mut k: usize = 0;
        while k < self.queued_commands.len()
            invariant
                game_ok(v),
                forall|i: int|
                    v.fleets.len() <= i < self@.fleets.len() ==> launch_ok(v, #[trigger] self@.fleets[i]),
                self@ == (GameView { planets: self@.planets, fleets: self@.fleets, ..v }),
                0 <= k <= v.orders.len(),
                self@.planets == after_dispatch(v.planets, v.orders.take(k as int)),
                self@.fleets == v.fleets + launches(v.planets, v.orders.take(k as int)),
                sum(planet_ships(self@.planets)) + sum(fleet_ships(self@.fleets)) == total,
            decreases v.orders.len() - k,
        {
            let ghost cur = self@;
            let (player, command) = self.queued_commands[k];
            let src = command.source_planet_id.0;
            let dst = command.destination_planet_id.0;
            let ghost before = v.orders.take(k as int);
            let ghost after = v.orders.take(k + 1);
            proof {
                assert(v.orders[k as int] == (player, command));
                assert(order_ok(v, v.orders[k as int]));
                assert(after.drop_last() =~= before);
                assert(after.last() == (player, command));
                lemma_queued_from_prefix(v.orders, src as int, k + 1);
                assert(queued_from(v.orders, src as int) <= v.planets[src as int].ships);
                assert forall|p: int| #[trigger] queued_from(before, p) >= 0 by {
                    lemma_queued_from_nonneg(before, p);
                }
                assert forall|p: int| #[trigger] queued_from(after, p) == queued_from(before, p) + if p == src {
                    command.count as int
                } else {
                    0
                } by {}
                assert(cur.planets[src as int] == with_ships(
                    v.planets[src as int],
                    v.planets[src as int].ships - queued_from(before, src as int),
                ));
            }
            let left = self.planets[src].ships - command.count;
            self.planets[src].ships = left;
            proof {
                assert forall|p: int| 0 <= p < v.planets.len() implies #[trigger] self@.planets[p]
                    == after_dispatch(v.planets, after)[p] by {
                    assert(queued_from(after, p) == queued_from(before, p) + if p == src {
                        command.count as int
                    } else {
                        0
                    });
                }
                assert(self@.planets =~= after_dispatch(v.planets, after));
                assert(planet_ships(self@.planets) =~= planet_ships(cur.planets).update(src as int, left as int));
                lemma_sum_update(planet_ships(cur.planets), src as int, left as int);
            }
            if command.count > 0 {
                proof {
                    assert(in_grid(v, src as int));
                    assert(in_grid(v, dst as int));
                    lemma_grid_distance_fits(v.w, v.h, v.planets[src as int].pos, v.planets[dst as int].pos);
                }
                let turns = distance(&self.planets[src], &self.planets[dst]);
                proof {
                    assert(v.planets[src as int].pos != v.planets[dst as int].pos);
                    lemma_distinct_cells_take_time(v.planets[src as int].pos, v.planets[dst as int].pos, turns as int);
                    assert(v.planets[src as int].strength <= 100);
                }
                let fleet = Fleet {
                    ships: command.count,
                    strength: self.planets[src].strength,
                    turns_to_arrival: turns,
                    destination: command.destination_planet_id,
                    owner: player,
                };
                let ghost fs = self@.fleets;
                self.fleets.push(fleet);
                proof {
                    assert(fleet == launched(v.planets, (player, command)));
                    assert(v.planets[src as int].owner == Some(player));
                    assert(launch_ok(v, fleet));
                    assert forall|i: int| v.fleets.len() <= i < self@.fleets.len() implies launch_ok(
                        v,
                        #[trigger] self@.fleets[i],
                    ) by {
                        if i < self@.fleets.len() - 1 {
                            assert(self@.fleets[i] == fs[i]);
                        }
                    }
                    assert(self@.fleets =~= v.fleets + launches(v.planets, after));
                    assert(fleet_ships(self@.fleets) =~= fleet_ships(fs).push(command.count as int));
                    lemma_sum_push(fleet_ships(fs), command.count as int);
                }
            } else {
                proof {
                    assert(self@.fleets =~= v.fleets + launches(v.planets, after));
                }
            }
            k = k + 1;
        }
        proof {
            assert(v.orders.take(k as int) =~= v.orders);
        }
        self.queued_commands = Vec::new();
    }

    /// Every fleet moves one turn closer; those that arrive join their
    /// owner's planet or fight for it, in order, and those still on their
    /// way remain. Also gives how each fight ended.
    fn land_fleets(&mut self, rng: &mut StdRng) -> (r: (Vec<Message>, Ghost<Seq<DuelOutcome>>))
        requires
            landing_ready(old(self)@),
        ensures
            ({
                let v = old(self)@;
                let fs = v.fleets.map_values(|f: Fleet| advanced(f));
                let outs = r.1@;
                let landed = arrivals(v.planets, fs, outs);
                &&& outs.len() == fs.len()
                &&& arrivals_allowed(v.planets, fs, outs)
                &&& final(self)@ == (GameView { planets: landed.0, fleets: survivors(fs), ..v })
                &&& r.0@ == landed.1
            }),
            final(self)@.planets.len() == old(self)@.planets.len(),
            forall|i: int|
                0 <= i < old(self)@.planets.len() ==> (#[trigger] final(self)@.planets[i]).pos
                    == old(self)@.planets[i].pos && final(self)@.planets[i].strength
                    == old(self)@.planets[i].strength,
            forall|i: int|
                0 <= i < final(self)@.planets.len() && (#[trigger] final(self)@.planets[i].owner) is Some
                    ==> is_remaining(old(self)@.planets, old(self)@.fleets, final(self)@.planets[i].owner->0),
            forall|k: int| 0 <= k < final(self)@.fleets.len() ==> in_flight_ok(old(self)@, #[trigger] final(self)@.fleets[k]),
    {
        let ghost v = self@;
        let ghost fs = v.fleets.map_values(|f: Fleet| advanced(f));
        let ghost remaining_total = sum(fleet_ships(fs));
        let ghost mut outs: Seq<DuelOutcome> = Seq::empty();
        let mut messages: Vec<Message> = Vec::new();
        let mut in_flight: Vec<Fleet> = Vec::new();
        proof {
            assert forall|i: int|
                0 <= i < v.planets.len() && (#[trigger] v.planets[i].owner) is Some implies is_remaining(
                v.planets,
                v.fleets,
                v.planets[i].owner->0,
            ) by {
                assert(v.planets[i].owner == Some(v.planets[i].owner->0));
            }
            assert(fs.take(0) =~= Seq::<Fleet>::empty());
            assert(fleet_ships(fs) =~= fleet_ships(v.fleets));
            lemma_counts_nonneg(v.planets, fs);
        }
        let mut j: usize = 0;
        while j < self.fleets.len()
            invariant
                landing_ready(v),
                fs == v.fleets.map_values(|f: Fleet| advanced(f)),
                self@ == (GameView { planets: self@.planets, ..v }),
                0 <= j <= fs.len(),
                outs.len() == j,
                self@.planets.len() == v.planets.len(),
                forall|i: int|
                    0 <= i < v.planets.len() ==> (#[trigger] self@.planets[i]).strength == v.planets[i].strength
                        && self@.planets[i].pos == v.planets[i].pos,
                forall|i: int|
                    0 <= i < v.planets.len() && (#[trigger] self@.planets[i].owner) is Some
                        ==> is_remaining(v.planets, v.fleets, self@.planets[i].owner->0),
                forall|k: int| 0 <= k < in_flight@.len() ==> in_flight_ok(v, #[trigger] in_flight@[k]),
                self@.planets == arrivals(v.planets, fs.take(j as int), outs).0,
                messages@ == arrivals(v.planets, fs.take(j as int), outs).1,
                arrivals_allowed(v.planets, fs.take(j as int), outs),
                in_flight@ == survivors(fs.take(j as int)),
                sum(planet_ships(self@.planets)) + sum(fleet_ships(fs)) - sum(fleet_ships(fs.take(j as int)))
                    <= usize::MAX,
            decreases fs.len() - j,
        {
            let ghost cur = self@.planets;
            let ghost flights = in_flight@;
            let mut fleet = self.fleets[j];
            proof {
                let f0 = v.fleets[j as int];
                assert(f0.ships >= 1 && f0.turns_to_arrival >= 1 && f0.strength <= 100 && is_planet(v, f0.destination));
            }
            fleet.turns_to_arrival = fleet.turns_to_arrival - 1;
            let ghost mut o = DuelOutcome::Repelled { defenders_left: 0 };
            proof {
                assert(fleet == fs[j as int]);
                assert(fs.take(j + 1).drop_last() =~= fs.take(j as int));
                lemma_counts_nonneg(cur, fs);
                lemma_sum_take_succ(fleet_ships(fs), j as int);
                lemma_sum_prefix_le(fleet_ships(fs), j + 1);
                lemma_counts_nonneg(cur, fs.take(j as int));
                lemma_sum_nonneg(fleet_ships(fs.take(j as int)));
                assert(fleet_ships(fs)[j as int] == fleet.ships);
                assert(fleet_ships(fs.take(j + 1)) =~= fleet_ships(fs).take(j + 1));
                assert(fleet_ships(fs.take(j as int)) =~= fleet_ships(fs).take(j as int));
            }
            if fleet.turns_to_arrival == 0 {
                let d = fleet.destination.0;
                proof {
                    lemma_elem_le_sum(planet_ships(cur), d as int);
                    assert(planet_ships(cur)[d as int] == cur[d as int].ships);
                }
                let friendly = match self.planets[d].owner {
                    Some(owner) => owner.0 == fleet.owner.0,
                    None => false,
                };
                if friendly {
                    let ships = self.planets[d].ships + fleet.ships;
                    self.planets[d].ships = ships;
                    messages.push(Message::ReinforcementsArrived(fleet));
                    proof {
                        assert(planet_ships(self@.planets) =~= planet_ships(cur).update(d as int, ships as int));
                        lemma_sum_update(planet_ships(cur), d as int, ships as int);
                    }
                } else {
                    let outcome = duel(fleet.ships, fleet.strength, self.planets[d].ships, self.planets[d].strength, rng);
                    proof {
                        o = outcome;
                    }
                    match outcome {
                        DuelOutcome::Repelled { defenders_left } => {
                            self.planets[d].ships = defenders_left;
                            messages.push(Message::AttackFailed(Fleet { ships: 0, ..fleet }));
                            proof {
                                assert(planet_ships(self@.planets) =~= planet_ships(cur).update(d as int, defenders_left as int));
                                lemma_sum_update(planet_ships(cur), d as int, defenders_left as int);
                            }
                        },
                        DuelOutcome::Captured { attackers_left } => {
                            self.planets[d].ships = attackers_left;
                            self.planets[d].owner = Some(fleet.owner);
                            proof {
                                assert(v.fleets[j as int].owner == fleet.owner);
                                assert(is_remaining(v.planets, v.fleets, fleet.owner));
                            }
                            messages.push(Message::AttackSucceeded(Fleet { ships: attackers_left, ..fleet }));
                            proof {
                                assert(planet_ships(self@.planets) =~= planet_ships(cur).update(d as int, attackers_left as int));
                                lemma_sum_update(planet_ships(cur), d as int, attackers_left as int);
                            }
                        },
                    }
                }
            } else {
                in_flight.push(fleet);
                proof {
                    assert(in_flight_ok(v, fleet));
                    assert forall|k: int| 0 <= k < in_flight@.len() implies in_flight_ok(v, #[trigger] in_flight@[k]) by {
                        if k < flights.len() {
                            assert(in_flight@[k] == flights[k]);
                        }
                    }
                }
            }
            proof {
                let outs1 = outs.push(o);
                assert(outs1.drop_last() =~= outs);
                assert(self@.planets =~= arrivals(v.planets, fs.take(j + 1), outs1).0);
                assert(messages@ =~= arrivals(v.planets, fs.take(j + 1), outs1).1);
                assert(in_flight@ =~= survivors(fs.take(j + 1)));
                outs = outs1;
            }
            j = j + 1;
        }
        proof {
            assert(fs.take(j as int) =~= fs);
        }
        self.fleets = in_flight;
        (messages, Ghost(outs))
    }

    /// One message for each player, by identity, who was in the game in
    /// `before` and is not any more.
    fn eliminated_players(&self, was_alive: &Vec<bool>, before: Ghost<(Seq<Planet>, Seq<Fleet>)>) -> (r: Vec<Message>)
        requires
            owners_ok(self@),
            was_alive@.len() == self@.players.len(),
            forall|p: int|
                0 <= p < was_alive@.len() ==> #[trigger] was_alive@[p] == is_remaining(
                    before@.0,
                    before@.1,
                    PlayerId(p as usize),
                ),
        ensures
            r@ == eliminations(self@.players, before@, (self@.planets, self@.fleets), self@.players.len() as int),
    {
        let now_alive = self.alive_flags();
        let mut r: Vec<Message> = Vec::new();
        let mut p: usize = 0;
        while p < self.players.len()
            invariant
                now_alive@.len() == self@.players.len(),
                was_alive@.len() == self@.players.len(),
                forall|q: int| 0 <= q < now_alive@.len() ==> #[trigger] now_alive@[q] == remaining(self@, PlayerId(q as usize)),
                forall|q: int|
                    0 <= q < was_alive@.len() ==> #[trigger] was_alive@[q] == is_remaining(
                        before@.0,
                        before@.1,
                        PlayerId(q as usize),
                    ),
                p <= self@.players.len(),
                r@ == eliminations(self@.players, before@, (self@.planets, self@.fleets), p as int),
            decreases self@.players.len() - p,
        {
            assert(now_alive@[p as int] == remaining(self@, PlayerId(p)));
            assert(was_alive@[p as int] == is_remaining(before@.0, before@.1, PlayerId(p)));
            if was_alive[p] && !now_alive[p] {
                let name = self.players[p].name.clone();
                r.push(Message::PlayerEliminated(Player { name }));
                assert(Player { name } == self@.players[p as int]);
            }
            p = p + 1;
        }
        r
    }

    /// Plays one turn: production, then the queued orders become fleets,
    /// every fleet moves, the arriving ones join or fight, and the players
    /// left with no planet and no fleet are eliminated. Gives the messages
    /// of the turn in order. Fights are drawn from `rng`: the contract holds
    /// for every way they can end.
    pub fn end_turn(&mut self, rng: &mut StdRng) -> (messages: Vec<Message>)
        requires
            old(self).well_formed(),
            turn_fits(old(self)@),
        ensures
            final(self).well_formed(),
            exists|outs: Seq<DuelOutcome>| turn_played(old(self)@, final(self)@, messages@, outs),
            forall|p: PlayerId| remaining(final(self)@, p) ==> remaining(old(self)@, p),
    {
        let ghost v0 = self@;
        proof {
            assert(owners_ok(v0)) by {
                assert forall|i: int| 0 <= i < v0.fleets.len() implies is_player(v0, (#[trigger] v0.fleets[i]).owner) by {
                    assert(fleet_ok(v0, v0.fleets[i]));
                }
            }
            lemma_counts_nonneg(v0.planets, v0.fleets);
            lemma_sum_nonneg(fleet_ships(v0.fleets));
            lemma_sum_nonneg(planet_ships(v0.planets));
            lemma_sum_nonneg(owned_production(v0.planets));
            assert forall|i: int| 0 <= i < v0.planets.len() && (#[trigger] v0.planets[i].owner) is Some implies
                v0.planets[i].ships + v0.planets[i].production <= usize::MAX by {
                lemma_elem_le_sum(planet_ships(v0.planets), i);
                lemma_elem_le_sum(owned_production(v0.planets), i);
            }
        }
        let was_alive = self.alive_flags();
        self.produce();
        let ghost v1 = self@;
        proof {
            lemma_production_total(v0.planets);
            assert forall|p: int| 0 <= p < v1.planets.len() implies #[trigger] queued_from(v1.orders, p) <= v1.planets[p].ships by {
                assert(queued_from(v0.orders, p) <= v0.planets[p].ships);
            }
            assert forall|i: int| 0 <= i < v1.planets.len() implies #[trigger] in_grid(v1, i) by {
                assert(in_grid(v0, i));
            }
            assert forall|i: int| 0 <= i < v1.fleets.len() implies fleet_ok(v1, #[trigger] v1.fleets[i]) by {
                assert(fleet_ok(v0, v0.fleets[i]));
            }
            assert forall|i: int| 0 <= i < v1.orders.len() implies order_ok(v1, #[trigger] v1.orders[i]) by {
                assert(order_ok(v0, v0.orders[i]));
            }
            assert(game_ok(v1));
        }
        self.dispatch();
        let ghost v2 = self@;
        proof {
            assert forall|i: int| 0 <= i < v2.fleets.len() implies {
                let f = #[trigger] v2.fleets[i];
                &&& f.ships >= 1
                &&& f.turns_to_arrival >= 1
                &&& f.strength <= 100
                &&& is_planet(v2, f.destination)
            } by {
                if i < v0.fleets.len() {
                    assert(fleet_ok(v0, v0.fleets[i]));
                } else {
                    assert(launch_ok(v1, v2.fleets[i]));
                }
            }
            assert forall|i: int| 0 <= i < v2.planets.len() implies #[trigger] v2.planets[i].strength <= 100 by {
                assert(v0.planets[i].strength <= 100);
            }
            assert(landing_ready(v2));
        }
        let (mut messages, outs) = self.land_fleets(rng);
        let ghost v3 = self@;
        proof {
            assert forall|p: PlayerId| is_remaining(v2.planets, v2.fleets, p) implies remaining(v0, p) by {
                if exists|k: int| 0 <= k < v2.planets.len() && #[trigger] v2.planets[k].owner == Some(p) {
                    let k = choose|k: int| 0 <= k < v2.planets.len() && #[trigger] v2.planets[k].owner == Some(p);
                    assert(v0.planets[k].owner == Some(p));
                } else {
                    let k = choose|k: int| 0 <= k < v2.fleets.len() && #[trigger] v2.fleets[k].owner == p;
                    if k < v0.fleets.len() {
                        assert(v0.fleets[k] == v2.fleets[k]);
                    } else {
                        assert(launch_ok(v1, v2.fleets[k]));
                        let m = choose|m: int| 0 <= m < v1.planets.len() && #[trigger] v1.planets[m].owner == Some(p);
                        assert(v0.planets[m].owner == Some(p));
                    }
                }
            }
            assert forall|p: PlayerId| remaining(v0, p) implies is_player(v0, p) by {
                if exists|k: int| 0 <= k < v0.planets.len() && #[trigger] v0.planets[k].owner == Some(p) {
                    let k = choose|k: int| 0 <= k < v0.planets.len() && #[trigger] v0.planets[k].owner == Some(p);
                } else {
                    let k = choose|k: int| 0 <= k < v0.fleets.len() && #[trigger] v0.fleets[k].owner == p;
                    assert(fleet_ok(v0, v0.fleets[k]));
                }
            }
            assert forall|p: PlayerId| remaining(v3, p) implies remaining(v0, p) by {
                if exists|k: int| 0 <= k < v3.planets.len() && #[trigger] v3.planets[k].owner == Some(p) {
                    let k = choose|k: int| 0 <= k < v3.planets.len() && #[trigger] v3.planets[k].owner == Some(p);
                    assert(is_remaining(v2.planets, v2.fleets, v3.planets[k].owner->0));
                } else {
                    let k = choose|k: int| 0 <= k < v3.fleets.len() && #[trigger] v3.fleets[k].owner == p;
                    assert(in_flight_ok(v2, v3.fleets[k]));
                }
            }
            assert forall|i: int| 0 <= i < v3.fleets.len() implies fleet_ok(v3, #[trigger] v3.fleets[i]) by {
                assert(in_flight_ok(v2, v3.fleets[i]));
                assert(remaining(v0, v3.fleets[i].owner));
            }
            assert forall|i: int|
                0 <= i < v3.planets.len() && (#[trigger] v3.planets[i].owner) is Some implies is_player(
                v3,
                v3.planets[i].owner->0,
            ) by {
                assert(is_remaining(v2.planets, v2.fleets, v3.planets[i].owner->0));
            }
            assert forall|i: int| 0 <= i < v3.planets.len() implies #[trigger] in_grid(v3, i) by {
                assert(in_grid(v0, i));
            }
            assert forall|i: int, j: int|
                0 <= i < v3.planets.len() && 0 <= j < v3.planets.len() && i != j
                    implies #[trigger] v3.planets[i].pos != #[trigger] v3.planets[j].pos by {
                assert(v0.planets[i].pos != v0.planets[j].pos);
            }
            assert forall|i: int| 0 <= i < v3.planets.len() implies #[trigger] v3.planets[i].strength <= 100 by {
                assert(v0.planets[i].strength <= 100);
            }
            assert forall|p: int| 0 <= p < v3.planets.len() implies #[trigger] queued_from(v3.orders, p) <= v3.planets[p].ships by {
            }
            assert(game_ok(v3));
            assert(owners_ok(v3)) by {
                assert forall|i: int| 0 <= i < v3.fleets.len() implies is_player(v3, (#[trigger] v3.fleets[i]).owner) by {
                    assert(fleet_ok(v3, v3.fleets[i]));
                }
            }
        }
        let mut gone = self.eliminated_players(&was_alive, Ghost((v0.planets, v0.fleets)));
        messages.append(&mut gone);
        proof {
            assert(planets_before_arrivals(v0) == v2.planets);
            assert(moving_fleets(v0) == v2.fleets.map_values(|f: Fleet| advanced(f)));
            assert(turn_played(v0, v3, messages@, outs@));
        }
        messages
    }

    /// The planet named `name`: names are single letters given to the planets
    /// in order.
    pub fn get_planet_id(&self, name: &String) -> (r: Result<PlanetId, String>)
        ensures
            r is Ok <==> exists|i: int| 0 <= i < named_planets(self@) && name@ == #[trigger] planet_letter(i),
            r matches Ok(id) ==> id.0 < named_planets(self@) && name@ == planet_letter(id.0 as int),
            r matches Err(e) ==> e@ == if name@.len() != 1 {
                "Planet names are a single character"@
            } else {
                "no such planet"@
            },
    {
        proof {
            lemma_planet_names_len();
        }
        if name.as_str().unicode_len() != 1 {
            proof {
                assert forall|i: int| 0 <= i < named_planets(self@) implies name@ != #[trigger] planet_letter(i) by {
                    assert(planet_letter(i).len() == 1);
                }
            }
            return Err("Planet names are a single character".to_owned());
        }
        let n: usize = if self.planets.len() < MAX_PLANETS { self.planets.len() } else { MAX_PLANETS };
        let mut i: usize = 0;
        while i < n
            invariant
                n == named_planets(self@),
                n <= MAX_PLANETS,
                i <= n,
                forall|k: int| 0 <= k < i ==> name@ != #[trigger] planet_letter(k),
            decreases n - i,
        {
            let letter = planet_name(i);
            if *name == letter {
                return Ok(PlanetId(i));
            }
            i = i + 1;
        }
        Err("no such planet".to_owned())
    }

    /// Whether `end_turn` may be called: all ships of the game plus one turn
    /// of production fit in `usize`.
    pub fn can_end_turn(&self) -> (r: bool)
        ensures
            r == turn_fits(self@),
    {
        let ghost v = self@;
        let ghost ships = planet_ships(v.planets);
        let ghost prod = owned_production(v.planets);
        let ghost flying = fleet_ships(v.fleets);
        proof {
            lemma_counts_nonneg(v.planets, v.fleets);
            assert(ships.take(0) =~= Seq::<int>::empty());
            assert(flying.take(0) =~= Seq::<int>::empty());
        }
        let mut total: usize = 0;
        let mut i: usize = 0;
        while i < self.planets.len()
            invariant
                self@ == v,
                ships == planet_ships(v.planets),
                prod == owned_production(v.planets),
                flying == fleet_ships(v.fleets),
                crate::sums::all_nonneg(ships),
                crate::sums::all_nonneg(prod),
                crate::sums::all_nonneg(flying),
                i <= v.planets.len(),
                total == sum(ships.take(i as int)) + sum(prod.take(i as int)),
            decreases v.planets.len() - i,
        {
            proof {
                lemma_sum_take_succ(ships, i as int);
                lemma_sum_take_succ(prod, i as int);
            }
            let gained: usize = if self.planets[i].owner.is_some() { self.planets[i].production } else { 0 };
            assert(ships[i as int] == self.planets[i as int].ships && prod[i as int] == gained);
            match total.checked_add(self.planets[i].ships) {
                Some(t) => {
                    match t.checked_add(gained) {
                        Some(t2) => {
                            total = t2;
                        },
                        None => {
                            proof {
                                lemma_after_prefixes_exceed(ships, prod, flying, i as int + 1);
                            }
                            return false;
                        },
                    }
                },
                None => {
                    proof {
                        lemma_sum_nonneg(prod.take(i + 1));
                        lemma_after_prefixes_exceed(ships, prod, flying, i as int + 1);
                    }
                    return false;
                },
            }
            i = i + 1;
        }
        proof {
            assert(ships.take(i as int) =~= ships);
            assert(prod.take(i as int) =~= prod);
        }
        let mut j: usize = 0;
        while j < self.fleets.len()
            invariant
                self@ == v,
                ships == planet_ships(v.planets),
                prod == owned_production(v.planets),
                flying == fleet_ships(v.fleets),
                crate::sums::all_nonneg(flying),
                j <= v.fleets.len(),
                total == sum(ships) + sum(prod) + sum(flying.take(j as int)),
            decreases v.fleets.len() - j,
        {
            proof {
                lemma_sum_take_succ(flying, j as int);
                lemma_sum_prefix_le(flying, j + 1);
            }
            match total.checked_add(self.fleets[j].ships) {
                Some(t) => {
                    total = t;
                },
                None => {
                    proof {
                        assert(flying[j as int] == self.fleets[j as int].ships);
                    }
                    return false;
                },
            }
            j = j + 1;
        }
        proof {
            assert(flying.take(j as int) =~= flying);
        }
        true
    }

    /// All planets with their identities, in order.
    pub fn planets(&self) -> (r: Vec<(PlanetId, &Planet)>)
        ensures
            r@.len() == self@.planets.len(),
            forall|i: int| 0 <= i < r@.len() ==> (#[trigger] r@[i]).0 == PlanetId(i as usize) && *r@[i].1 == self@.planets[i],
    {
        let mut r: Vec<(PlanetId, &Planet)> = Vec::new();
        let mut i: usize = 0;
        while i < self.planets.len()
            invariant
                i <= self@.planets.len(),
                r@.len() == i,
                forall|k: int| 0 <= k < i ==> (#[trigger] r@[k]).0 == PlanetId(k as usize) && *r@[k].1 == self@.planets[k],
            decreases self@.planets.len() - i,
        {
            r.push((PlanetId(i), &self.planets[i]));
            i = i + 1;
        }
        r
    }

    /// The fleets on their way, in the order they were launched.
    pub fn fleets(&self) -> (r: &Vec<Fleet>)
        ensures
            r@ == self@.fleets,
    {
        &self.fleets
    }

    /// The planet with identity `id`, if there is one.
    pub fn planet(&self, id: PlanetId) -> (r: Result<&Planet, ()>)
        ensures
            r is Ok <==> is_planet(self@, id),
            r matches Ok(p) ==> *p == self@.planets[id.0 as int],
    {
        if self.planets.len() <= id.0 {
            Err(())
        } else {
            Ok(&self.planets[id.0])
        }
    }

    /// All players with their identities, in order.
    pub fn players(&self) -> (r: Vec<(PlayerId, &Player)>)
        ensures
            r@.len() == self@.players.len(),
            forall|i: int| 0 <= i < r@.len() ==> (#[trigger] r@[i]).0 == PlayerId(i as usize) && *r@[i].1 == self@.players[i],
    {
        let mut r: Vec<(PlayerId, &Player)> = Vec::new();
        let mut i: usize = 0;
        while i < self.players.len()
            invariant
                i <= self@.players.len(),
                r@.len() == i,
                forall|k: int| 0 <= k < i ==> (#[trigger] r@[k]).0 == PlayerId(k as usize) && *r@[k].1 == self@.players[k],
            decreases self@.players.len() - i,
        {
            r.push((PlayerId(i), &self.players[i]));
            i = i + 1;
        }
        r
    }

    /// The player with identity `id`, if there is one.
    pub fn player(&self, id: PlayerId) -> (r: Result<&Player, ()>)
        ensures
            r is Ok <==> is_player(self@, id),
            r matches Ok(p) ==> *p == self@.players[id.0 as int],
    {
        if self.players.len() <= id.0 {
            Err(())
        } else {
            Ok(&self.players[id.0])
        }
    }

    /// Width and height of the grid.
    pub fn size(&self) -> (r: (usize, usize))
        ensures
            r == (self@.w, self@.h),
    {
        (self.w, self.h)
    }

    /// The winner: the one player left in the game, if exactly one is.
    pub fn get_winner(&self) -> (r: Option<PlayerId>)
        requires
            self.well_formed(),
        ensures
            r matches Some(p) ==> sole_remaining(self@, p),
            r is None ==> forall|p: PlayerId| !sole_remaining(self@, p),
    {
        let players = self.remaining_players();
        if players.len() == 1 {
            assert(players@.contains(players@[0]));
            Some(players[0])
        } else {
            proof {
                assert forall|p: PlayerId| !sole_remaining(self@, p) by {
                    if sole_remaining(self@, p) {
                        assert(players@.contains(p));
                        if players@.len() > 1 {
                            assert(remaining(self@, players@[0]) && remaining(self@, players@[1]));
                            assert(players@[0].0 < players@[1].0);
                        }
                    }
                }
            }
            None
        }
    }

    /// The players that still own a planet or a fleet, by increasing identity.
    pub fn remaining_players(&self) -> (r: Vec<PlayerId>)
        requires
            self.well_formed(),
        ensures
            forall|p: PlayerId| r@.contains(p) <==> remaining(self@, p),
            forall|i: int, j: int| 0 <= i < j < r@.len() ==> (#[trigger] r@[i]).0 < (#[trigger] r@[j]).0,
    {
        let flags = self.alive_flags();
        let mut r: Vec<PlayerId> = Vec::new();
        let mut p: usize = 0;
        while p < flags.len()
            invariant
                flags@.len() == self@.players.len(),
                forall|q: int| 0 <= q < flags@.len() ==> #[trigger] flags@[q] == remaining(self@, PlayerId(q as usize)),
                p <= flags@.len(),
                forall|q: PlayerId| r@.contains(q) <==> q.0 < p && remaining(self@, q),
                forall|i: int| 0 <= i < r@.len() ==> (#[trigger] r@[i]).0 < p,
                forall|i: int, j: int| 0 <= i < j < r@.len() ==> (#[trigger] r@[i]).0 < (#[trigger] r@[j]).0,
            decreases flags@.len() - p,
        {
            let ghost prev = r@;
            assert(flags@[p as int] == remaining(self@, PlayerId(p)));
            if flags[p] {
                r.push(PlayerId(p));
            }
            assert forall|q: PlayerId| r@.contains(q) <==> q.0 < p + 1 && remaining(self@, q) by {
                if q.0 == p {
                    if remaining(self@, q) {
                        assert(r@[r@.len() - 1] == q);
                    }
                    if r@.contains(q) {
                        let k = choose|k: int| 0 <= k < r@.len() && r@[k] == q;
                        if k < prev.len() {
                            assert(prev[k] == r@[k]);
                        }
                    }
                } else {
                    if r@.contains(q) {
                        let k = choose|k: int| 0 <= k < r@.len() && r@[k] == q;
                        assert(k < prev.len());
                        assert(prev.contains(q));
                    }
                    if q.0 < p && remaining(self@, q) {
                        assert(prev.contains(q));
                        let k = choose|k: int| 0 <= k < prev.len() && prev[k] == q;
                        assert(r@[k] == q);
                    }
                }
            }
            p = p + 1;
        }
        proof {
            assert forall|q: PlayerId| remaining(self@, q) implies q.0 < self@.players.len() by {
                if exists|k: int| 0 <= k < self@.planets.len() && #[trigger] self@.planets[k].owner == Some(q) {
                    let k = choose|k: int| 0 <= k < self@.planets.len() && #[trigger] self@.planets[k].owner == Some(q);
                } else {
                    let k = choose|k: int| 0 <= k < self@.fleets.len() && #[trigger] self@.fleets[k].owner == q;
                    assert(fleet_ok(self@, self@.fleets[k]));
                }
            }
        }
        r
    }

    /// Queues an order to send `count` ships of `player_id` from one planet
    /// to another when the turn ends. Ships already claimed by orders queued
    /// this turn from the same planet cannot be sent twice. On refusal
    /// nothing changes.
    pub fn queue_fleet(
        &mut self,
        player_id: PlayerId,
        source_planet_id: PlanetId,
        destination_planet_id: PlanetId,
        count: usize,
    ) -> (r: Result<(), CouldNotSend>)
        requires
            old(self).well_formed(),
        ensures
            final(self).well_formed(),
            r == order_verdict(old(self)@, player_id, source_planet_id, destination_planet_id, count),
            r is Ok ==> final(self)@ == (GameView {
                orders: old(self)@.orders.push(
                    (player_id, SendShipsCommand { source_planet_id, destination_planet_id, count }),
                ),
                ..old(self)@
            }),
            r is Err ==> final(self)@ == old(self)@,
    {
        if self.planets.len() <= source_planet_id.0 || self.planets.len() <= destination_planet_id.0 {
            return Err(CouldNotSend::NoSuchPlanet);
        }
        if self.planets[source_planet_id.0].owner != Some(player_id) {
            return Err(CouldNotSend::NotYourPlanet);
        }
        if source_planet_id.0 == destination_planet_id.0 {
            return Err(CouldNotSend::SamePlanet);
        }
        let ghost v = self@;
        let ghost src = source_planet_id.0 as int;
        let mut planet_queued_ships: usize = 0;
        let mut i: usize = 0;
        while i < self.queued_commands.len()
            invariant
                self@ == v,
                game_ok(v),
                src == source_planet_id.0,
                0 <= src < v.planets.len(),
                0 <= i <= v.orders.len(),
                planet_queued_ships == queued_from(v.orders.take(i as int), src),
            decreases v.orders.len() - i,
        {
            proof {
                lemma_queued_from_prefix(v.orders, src, i + 1);
                assert(v.orders.take(i + 1).drop_last() =~= v.orders.take(i as int));
                assert(v.orders.take(i + 1).last() == v.orders[i as int]);
                assert(queued_from(v.orders, src) <= v.planets[src].ships);
            }
            let (_player, command) = self.queued_commands[i];
            assert(command == v.orders[i as int].1);
            assert(queued_from(v.orders.take(i + 1), src) == queued_from(v.orders.take(i as int), src)
                + if command.source_planet_id.0 == src { command.count as int } else { 0 });
            if command.source_planet_id.0 == source_planet_id.0 {
                planet_queued_ships = planet_queued_ships + command.count;
            }
            i = i + 1;
        }
        proof {
            assert(v.orders.take(i as int) =~= v.orders);
        }
        let planet_remaining_ships = self.planets[source_planet_id.0].ships - planet_queued_ships;
        if planet_remaining_ships < count {
            return Err(CouldNotSend::NotEnoughShips);
        }
        let order = (player_id, SendShipsCommand { source_planet_id, destination_planet_id, count });
        self.queued_commands.push(order);
        proof {
            let nv = self@;
            assert(nv.planets == v.planets);
            assert(nv.fleets == v.fleets);
            assert forall|k: int| 0 <= k < nv.planets.len() implies #[trigger] in_grid(nv, k) by {
                assert(in_grid(v, k));
            }
            assert forall|k: int| 0 <= k < nv.fleets.len() implies fleet_ok(nv, #[trigger] nv.fleets[k]) by {
                assert(fleet_ok(v, v.fleets[k]));
            }
            assert forall|p: int| 0 <= p < nv.planets.len() implies #[trigger] queued_from(nv.orders, p)
                <= nv.planets[p].ships by {
                lemma_queued_from_push(v.orders, order, p);
            }
            assert forall|k: int| 0 <= k < nv.orders.len() implies order_ok(nv, #[trigger] nv.orders[k]) by {
                if k < v.orders.len() {
                    assert(nv.orders[k] == v.orders[k]);
                }
            }
        }
        Ok(())
    }
}

} // verus!
