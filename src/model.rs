//! Identities, players, planets, fleets, and the results of operations.
use vstd::prelude::*;

verus! {

/// Identity of a player: its index in the game's player list.
#[derive(Clone, Copy, Debug, PartialEq, Eq, Structural, PartialOrd, Ord, Hash)]
pub struct PlayerId(pub usize);

/// Identity of a planet: its index in the game's planet list.
#[derive(Clone, Copy, Debug, PartialEq, Eq, Structural, PartialOrd, Ord, Hash)]
pub struct PlanetId(pub usize);

/// Identity of a fleet in flight.
#[derive(Clone, Copy, Debug, PartialEq, Eq, Structural, PartialOrd, Ord, Hash)]
pub struct FleetId(pub usize);

/// A grid cell: column, then row.
pub type Pos = (usize, usize);

#[derive(Clone, Debug)]
pub struct Player {
    pub name: String,
}

/// Ships in flight towards a planet.
#[derive(Clone, Copy, Debug)]
pub struct Fleet {
    pub ships: usize,
    /// Combat power, as a percentage: the chance that one of its shots hits.
    pub strength: usize,
    /// Turns left before it arrives; it arrives in the turn that brings this to zero.
    pub turns_to_arrival: usize,
    pub destination: PlanetId,
    pub owner: PlayerId,
}

#[derive(Debug)]
pub struct Planet {
    pub name: String,
    pub ships: usize,
    /// Combat power, as a percentage: the chance that one of its shots hits.
    pub strength: usize,
    /// Ships added each turn while the planet has an owner.
    pub production: usize,
    pub pos: Pos,
    pub owner: Option<PlayerId>,
}

/// Why an order to send ships was refused.
#[derive(Debug, PartialEq, Eq, Structural)]
pub enum CouldNotSend {
    NoSuchPlanet,
    NotYourPlanet,
    SamePlanet,
    NotEnoughShips,
}

/// Why a game could not be created.
#[derive(Debug, PartialEq, Eq, Structural)]
pub enum CouldNotCreateGame {
    TooManyPlanets,
}

/// What happened during a turn, in the order it happened.
#[derive(Clone, Debug)]
pub enum Message {
    AttackFailed(Fleet),
    AttackSucceeded(Fleet),
    ReinforcementsArrived(Fleet),
    PlayerEliminated(Player),
}

} // verus!
