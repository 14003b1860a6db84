use planets::combat::{duel, DuelOutcome};
use planets::game::{Game, NeutralPlanet};
use planets::geometry::distance;
use planets::model::{CouldNotCreateGame, CouldNotSend, Message, Planet, PlanetId, Player, PlayerId};
use rand::rngs::StdRng;
use rand::SeedableRng;

fn players(names: &[&str]) -> Vec<Player> {
    names.iter().map(|n| Player { name: n.to_string() }).collect()
}

fn planet_at(x: usize, y: usize) -> Planet {
    Planet { name: "A".to_string(), ships: 0, strength: 0, production: 0, pos: (x, y), owner: None }
}

fn two_player_game(seed: u64) -> (Game, StdRng) {
    let mut rng = StdRng::seed_from_u64(seed);
    let game = Game::new(2, 1, players(&["Alice", "Bob"]), vec![], &mut rng).unwrap();
    (game, rng)
}

#[test]
fn distance_is_half_the_euclidean_distance_rounded_up() {
    assert_eq!(distance(&planet_at(0, 0), &planet_at(1, 0)), 1);
    assert_eq!(distance(&planet_at(0, 0), &planet_at(2, 0)), 1);
    assert_eq!(distance(&planet_at(0, 0), &planet_at(1, 1)), 1);
    assert_eq!(distance(&planet_at(0, 0), &planet_at(3, 4)), 3);
    assert_eq!(distance(&planet_at(0, 0), &planet_at(4, 0)), 2);
    assert_eq!(distance(&planet_at(7, 7), &planet_at(0, 0)), 5);
    assert_eq!(distance(&planet_at(2, 5), &planet_at(2, 5)), 0);
}

#[test]
fn distance_is_symmetric() {
    for (a, b) in [((0, 0), (5, 3)), ((1, 7), (6, 2)), ((3, 3), (3, 0))] {
        let pa = planet_at(a.0, a.1);
        let pb = planet_at(b.0, b.1);
        assert_eq!(distance(&pa, &pb), distance(&pb, &pa));
    }
}

#[test]
fn new_game_refuses_more_planets_than_cells() {
    let mut rng = StdRng::seed_from_u64(1);
    let r = Game::new(1, 2, players(&["A", "B", "C"]), vec![], &mut rng);
    assert!(matches!(r, Err(CouldNotCreateGame::TooManyPlanets)));
    let neutral = vec![NeutralPlanet { strength: 50, production: 5 }];
    let r = Game::new(1, 2, players(&["A", "B"]), neutral, &mut rng);
    assert!(matches!(r, Err(CouldNotCreateGame::TooManyPlanets)));
}

#[test]
fn new_game_fills_a_grid_exactly() {
    let mut rng = StdRng::seed_from_u64(2);
    let neutral = vec![NeutralPlanet { strength: 55, production: 4 }, NeutralPlanet { strength: 0, production: 0 }];
    let game = Game::new(2, 2, players(&["A", "B"]), neutral, &mut rng).unwrap();
    let mut cells: Vec<(usize, usize)> = game.planets().iter().map(|(_, p)| p.pos).collect();
    cells.sort();
    assert_eq!(cells, vec![(0, 0), (0, 1), (1, 0), (1, 1)]);
}

#[test]
fn fresh_game_gives_each_player_one_home_planet() {
    let mut rng = StdRng::seed_from_u64(3);
    let game = Game::new(8, 8, players(&["Alice", "Bob", "Charlotte"]), vec![], &mut rng).unwrap();
    let planets = game.planets();
    assert_eq!(planets.len(), 3);
    let names = ["A", "B", "C"];
    for (i, (id, p)) in planets.iter().enumerate() {
        assert_eq!(*id, PlanetId(i));
        assert_eq!(p.owner, Some(PlayerId(i)));
        assert_eq!(p.ships, 10);
        assert_eq!(p.strength, 40);
        assert_eq!(p.production, 10);
        assert_eq!(p.name, names[i]);
        assert!(p.pos.0 < 8 && p.pos.1 < 8);
    }
    assert_ne!(planets[0].1.pos, planets[1].1.pos);
    assert_ne!(planets[0].1.pos, planets[2].1.pos);
    assert_ne!(planets[1].1.pos, planets[2].1.pos);
    assert_eq!(game.size(), (8, 8));
    assert_eq!(game.remaining_players(), vec![PlayerId(0), PlayerId(1), PlayerId(2)]);
    assert!(game.fleets().is_empty());
}

#[test]
fn neutral_planets_follow_the_home_planets() {
    let mut rng = StdRng::seed_from_u64(4);
    let neutral = vec![NeutralPlanet { strength: 63, production: 2 }, NeutralPlanet { strength: 100, production: 10 }];
    let game = Game::new(5, 5, players(&["Alice"]), neutral, &mut rng).unwrap();
    let p = game.planet(PlanetId(1)).unwrap();
    assert_eq!((p.name.as_str(), p.ships, p.strength, p.production, p.owner), ("B", 0, 63, 7, None));
    let p = game.planet(PlanetId(2)).unwrap();
    assert_eq!((p.name.as_str(), p.ships, p.strength, p.production, p.owner), ("C", 0, 100, 15, None));
    assert!(game.planet(PlanetId(3)).is_err());
    assert_eq!(game.player(PlayerId(0)).unwrap().name, "Alice");
    assert!(game.player(PlayerId(1)).is_err());
    let players = game.players();
    assert_eq!(players.len(), 1);
    assert_eq!(players[0].0, PlayerId(0));
}

#[test]
fn planet_names_resolve_to_identities() {
    let mut rng = StdRng::seed_from_u64(5);
    let neutral = vec![NeutralPlanet { strength: 10, production: 1 }];
    let game = Game::new(4, 4, players(&["Alice", "Bob"]), neutral, &mut rng).unwrap();
    assert_eq!(game.get_planet_id(&"A".to_string()), Ok(PlanetId(0)));
    assert_eq!(game.get_planet_id(&"C".to_string()), Ok(PlanetId(2)));
    assert_eq!(game.get_planet_id(&"D".to_string()), Err("no such planet".to_string()));
    assert_eq!(game.get_planet_id(&"a".to_string()), Err("no such planet".to_string()));
    assert_eq!(game.get_planet_id(&"AB".to_string()), Err("Planet names are a single character".to_string()));
    assert_eq!(game.get_planet_id(&"".to_string()), Err("Planet names are a single character".to_string()));
}

#[test]
fn orders_are_checked_in_order() {
    let (mut game, _rng) = two_player_game(6);
    assert_eq!(game.queue_fleet(PlayerId(0), PlanetId(2), PlanetId(1), 1), Err(CouldNotSend::NoSuchPlanet));
    assert_eq!(game.queue_fleet(PlayerId(0), PlanetId(0), PlanetId(5), 1), Err(CouldNotSend::NoSuchPlanet));
    assert_eq!(game.queue_fleet(PlayerId(0), PlanetId(1), PlanetId(0), 1), Err(CouldNotSend::NotYourPlanet));
    assert_eq!(game.queue_fleet(PlayerId(0), PlanetId(0), PlanetId(0), 1), Err(CouldNotSend::SamePlanet));
    assert_eq!(game.queue_fleet(PlayerId(0), PlanetId(0), PlanetId(1), 11), Err(CouldNotSend::NotEnoughShips));
    assert_eq!(game.queue_fleet(PlayerId(0), PlanetId(0), PlanetId(1), 10), Ok(()));
}

#[test]
fn orders_from_one_planet_share_its_ships() {
    let (mut game, _rng) = two_player_game(7);
    assert_eq!(game.queue_fleet(PlayerId(0), PlanetId(0), PlanetId(1), 6), Ok(()));
    assert_eq!(game.queue_fleet(PlayerId(0), PlanetId(0), PlanetId(1), 5), Err(CouldNotSend::NotEnoughShips));
    assert_eq!(game.queue_fleet(PlayerId(0), PlanetId(0), PlanetId(1), 4), Ok(()));
    assert_eq!(game.queue_fleet(PlayerId(0), PlanetId(0), PlanetId(1), 1), Err(CouldNotSend::NotEnoughShips));
    assert_eq!(game.queue_fleet(PlayerId(0), PlanetId(0), PlanetId(1), 0), Ok(()));
    // Queued ships stay on the planet until the turn ends.
    assert_eq!(game.planet(PlanetId(0)).unwrap().ships, 10);
}

#[test]
fn production_goes_to_owned_planets_before_orders() {
    let mut rng = StdRng::seed_from_u64(8);
    let neutral = vec![NeutralPlanet { strength: 50, production: 3 }];
    let mut game = Game::new(9, 9, players(&["Alice", "Bob"]), neutral, &mut rng).unwrap();
    assert_eq!(game.queue_fleet(PlayerId(1), PlanetId(1), PlanetId(0), 4), Ok(()));
    assert!(game.can_end_turn());
    game.end_turn(&mut rng);
    assert_eq!(game.planet(PlanetId(1)).unwrap().ships, 16);
    assert_eq!(game.planet(PlanetId(2)).unwrap().ships, 0);
    // While the fleet is on its way no ship has been lost.
    if game.fleets().len() == 1 {
        assert_eq!(game.planet(PlanetId(0)).unwrap().ships, 20);
        let total: usize = game.planets().iter().map(|(_, p)| p.ships).sum::<usize>()
            + game.fleets().iter().map(|f| f.ships).sum::<usize>();
        assert_eq!(total, 40);
    }
}

#[test]
fn an_attack_next_door_is_settled_in_one_turn() {
    for seed in 0..20 {
        let (mut game, mut rng) = two_player_game(seed);
        let a = game.planet(PlanetId(0)).unwrap();
        let b = game.planet(PlanetId(1)).unwrap();
        assert_eq!(distance(a, b), 1);
        assert_eq!(game.queue_fleet(PlayerId(0), PlanetId(0), PlanetId(1), 9), Ok(()));
        let messages = game.end_turn(&mut rng);
        assert!(game.fleets().is_empty());
        assert_eq!(game.planet(PlanetId(0)).unwrap().ships, 11);
        let b = game.planet(PlanetId(1)).unwrap();
        match &messages[0] {
            Message::AttackSucceeded(f) => {
                assert_eq!(b.owner, Some(PlayerId(0)));
                assert_eq!(b.ships, f.ships);
                assert!(f.ships >= 1 && f.ships <= 9);
            }
            Message::AttackFailed(f) => {
                assert_eq!(b.owner, Some(PlayerId(1)));
                assert!(b.ships <= 20);
                assert_eq!(f.ships, 0);
            }
            _ => panic!("the fleet should have fought"),
        }
        assert_eq!(messages.iter().filter(|m| !matches!(m, Message::PlayerEliminated(_))).count(), 1);
        let second = game.end_turn(&mut rng);
        assert!(second.is_empty());
    }
}

#[test]
fn reinforcements_join_without_a_fight() {
    let mut rng = StdRng::seed_from_u64(9);
    let mut game = Game::new(3, 1, players(&["Alice"]), vec![NeutralPlanet { strength: 0, production: 0 }], &mut rng).unwrap();
    // Take the neutral planet first: it has no ships and no power.
    let mut turns = 0;
    while game.planet(PlanetId(1)).unwrap().owner.is_none() {
        let ships = game.planet(PlanetId(0)).unwrap().ships;
        if ships > 0 {
            assert_eq!(game.queue_fleet(PlayerId(0), PlanetId(0), PlanetId(1), ships), Ok(()));
        }
        game.end_turn(&mut rng);
        turns += 1;
        assert!(turns < 50);
    }
    while !game.fleets().is_empty() {
        game.end_turn(&mut rng);
    }
    let before = game.planet(PlanetId(1)).unwrap().ships;
    assert_eq!(game.queue_fleet(PlayerId(0), PlanetId(0), PlanetId(1), 3), Ok(()));
    let mut seen = false;
    let mut gained = 0;
    for _ in 0..5 {
        for m in game.end_turn(&mut rng) {
            match m {
                Message::ReinforcementsArrived(f) => {
                    assert_eq!(f.ships, 3);
                    assert_eq!(f.turns_to_arrival, 0);
                    seen = true;
                }
                _ => panic!("no fight should happen"),
            }
        }
        gained += 5;
        if seen {
            break;
        }
    }
    assert!(seen);
    assert_eq!(game.planet(PlanetId(1)).unwrap().ships, before + gained + 3);
}

#[test]
fn full_defense_against_powerless_attack_always_holds() {
    let mut rng = StdRng::seed_from_u64(10);
    for attackers in 1..20 {
        for defenders in 0..5 {
            assert_eq!(duel(attackers, 0, defenders, 100, &mut rng), DuelOutcome::Repelled { defenders_left: defenders });
        }
    }
}

#[test]
fn powerless_fights_end() {
    let mut rng = StdRng::seed_from_u64(11);
    assert_eq!(duel(3, 0, 4, 0, &mut rng), DuelOutcome::Repelled { defenders_left: 4 });
    assert_eq!(duel(3, 0, 0, 37, &mut rng), DuelOutcome::Repelled { defenders_left: 0 });
}

#[test]
fn full_attack_against_powerless_defense_always_wins() {
    let mut rng = StdRng::seed_from_u64(12);
    for attackers in 1..10 {
        for defenders in 0..10 {
            assert_eq!(duel(attackers, 100, defenders, 0, &mut rng), DuelOutcome::Captured { attackers_left: attackers });
        }
    }
}

#[test]
fn fights_only_lose_ships() {
    let mut rng = StdRng::seed_from_u64(13);
    for _ in 0..200 {
        match duel(8, 40, 6, 40, &mut rng) {
            DuelOutcome::Repelled { defenders_left } => assert!(defenders_left <= 6),
            DuelOutcome::Captured { attackers_left } => assert!((1..=8).contains(&attackers_left)),
        }
    }
}

#[test]
fn a_player_without_planet_or_fleet_is_eliminated() {
    let mut found = false;
    for seed in 0..40 {
        let (mut game, mut rng) = two_player_game(100 + seed);
        for _ in 0..300 {
            let ships = game.planet(PlanetId(0)).unwrap().ships;
            if game.planet(PlanetId(0)).unwrap().owner == Some(PlayerId(0)) && ships > 0 {
                assert_eq!(game.queue_fleet(PlayerId(0), PlanetId(0), PlanetId(1), ships), Ok(()));
            }
            let before = game.remaining_players();
            let messages = game.end_turn(&mut rng);
            let after = game.remaining_players();
            assert!(after.iter().all(|p| before.contains(p)));
            let eliminated: Vec<&Message> =
                messages.iter().filter(|m| matches!(m, Message::PlayerEliminated(_))).collect();
            assert_eq!(eliminated.len(), before.len() - after.len());
            if game.planet(PlanetId(1)).unwrap().owner == Some(PlayerId(0)) {
                assert_eq!(after, vec![PlayerId(0)]);
                assert_eq!(eliminated.len(), 1);
                match eliminated[0] {
                    Message::PlayerEliminated(p) => assert_eq!(p.name, "Bob"),
                    _ => unreachable!(),
                }
                assert_eq!(game.get_winner(), Some(PlayerId(0)));
                found = true;
                break;
            }
            assert_eq!(game.get_winner(), None);
        }
        if found {
            break;
        }
    }
    assert!(found);
}

#[test]
fn no_winner_while_two_players_remain() {
    let (game, _rng) = two_player_game(14);
    assert_eq!(game.get_winner(), None);
    assert_eq!(game.remaining_players(), vec![PlayerId(0), PlayerId(1)]);
}

#[test]
fn a_single_player_game_has_a_winner() {
    let mut rng = StdRng::seed_from_u64(15);
    let game = Game::new(3, 3, players(&["Solo"]), vec![], &mut rng).unwrap();
    assert_eq!(game.get_winner(), Some(PlayerId(0)));
}
