use planets::cli::{Cli, Reply};
use planets::game::Game;
use planets::model::{CouldNotSend, PlanetId, Player, PlayerId};
use rand::rngs::StdRng;
use rand::SeedableRng;

fn words(line: &str) -> Vec<String> {
    line.split_whitespace().map(|s| s.to_string()).collect()
}

fn cli_for(names: &[&str], seed: u64) -> (Cli, StdRng) {
    let mut rng = StdRng::seed_from_u64(seed);
    let players = names.iter().map(|n| Player { name: n.to_string() }).collect();
    let game = Game::new(6, 6, players, vec![], &mut rng).unwrap();
    (Cli::new(game), rng)
}

#[test]
fn the_first_player_moves_first() {
    let (cli, _rng) = cli_for(&["Alice", "Bob", "Charlotte"], 1);
    assert_eq!(cli.current_player(), PlayerId(0));
}

#[test]
fn finishing_a_move_hands_over_then_ends_the_turn() {
    let (mut cli, mut rng) = cli_for(&["Alice", "Bob"], 2);
    assert!(matches!(cli.do_command(&words("n"), &mut rng), Ok(Reply::NextPlayer)));
    assert_eq!(cli.current_player(), PlayerId(1));
    assert!(matches!(cli.do_command(&words("n"), &mut rng), Ok(Reply::NextPlayer)));
    assert_eq!(cli.current_player(), PlayerId(0));
    match cli.do_command(&words("n"), &mut rng) {
        Ok(Reply::TurnEnded(messages)) => assert!(messages.is_empty()),
        _ => panic!("the turn should have ended"),
    }
    assert_eq!(cli.current_player(), PlayerId(0));
    assert_eq!(cli.game().planet(PlanetId(0)).unwrap().ships, 20);
    assert!(matches!(cli.do_command(&words("n"), &mut rng), Ok(Reply::NextPlayer)));
    assert_eq!(cli.current_player(), PlayerId(1));
}

#[test]
fn commands_are_recognised_by_their_first_word() {
    let (mut cli, mut rng) = cli_for(&["Alice", "Bob"], 3);
    assert_eq!(cli.do_command(&words(""), &mut rng).unwrap_err(), "No command provided");
    assert_eq!(cli.do_command(&words("x"), &mut rng).unwrap_err(), "No command");
    assert_eq!(cli.do_command(&words("nn"), &mut rng).unwrap_err(), "No command");
    assert!(matches!(cli.do_command(&words("i"), &mut rng), Ok(Reply::Info)));
    assert!(matches!(cli.do_command(&words("i A B"), &mut rng), Ok(Reply::Info)));
    assert!(matches!(cli.do_command(&words("d A"), &mut rng), Ok(Reply::Distances)));
    assert_eq!(cli.current_player(), PlayerId(0));
}

#[test]
fn send_commands_queue_orders() {
    let (mut cli, mut rng) = cli_for(&["Alice", "Bob"], 4);
    assert_eq!(
        cli.do_command(&words("s A B"), &mut rng).unwrap_err(),
        "Need a source and destination planet and a number of ships"
    );
    assert_eq!(cli.do_command(&words("s A Q 3"), &mut rng).unwrap_err(), "no such planet");
    assert_eq!(cli.do_command(&words("s AB B 3"), &mut rng).unwrap_err(), "Planet names are a single character");
    assert_eq!(cli.do_command(&words("s A B three"), &mut rng).unwrap_err(), "Invalid number of ships");
    assert_eq!(cli.do_command(&words("s A B -3"), &mut rng).unwrap_err(), "Invalid number of ships");
    assert_eq!(cli.do_command(&words("s B A 3"), &mut rng).unwrap_err(), "NotYourPlanet");
    assert_eq!(cli.do_command(&words("s A A 3"), &mut rng).unwrap_err(), "SamePlanet");
    assert_eq!(cli.do_command(&words("s A B 11"), &mut rng).unwrap_err(), "NotEnoughShips");
    assert!(matches!(cli.do_command(&words("s A B 7"), &mut rng), Ok(Reply::Queued)));
    assert!(matches!(cli.do_command(&words("s A B +3"), &mut rng), Ok(Reply::Queued)));
    assert_eq!(cli.do_command(&words("s A B 1"), &mut rng).unwrap_err(), "NotEnoughShips");
    // The ships leave when the turn ends.
    assert_eq!(cli.game().planet(PlanetId(0)).unwrap().ships, 10);
    let mut ended = false;
    for _ in 0..3 {
        if let Ok(Reply::TurnEnded(_)) = cli.do_command(&words("n"), &mut rng) {
            ended = true;
            break;
        }
    }
    assert!(ended);
    assert_eq!(cli.game().planet(PlanetId(0)).unwrap().ships, 10);
}

#[test]
fn refusals_are_named() {
    assert_eq!(CouldNotSend::NoSuchPlanet.describe(), "NoSuchPlanet");
    assert_eq!(CouldNotSend::NotYourPlanet.describe(), "NotYourPlanet");
    assert_eq!(CouldNotSend::SamePlanet.describe(), "SamePlanet");
    assert_eq!(CouldNotSend::NotEnoughShips.describe(), "NotEnoughShips");
}

#[test]
fn home_planets_are_placed_at_random() {
    let mut placements = Vec::new();
    for seed in 0..10 {
        let mut rng = StdRng::seed_from_u64(seed);
        let players = vec![Player { name: "A".into() }, Player { name: "B".into() }];
        let game = Game::new(10, 10, players, vec![], &mut rng).unwrap();
        let cells: Vec<(usize, usize)> = game.planets().iter().map(|(_, p)| p.pos).collect();
        placements.push(cells);
    }
    placements.sort();
    placements.dedup();
    assert!(placements.len() > 1);
}
