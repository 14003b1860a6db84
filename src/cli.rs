//! The turn order and the commands of an interactive game: players move one
//! after the other, and the turn ends once all have moved.
use vstd::prelude::*;
use rand::rngs::StdRng;
use crate::combat::DuelOutcome;
use crate::game::{game_ok, named_planets, order_verdict, remaining, Game, GameView, SendShipsCommand};
use crate::names::{lemma_planet_letters_distinct, planet_letter};
use crate::model::{CouldNotSend, Message, PlanetId, PlayerId};
use crate::turn::{turn_fits, turn_played};

verus! {

/// A game together with whose move it is and who still moves this turn.
pub struct Cli {
    game: Game,
    current_player_id: PlayerId,
    players_to_make_moves: Vec<PlayerId>,
}

pub struct CliView {
    pub game: GameView,
    pub current: PlayerId,
    /// The players still to move this turn; the last one moves next.
    pub waiting: Seq<PlayerId>,
}

impl View for Cli {
    type V = CliView;

    closed spec fn view(&self) -> CliView {
        CliView { game: self.game@, current: self.current_player_id, waiting: self.players_to_make_moves@ }
    }
}

/// What a command asks the caller to show.
#[derive(Debug)]
pub enum Reply {
    /// The move passed to the next player.
    NextPlayer,
    /// The turn ended with these messages.
    TurnEnded(Vec<Message>),
    /// An order was queued.
    Queued,
    /// Show the planets named by the remaining words, or all of them.
    Info,
    /// Show the travel times between the planets named by the remaining
    /// words, or between all of them.
    Distances,
}

/// Whether the players in `s` come by strictly decreasing identity, so that
/// taking from the end gives them by increasing identity.
pub open spec fn decreasing(s: Seq<PlayerId>) -> bool {
    forall|i: int, j: int| 0 <= i < j < s.len() ==> (#[trigger] s[i]).0 > (#[trigger] s[j]).0
}

/// A string of decimal digits, at least one.
pub open spec fn is_digits(s: Seq<char>) -> bool {
    s.len() > 0 && forall|i: int| 0 <= i < s.len() ==> '0' <= #[trigger] s[i] <= '9'
}

/// The number that decimal digits write.
pub open spec fn digits_value(s: Seq<char>) -> int
    decreases s.len(),
{
    if s.len() == 0 {
        0
    } else {
        digits_value(s.drop_last()) * 10 + (s.last() as u32 - '0' as u32)
    }
}

/// `s` writes the number `n`: decimal digits, with an optional leading `+`.
pub open spec fn writes_number(s: Seq<char>, n: int) -> bool {
    ||| is_digits(s) && digits_value(s) == n
    ||| s.len() > 0 && s[0] == '+' && is_digits(s.skip(1)) && digits_value(s.skip(1)) == n
}

/// Relies on `usize::from_str_radix(s, 10)`: it accepts an optional `+`
/// followed by decimal digits whose value fits in `usize`, and refuses
/// anything else.
#[verifier::external_body]
fn parse_count(s: &str) -> (r: Option<usize>)
    ensures
        r matches Some(n) ==> writes_number(s@, n as int),
        is_digits(s@) && digits_value(s@) <= usize::MAX ==> r == Some(digits_value(s@) as usize),
{
    usize::from_str_radix(s, 10).ok()
}

/// `w` is the one-letter word `c`.
pub open spec fn is_letter(w: Seq<char>, c: char) -> bool {
    w.len() == 1 && w[0] == c
}

fn is_word(s: &String, c: char) -> (r: bool)
    ensures
        r == is_letter(s@, c),
{
    if s.as_str().unicode_len() == 1 {
        s.as_str().get_char(0) == c
    } else {
        false
    }
}

/// The first word of `tokens` is the letter `c`.
pub open spec fn command_is(tokens: Seq<String>, c: char) -> bool {
    tokens.len() > 0 && is_letter(tokens[0]@, c)
}

/// `after` is `before` with the order of the words `tokens` queued for the
/// player whose move it is: `count` ships from `source` to `destination`.
pub open spec fn queued_order(
    before: CliView,
    after: CliView,
    tokens: Seq<String>,
    source: PlanetId,
    destination: PlanetId,
    count: usize,
) -> bool {
    &&& names_planet(before.game, tokens[1]@, source)
    &&& names_planet(before.game, tokens[2]@, destination)
    &&& writes_number(tokens[3]@, count as int)
    &&& order_verdict(before.game, before.current, source, destination, count) is Ok
    &&& after == (CliView {
        game: GameView {
            orders: before.game.orders.push(
                (before.current, SendShipsCommand { source_planet_id: source, destination_planet_id: destination, count }),
            ),
            ..before.game
        },
        ..before
    })
}

/// `name` is the name of planet `id`.
pub open spec fn names_planet(v: GameView, name: Seq<char>, id: PlanetId) -> bool {
    id.0 < named_planets(v) && name == planet_letter(id.0 as int)
}

impl CouldNotSend {
    /// The name of the reason.
    pub fn describe(&self) -> (r: String)
        ensures
            r@ == match self {
                CouldNotSend::NoSuchPlanet => "NoSuchPlanet"@,
                CouldNotSend::NotYourPlanet => "NotYourPlanet"@,
                CouldNotSend::SamePlanet => "SamePlanet"@,
                CouldNotSend::NotEnoughShips => "NotEnoughShips"@,
            },
    {
        match self {
            CouldNotSend::NoSuchPlanet => "NoSuchPlanet".to_owned(),
            CouldNotSend::NotYourPlanet => "NotYourPlanet".to_owned(),
            CouldNotSend::SamePlanet => "SamePlanet".to_owned(),
            CouldNotSend::NotEnoughShips => "NotEnoughShips".to_owned(),
        }
    }
}

impl Cli {
    pub open spec fn well_formed(&self) -> bool {
        self@.game.players.len() >= 1 && game_ok(self@.game)
    }

    /// Starts an interactive game: the first player moves first.
    pub fn new(game: Game) -> (r: Cli)
        requires
            game.well_formed(),
            game@.players.len() >= 1,
        ensures
            r.well_formed(),
            r@.game == game@,
            r@.current == PlayerId(0),
            r@.waiting.len() == game@.players.len(),
            forall|i: int| 0 <= i < r@.waiting.len() ==> #[trigger] r@.waiting[i] == PlayerId(i as usize),
    {
        let players = game.players();
        let mut ids: Vec<PlayerId> = Vec::new();
        let mut i: usize = 0;
        while i < players.len()
            invariant
                players@.len() == game@.players.len(),
                i <= players@.len(),
                ids@.len() == i,
                forall|k: int| 0 <= k < i ==> #[trigger] ids@[k] == PlayerId(k as usize),
            decreases players@.len() - i,
        {
            ids.push(PlayerId(i));
            i = i + 1;
        }
        Cli { game, current_player_id: PlayerId(0), players_to_make_moves: ids }
    }

    /// The game being played.
    pub fn game(&self) -> (r: &Game)
        ensures
            r@ == self@.game,
    {
        &self.game
    }

    /// The player whose move it is.
    pub fn current_player(&self) -> (r: PlayerId)
        ensures
            r == self@.current,
    {
        self.current_player_id
    }

    /// Carries out one command, given as its words: `n` ends the current
    /// player's move, `s A B n` orders `n` ships from planet `A` to planet
    /// `B`, `i` and `d` ask to show planets and distances. A refused
    /// command changes nothing and says why.
    pub fn do_command(&mut self, tokens: &Vec<String>, rng: &mut StdRng) -> (r: Result<Reply, String>)
        requires
            old(self).well_formed(),
        ensures
            final(self).well_formed(),
            r is Err ==> final(self)@ == old(self)@,
            tokens@.len() == 0 ==> (r matches Err(e) && e@ == "No command provided"@),
            command_is(tokens@, 'i') ==> (r matches Ok(Reply::Info) && final(self)@ == old(self)@),
            command_is(tokens@, 'd') ==> (r matches Ok(Reply::Distances) && final(self)@ == old(self)@),
            tokens@.len() > 0 && !command_is(tokens@, 'n') && !command_is(tokens@, 'i') && !command_is(tokens@, 's')
                && !command_is(tokens@, 'd') ==> (r matches Err(e) && e@ == "No command"@),
            command_is(tokens@, 'n') && old(self)@.waiting.len() > 0 ==> (r matches Ok(Reply::NextPlayer) && final(self)@
                == (CliView {
                current: old(self)@.waiting.last(),
                waiting: old(self)@.waiting.drop_last(),
                ..old(self)@
            })),
            command_is(tokens@, 'n') && old(self)@.waiting.len() == 0 && turn_fits(old(self)@.game) ==> (r matches Ok(
                Reply::TurnEnded(m),
            ) && exists|outs: Seq<DuelOutcome>| turn_played(old(self)@.game, final(self)@.game, m@, outs)),
            command_is(tokens@, 'n') && old(self)@.waiting.len() == 0 && !turn_fits(old(self)@.game) ==> r is Err,
            command_is(tokens@, 's') && tokens@.len() != 4 ==> (r matches Err(e) && e@
                == "Need a source and destination planet and a number of ships"@),
            r matches Ok(Reply::Queued) ==> command_is(tokens@, 's') && exists|
                source: PlanetId,
                destination: PlanetId,
                count: usize,
            | queued_order(old(self)@, final(self)@, tokens@, source, destination, count),
            command_is(tokens@, 's') && r is Ok ==> r matches Ok(Reply::Queued),
            forall|source: PlanetId, destination: PlanetId|
                command_is(tokens@, 's') && tokens@.len() == 4 && names_planet(old(self)@.game, tokens@[1]@, source)
                    && names_planet(old(self)@.game, tokens@[2]@, destination) && is_digits(tokens@[3]@)
                    && digits_value(tokens@[3]@) <= usize::MAX ==> (r is Ok <==> order_verdict(
                    old(self)@.game,
                    old(self)@.current,
                    source,
                    destination,
                    digits_value(tokens@[3]@) as usize,
                ) is Ok),
    {
        if tokens.len() < 1 {
            return Err("No command provided".to_owned());
        }
        if is_word(&tokens[0], 'n') {
            if self.next_player() {
                if !self.game.can_end_turn() {
                    return Err("Too many ships to play another turn".to_owned());
                }
                let ghost before = self@.game;
                let messages = self.complete_turn(rng);
                proof {
                    assert(!is_letter(tokens@[0]@, 's'));
                    assert(before == old(self)@.game);
                }
                let reply = Reply::TurnEnded(messages);
                assert(reply matches Reply::TurnEnded(m) && m@ == messages@);
                return Ok(reply);
            }
            return Ok(Reply::NextPlayer);
        }
        if is_word(&tokens[0], 'i') {
            return Ok(Reply::Info);
        }
        if is_word(&tokens[0], 'd') {
            return Ok(Reply::Distances);
        }
        if !is_word(&tokens[0], 's') {
            return Err("No command".to_owned());
        }
        if tokens.len() != 4 {
            return Err("Need a source and destination planet and a number of ships".to_owned());
        }
        let src = match self.game.get_planet_id(&tokens[1]) {
            Ok(id) => id,
            Err(e) => {
                return Err(e);
            },
        };
        let dest = match self.game.get_planet_id(&tokens[2]) {
            Ok(id) => id,
            Err(e) => {
                return Err(e);
            },
        };
        let count = match parse_count(tokens[3].as_str()) {
            Some(n) => n,
            None => {
                return Err("Invalid number of ships".to_owned());
            },
        };
        let ghost v = self@;
        let queued = self.game.queue_fleet(self.current_player_id, src, dest, count);
        proof {
            assert forall|source: PlanetId, destination: PlanetId|
                names_planet(v.game, tokens@[1]@, source) && names_planet(v.game, tokens@[2]@, destination)
                    implies source == src && destination == dest by {
                lemma_planet_letters_distinct(source.0 as int, src.0 as int);
                lemma_planet_letters_distinct(destination.0 as int, dest.0 as int);
            }
        }
        match queued {
            Ok(()) => {
                proof {
                    assert(queued_order(v, self@, tokens@, src, dest, count));
                }
                Ok(Reply::Queued)
            },
            Err(e) => Err(e.describe()),
        }
    }

    /// Everyone still in the game moves again, by increasing identity.
    fn reset_moves(&mut self)
        requires
            old(self).well_formed(),
        ensures
            final(self)@.game == old(self)@.game,
            final(self)@.current == old(self)@.current,
            forall|p: PlayerId| final(self)@.waiting.contains(p) <==> remaining(old(self)@.game, p),
            decreasing(final(self)@.waiting),
    {
        let alive = self.game.remaining_players();
        let mut order: Vec<PlayerId> = Vec::new();
        let mut k: usize = alive.len();
        while k > 0
            invariant
                k <= alive@.len(),
                order@.len() == alive@.len() - k,
                forall|i: int| 0 <= i < order@.len() ==> #[trigger] order@[i] == alive@[alive@.len() - 1 - i],
                forall|i: int, j: int| 0 <= i < j < alive@.len() ==> (#[trigger] alive@[i]).0 < (#[trigger] alive@[j]).0,
            decreases k,
        {
            k = k - 1;
            order.push(alive[k]);
        }
        proof {
            assert forall|p: PlayerId| order@.contains(p) <==> alive@.contains(p) by {
                if order@.contains(p) {
                    let i = choose|i: int| 0 <= i < order@.len() && order@[i] == p;
                    assert(alive@[alive@.len() - 1 - i] == p);
                }
                if alive@.contains(p) {
                    let i = choose|i: int| 0 <= i < alive@.len() && alive@[i] == p;
                    assert(order@[alive@.len() - 1 - i] == p);
                }
            }
            assert forall|i: int, j: int| 0 <= i < j < order@.len() implies (#[trigger] order@[i]).0
                > (#[trigger] order@[j]).0 by {
                assert(order@[i] == alive@[alive@.len() - 1 - i]);
                assert(order@[j] == alive@[alive@.len() - 1 - j]);
            }
        }
        self.players_to_make_moves = order;
    }

    /// Hands the move to the next player waiting; gives true, with nothing
    /// changed, when no one is left to move this turn.
    fn next_player(&mut self) -> (turn_over: bool)
        ensures
            final(self)@.game == old(self)@.game,
            turn_over == (old(self)@.waiting.len() == 0),
            turn_over ==> final(self)@ == old(self)@,
            !turn_over ==> final(self)@.current == old(self)@.waiting.last()
                && final(self)@.waiting == old(self)@.waiting.drop_last(),
    {
        match self.players_to_make_moves.pop() {
            Some(p) => {
                self.current_player_id = p;
                false
            },
            None => true,
        }
    }

    /// Ends the turn for everyone: plays it, then the players still in the
    /// game move again, by increasing identity.
    pub fn complete_turn(&mut self, rng: &mut StdRng) -> (messages: Vec<Message>)
        requires
            old(self).well_formed(),
            turn_fits(old(self)@.game),
        ensures
            final(self).well_formed(),
            exists|outs: Seq<DuelOutcome>| turn_played(old(self)@.game, final(self)@.game, messages@, outs),
            forall|p: PlayerId|
                final(self)@.waiting.contains(p) <==> remaining(final(self)@.game, p) && p != final(self)@.current,
            decreasing(final(self)@.waiting),
            (exists|p: PlayerId| remaining(final(self)@.game, p)) ==> {
                &&& remaining(final(self)@.game, final(self)@.current)
                &&& forall|p: PlayerId| remaining(final(self)@.game, p) ==> final(self)@.current.0 <= p.0
            },
    {
        let messages = self.game.end_turn(rng);
        self.reset_moves();
        let ghost full = self@.waiting;
        let _ = self.next_player();
        proof {
            if full.len() > 0 {
                assert forall|p: PlayerId| remaining(self@.game, p) implies self@.current.0 <= p.0 by {
                    assert(full.contains(p));
                    let i = choose|i: int| 0 <= i < full.len() && full[i] == p;
                    if i < full.len() - 1 {
                        assert(full[i].0 > full[full.len() - 1].0);
                    }
                }
                assert(full.contains(full.last()));
                assert forall|p: PlayerId| self@.waiting.contains(p) <==> remaining(self@.game, p) && p != self@.current by {
                    if self@.waiting.contains(p) {
                        let i = choose|i: int| 0 <= i < self@.waiting.len() && self@.waiting[i] == p;
                        assert(full[i] == p);
                        assert(full[i].0 > full[full.len() - 1].0);
                    }
                    if remaining(self@.game, p) && p != self@.current {
                        assert(full.contains(p));
                        let i = choose|i: int| 0 <= i < full.len() && full[i] == p;
                        assert(i != full.len() - 1);
                        assert(self@.waiting[i] == p);
                    }
                }
            } else {
                assert forall|p: PlayerId| !remaining(self@.game, p) by {
                    if remaining(self@.game, p) {
                        assert(full.contains(p));
                    }
                }
            }
            assert forall|i: int, j: int| 0 <= i < j < self@.waiting.len() implies (#[trigger] self@.waiting[i]).0
                > (#[trigger] self@.waiting[j]).0 by {
                assert(self@.waiting[i] == full[i] && self@.waiting[j] == full[j]);
            }
        }
        messages
    }
}

} // verus!
