//! What a typed answer means, and how many turns a game has left.

use vstd::prelude::*;
use crate::cards::Card;
use crate::text::fold_name;
use crate::text::folded;
use crate::text::is_word;
use crate::text::parse_u8;
use crate::text::parsed_u8;
use crate::text::trim_of;
use crate::text::trim_text;

verus! {

/// The kind of player that takes a seat.
#[derive(Clone, Copy, Debug, PartialEq, Eq, Structural)]
pub enum Seat {
    Human,
    Bot,
}

/// Why an answer gave no number.
#[derive(Clone, Copy, Debug, PartialEq, Eq, Structural)]
pub enum NumberError {
    /// The answer spells a number outside the range asked for.
    OutOfRange,
    /// The answer spells no number.
    Invalid,
}

/// The seat that an answer names, case and outer whitespace aside.
pub open spec fn seat_of(answer: Seq<char>) -> Option<Seat> {
    let a = folded(answer);
    if a == "human"@ || a == "person"@ {
        Some(Seat::Human)
    } else if a == "bot"@ || a == "ai"@ || a == "robot"@ || a == "computer"@ {
        Some(Seat::Bot)
    } else {
        None
    }
}

/// The seat that `answer` names, if it names one.
pub fn seat_named(answer: &str) -> (r: Option<Seat>)
    ensures
        r == seat_of(answer@),
{
    let a = fold_name(answer);
    if is_word(&a, "human") || is_word(&a, "person") {
        Some(Seat::Human)
    } else if is_word(&a, "bot") || is_word(&a, "ai") || is_word(&a, "robot") || is_word(&a, "computer") {
        Some(Seat::Bot)
    } else {
        None
    }
}

/// Whether an answer says that the card was drawn unseen from the deck.
pub open spec fn deck_word(answer: Seq<char>) -> bool {
    let a = folded(answer);
    a == "none"@ || a == "nothing"@ || a == "deck"@ || a == "hidden"@
}

/// Whether `answer` says that the card was drawn unseen from the deck.
pub fn names_the_deck(answer: &str) -> (r: bool)
    ensures
        r == deck_word(answer@),
{
    let a = fold_name(answer);
    is_word(&a, "none") || is_word(&a, "nothing") || is_word(&a, "deck") || is_word(&a, "hidden")
}

/// Whether an answer asks for another game, where it says either.
pub open spec fn another_game(answer: Seq<char>) -> Option<bool> {
    let a = folded(answer);
    if a == "yes"@ || a == "yeah"@ || a == "ok"@ || a == "sure"@ {
        Some(true)
    } else if a == "no"@ {
        Some(false)
    } else {
        None
    }
}

/// Whether `answer` asks for another game; `None` where it says neither.
pub fn wants_new_game(answer: &str) -> (r: Option<bool>)
    ensures
        r == another_game(answer@),
{
    let a = fold_name(answer);
    if is_word(&a, "yes") || is_word(&a, "yeah") || is_word(&a, "ok") || is_word(&a, "sure") {
        Some(true)
    } else if is_word(&a, "no") {
        Some(false)
    } else {
        None
    }
}

/// The number that a parsed answer gives within `min..=max`.
pub fn number_within(parsed: Option<u8>, min: u8, max: u8) -> (r: Result<u8, NumberError>)
    ensures
        parsed matches Some(n) ==> (min <= n <= max ==> r == Ok::<u8, NumberError>(n)),
        parsed matches Some(n) ==> (!(min <= n <= max) ==> r == Err::<u8, NumberError>(NumberError::OutOfRange)),
        parsed.is_none() ==> r == Err::<u8, NumberError>(NumberError::Invalid),
{
    match parsed {
        Some(n) => {
            if min <= n && n <= max {
                Ok(n)
            } else {
                Err(NumberError::OutOfRange)
            }
        },
        None => Err(NumberError::Invalid),
    }
}

/// The number that the trimmed `answer` spells, if it lies within `min..=max`.
pub fn number_input(answer: &str, min: u8, max: u8) -> (r: Result<u8, NumberError>)
    ensures
        parsed_u8(trim_of(answer@)) matches Some(n) ==> (min <= n <= max ==> r == Ok::<u8, NumberError>(n)),
        parsed_u8(trim_of(answer@)) matches Some(n) ==> (!(min <= n <= max) ==> r == Err::<u8, NumberError>(
            NumberError::OutOfRange,
        )),
        parsed_u8(trim_of(answer@)).is_none() ==> r == Err::<u8, NumberError>(NumberError::Invalid),
{
    number_within(parse_u8(trim_text(answer)), min, max)
}

/// Adds `card` to `cards` unless it is among them already.
pub fn add_distinct(cards: &mut Vec<Card>, card: Card)
    ensures
        old(cards)@.contains(card) ==> final(cards)@ == old(cards)@,
        !old(cards)@.contains(card) ==> final(cards)@ == old(cards)@.push(card),
{
    let mut i: usize = 0;
    while i < cards.len()
        invariant
            i <= cards@.len(),
            cards@ == old(cards)@,
            forall|k: int| 0 <= k < i ==> cards@[k] != card,
        decreases cards@.len() - i,
    {
        if cards[i] == card {
            return ;
        }
        i = i + 1;
    }
    cards.push(card);
}

/// The discard pile ends the game at this size.
pub const PILE_LIMIT: u8 = 10;

/// The least number of turns that each player still has: the room left in
/// the discard pile, shared among the players.
pub fn minimum_turns_remaining(pile_size: u8, players: u8) -> (r: u8)
    requires
        pile_size <= PILE_LIMIT,
        players > 0,
    ensures
        r == (PILE_LIMIT - pile_size) / (players as int),
{
    (PILE_LIMIT - pile_size) / players
}

/// The opponents' known cards: every entry of `known` but the one at `current`.
pub fn all_but<T: Copy>(known: &Vec<T>, current: usize) -> (r: Vec<T>)
    ensures
        current < known@.len() ==> r@ == known@.remove(current as int),
        current >= known@.len() ==> r@ == known@,
{
    let mut r: Vec<T> = Vec::new();
    let mut i: usize = 0;
    while i < known.len()
        invariant
            i <= known@.len(),
            i <= current ==> r@ == known@.take(i as int),
            i > current ==> r@ == known@.remove(current as int).take(i - 1),
        decreases known@.len() - i,
    {
        if i != current {
            r.push(known[i]);
        }
        i = i + 1;
        assert(i <= current ==> r@ =~= known@.take(i as int));
        assert(i > current ==> r@ =~= known@.remove(current as int).take(i - 1));
    }
    assert(current < known@.len() ==> r@ =~= known@.remove(current as int));
    assert(current >= known@.len() ==> r@ =~= known@);
    r
}

} // verus!
