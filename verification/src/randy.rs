//! Randy plays random moves: each card of the discard pile and the deck are
//! equally likely draws, and each held card and the drawn card are equally
//! likely discards.

use vstd::prelude::*;
use fantasy_realms_unofficial_api::card_collection::CardCollection;
use rand::seq::SliceRandom;
use crate::bot::FantasyRealmsBot;
use crate::cards::Card;
use crate::cards::DrawCard;
use crate::cards::Hand;
use crate::collection::collection_ids;
use crate::collection::in_order;
use crate::collection::lemma_ascending_members;
use crate::collection::ordered_cards;

verus! {

/// `SliceRandom::choose` with the generator of `rand::thread_rng`: nothing
/// from an empty list, else one of its items. Which one is left open.
#[verifier::external_body]
pub(crate) fn pick<T: Copy>(items: &Vec<T>) -> (r: Option<T>)
    ensures
        items@.len() == 0 ==> r.is_none(),
        items@.len() > 0 ==> r.is_some() && items@.contains(r.unwrap()),
{
    items.choose(&mut rand::thread_rng()).copied()
}

/// What may be drawn: each catalog card of the pile in ascending order,
/// then the deck.
pub open spec fn draw_choices(pile: Set<u8>) -> Seq<Option<u8>> {
    in_order(pile).map_values(|id: u8| Some(id)).push(None)
}

/// What may be discarded: each held card in the order of the slots, then
/// the card drawn.
pub open spec fn discard_choices(hand: Seq<u8>, drawn: u8) -> Seq<u8> {
    hand.push(drawn)
}

/// The draws among which chance decides.
pub fn draw_options(discard_pile: &CardCollection) -> (r: Vec<DrawCard>)
    ensures
        r@.map_values(|d: DrawCard| d.source()) == draw_choices(collection_ids(*discard_pile)),
        forall|k: int| 0 <= k < r@.len() ==> ((#[trigger] r@[k]) matches DrawCard::Discard(c) ==> c.wf()),
{
    let visible = ordered_cards(discard_pile);
    let ghost ids = in_order(collection_ids(*discard_pile));
    let mut cards: Vec<DrawCard> = Vec::new();
    let mut j: usize = 0;
    while j < visible.len()
        invariant
            j <= visible@.len(),
            visible@.len() == ids.len(),
            forall|k: int| 0 <= k < visible@.len() ==> (#[trigger] visible@[k]).wf(),
            forall|k: int| 0 <= k < visible@.len() ==> (#[trigger] visible@[k]).id == ids[k],
            cards@.len() == j,
            forall|k: int| 0 <= k < j ==> (#[trigger] cards@[k]) == DrawCard::Discard(visible@[k]),
        decreases visible@.len() - j,
    {
        cards.push(DrawCard::Discard(visible[j]));
        j = j + 1;
    }
    cards.push(DrawCard::Deck);
    assert(cards@.map_values(|d: DrawCard| d.source()) =~= draw_choices(collection_ids(*discard_pile)));
    cards
}

/// The discards among which chance decides.
pub fn discard_options(hand: &Hand, draw: &Card) -> (r: Vec<Card>)
    ensures
        r@.map_values(|c: Card| c.id) == discard_choices(hand@, draw.id),
        r@.len() == 8,
        forall|k: int| 0 <= k < 7 ==> r@[k] == hand.cards[k],
        r@[7] == *draw,
{
    let mut cards: Vec<Card> = Vec::new();
    let mut i: usize = 0;
    while i < 7
        invariant
            i <= 7,
            cards@.len() == i,
            forall|k: int| 0 <= k < i ==> cards@[k] == hand.cards[k],
        decreases 7 - i,
    {
        cards.push(hand.card(i));
        i = i + 1;
    }
    cards.push(*draw);
    assert(cards@.map_values(|c: Card| c.id) =~= discard_choices(hand@, draw.id));
    cards
}

/// The policy that decides by chance.
#[derive(Clone, Copy, Debug)]
pub struct Randy;

impl FantasyRealmsBot for Randy {
    /// Chance weighs nothing.
    open spec fn weighs_draw(&self) -> bool {
        false
    }

    fn name(&self) -> (r: String)
        ensures
            r@ == "Randy"@,
    {
        "Randy".to_owned()
    }

    /// Draws one of `draw_choices`: from the deck, or some catalog card of
    /// the discard pile.
    fn generate_draw(
        &mut self,
        hand: &Hand,
        discard_pile: &CardCollection,
        known_opponent_cards: &Vec<CardCollection>,
        minimum_turns_remaining: u8,
    ) -> (r: DrawCard)
        ensures
            draw_choices(collection_ids(*discard_pile)).contains(r.source()),
            r matches DrawCard::Discard(c) ==> c.wf() && collection_ids(*discard_pile).contains(c.id),
    {
        let options = draw_options(discard_pile);
        let ghost choices = options@.map_values(|d: DrawCard| d.source());
        match pick(&options) {
            Some(r) => {
                proof {
                    let k = choose|k: int| 0 <= k < options@.len() && options@[k] == r;
                    let ids = in_order(collection_ids(*discard_pile));
                    assert(choices[k] == r.source());
                    assert(choices == ids.map_values(|id: u8| Some(id)).push(None));
                    assert(choices.len() == ids.len() + 1);
                    lemma_ascending_members(collection_ids(*discard_pile), 53);
                    if k < ids.len() {
                        assert(choices[k] == Some(ids[k]));
                    }
                }
                r
            },
            None => {
                assert(draw_choices(collection_ids(*discard_pile)).last() == None::<u8>);
                DrawCard::Deck
            },
        }
    }

    /// Gives up one of `discard_choices`: a held card, or the card drawn.
    fn generate_discard(
        &mut self,
        hand: &Hand,
        discard_pile: &CardCollection,
        known_opponent_cards: &Vec<CardCollection>,
        minimum_turns_remaining: u8,
        draw: &Card,
    ) -> (r: Card)
        ensures
            discard_choices(hand@, draw.id).contains(r.id),
            r == *draw || exists|i: int| 0 <= i < 7 && hand.cards[i] == r,
    {
        let options = discard_options(hand, draw);
        let ghost choices = options@.map_values(|c: Card| c.id);
        match pick(&options) {
            Some(r) => {
                proof {
                    let k = choose|k: int| 0 <= k < options@.len() && options@[k] == r;
                    assert(choices[k] == r.id);
                }
                r
            },
            None => {
                assert(discard_choices(hand@, draw.id)[7] == draw.id);
                *draw
            },
        }
    }
}

} // verus!
