//! The interface that every automated player offers.

use vstd::prelude::*;
use fantasy_realms_unofficial_api::card_collection::CardCollection;
use crate::cards::Card;
use crate::cards::DrawCard;
use crate::cards::Hand;
use crate::collection::collection_ids;
use crate::collection::union_of;
use crate::moves::fresh;
use crate::moves::sound;

verus! {

/// An automated player. One decision is made in two calls, since the
/// identity of a card drawn from the deck is known only after the draw.
pub trait FantasyRealmsBot {
    /// Whether the next discard decision weighs the drawn card against
    /// the hand. It then asks for a card that can come from the deck.
    spec fn weighs_draw(&self) -> bool;

    /// The name of the bot.
    fn name(&self) -> String;

    /// Decides where to draw from, given the bot's hand, the discard pile,
    /// the cards of each opponent that are publicly known, and the least
    /// number of turns that remain.
    fn generate_draw(
        &mut self,
        hand: &Hand,
        discard_pile: &CardCollection,
        known_opponent_cards: &Vec<CardCollection>,
        minimum_turns_remaining: u8,
    ) -> DrawCard
        requires
            hand.wf(),
            sound(hand@, collection_ids(*discard_pile), union_of(known_opponent_cards@)),
    ;

    /// Decides which card to give up after `draw` was taken. The other
    /// arguments are those of the draw decision: the position as it was
    /// before the draw.
    fn generate_discard(
        &mut self,
        hand: &Hand,
        discard_pile: &CardCollection,
        known_opponent_cards: &Vec<CardCollection>,
        minimum_turns_remaining: u8,
        draw: &Card,
    ) -> Card
        requires
            hand.wf(),
            draw.wf(),
            sound(hand@, collection_ids(*discard_pile), union_of(known_opponent_cards@)),
            old(self).weighs_draw() ==> fresh(
                draw.id,
                hand@,
                collection_ids(*discard_pile),
                union_of(known_opponent_cards@),
            ),
    ;
}

} // verus!
