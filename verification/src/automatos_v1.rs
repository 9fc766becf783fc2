//! AutomatosV1 plays the move with the best evaluation at the end of its
//! own turn. A visible card is evaluated by the score it gives in each
//! slot; the deck by the mean score over every card that could be drawn.

use vstd::prelude::*;
use fantasy_realms_unofficial_api::card_collection::CardCollection;
use crate::bot::FantasyRealmsBot;
use crate::cards::Card;
use crate::cards::DrawCard;
use crate::cards::Hand;
use crate::collection::collection_ids;
use crate::collection::union_of;
use crate::search::best_discard;
use crate::search::best_draw;
use crate::search::plan_discard;
use crate::search::plan_draw;
use crate::search::Plan;

verus! {

/// The discard that a draw decision settles in advance: the card given up
/// by a swap with the discard pile, and nothing for a deck draw.
pub open spec fn settled_discard(plan: Plan) -> Option<u8> {
    if plan.draw.is_some() {
        Some(plan.discard)
    } else {
        None
    }
}

/// The policy without lookahead.
pub struct AutomatosV1 {
    /// The discard settled by the last draw decision, if it was a swap
    /// with the discard pile.
    pub discard: Option<Card>,
}

impl AutomatosV1 {
    /// The index of the settled discard, if any.
    pub open spec fn settled(&self) -> Option<u8> {
        match self.discard {
            Some(c) => Some(c.id),
            None => None,
        }
    }

    /// A bot with nothing settled.
    pub fn new() -> (r: AutomatosV1)
        ensures
            r.discard.is_none(),
    {
        AutomatosV1 { discard: None }
    }
}

impl FantasyRealmsBot for AutomatosV1 {
    /// The drawn card is weighed when no discard is settled.
    open spec fn weighs_draw(&self) -> bool {
        self.discard.is_none()
    }

    fn name(&self) -> (r: String)
        ensures
            r@ == "AutomatosV1"@,
    {
        "AutomatosV1".to_owned()
    }

    /// Draws as the best plan without lookahead says, and remembers the
    /// discard when that plan swaps with the discard pile. Whatever was
    /// remembered before is forgotten.
    fn generate_draw(
        &mut self,
        hand: &Hand,
        discard_pile: &CardCollection,
        known_opponent_cards: &Vec<CardCollection>,
        minimum_turns_remaining: u8,
    ) -> (r: DrawCard)
        ensures
            r.source() == best_draw(hand@, collection_ids(*discard_pile), union_of(known_opponent_cards@), 0).draw,
            final(self).settled() == settled_discard(
                best_draw(hand@, collection_ids(*discard_pile), union_of(known_opponent_cards@), 0),
            ),
            final(self).discard matches Some(c) ==> c.wf(),
            r matches DrawCard::Discard(c) ==> c.wf(),
    {
        let turn = plan_draw(hand, discard_pile, known_opponent_cards, 0);
        match turn.draw {
            DrawCard::Deck => {
                self.discard = None;
            },
            DrawCard::Discard(_) => {
                self.discard = Some(turn.discard);
            },
        }
        turn.draw
    }

    /// Returns the remembered discard if there is one, whatever was drawn.
    /// Otherwise gives up the card that the best plan for the drawn card
    /// names. The bot's memory is left as it was.
    fn generate_discard(
        &mut self,
        hand: &Hand,
        discard_pile: &CardCollection,
        known_opponent_cards: &Vec<CardCollection>,
        minimum_turns_remaining: u8,
        draw: &Card,
    ) -> (r: Card)
        ensures
            *final(self) == *old(self),
            old(self).discard matches Some(c) ==> r == c,
            old(self).discard.is_none() ==> r.id == best_discard(
                hand@,
                collection_ids(*discard_pile),
                union_of(known_opponent_cards@),
                0,
                draw.id,
            ).discard,
    {
        match self.discard {
            Some(c) => c,
            None => {
                let turn = plan_discard(hand, discard_pile, known_opponent_cards, 0, draw);
                turn.discard
            },
        }
    }
}

} // verus!
