//! The closed set of bots, and their selection by name.

use vstd::prelude::*;
use vstd::string::StringExecFns;
use fantasy_realms_unofficial_api::card_collection::CardCollection;
use crate::automatos_v1::settled_discard;
use crate::automatos_v1::AutomatosV1;
use crate::automatos_v2::AutomatosV2;
use crate::bot::FantasyRealmsBot;
use crate::cards::Card;
use crate::cards::DrawCard;
use crate::cards::Hand;
use crate::collection::collection_ids;
use crate::collection::union_of;
use crate::randy::Randy;
use crate::search::best_discard;
use crate::search::best_draw;
use crate::search::depth_of;
use crate::text::fold_name;
use crate::text::folded;
use crate::text::trim_of;
use crate::text::trim_text;

verus! {

/// The complaint about a bot name that nothing answers to.
pub fn unknown_type_message(name: &str) -> (r: String)
    ensures
        r@ == "Unknown AI type: "@ + name@,
{
    "Unknown AI type: ".to_owned().concat(name)
}

/// One of the bots of this library.
pub enum Bot {
    Randy(Randy),
    AutomatosV1(AutomatosV1),
    AutomatosV2(AutomatosV2),
}

/// Who plays a seat: a person, by name, or a bot.
pub enum PlayerType {
    Human(String),
    Bot(Bot),
}

impl Bot {
    /// The discard that the bot has settled in advance, if any.
    pub open spec fn settled(&self) -> Option<u8> {
        match *self {
            Bot::Randy(_) => None,
            Bot::AutomatosV1(b) => b.settled(),
            Bot::AutomatosV2(b) => b.settled(),
        }
    }

    /// The plies of lookahead that the bot searches with `turns` turns remaining.
    pub open spec fn depth(&self, turns: u8) -> nat {
        match *self {
            Bot::AutomatosV2(_) => depth_of(turns),
            _ => 0,
        }
    }

    /// Whether the next discard decision weighs the drawn card.
    pub fn will_weigh_draw(&self) -> (r: bool)
        ensures
            r == self.weighs_draw(),
    {
        match self {
            Bot::Randy(_) => false,
            Bot::AutomatosV1(b) => b.discard.is_none(),
            Bot::AutomatosV2(b) => b.discard.is_none(),
        }
    }

    /// Whether the bot decides by search rather than by chance.
    pub open spec fn searches(&self) -> bool {
        !(*self is Randy)
    }

    /// Whether both are the same kind of bot.
    pub open spec fn same_kind(&self, other: &Bot) -> bool {
        match (*self, *other) {
            (Bot::Randy(_), Bot::Randy(_)) => true,
            (Bot::AutomatosV1(_), Bot::AutomatosV1(_)) => true,
            (Bot::AutomatosV2(_), Bot::AutomatosV2(_)) => true,
            _ => false,
        }
    }
}

impl FantasyRealmsBot for Bot {
    /// As the bot held.
    open spec fn weighs_draw(&self) -> bool {
        self.searches() && self.settled().is_none()
    }

    fn name(&self) -> (r: String)
        ensures
            *self is Randy ==> r@ == "Randy"@,
            *self is AutomatosV1 ==> r@ == "AutomatosV1"@,
            *self is AutomatosV2 ==> r@ == "AutomatosV2"@,
    {
        match self {
            Bot::Randy(b) => b.name(),
            Bot::AutomatosV1(b) => b.name(),
            Bot::AutomatosV2(b) => b.name(),
        }
    }

    /// Decides as the bot held does.
    fn generate_draw(
        &mut self,
        hand: &Hand,
        discard_pile: &CardCollection,
        known_opponent_cards: &Vec<CardCollection>,
        minimum_turns_remaining: u8,
    ) -> (r: DrawCard)
        ensures
            final(self).same_kind(old(self)),
            r matches DrawCard::Discard(c) ==> c.wf(),
            !old(self).searches() ==> (r matches DrawCard::Discard(c) ==> collection_ids(*discard_pile).contains(
                c.id,
            )),
            old(self).searches() ==> r.source() == best_draw(
                hand@,
                collection_ids(*discard_pile),
                union_of(known_opponent_cards@),
                old(self).depth(minimum_turns_remaining),
            ).draw,
            old(self).searches() ==> final(self).settled() == settled_discard(
                best_draw(
                    hand@,
                    collection_ids(*discard_pile),
                    union_of(known_opponent_cards@),
                    old(self).depth(minimum_turns_remaining),
                ),
            ),
    {
        match self {
            Bot::Randy(b) => b.generate_draw(hand, discard_pile, known_opponent_cards, minimum_turns_remaining),
            Bot::AutomatosV1(b) => b.generate_draw(
                hand,
                discard_pile,
                known_opponent_cards,
                minimum_turns_remaining,
            ),
            Bot::AutomatosV2(b) => b.generate_draw(
                hand,
                discard_pile,
                known_opponent_cards,
                minimum_turns_remaining,
            ),
        }
    }

    /// Decides as the bot held does.
    fn generate_discard(
        &mut self,
        hand: &Hand,
        discard_pile: &CardCollection,
        known_opponent_cards: &Vec<CardCollection>,
        minimum_turns_remaining: u8,
        draw: &Card,
    ) -> (r: Card)
        ensures
            final(self).same_kind(old(self)),
            final(self).settled() == old(self).settled(),
            old(self).settled() matches Some(c) ==> r.id == c,
            !old(self).searches() ==> r == *draw || exists|i: int| 0 <= i < 7 && hand.cards[i] == r,
            old(self).searches() && old(self).settled().is_none() ==> r.id == best_discard(
                hand@,
                collection_ids(*discard_pile),
                union_of(known_opponent_cards@),
                old(self).depth(minimum_turns_remaining),
                draw.id,
            ).discard,
    {
        match self {
            Bot::Randy(b) => b.generate_discard(
                hand,
                discard_pile,
                known_opponent_cards,
                minimum_turns_remaining,
                draw,
            ),
            Bot::AutomatosV1(b) => b.generate_discard(
                hand,
                discard_pile,
                known_opponent_cards,
                minimum_turns_remaining,
                draw,
            ),
            Bot::AutomatosV2(b) => b.generate_discard(
                hand,
                discard_pile,
                known_opponent_cards,
                minimum_turns_remaining,
                draw,
            ),
        }
    }
}

/// Which bot a name asks for: the first of Randy, AutomatosV1 and
/// AutomatosV2 whose name matches it once both are trimmed and put in
/// lower case.
pub open spec fn bot_named(name: Seq<char>) -> Option<int> {
    if folded(name) == folded("Randy"@) {
        Some(0)
    } else if folded(name) == folded("AutomatosV1"@) {
        Some(1)
    } else if folded(name) == folded("AutomatosV2"@) {
        Some(2)
    } else {
        None
    }
}

/// A fresh bot of the kind that `bot_type` names, with nothing settled; or
/// a message that quotes the trimmed name when no bot answers to it.
pub fn new_bot(bot_type: String) -> (r: Result<Bot, String>)
    ensures
        bot_named(bot_type@) == Some(0int) ==> (r matches Ok(Bot::Randy(_))),
        bot_named(bot_type@) == Some(1int) ==> (r matches Ok(Bot::AutomatosV1(b)) && b.discard.is_none()),
        bot_named(bot_type@) == Some(2int) ==> (r matches Ok(Bot::AutomatosV2(b)) && b.discard.is_none()),
        bot_named(bot_type@).is_none() ==> (r matches Err(e) && e@ == "Unknown AI type: "@ + trim_of(bot_type@)),
{
    let wanted = fold_name(bot_type.as_str());
    let randy = Bot::Randy(Randy);
    if fold_name(randy.name().as_str()) == wanted {
        return Ok(randy);
    }
    let first = Bot::AutomatosV1(AutomatosV1::new());
    if fold_name(first.name().as_str()) == wanted {
        return Ok(first);
    }
    let second = Bot::AutomatosV2(AutomatosV2::new());
    if fold_name(second.name().as_str()) == wanted {
        return Ok(second);
    }
    Err(unknown_type_message(trim_text(bot_type.as_str())))
}

} // verus!
