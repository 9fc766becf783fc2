//! Cards, hands and draw actions as plain values.

use vstd::prelude::*;

verus! {

/// Number of cards in the catalog; a card is identified by its index below this bound.
pub const CATALOG_SIZE: u8 = 53;

/// Number of slots in a hand.
pub const HAND_SIZE: usize = 7;

/// One entry of the fixed card catalog, identified by its index.
#[derive(Clone, Copy, Debug, PartialEq, Eq, Hash, Structural)]
pub struct Card {
    pub id: u8,
}

impl Card {
    /// A card is well formed when its index lies inside the catalog.
    pub open spec fn wf(&self) -> bool {
        self.id < CATALOG_SIZE
    }

    /// Whether the card lies inside the catalog.
    pub fn in_catalog(&self) -> (r: bool)
        ensures
            r == self.wf(),
    {
        self.id < CATALOG_SIZE
    }

    /// The card with catalog index `id`, if there is one.
    pub fn new(id: u8) -> (r: Option<Card>)
        ensures
            id < CATALOG_SIZE ==> r == Some(Card { id }),
            id >= CATALOG_SIZE ==> r.is_none(),
    {
        if id < CATALOG_SIZE {
            Some(Card { id })
        } else {
            None
        }
    }
}

/// Where a player takes the new card from.
#[derive(Clone, Copy, Debug, PartialEq, Eq, Hash, Structural)]
pub enum DrawCard {
    /// The unseen top card of the face-down deck.
    Deck,
    /// A specific visible card of the discard pile.
    Discard(Card),
}

impl DrawCard {
    /// The index of the visible card taken, or `None` for a deck draw.
    pub open spec fn source(&self) -> Option<u8> {
        match *self {
            DrawCard::Deck => None,
            DrawCard::Discard(c) => Some(c.id),
        }
    }
}

/// Seven cards in fixed slots.
#[derive(Clone, Copy, Debug)]
pub struct Hand {
    pub cards: [Card; 7],
}

impl View for Hand {
    type V = Seq<u8>;

    /// The catalog indices of the held cards, slot by slot.
    open spec fn view(&self) -> Seq<u8> {
        Seq::new(7, |i: int| self.cards[i].id)
    }
}

impl Hand {
    /// Every held card lies inside the catalog.
    pub open spec fn wf(&self) -> bool {
        forall|i: int| 0 <= i < 7 ==> (#[trigger] self.cards[i]).wf()
    }

    /// A hand holding `cards` in the given slots.
    pub fn new(cards: [Card; 7]) -> (r: Hand)
        ensures
            r.cards == cards,
    {
        Hand { cards }
    }

    /// Whether every held card lies inside the catalog.
    pub fn in_catalog(&self) -> (r: bool)
        ensures
            r == self.wf(),
    {
        let mut i: usize = 0;
        while i < 7
            invariant
                i <= 7,
                forall|k: int| 0 <= k < i ==> (#[trigger] self.cards[k]).wf(),
            decreases 7 - i,
        {
            if !self.cards[i].in_catalog() {
                return false;
            }
            i = i + 1;
        }
        true
    }

    /// Whether the seven held cards are all different.
    pub fn is_distinct(&self) -> (r: bool)
        ensures
            r == self@.no_duplicates(),
    {
        let mut i: usize = 0;
        while i < 7
            invariant
                i <= 7,
                forall|a: int, b: int| 0 <= a < i && a < b < 7 ==> self@[a] != self@[b],
            decreases 7 - i,
        {
            let mut j: usize = i + 1;
            while j < 7
                invariant
                    i < 7,
                    i < j <= 7,
                    forall|a: int, b: int| 0 <= a < i && a < b < 7 ==> self@[a] != self@[b],
                    forall|b: int| i < b < j ==> self@[i as int] != self@[b],
                decreases 7 - j,
            {
                if self.cards[i].id == self.cards[j].id {
                    assert(self@[i as int] == self@[j as int]);
                    return false;
                }
                j = j + 1;
            }
            i = i + 1;
        }
        true
    }

    /// The card held in `slot`.
    pub fn card(&self, slot: usize) -> (r: Card)
        requires
            slot < HAND_SIZE,
        ensures
            r == self.cards[slot as int],
            r.id == self@[slot as int],
    {
        self.cards[slot]
    }

    /// A copy of this hand with `card` placed in `slot`.
    pub fn replace(&self, slot: usize, card: Card) -> (r: Hand)
        requires
            slot < HAND_SIZE,
        ensures
            r.cards@ == self.cards@.update(slot as int, card),
            r@ == self@.update(slot as int, card.id),
            self.wf() && card.wf() ==> r.wf(),
    {
        let mut cards = self.cards;
        cards[slot] = card;
        let r = Hand { cards };
        assert(r@ =~= self@.update(slot as int, card.id));
        r
    }
}

} // verus!
