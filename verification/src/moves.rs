//! One-move outcomes: swapping a card into a slot of the hand, and the set
//! of cards that could still be unseen.

use vstd::prelude::*;
use fantasy_realms_unofficial_api::card_collection::CardCollection;
use crate::cards::Card;
use crate::cards::Hand;
use crate::cards::HAND_SIZE;
use crate::collection::catalog;
use crate::collection::collection_ids;
use crate::collection::complement;
use crate::collection::empty_collection;
use crate::collection::hand_collection;
use crate::collection::holds;
use crate::collection::overlaps;
use crate::collection::within_catalog;
use crate::collection::join;
use crate::collection::subtract;
use crate::collection::sum_collections;
use crate::collection::union_of;
use crate::collection::with_card;
use crate::collection::without_card;

verus! {

/// The discard pile after `card` went into `slot` of `hand`: the slot's
/// former card joins the pile, then `card` leaves it.
pub open spec fn swapped_pile(hand: Seq<u8>, pile: Set<u8>, slot: int, card: u8) -> Set<u8> {
    pile.insert(hand[slot]).remove(card)
}

/// The catalog cards seen nowhere: neither among the opponents' known
/// cards, nor in the discard pile, nor in the hand.
pub open spec fn unknown_ids(hand: Seq<u8>, pile: Set<u8>, known: Set<u8>) -> Set<u8> {
    catalog().difference(known.union(pile).union(hand.to_set()))
}

/// A position as a game keeps it: seven different cards in the hand, none
/// of them in the discard pile or known to be an opponent's, and no pile
/// card known to be an opponent's.
pub open spec fn consistent(hand: Seq<u8>, pile: Set<u8>, known: Set<u8>) -> bool {
    &&& hand.len() == 7
    &&& hand.no_duplicates()
    &&& forall|i: int| 0 <= i < 7 ==> !pile.contains(#[trigger] hand[i]) && !known.contains(hand[i])
    &&& pile.disjoint(known)
}

/// A position that the search accepts: consistent, with a pile that holds
/// nothing outside the catalog.
pub open spec fn sound(hand: Seq<u8>, pile: Set<u8>, known: Set<u8>) -> bool {
    &&& consistent(hand, pile, known)
    &&& pile.subset_of(catalog())
}

/// A card that can come from the deck: a catalog card seen nowhere in the position.
pub open spec fn fresh(card: u8, hand: Seq<u8>, pile: Set<u8>, known: Set<u8>) -> bool {
    unknown_ids(hand, pile, known).contains(card)
}

/// Whether the hand holds catalog cards only and the position is sound.
pub fn is_sound(hand: &Hand, pile: &CardCollection, known_opponent_cards: &Vec<CardCollection>) -> (r: bool)
    ensures
        r == (hand.wf() && sound(hand@, collection_ids(*pile), union_of(known_opponent_cards@))),
{
    if !hand.in_catalog() || !hand.is_distinct() || !within_catalog(pile) {
        return false;
    }
    let held = hand_collection(hand);
    let known = sum_collections(known_opponent_cards);
    let ghost h = hand@;
    let ghost p = collection_ids(*pile);
    let ghost k = collection_ids(known);
    let a = overlaps(&held, pile);
    let b = overlaps(&held, &known);
    let c = overlaps(pile, &known);
    proof {
        if !a && !b {
            assert forall|i: int| 0 <= i < 7 implies !p.contains(#[trigger] h[i]) && !k.contains(h[i]) by {
                assert(h.contains(h[i]));
                assert(h.to_set().contains(h[i]));
            }
        }
        if a {
            let x = choose|x: u8| h.to_set().contains(x) && p.contains(x);
            assert(h.contains(x));
            let i = choose|i: int| 0 <= i < h.len() && h[i] == x;
            assert(p.contains(h[i]));
        }
        if b {
            let x = choose|x: u8| h.to_set().contains(x) && k.contains(x);
            assert(h.contains(x));
            let i = choose|i: int| 0 <= i < h.len() && h[i] == x;
            assert(k.contains(h[i]));
        }
    }
    !a && !b && !c
}

/// Whether `card` can come from the deck in this position.
pub fn is_fresh(
    card: &Card,
    hand: &Hand,
    pile: &CardCollection,
    known_opponent_cards: &Vec<CardCollection>,
) -> (r: bool)
    requires
        hand.wf(),
    ensures
        r == fresh(card.id, hand@, collection_ids(*pile), union_of(known_opponent_cards@)),
{
    if !card.in_catalog() {
        return false;
    }
    let unknown = unknown_cards(hand, pile, known_opponent_cards);
    holds(&unknown, *card)
}

/// The hand and discard pile that result from taking `card` into `slot`.
/// Neither argument is changed.
pub fn swap_in(hand: &Hand, pile: &CardCollection, slot: usize, card: Card) -> (r: (Hand, CardCollection))
    requires
        hand.wf(),
        card.wf(),
        slot < HAND_SIZE,
    ensures
        r.0@ == hand@.update(slot as int, card.id),
        r.0.wf(),
        collection_ids(r.1) == swapped_pile(hand@, collection_ids(*pile), slot as int, card.id),
        collection_ids(*pile).subset_of(catalog()) ==> collection_ids(r.1).subset_of(catalog()),
{
    let former = hand.card(slot);
    (hand.replace(slot, card), without_card(with_card(*pile, former), card))
}

/// The cards that could still be unseen by the holder of `hand`.
pub fn unknown_cards(
    hand: &Hand,
    pile: &CardCollection,
    known_opponent_cards: &Vec<CardCollection>,
) -> (r: CardCollection)
    requires
        hand.wf(),
    ensures
        collection_ids(r) == unknown_ids(hand@, collection_ids(*pile), union_of(known_opponent_cards@)),
{
    let seen = join(join(sum_collections(known_opponent_cards), *pile), hand_collection(hand));
    let nothing = empty_collection();
    assert(collection_ids(nothing).subset_of(catalog()));
    let all = complement(nothing);
    assert(collection_ids(all) =~= catalog());
    subtract(all, seen)
}

} // verus!
