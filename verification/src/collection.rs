//! The shared card-set type and the scoring oracle, both supplied by the
//! `fantasy_realms_unofficial_api` crate, together with what this library
//! assumes of them.

use vstd::prelude::*;
use fantasy_realms_unofficial_api::card_collection::CardCollection;
use fantasy_realms_unofficial_api::card_collection::CardCollectionContains;
use crate::cards::Card;
use crate::cards::Hand;
use crate::cards::CATALOG_SIZE;

verus! {

/// The card-set type of `fantasy_realms_unofficial_api`, a bit set over card indices.
#[verifier::external_type_specification]
#[verifier::external_body]
pub struct ExCardCollection(CardCollection);

/// The card indices that a collection holds.
pub uninterp spec fn collection_ids(c: CardCollection) -> Set<u8>;

/// The score that the oracle gives a hand, listed slot by slot, against a discard pile.
pub uninterp spec fn hand_score(hand: Seq<u8>, pile: Set<u8>) -> int;

/// Every index of the catalog.
pub open spec fn catalog() -> Set<u8> {
    Set::new(|x: u8| x < CATALOG_SIZE)
}

/// `CardCollection::new`: the collection that holds no card.
#[verifier::external_body]
pub(crate) fn empty_collection() -> (r: CardCollection)
    ensures
        collection_ids(r) == Set::<u8>::empty(),
{
    CardCollection::new()
}

/// The `!` operator of `CardCollection`: the catalog cards that `c` lacks.
/// The operator subtracts a fixed mask after flipping the bits, which is
/// only sound when `c` holds nothing outside the catalog.
#[verifier::external_body]
pub(crate) fn complement(c: CardCollection) -> (r: CardCollection)
    requires
        collection_ids(c).subset_of(catalog()),
    ensures
        collection_ids(r) == catalog().difference(collection_ids(c)),
{
    !c
}

/// `CardCollection + Card`: `c` with `card` added.
#[verifier::external_body]
pub(crate) fn with_card(c: CardCollection, card: Card) -> (r: CardCollection)
    requires
        card.wf(),
    ensures
        collection_ids(r) == collection_ids(c).insert(card.id),
{
    c + fantasy_realms_unofficial_api::deck::Card::from(card.id)
}

/// `CardCollection - Card`: `c` with `card` taken out.
#[verifier::external_body]
pub(crate) fn without_card(c: CardCollection, card: Card) -> (r: CardCollection)
    requires
        card.wf(),
    ensures
        collection_ids(r) == collection_ids(c).remove(card.id),
{
    c - fantasy_realms_unofficial_api::deck::Card::from(card.id)
}

/// `CardCollection + CardCollection`: the union of the two.
#[verifier::external_body]
pub(crate) fn join(a: CardCollection, b: CardCollection) -> (r: CardCollection)
    ensures
        collection_ids(r) == collection_ids(a).union(collection_ids(b)),
{
    a + b
}

/// `CardCollection - CardCollection`: the cards of `a` that `b` lacks.
#[verifier::external_body]
pub(crate) fn subtract(a: CardCollection, b: CardCollection) -> (r: CardCollection)
    ensures
        collection_ids(r) == collection_ids(a).difference(collection_ids(b)),
{
    a - b
}

/// `CardCollectionContains<Card>::contains`: whether `c` holds `card`.
#[verifier::external_body]
pub(crate) fn holds(c: &CardCollection, card: Card) -> (r: bool)
    requires
        card.wf(),
    ensures
        r == collection_ids(*c).contains(card.id),
{
    c.contains(fantasy_realms_unofficial_api::deck::Card::from(card.id))
}

/// The `Sum` of `CardCollection`: the union of all the collections in `cs`.
#[verifier::external_body]
pub(crate) fn sum_collections(cs: &Vec<CardCollection>) -> (r: CardCollection)
    ensures
        collection_ids(r) == union_of(cs@),
{
    cs.iter().cloned().sum::<CardCollection>()
}

/// `CardCollection::from(&Hand)`: the set of the cards held in `hand`.
#[verifier::external_body]
pub(crate) fn hand_collection(hand: &Hand) -> (r: CardCollection)
    requires
        hand.wf(),
    ensures
        collection_ids(r) == hand@.to_set(),
{
    let h = fantasy_realms_unofficial_api::hand::Hand::new(
        hand.cards.map(|c| fantasy_realms_unofficial_api::deck::Card::from(c.id)),
    );
    CardCollection::from(&h)
}

/// `CardCollectionContains<CardCollection>::contains`: whether the two
/// collections share a card.
#[verifier::external_body]
pub(crate) fn overlaps(a: &CardCollection, b: &CardCollection) -> (r: bool)
    ensures
        r == !collection_ids(*a).disjoint(collection_ids(*b)),
{
    a.contains(*b)
}

/// `Hand::score`: the oracle's score of `hand` against the discard pile `pile`.
/// The score depends on nothing but the cards and the pile. Scoring may
/// walk the pile card by card, which is only sound when the pile holds
/// nothing outside the catalog.
#[verifier::external_body]
pub(crate) fn score_hand(hand: &Hand, pile: &CardCollection) -> (r: i16)
    requires
        hand.wf(),
        collection_ids(*pile).subset_of(catalog()),
    ensures
        r as int == hand_score(hand@, collection_ids(*pile)),
{
    let h = fantasy_realms_unofficial_api::hand::Hand::new(
        hand.cards.map(|c| fantasy_realms_unofficial_api::deck::Card::from(c.id)),
    );
    h.score(pile)
}

/// The cards that at least one collection of `cs` holds.
pub open spec fn union_of(cs: Seq<CardCollection>) -> Set<u8> {
    Set::new(|x: u8| exists|i: int| 0 <= i < cs.len() && #[trigger] collection_ids(cs[i]).contains(x))
}

/// The members of `s` among the first `n` catalog indices, in ascending order.
pub open spec fn ascending_below(s: Set<u8>, n: nat) -> Seq<u8>
    decreases n,
{
    if n == 0 {
        Seq::empty()
    } else {
        let rest = ascending_below(s, (n - 1) as nat);
        if s.contains((n - 1) as u8) {
            rest.push((n - 1) as u8)
        } else {
            rest
        }
    }
}

/// Every card that `ascending_below` lists is a member of the set and
/// lies below the bound.
pub proof fn lemma_ascending_members(s: Set<u8>, n: nat)
    requires
        n <= 256,
    ensures
        ascending_below(s, n).len() <= n,
        forall|k: int|
            0 <= k < ascending_below(s, n).len() ==> s.contains(#[trigger] ascending_below(s, n)[k])
                && ascending_below(s, n)[k] < n,
    decreases n,
{
    if n > 0 {
        lemma_ascending_members(s, (n - 1) as nat);
    }
}

/// `ascending_below` lists no card twice: each card is above those before it.
pub proof fn lemma_ascending_strict(s: Set<u8>, n: nat)
    requires
        n <= 256,
    ensures
        forall|a: int, b: int|
            0 <= a < b < ascending_below(s, n).len() ==> ascending_below(s, n)[a] < ascending_below(s, n)[b],
    decreases n,
{
    if n > 0 {
        lemma_ascending_strict(s, (n - 1) as nat);
        lemma_ascending_members(s, (n - 1) as nat);
    }
}

/// The catalog cards of `s` in ascending order of index: the order in which
/// a collection is walked.
pub open spec fn in_order(s: Set<u8>) -> Seq<u8> {
    ascending_below(s, CATALOG_SIZE as nat)
}

/// Whether `c` holds nothing outside the catalog.
pub fn within_catalog(c: &CardCollection) -> (r: bool)
    ensures
        r == collection_ids(*c).subset_of(catalog()),
{
    let nothing = empty_collection();
    assert(collection_ids(nothing).subset_of(catalog()));
    let all = complement(nothing);
    assert(collection_ids(all) =~= catalog());
    let rest = subtract(*c, all);
    let some = overlaps(&rest, &rest);
    proof {
        if some {
            let x = choose|x: u8| collection_ids(rest).contains(x) && collection_ids(rest).contains(x);
            assert(collection_ids(*c).contains(x) && !catalog().contains(x));
        } else {
            assert forall|x: u8| collection_ids(*c).contains(x) implies catalog().contains(x) by {
                if !catalog().contains(x) {
                    assert(collection_ids(rest).contains(x));
                }
            }
        }
    }
    !some
}

/// The catalog cards that `c` holds, in ascending order of index. A card
/// of the game crate does not give away its index, so the collection is
/// asked about each index of the catalog in turn.
pub fn ordered_cards(c: &CardCollection) -> (r: Vec<Card>)
    ensures
        r@.len() == in_order(collection_ids(*c)).len(),
        forall|i: int| 0 <= i < r@.len() ==> (#[trigger] r@[i]).id == in_order(collection_ids(*c))[i],
        forall|i: int| 0 <= i < r@.len() ==> (#[trigger] r@[i]).wf(),
        forall|i: int| 0 <= i < r@.len() ==> collection_ids(*c).contains((#[trigger] r@[i]).id),
        r@.len() <= CATALOG_SIZE,
{
    let mut r: Vec<Card> = Vec::new();
    let mut n: u8 = 0;
    while n < CATALOG_SIZE
        invariant
            n <= CATALOG_SIZE,
            r@.len() == ascending_below(collection_ids(*c), n as nat).len(),
            forall|i: int| 0 <= i < r@.len() ==> (#[trigger] r@[i]).id == ascending_below(collection_ids(*c), n as nat)[i],
            forall|i: int| 0 <= i < r@.len() ==> (#[trigger] r@[i]).wf(),
            forall|i: int| 0 <= i < r@.len() ==> collection_ids(*c).contains((#[trigger] r@[i]).id),
            r@.len() <= n,
        decreases CATALOG_SIZE - n,
    {
        let card = Card { id: n };
        if holds(c, card) {
            r.push(card);
        }
        n = n + 1;
    }
    r
}

} // verus!
