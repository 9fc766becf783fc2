use fantasy_realms_ai::cards::Card;
use fantasy_realms_ai::cards::DrawCard;
use fantasy_realms_ai::cards::Hand;
use fantasy_realms_ai::cards::CATALOG_SIZE;
use fantasy_realms_ai::cards::HAND_SIZE;

fn hand_of(ids: [u8; 7]) -> Hand {
    Hand::new(ids.map(|id| Card { id }))
}

#[test]
fn catalog_has_fifty_three_cards_and_hands_seven_slots() {
    assert_eq!(CATALOG_SIZE, 53);
    assert_eq!(HAND_SIZE, 7);
}

#[test]
fn card_new_accepts_exactly_the_catalog() {
    assert_eq!(Card::new(0), Some(Card { id: 0 }));
    assert_eq!(Card::new(52), Some(Card { id: 52 }));
    assert_eq!(Card::new(53), None);
    assert_eq!(Card::new(255), None);
}

#[test]
fn card_in_catalog_agrees_with_new() {
    assert!(Card { id: 52 }.in_catalog());
    assert!(!Card { id: 53 }.in_catalog());
}

#[test]
fn hand_keeps_cards_in_their_slots() {
    let hand = hand_of([5, 1, 9, 30, 2, 44, 17]);
    assert_eq!(hand.card(0), Card { id: 5 });
    assert_eq!(hand.card(3), Card { id: 30 });
    assert_eq!(hand.card(6), Card { id: 17 });
}

#[test]
fn hand_replace_changes_one_slot_of_a_copy() {
    let hand = hand_of([5, 1, 9, 30, 2, 44, 17]);
    let next = hand.replace(2, Card { id: 50 });
    assert_eq!(next.cards.map(|c| c.id), [5, 1, 50, 30, 2, 44, 17]);
    assert_eq!(hand.cards.map(|c| c.id), [5, 1, 9, 30, 2, 44, 17]);
}

#[test]
fn hand_in_catalog_checks_every_slot() {
    assert!(hand_of([0, 1, 2, 3, 4, 5, 52]).in_catalog());
    assert!(!hand_of([0, 1, 2, 3, 4, 5, 53]).in_catalog());
    assert!(!hand_of([200, 1, 2, 3, 4, 5, 6]).in_catalog());
}

#[test]
fn draw_actions_compare_by_card() {
    assert_eq!(DrawCard::Deck, DrawCard::Deck);
    assert_eq!(DrawCard::Discard(Card { id: 3 }), DrawCard::Discard(Card { id: 3 }));
    assert_ne!(DrawCard::Discard(Card { id: 3 }), DrawCard::Discard(Card { id: 4 }));
    assert_ne!(DrawCard::Discard(Card { id: 3 }), DrawCard::Deck);
}

#[test]
fn hand_is_distinct_finds_repeats() {
    assert!(hand_of([0, 1, 2, 3, 4, 5, 6]).is_distinct());
    assert!(!hand_of([0, 1, 2, 3, 4, 5, 0]).is_distinct());
    assert!(!hand_of([9, 1, 2, 3, 3, 5, 6]).is_distinct());
    assert!(!hand_of([7, 7, 7, 7, 7, 7, 7]).is_distinct());
}
