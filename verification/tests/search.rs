use fantasy_realms_ai::cards::Card;
use fantasy_realms_ai::cards::DrawCard;
use fantasy_realms_ai::cards::Hand;
use fantasy_realms_ai::evaluation::Evaluation;
use fantasy_realms_ai::search::discard_candidates;
use fantasy_realms_ai::search::draw_candidates;
use fantasy_realms_ai::search::evaluate_hand;
use fantasy_realms_ai::search::mean;
use fantasy_realms_ai::search::pick_first_best;
use fantasy_realms_ai::search::plan_discard;
use fantasy_realms_ai::search::plan_draw;
use fantasy_realms_ai::search::BotTurn;
use fantasy_realms_unofficial_api::card_collection::CardCollection;

fn hand_of(ids: [u8; 7]) -> Hand {
    Hand::new(ids.map(|id| Card { id }))
}

fn collection_of(ids: &[u8]) -> CardCollection {
    let mut c = CardCollection::new();
    for id in ids {
        c += fantasy_realms_unofficial_api::deck::Card::from(*id);
    }
    c
}

fn oracle(ids: [u8; 7], pile: &CardCollection) -> i64 {
    let hand = fantasy_realms_unofficial_api::hand::Hand::new(ids.map(fantasy_realms_unofficial_api::deck::Card::from));
    hand.score(pile) as i64
}

fn swapped(ids: [u8; 7], pile: &CardCollection, slot: usize, card: u8) -> ([u8; 7], CardCollection) {
    let mut next = ids;
    next[slot] = card;
    let next_pile = *pile + fantasy_realms_unofficial_api::deck::Card::from(ids[slot])
        - fantasy_realms_unofficial_api::deck::Card::from(card);
    (next, next_pile)
}

#[test]
fn mean_of_three_scores_is_exact() {
    let terms = vec![Evaluation::whole(10), Evaluation::whole(20), Evaluation::whole(30)];
    let m = mean(&terms, 1);
    assert_eq!(m.num, 60);
    assert_eq!(m.den, 3);
    assert!(m.equals(&Evaluation::whole(20)));
    assert!(!m.exceeds(&Evaluation::whole(20)));
    assert!(!Evaluation::whole(20).exceeds(&m));
}

#[test]
fn mean_that_is_no_whole_number_is_kept_exact() {
    let terms = vec![Evaluation::whole(10), Evaluation::whole(21), Evaluation::whole(30)];
    let m = mean(&terms, 1);
    assert_eq!(m.num, 61);
    assert_eq!(m.den, 3);
    assert!(m.exceeds(&Evaluation::whole(20)));
    assert!(Evaluation::whole(21).exceeds(&m));
}

#[test]
fn mean_brings_whole_terms_over_the_shared_denominator() {
    let terms = vec![Evaluation::whole(2), Evaluation { num: 3, den: 4 }];
    let m = mean(&terms, 4);
    assert_eq!(m.num, 11);
    assert_eq!(m.den, 8);
}

#[test]
fn mean_of_negative_scores() {
    let terms = vec![Evaluation::whole(-5), Evaluation::whole(-6)];
    let m = mean(&terms, 1);
    assert_eq!(m.num, -11);
    assert_eq!(m.den, 2);
    assert!(Evaluation::whole(-5).exceeds(&m));
    assert!(m.exceeds(&Evaluation::whole(-6)));
}

#[test]
fn first_of_equal_candidates_is_kept() {
    let a = BotTurn::new(DrawCard::Deck, Card { id: 0 }, Evaluation::whole(5));
    let b = BotTurn::new(DrawCard::Discard(Card { id: 9 }), Card { id: 1 }, Evaluation::whole(7));
    let c = BotTurn::new(DrawCard::Discard(Card { id: 9 }), Card { id: 2 }, Evaluation { num: 14, den: 2 });
    let d = BotTurn::new(DrawCard::Deck, Card { id: 3 }, Evaluation { num: 21, den: 3 });
    let turn = pick_first_best(&vec![a, b, c, d]);
    assert_eq!(turn.draw, DrawCard::Discard(Card { id: 9 }));
    assert_eq!(turn.discard, Card { id: 1 });
    assert_eq!(turn.evaluation.num, 7);
    assert_eq!(turn.evaluation.den, 1);
}

#[test]
fn leaving_the_hand_wins_when_nothing_is_strictly_better() {
    let a = BotTurn::new(DrawCard::Deck, Card { id: 0 }, Evaluation::whole(5));
    let b = BotTurn::new(DrawCard::Discard(Card { id: 9 }), Card { id: 1 }, Evaluation::whole(5));
    let c = BotTurn::new(DrawCard::Deck, Card { id: 2 }, Evaluation { num: 9, den: 2 });
    let turn = pick_first_best(&vec![a, b, c]);
    assert_eq!(turn.draw, DrawCard::Deck);
    assert_eq!(turn.discard, Card { id: 0 });
}

#[test]
fn a_later_candidate_wins_only_when_strictly_greater() {
    let a = BotTurn::new(DrawCard::Deck, Card { id: 0 }, Evaluation::whole(5));
    let b = BotTurn::new(DrawCard::Discard(Card { id: 9 }), Card { id: 1 }, Evaluation::whole(6));
    let c = BotTurn::new(DrawCard::Deck, Card { id: 2 }, Evaluation { num: 13, den: 2 });
    let turn = pick_first_best(&vec![a, b, c]);
    assert_eq!(turn.draw, DrawCard::Deck);
    assert_eq!(turn.discard, Card { id: 2 });
    assert_eq!(turn.evaluation.num, 13);
}

#[test]
fn a_single_candidate_is_chosen() {
    let a = BotTurn::new(DrawCard::Deck, Card { id: 4 }, Evaluation::whole(-3));
    let turn = pick_first_best(&vec![a]);
    assert_eq!(turn.discard, Card { id: 4 });
}

#[test]
fn a_pile_card_worth_fifty_is_swapped_into_the_first_slot() {
    // Seven held cards, one pile card; the card from the pile is worth 50
    // wherever it goes, and the hand is worth nothing without it.
    let pile_card = Card { id: 40 };
    let mut candidates = vec![BotTurn::new(DrawCard::Deck, Card { id: 0 }, Evaluation::whole(0))];
    for slot in 0u8..7 {
        candidates.push(BotTurn::new(DrawCard::Discard(pile_card), Card { id: slot }, Evaluation::whole(50)));
    }
    for slot in 0u8..7 {
        candidates.push(BotTurn::new(DrawCard::Deck, Card { id: slot }, Evaluation { num: 50, den: 45 }));
    }
    let turn = pick_first_best(&candidates);
    assert_eq!(turn.draw, DrawCard::Discard(pile_card));
    assert_eq!(turn.discard, Card { id: 0 });
    assert!(turn.evaluation.equals(&Evaluation::whole(50)));
}

#[test]
fn evaluation_without_turns_left_is_the_oracle_score() {
    let ids = [30, 31, 32, 20, 21, 0, 16];
    let pile = collection_of(&[10, 11]);
    let e = evaluate_hand(&hand_of(ids), &pile, &Vec::new(), 0);
    assert_eq!(e.den, 1);
    assert_eq!(e.num, oracle(ids, &pile));
    let other = [0, 1, 2, 3, 4, 5, 6];
    let e = evaluate_hand(&hand_of(other), &CardCollection::new(), &Vec::new(), 0);
    assert_eq!(e.num, oracle(other, &CardCollection::new()));
}

#[test]
fn evaluation_tells_hands_apart() {
    let pile = CardCollection::new();
    let a = [30, 31, 32, 20, 21, 0, 16];
    let b = [30, 31, 32, 20, 21, 0, 38];
    assert_ne!(oracle(a, &pile), oracle(b, &pile));
    let ea = evaluate_hand(&hand_of(a), &pile, &Vec::new(), 0);
    let eb = evaluate_hand(&hand_of(b), &pile, &Vec::new(), 0);
    assert_ne!(ea.num, eb.num);
}

#[test]
fn draw_candidates_come_in_the_fixed_order() {
    let ids = [0, 1, 2, 3, 4, 5, 6];
    let pile = collection_of(&[20, 10]);
    let known: Vec<u8> = (14u8..53).filter(|id| *id != 20).collect();
    let opponents = vec![collection_of(&known)];
    // unknown: 7, 8, 9, 11, 12, 13
    let candidates = draw_candidates(&hand_of(ids), &pile, &opponents, 0);
    assert_eq!(candidates.len(), 1 + 7 * 2 + 7);
    assert_eq!(candidates[0].draw, DrawCard::Deck);
    assert_eq!(candidates[0].discard, Card { id: 0 });
    assert_eq!(candidates[0].evaluation.num, oracle(ids, &pile));
    for slot in 0..7usize {
        for (j, card) in [10u8, 20].iter().enumerate() {
            let c = candidates[1 + 2 * slot + j];
            assert_eq!(c.draw, DrawCard::Discard(Card { id: *card }));
            assert_eq!(c.discard, Card { id: ids[slot] });
            let (next, next_pile) = swapped(ids, &pile, slot, *card);
            assert_eq!(c.evaluation.num, oracle(next, &next_pile));
            assert_eq!(c.evaluation.den, 1);
        }
    }
    for slot in 0..7usize {
        let c = candidates[15 + slot];
        assert_eq!(c.draw, DrawCard::Deck);
        assert_eq!(c.discard, Card { id: ids[slot] });
        let mut sum = 0i64;
        for card in [7u8, 8, 9, 11, 12, 13] {
            let (next, next_pile) = swapped(ids, &pile, slot, card);
            sum += oracle(next, &next_pile);
        }
        assert_eq!(c.evaluation.num, sum);
        assert_eq!(c.evaluation.den, 6);
    }
}

#[test]
fn an_empty_pile_gives_no_visible_candidates() {
    let ids = [0, 1, 2, 3, 4, 5, 6];
    let known: Vec<u8> = (10u8..53).collect();
    let opponents = vec![collection_of(&known)];
    let candidates = draw_candidates(&hand_of(ids), &CardCollection::new(), &opponents, 0);
    assert_eq!(candidates.len(), 1 + 7);
    for c in &candidates {
        assert_eq!(c.draw, DrawCard::Deck);
    }
}

#[test]
fn no_unknown_card_gives_no_deck_candidates() {
    let ids = [0, 1, 2, 3, 4, 5, 6];
    let pile = collection_of(&[7, 8]);
    let known: Vec<u8> = (9u8..53).collect();
    let opponents = vec![collection_of(&known)];
    let candidates = draw_candidates(&hand_of(ids), &pile, &opponents, 0);
    assert_eq!(candidates.len(), 1 + 7 * 2);
    for c in &candidates[1..] {
        assert!(matches!(c.draw, DrawCard::Discard(_)));
    }
    let turn = plan_draw(&hand_of(ids), &pile, &opponents, 0);
    assert!(turn.evaluation.num >= oracle(ids, &pile) * turn.evaluation.den);
}

#[test]
fn nothing_to_draw_leaves_the_hand() {
    let ids = [0, 1, 2, 3, 4, 5, 6];
    let known: Vec<u8> = (7u8..53).collect();
    let opponents = vec![collection_of(&known)];
    let turn = plan_draw(&hand_of(ids), &CardCollection::new(), &opponents, 1);
    assert_eq!(turn.draw, DrawCard::Deck);
    assert_eq!(turn.discard, Card { id: 0 });
    assert_eq!(turn.evaluation.num, oracle(ids, &CardCollection::new()));
    assert_eq!(turn.evaluation.den, 1);
}

#[test]
fn lookahead_evaluation_is_the_best_of_one_more_turn() {
    let ids = [0, 1, 2, 3, 4, 5, 6];
    let pile = collection_of(&[20, 10]);
    let known: Vec<u8> = (14u8..53).filter(|id| *id != 20).collect();
    let opponents = vec![collection_of(&known)];
    let best = plan_draw(&hand_of(ids), &pile, &opponents, 0);
    let e = evaluate_hand(&hand_of(ids), &pile, &opponents, 1);
    assert_eq!(e.num, best.evaluation.num);
    assert_eq!(e.den, best.evaluation.den);
    let again = evaluate_hand(&hand_of(ids), &pile, &opponents, 9);
    assert_eq!(again.num, e.num);
    assert_eq!(again.den, e.den);
}

#[test]
fn lookahead_deck_candidates_share_a_denominator() {
    let ids = [0, 1, 2, 3, 4, 5, 6];
    let pile = collection_of(&[20, 10]);
    let known: Vec<u8> = (11u8..53).filter(|id| *id != 20).collect();
    let opponents = vec![collection_of(&known)];
    // unknown: 7, 8, 9
    let candidates = draw_candidates(&hand_of(ids), &pile, &opponents, 1);
    assert_eq!(candidates.len(), 1 + 7 * 2 + 7);
    for slot in 0..7usize {
        let c = candidates[15 + slot];
        assert_eq!(c.evaluation.den, 2 * 3);
        let mut sum = 0i64;
        for card in [7u8, 8, 9] {
            let (next, next_pile) = swapped(ids, &pile, slot, card);
            let e = evaluate_hand(&Hand::new(next.map(|id| Card { id })), &next_pile, &opponents, 1);
            assert!(e.den == 1 || e.den == 2);
            sum += if e.den == 2 { e.num } else { 2 * e.num };
        }
        assert_eq!(c.evaluation.num, sum);
    }
}

#[test]
fn discard_candidates_start_with_giving_the_card_back() {
    let ids = [0, 1, 2, 3, 4, 5, 6];
    let pile = collection_of(&[20, 10]);
    let drawn = Card { id: 38 };
    let candidates = discard_candidates(&hand_of(ids), &pile, &Vec::new(), 0, &drawn);
    assert_eq!(candidates.len(), 8);
    assert_eq!(candidates[0].discard, drawn);
    assert_eq!(candidates[0].evaluation.num, oracle(ids, &pile));
    for slot in 0..7usize {
        let c = candidates[1 + slot];
        assert_eq!(c.draw, DrawCard::Deck);
        assert_eq!(c.discard, Card { id: ids[slot] });
        let (next, next_pile) = swapped(ids, &pile, slot, 38);
        assert_eq!(c.evaluation.num, oracle(next, &next_pile));
    }
    let turn = plan_discard(&hand_of(ids), &pile, &Vec::new(), 0, &drawn);
    assert!(turn.evaluation.num >= oracle(ids, &pile));
}

#[test]
fn with_lookahead_giving_the_card_back_is_valued_with_lookahead() {
    let ids = [0, 1, 2, 3, 4, 5, 6];
    let pile = collection_of(&[20, 10]);
    let known: Vec<u8> = (11u8..53).filter(|id| *id != 20).collect();
    let opponents = vec![collection_of(&known)];
    // unknown: 7, 8, 9
    let drawn = Card { id: 8 };
    let candidates = discard_candidates(&hand_of(ids), &pile, &opponents, 1, &drawn);
    let position = evaluate_hand(&hand_of(ids), &pile, &opponents, 1);
    assert_eq!(candidates.len(), 8);
    assert_eq!(candidates[0].discard, drawn);
    assert_eq!(candidates[0].evaluation.num, position.num);
    assert_eq!(candidates[0].evaluation.den, position.den);
    for slot in 0..7usize {
        let (next, next_pile) = swapped(ids, &pile, slot, 8);
        let e = evaluate_hand(&Hand::new(next.map(|id| Card { id })), &next_pile, &opponents, 1);
        assert_eq!(candidates[1 + slot].evaluation.num, e.num);
        assert_eq!(candidates[1 + slot].evaluation.den, e.den);
    }
}

#[test]
fn equal_lookahead_values_give_the_drawn_card_back() {
    // All eight options are worth 50: the first, giving the card back, stays.
    let drawn = Card { id: 40 };
    let mut candidates = vec![BotTurn::new(DrawCard::Deck, drawn, Evaluation::whole(50))];
    for slot in 0u8..7 {
        candidates.push(BotTurn::new(DrawCard::Deck, Card { id: slot }, Evaluation { num: 100, den: 2 }));
    }
    assert_eq!(pick_first_best(&candidates).discard, drawn);
}
