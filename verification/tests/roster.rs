use fantasy_realms_ai::bot::FantasyRealmsBot;
use fantasy_realms_ai::cards::Card;
use fantasy_realms_ai::cards::DrawCard;
use fantasy_realms_ai::cards::Hand;
use fantasy_realms_ai::randy::Randy;
use fantasy_realms_ai::text::fold_name;
use fantasy_realms_ai::roster::new_bot;
use fantasy_realms_ai::roster::Bot;
use fantasy_realms_ai::roster::PlayerType;
use fantasy_realms_unofficial_api::card_collection::CardCollection;

fn hand_of(ids: [u8; 7]) -> Hand {
    Hand::new(ids.map(|id| Card { id }))
}

fn collection_of(ids: &[u8]) -> CardCollection {
    let mut c = CardCollection::new();
    for id in ids {
        c += fantasy_realms_unofficial_api::deck::Card::from(*id);
    }
    c
}

#[test]
fn fold_name_trims_and_lowers() {
    assert_eq!(fold_name("  AutomatosV1\n"), "automatosv1");
    assert_eq!(fold_name("RANDY"), "randy");
    assert_eq!(fold_name(" a B "), "a b");
}

#[test]
fn new_bot_knows_each_bot_by_name() {
    assert!(matches!(new_bot("Randy".to_string()), Ok(Bot::Randy(_))));
    assert!(matches!(new_bot("AutomatosV1".to_string()), Ok(Bot::AutomatosV1(_))));
    assert!(matches!(new_bot("AutomatosV2".to_string()), Ok(Bot::AutomatosV2(_))));
}

#[test]
fn new_bot_ignores_case_and_outer_whitespace() {
    assert!(matches!(new_bot("  randy\n".to_string()), Ok(Bot::Randy(_))));
    assert!(matches!(new_bot("AUTOMATOSV1 ".to_string()), Ok(Bot::AutomatosV1(_))));
    assert!(matches!(new_bot("\tautomatosv2".to_string()), Ok(Bot::AutomatosV2(_))));
}

#[test]
fn new_bot_starts_with_nothing_settled() {
    match new_bot("AutomatosV1".to_string()) {
        Ok(Bot::AutomatosV1(b)) => assert_eq!(b.discard, None),
        _ => panic!("expected AutomatosV1"),
    }
    match new_bot("AutomatosV2".to_string()) {
        Ok(Bot::AutomatosV2(b)) => assert_eq!(b.discard, None),
        _ => panic!("expected AutomatosV2"),
    }
}

#[test]
fn new_bot_rejects_unknown_names_quoting_them_trimmed() {
    match new_bot("  Deep Blue \n".to_string()) {
        Err(e) => assert_eq!(e, "Unknown AI type: Deep Blue"),
        Ok(_) => panic!("expected an error"),
    }
    match new_bot("".to_string()) {
        Err(e) => assert_eq!(e, "Unknown AI type: "),
        Ok(_) => panic!("expected an error"),
    }
    assert!(new_bot("Automatos V1".to_string()).is_err());
}

#[test]
fn bots_answer_with_their_names() {
    assert_eq!(new_bot("randy".to_string()).ok().map(|b| b.name()), Some("Randy".to_string()));
    assert_eq!(new_bot("automatosv1".to_string()).ok().map(|b| b.name()), Some("AutomatosV1".to_string()));
    assert_eq!(new_bot("automatosv2".to_string()).ok().map(|b| b.name()), Some("AutomatosV2".to_string()));
    assert_eq!(Randy.name(), "Randy");
}

#[test]
fn player_type_holds_a_name_or_a_bot() {
    let human = PlayerType::Human("Ada".to_string());
    let bot = PlayerType::Bot(Bot::Randy(Randy));
    assert!(matches!(human, PlayerType::Human(ref n) if n == "Ada"));
    assert!(matches!(bot, PlayerType::Bot(Bot::Randy(_))));
}

#[test]
fn randy_draws_from_the_pile_or_the_deck() {
    let hand = hand_of([0, 1, 2, 3, 4, 5, 6]);
    let pile = collection_of(&[10, 20, 30]);
    let mut randy = Randy;
    let mut seen_pile = false;
    let mut seen_deck = false;
    for _ in 0..400 {
        match randy.generate_draw(&hand, &pile, &Vec::new(), 3) {
            DrawCard::Deck => seen_deck = true,
            DrawCard::Discard(c) => {
                assert!([10u8, 20, 30].contains(&c.id));
                seen_pile = true;
            }
        }
    }
    assert!(seen_pile);
    assert!(seen_deck);
}

#[test]
fn randy_draws_from_the_deck_when_the_pile_is_empty() {
    let hand = hand_of([0, 1, 2, 3, 4, 5, 6]);
    let mut randy = Randy;
    for _ in 0..20 {
        assert_eq!(randy.generate_draw(&hand, &CardCollection::new(), &Vec::new(), 3), DrawCard::Deck);
    }
}

#[test]
fn randy_discards_a_held_card_or_the_drawn_one() {
    let hand = hand_of([0, 1, 2, 3, 4, 5, 6]);
    let pile = collection_of(&[10]);
    let drawn = Card { id: 40 };
    let mut randy = Randy;
    let mut distinct: Vec<u8> = Vec::new();
    for _ in 0..400 {
        let c = randy.generate_discard(&hand, &pile, &Vec::new(), 3, &drawn);
        assert!(c.id <= 6 || c.id == 40);
        if !distinct.contains(&c.id) {
            distinct.push(c.id);
        }
    }
    assert!(distinct.len() > 1);
}

#[test]
fn a_roster_bot_decides_as_the_bot_it_holds() {
    let hand = hand_of([0, 1, 2, 3, 4, 5, 6]);
    let pile = collection_of(&[10]);
    let mut bot = Bot::Randy(Randy);
    match bot.generate_draw(&hand, &pile, &Vec::new(), 0) {
        DrawCard::Deck => {}
        DrawCard::Discard(c) => assert_eq!(c.id, 10),
    }
    assert!(matches!(bot, Bot::Randy(_)));
}

#[test]
fn randy_chooses_among_the_pile_cards_and_the_deck() {
    let pile = collection_of(&[30, 10, 20]);
    let options = fantasy_realms_ai::randy::draw_options(&pile);
    assert_eq!(
        options,
        vec![
            DrawCard::Discard(Card { id: 10 }),
            DrawCard::Discard(Card { id: 20 }),
            DrawCard::Discard(Card { id: 30 }),
            DrawCard::Deck,
        ]
    );
    assert_eq!(fantasy_realms_ai::randy::draw_options(&CardCollection::new()), vec![DrawCard::Deck]);
}

#[test]
fn randy_chooses_among_the_held_cards_and_the_drawn_one() {
    let hand = hand_of([6, 5, 4, 3, 2, 1, 0]);
    let options = fantasy_realms_ai::randy::discard_options(&hand, &Card { id: 40 });
    let ids: Vec<u8> = options.iter().map(|c| c.id).collect();
    assert_eq!(ids, vec![6, 5, 4, 3, 2, 1, 0, 40]);
}

#[test]
fn only_a_searching_bot_with_nothing_settled_weighs_the_drawn_card() {
    assert!(!Bot::Randy(Randy).will_weigh_draw());
    match new_bot("AutomatosV1".to_string()) {
        Ok(bot) => assert!(bot.will_weigh_draw()),
        Err(_) => panic!("expected a bot"),
    }
    let settled = Bot::AutomatosV2(fantasy_realms_ai::automatos_v2::AutomatosV2 { discard: Some(Card { id: 3 }) });
    assert!(!settled.will_weigh_draw());
}
