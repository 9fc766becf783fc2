use fantasy_realms_ai::answers::add_distinct;
use fantasy_realms_ai::answers::all_but;
use fantasy_realms_ai::text::is_word;
use fantasy_realms_ai::answers::minimum_turns_remaining;
use fantasy_realms_ai::answers::names_the_deck;
use fantasy_realms_ai::answers::number_input;
use fantasy_realms_ai::answers::number_within;
use fantasy_realms_ai::answers::seat_named;
use fantasy_realms_ai::answers::wants_new_game;
use fantasy_realms_ai::answers::NumberError;
use fantasy_realms_ai::answers::Seat;
use fantasy_realms_ai::answers::PILE_LIMIT;
use fantasy_realms_ai::cards::Card;

#[test]
fn seats_are_named_in_several_words() {
    assert_eq!(seat_named("human"), Some(Seat::Human));
    assert_eq!(seat_named(" Person\n"), Some(Seat::Human));
    assert_eq!(seat_named("bot"), Some(Seat::Bot));
    assert_eq!(seat_named("AI"), Some(Seat::Bot));
    assert_eq!(seat_named("Robot "), Some(Seat::Bot));
    assert_eq!(seat_named("computer\n"), Some(Seat::Bot));
    assert_eq!(seat_named("alien"), None);
    assert_eq!(seat_named(""), None);
}

#[test]
fn the_deck_is_named_in_several_words() {
    assert!(names_the_deck("none"));
    assert!(names_the_deck(" Nothing "));
    assert!(names_the_deck("DECK\n"));
    assert!(names_the_deck("hidden"));
    assert!(!names_the_deck("king"));
    assert!(!names_the_deck("the deck"));
}

#[test]
fn another_game_is_wanted_or_not() {
    assert_eq!(wants_new_game("yes\n"), Some(true));
    assert_eq!(wants_new_game("Yeah"), Some(true));
    assert_eq!(wants_new_game(" OK "), Some(true));
    assert_eq!(wants_new_game("sure"), Some(true));
    assert_eq!(wants_new_game("No\n"), Some(false));
    assert_eq!(wants_new_game("maybe"), None);
}

#[test]
fn numbers_are_read_within_their_range() {
    assert_eq!(number_input("4\n", 3, 6), Ok(4));
    assert_eq!(number_input(" 3 ", 3, 6), Ok(3));
    assert_eq!(number_input("6", 3, 6), Ok(6));
    assert_eq!(number_input("7", 3, 6), Err(NumberError::OutOfRange));
    assert_eq!(number_input("2", 3, 6), Err(NumberError::OutOfRange));
    assert_eq!(number_input("four", 3, 6), Err(NumberError::Invalid));
    assert_eq!(number_input("-1", 3, 6), Err(NumberError::Invalid));
    assert_eq!(number_input("256", 3, 6), Err(NumberError::Invalid));
    assert_eq!(number_input("", 3, 6), Err(NumberError::Invalid));
    assert_eq!(number_input("+4", 3, 6), Ok(4));
    assert_eq!(number_input("005", 3, 6), Ok(5));
    assert_eq!(number_input("+", 3, 6), Err(NumberError::Invalid));
    assert_eq!(number_input("4 5", 3, 6), Err(NumberError::Invalid));
    assert_eq!(number_input("255", 0, 255), Ok(255));
}

#[test]
fn parsed_numbers_are_held_to_the_range() {
    assert_eq!(number_within(Some(5), 5, 5), Ok(5));
    assert_eq!(number_within(Some(4), 5, 5), Err(NumberError::OutOfRange));
    assert_eq!(number_within(None, 0, 255), Err(NumberError::Invalid));
}

#[test]
fn words_are_compared_whole() {
    assert!(is_word(&"deck".to_string(), "deck"));
    assert!(!is_word(&"deck ".to_string(), "deck"));
    assert!(!is_word(&"Deck".to_string(), "deck"));
}

#[test]
fn turns_remaining_share_the_room_in_the_pile() {
    assert_eq!(PILE_LIMIT, 10);
    assert_eq!(minimum_turns_remaining(0, 3), 3);
    assert_eq!(minimum_turns_remaining(0, 6), 1);
    assert_eq!(minimum_turns_remaining(4, 3), 2);
    assert_eq!(minimum_turns_remaining(8, 3), 0);
    assert_eq!(minimum_turns_remaining(10, 4), 0);
    assert_eq!(minimum_turns_remaining(1, 1), 9);
}

#[test]
fn all_but_leaves_out_one_place() {
    assert_eq!(all_but(&vec![10u8, 20, 30, 40], 0), vec![20, 30, 40]);
    assert_eq!(all_but(&vec![10u8, 20, 30, 40], 2), vec![10, 20, 40]);
    assert_eq!(all_but(&vec![10u8, 20, 30, 40], 3), vec![10, 20, 30]);
    assert_eq!(all_but(&vec![10u8, 20, 30, 40], 4), vec![10, 20, 30, 40]);
    assert_eq!(all_but(&Vec::<u8>::new(), 0), Vec::<u8>::new());
}

#[test]
fn a_card_is_added_once() {
    let mut cards: Vec<Card> = Vec::new();
    add_distinct(&mut cards, Card { id: 3 });
    add_distinct(&mut cards, Card { id: 9 });
    add_distinct(&mut cards, Card { id: 3 });
    add_distinct(&mut cards, Card { id: 0 });
    add_distinct(&mut cards, Card { id: 9 });
    assert_eq!(cards, vec![Card { id: 3 }, Card { id: 9 }, Card { id: 0 }]);
}
