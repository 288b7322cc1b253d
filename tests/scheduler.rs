use cardbrick::deck::{Card, Deck, Note};
use cardbrick::scheduler::{Rating, Scheduler, Sm2Scheduler};
use std::collections::HashMap;

fn create_test_deck(num_cards: usize) -> Deck {
    let mut cards = Vec::new();
    let mut notes = HashMap::new();
    for i in 0..num_cards {
        let card_id = i as i64;
        let note_id = i as i64;
        cards.push(Card { id: card_id, note_id, due: 0, interval: 0, ease_factor: 2500, lapses: 0 });
        notes.insert(note_id, Note { id: note_id, fields: vec![format!("Front {}", i), format!("Back {}", i)] });
    }
    Deck { cards, notes }
}

#[test]
fn test_initialization() {
    let mut scheduler = Sm2Scheduler::new(create_test_deck(10));
    assert_eq!(scheduler.total_session_cards(), 10);
    assert_eq!(scheduler.reviews_complete(), 0);
    // The queue is in ascending order of id, and the last one comes first.
    assert_eq!(scheduler.next_card().unwrap().id, 9);
}

#[test]
fn test_review_flow() {
    let mut scheduler = Sm2Scheduler::new(create_test_deck(5));
    let card = scheduler.next_card().unwrap();
    scheduler.answer_card(card.id, Rating::Good);
    assert_eq!(scheduler.reviews_complete(), 1);
    let card = scheduler.next_card().unwrap();
    scheduler.answer_card(card.id, Rating::Easy);
    assert_eq!(scheduler.reviews_complete(), 2);
}

#[test]
fn test_again_cooldown() {
    let mut scheduler = Sm2Scheduler::new(create_test_deck(7));

    let failed_card = scheduler.next_card().unwrap();
    assert_eq!(failed_card.id, 6);

    scheduler.answer_card(failed_card.id, Rating::Again);
    assert_eq!(scheduler.reviews_complete(), 0);

    // Pop the next 4 cards from the queue
    assert_eq!(scheduler.next_card().unwrap().id, 5);
    assert_eq!(scheduler.next_card().unwrap().id, 4);
    assert_eq!(scheduler.next_card().unwrap().id, 3);
    assert_eq!(scheduler.next_card().unwrap().id, 2);

    // The 5th card should be the one we failed
    assert_eq!(scheduler.next_card().unwrap().id, 6);
}

#[test]
fn test_rewind() {
    let mut scheduler = Sm2Scheduler::new(create_test_deck(5));

    let card_4 = scheduler.next_card().unwrap(); // id=4
    scheduler.answer_card(card_4.id, Rating::Good); // reviews=1

    let card_3 = scheduler.next_card().unwrap(); // id=3
    scheduler.answer_card(card_3.id, Rating::Hard); // reviews=2, hard_cards=[3]

    assert_eq!(scheduler.reviews_complete(), 2);
    assert_eq!(scheduler.hard_cards(), &[3]);

    let card_2 = scheduler.next_card().unwrap(); // id=2, currently "on screen"

    // User hits rewind. We hold card_2 and rewind card_3.
    scheduler.add_card_to_front(card_2.id);
    let rewound_card = scheduler.rewind_last_answer().unwrap();
    assert_eq!(rewound_card.id, 3);

    // Check that state was reverted
    assert_eq!(scheduler.reviews_complete(), 1);
    assert!(scheduler.hard_cards().is_empty());

    // We now present the rewound card (3) to the user.
    // It must be put back in the queue so it's the next one served.
    scheduler.add_card_to_front(rewound_card.id);

    // The next card should be the rewound card (3)
    let next = scheduler.next_card().unwrap();
    assert_eq!(next.id, 3);

    // After answering the rewound card, the next should be the one we held (2)
    scheduler.answer_card(next.id, Rating::Good);
    let final_card = scheduler.next_card().unwrap();
    assert_eq!(final_card.id, 2);
}

#[test]
fn again_lowers_ease_and_resets_interval() {
    let mut deck = create_test_deck(3);
    deck.cards[2].interval = 7;
    let mut scheduler = Sm2Scheduler::new(deck);
    let card = scheduler.next_card().unwrap();
    assert_eq!(card.id, 2);
    scheduler.answer_card(2, Rating::Again);
    // Fewer than two cards are left, so the card goes to the very front.
    let back = scheduler.next_card().unwrap();
    assert_eq!(back.id, 1);
    let again = scheduler.next_card().unwrap();
    assert_eq!(again.id, 0);
    let failed = scheduler.next_card().unwrap();
    assert_eq!(failed.id, 2);
    assert_eq!(failed.lapses, 1);
    assert_eq!(failed.ease_factor, 2300);
    assert_eq!(failed.interval, 0);
}

#[test]
fn ease_never_drops_below_floor() {
    let mut deck = create_test_deck(1);
    deck.cards[0].ease_factor = 1350;
    let mut scheduler = Sm2Scheduler::new(deck);
    scheduler.next_card().unwrap();
    scheduler.answer_card(0, Rating::Again);
    let card = scheduler.next_card().unwrap();
    assert_eq!(card.ease_factor, 1300);
}

#[test]
fn hard_grows_interval_by_a_fifth() {
    let mut deck = create_test_deck(2);
    deck.cards[1].interval = 10;
    deck.cards[0].interval = 0;
    let mut scheduler = Sm2Scheduler::new(deck);
    scheduler.next_card().unwrap();
    scheduler.answer_card(1, Rating::Hard);
    scheduler.answer_card(1, Rating::Hard);
    assert_eq!(scheduler.hard_cards(), &[1]);
    scheduler.add_card_to_front(1);
    let card = scheduler.next_card().unwrap();
    // 10 -> 12 -> 14 (14.4 rounded), ease 2500 -> 2350 -> 2200.
    assert_eq!(card.interval, 14);
    assert_eq!(card.ease_factor, 2200);
    scheduler.next_card().unwrap();
    scheduler.answer_card(0, Rating::Hard);
    scheduler.add_card_to_front(0);
    // An interval of zero still grows by one day.
    assert_eq!(scheduler.next_card().unwrap().interval, 1);
}

#[test]
fn rewind_without_answer_is_none() {
    let mut scheduler = Sm2Scheduler::new(create_test_deck(2));
    assert!(scheduler.rewind_last_answer().is_none());
    assert_eq!(scheduler.next_card().unwrap().id, 1);
}

#[test]
fn empty_queue_gives_no_card() {
    let mut scheduler = Sm2Scheduler::new(create_test_deck(0));
    assert_eq!(scheduler.total_session_cards(), 0);
    assert!(scheduler.next_card().is_none());
}

#[test]
fn duplicate_ids_count_once() {
    let mut deck = create_test_deck(2);
    deck.cards.push(Card { id: 1, note_id: 1, due: 0, interval: 3, ease_factor: 2500, lapses: 0 });
    let mut scheduler = Sm2Scheduler::new(deck);
    assert_eq!(scheduler.total_session_cards(), 2);
    // The later card with the same id wins.
    assert_eq!(scheduler.next_card().unwrap().interval, 3);
}

#[test]
fn notes_are_found_by_id() {
    let scheduler = Sm2Scheduler::new(create_test_deck(2));
    assert_eq!(scheduler.get_note(1).unwrap().fields[0], "Front 1");
    assert!(scheduler.get_note(5).is_none());
}

#[test]
fn shuffled_session_keeps_every_card() {
    let mut scheduler = <Sm2Scheduler as Scheduler>::new(create_test_deck(20));
    assert_eq!(scheduler.total_session_cards(), 20);
    let mut seen = Vec::new();
    while let Some(card) = Scheduler::next_card(&mut scheduler) {
        seen.push(card.id);
    }
    seen.sort();
    assert_eq!(seen, (0..20).collect::<Vec<i64>>());
}
