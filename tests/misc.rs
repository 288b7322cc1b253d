use cardbrick::debug::Tracer;
use cardbrick::span::TextSpan;
use cardbrick::sprite::Sprite;
use cardbrick::state::MainMenuState;

#[test]
fn text_to_use_prefers_ruby_in_ruby_mode() {
    let mut span = TextSpan::default();
    span.text = "度".to_string();
    assert_eq!(span.text_to_use(true), "度");
    span.ruby_text = Some("たく".to_string());
    assert_eq!(span.text_to_use(true), "たく");
    assert_eq!(span.text_to_use(false), "度");
}

#[test]
fn sprite_blinks_after_the_period() {
    let mut sprite = Sprite::new();
    assert!(!sprite.is_blinking());
    assert!(sprite.is_idle());
    assert!(!sprite.blink_step(500));
    assert!(!sprite.is_blinking());
    assert!(sprite.blink_step(501));
    assert!(sprite.is_blinking());
    assert!(sprite.blink_step(900));
    assert!(!sprite.is_blinking());
    sprite.update();
}

#[test]
fn tracer_keeps_its_name() {
    let t = Tracer::new("layout");
    assert_eq!(t.name(), "layout");
    assert!(t.elapsed_millis() < 60_000);
}

#[test]
fn main_menu_starts_at_first_entry() {
    assert_eq!(MainMenuState::new().selected_index, 0);
}

use cardbrick::deck::Card;
use cardbrick::replay_log::{entry_line, ReplayLogger};
use cardbrick::scheduler::Rating;
use cardbrick::state::{brick_button, joystick_axis, joystick_button, BrickAxis, BrickButton, ListCursor, PadButton};

#[test]
fn face_buttons_are_crossed() {
    assert_eq!(brick_button(PadButton::B), Some(BrickButton::A));
    assert_eq!(brick_button(PadButton::A), Some(BrickButton::B));
    assert_eq!(brick_button(PadButton::Y), Some(BrickButton::X));
    assert_eq!(brick_button(PadButton::X), Some(BrickButton::Y));
    assert_eq!(brick_button(PadButton::DPadLeft), Some(BrickButton::DPadLeft));
    assert_eq!(brick_button(PadButton::Misc), None);
}

#[test]
fn joystick_volume_and_triggers() {
    assert_eq!(joystick_button(14), Some(BrickButton::VolumeUp));
    assert_eq!(joystick_button(13), Some(BrickButton::VolumeDown));
    assert_eq!(joystick_button(0), None);
    assert_eq!(joystick_axis(2), Some(BrickAxis::TriggerLeft));
    assert_eq!(joystick_axis(5), Some(BrickAxis::TriggerRight));
    assert_eq!(joystick_axis(1), None);
}

#[test]
fn cursor_scrolls_by_whole_rows() {
    let mut c = ListCursor::new();
    c.move_selection(1, 10, 4);
    assert_eq!((c.selected_index, c.first_visible), (1, 0));
    c.move_selection(3, 10, 4);
    assert_eq!((c.selected_index, c.first_visible), (4, 1));
    c.move_selection(100, 10, 4);
    assert_eq!((c.selected_index, c.first_visible), (9, 6));
    c.move_selection(-4, 10, 4);
    assert_eq!((c.selected_index, c.first_visible), (5, 5));
    c.move_selection(-100, 10, 4);
    assert_eq!((c.selected_index, c.first_visible), (0, 0));
}

#[test]
fn log_line_lists_the_answer() {
    let card = Card { id: 1234, note_id: 7, due: 0, interval: 12, ease_factor: 2350, lapses: 0 };
    assert_eq!(entry_line("2024-01-02T03:04:05+00:00", &card, Rating::Hard), "2024-01-02T03:04:05+00:00,1234,Hard,2350,12\n");
    let odd = Card { id: -5, note_id: 0, due: 0, interval: 0, ease_factor: 0, lapses: 0 };
    assert_eq!(entry_line("t", &odd, Rating::Again), "t,-5,Again,0,0\n");
    let big = Card { id: i64::MIN, note_id: 0, due: 0, interval: u32::MAX, ease_factor: 10, lapses: 0 };
    assert_eq!(entry_line("", &big, Rating::Easy), format!(",{},Easy,10,{}\n", i64::MIN, u32::MAX));
}

#[test]
fn logger_keeps_its_path() {
    let logger = ReplayLogger::with_path(std::path::PathBuf::from("anki/history/txn/deck.log"));
    assert_eq!(logger.log_path(), &std::path::PathBuf::from("anki/history/txn/deck.log"));
}
