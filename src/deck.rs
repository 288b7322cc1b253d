//! Cards, notes and decks.
use vstd::prelude::*;
use std::collections::HashMap;

verus! {

/// One card of a deck and its review state.
#[derive(Debug, Clone, Copy)]
pub struct Card {
    pub id: i64,
    pub note_id: i64,
    pub due: i64,
    /// The interval, in days.
    pub interval: u32,
    /// The ease factor, in thousandths.
    pub ease_factor: u32,
    /// How many times the card was forgotten.
    pub lapses: u32,
}

/// The content of a card: its fields, front first, then back.
#[derive(Debug, Clone)]
pub struct Note {
    pub id: i64,
    pub fields: Vec<String>,
}

/// A whole deck: its cards, and its notes by id.
#[derive(Debug)]
pub struct Deck {
    pub cards: Vec<Card>,
    pub notes: HashMap<i64, Note>,
}

} // verus!
