//! Text layout for a flashcard player: styled spans with ruby annotations are
//! wrapped into lines that fit a pixel width, measured against a table of
//! glyph advances, and planned for drawing; plus the markup walk that makes
//! the spans, the review scheduler, and the state around them.
pub mod clock;
pub mod debug;
pub mod deck;
pub mod fit;
pub mod font;
pub mod layout;
pub mod markup;
pub mod render;
pub mod replay_log;
pub mod scheduler;
pub mod span;
pub mod sprite;
pub mod state;
