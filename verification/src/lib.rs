//! Inline directory navigation: the state machine behind an arrow-key
//! directory browser, its fuzzy filter, entry ordering and screen layout.

pub mod entries;
pub mod fuzzy;
pub mod keys;
pub mod navigator;
pub mod order;
pub mod paths;
pub mod render;
pub mod scroll;
pub mod text;

pub use scroll::{adjust_scroll, MAX_VISIBLE};
pub use entries::{arrange_entries, Entry};
pub use fuzzy::{filter_entries, rank_matches, FuzzyFilter};
pub use keys::{KeyCode, KeyEvent, KeyModifiers};
pub use navigator::{handle_key, Action, NavState, NavigationResult, Request};
pub use order::{key_order, lex_less};
pub use render::{decimal_text, format_path, line_parts, Frame, Line, Part, Renderer, Style};
