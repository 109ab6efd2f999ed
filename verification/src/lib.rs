//! Verified text-editing core for single-line and multi-line text inputs:
//! UTF-8/UTF-16 offset bookkeeping, grapheme/word/line navigation, the states of an
//! input and of an editable text element (selection, IME composition, mouse
//! selection), patch-based undo/redo history, caret blinking, and where lines of
//! text lie.

pub mod text;
pub mod unicode;
pub mod storage;
pub mod segmentation;
pub mod boundaries;
pub mod history;
pub mod input_state;
pub mod cursor;
pub mod caret;
pub mod editable;
pub mod layout;
