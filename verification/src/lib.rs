//! A keystroke-driven menu selector: a table of (key sequence, output,
//! description) bindings is loaded once, and each typed character narrows the
//! set of bindings whose key sequence starts with the characters typed so far,
//! until a single binding resolves or the user cancels.

pub mod bindings;
pub mod engine;
pub mod parse;
pub mod project;
