//! Key-binding and window-property helpers for an X11 window-manager core.
//!
//! The crate builds a name-to-keycode table from the textual dump of the
//! system keymap, parses dash-delimited key-binding patterns against that
//! table, and resolves named window properties over an established X11
//! connection, decoding them as UTF-8 text or as a single 32-bit word.

pub mod bindings;
pub mod keymap;
pub mod props;
pub mod text;
