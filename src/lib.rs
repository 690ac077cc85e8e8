//! A search-and-ranking engine for a fixed catalog of emoji glyphs.
//!
//! The catalog is turned into normalized keyword lists, an inverted index of
//! keywords and keyword prefixes, and a usage ledger that reorders results by
//! how often each glyph was picked. Durable writes of the ledger are driven by
//! a small debouncing state machine; performing the I/O is left to the caller.
pub mod constants;
pub mod errors;
pub mod text;
pub mod keywords;
pub mod index;
pub mod ledger;
pub mod scheduler;
pub mod document;
pub mod emoji_manager;
pub mod settings;
pub mod permissions;
