use vstd::prelude::*;

verus! {

/// Quiet period, in seconds, before usage counts are written back.
pub const RANK_WRITE_DELAY_SECS: u64 = 2;

/// Queries shorter than this many bytes browse the whole catalog.
pub const MIN_SEARCH_LENGTH: usize = 2;

/// Upper bound on the number of results of one search.
pub const MAX_SEARCH_RESULTS: usize = 2000;

/// Keywords shorter than this many bytes are not indexed.
pub const MIN_KEYWORD_LENGTH: usize = 2;

/// Longest keyword prefix, in characters, that is indexed.
pub const MAX_PREFIX_LENGTH: usize = 12;

/// Catalog file used by development builds.
pub const DEFAULT_EMOJI_FILE: &'static str = "src/emoji.json";

/// Usage ledger file, relative to the home directory.
pub const DEFAULT_RANKS_FILE: &'static str = "ranks.json";

/// Settings file name.
pub const DEFAULT_SETTINGS_FILE: &'static str = "settings.json";

/// Hotkey that opens the picker when no setting says otherwise.
pub const DEFAULT_GLOBAL_HOTKEY: &'static str = "Cmd+Option+Space";

/// Whether the picker opens under the mouse cursor by default.
pub const DEFAULT_PLACE_UNDER_MOUSE: bool = true;

/// How many of the most used glyphs are pinned first by default.
pub const DEFAULT_MAX_TOP_EMOJIS: usize = 10;

/// Largest accepted number of pinned glyphs.
pub const MAX_TOP_EMOJIS_LIMIT: usize = 50;

/// Milliseconds in a second.
pub const MILLIS_PER_SEC: u64 = 1000;

/// The debounce delay of ledger write-back, in milliseconds.
pub fn write_delay() -> (r: u64)
    ensures
        r == RANK_WRITE_DELAY_SECS * MILLIS_PER_SEC,
{
    RANK_WRITE_DELAY_SECS * MILLIS_PER_SEC
}

} // verus!
