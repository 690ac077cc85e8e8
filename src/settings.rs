use vstd::prelude::*;
use crate::constants::{DEFAULT_GLOBAL_HOTKEY, DEFAULT_MAX_TOP_EMOJIS, DEFAULT_PLACE_UNDER_MOUSE};

verus! {

/// What selecting a glyph does.
#[derive(Debug, Clone, Copy, PartialEq, Eq, Structural)]
pub enum EmojiMode {
    /// Type the glyph into the window that had focus (needs the accessibility permission).
    PasteOnly,
    /// Copy the glyph to the clipboard.
    CopyOnly,
    /// Both type the glyph and copy it.
    PasteAndCopy,
}

impl Default for EmojiMode {
    fn default() -> (r: Self)
        ensures
            r == EmojiMode::PasteOnly,
    {
        EmojiMode::PasteOnly
    }
}

impl EmojiMode {
    /// Whether this mode types the glyph, which needs the accessibility permission.
    pub fn pastes(&self) -> (r: bool)
        ensures
            r == (*self != EmojiMode::CopyOnly),
    {
        match self {
            EmojiMode::CopyOnly => false,
            _ => true,
        }
    }

    /// Whether this mode copies the glyph to the clipboard.
    pub fn copies(&self) -> (r: bool)
        ensures
            r == (*self != EmojiMode::PasteOnly),
    {
        match self {
            EmojiMode::PasteOnly => false,
            _ => true,
        }
    }
}

/// The hotkey used when no setting names one.
pub fn default_global_hotkey() -> (r: String)
    ensures
        r@ == DEFAULT_GLOBAL_HOTKEY@,
{
    DEFAULT_GLOBAL_HOTKEY.to_owned()
}

/// How many glyphs are pinned first when no setting says.
pub fn default_max_top_emojis() -> (r: usize)
    ensures
        r == DEFAULT_MAX_TOP_EMOJIS,
{
    DEFAULT_MAX_TOP_EMOJIS
}

/// Whether the picker opens under the mouse when no setting says.
pub fn default_place_under_mouse() -> (r: bool)
    ensures
        r == DEFAULT_PLACE_UNDER_MOUSE,
{
    DEFAULT_PLACE_UNDER_MOUSE
}

} // verus!
