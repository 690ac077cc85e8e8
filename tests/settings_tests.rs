use emojiq::permissions::{reset_permission_cache, PermissionCache};
use emojiq::settings::{default_global_hotkey, default_max_top_emojis, default_place_under_mouse, EmojiMode};

#[test]
fn settings_defaults() {
    assert_eq!(default_global_hotkey(), "Cmd+Option+Space");
    assert_eq!(default_max_top_emojis(), 10);
    assert!(default_place_under_mouse());
    assert_eq!(EmojiMode::default(), EmojiMode::PasteOnly);
    assert!(EmojiMode::PasteOnly.pastes() && !EmojiMode::PasteOnly.copies());
    assert!(!EmojiMode::CopyOnly.pastes() && EmojiMode::CopyOnly.copies());
    assert!(EmojiMode::PasteAndCopy.pastes() && EmojiMode::PasteAndCopy.copies());
}

#[test]
fn permission_cache_reset() {
    let mut cache = PermissionCache::new();
    assert!(!cache.known_granted());
    cache.record(true);
    assert!(cache.known_granted());
    reset_permission_cache(&mut cache);
    assert!(!cache.known_granted());
    assert!(!cache.checked);
}
