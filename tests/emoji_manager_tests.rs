use emojiq::emoji_manager::{EmojiData, EmojiManager};
use std::collections::HashMap;

// Sample emoji data for testing
fn create_test_emoji_data() -> Vec<EmojiData> {
    vec![
        EmojiData {
            emoji: "😀".to_string(),
            description: Some("grinning face".to_string()),
            category: Some("Smileys & Emotion".to_string()),
            aliases: Some(vec!["grinning".to_string()]),
            tags: Some(vec!["smile".to_string(), "happy".to_string()]),
            unicode_version: Some("6.1".to_string()),
            ios_version: Some("6.0".to_string()),
        },
        EmojiData {
            emoji: "😃".to_string(),
            description: Some("grinning face with big eyes".to_string()),
            category: Some("Smileys & Emotion".to_string()),
            aliases: Some(vec!["smiley".to_string()]),
            tags: Some(vec![
                "happy".to_string(),
                "joy".to_string(),
                "haha".to_string(),
            ]),
            unicode_version: Some("6.0".to_string()),
            ios_version: Some("6.0".to_string()),
        },
        EmojiData {
            emoji: "📆".to_string(),
            description: Some("tear-off calendar".to_string()),
            category: Some("Objects".to_string()),
            aliases: Some(vec!["calendar".to_string()]),
            tags: Some(vec!["schedule".to_string()]),
            unicode_version: Some("6.0".to_string()),
            ios_version: Some("6.0".to_string()),
        },
        EmojiData {
            emoji: "🐒".to_string(),
            description: Some("monkey".to_string()),
            category: Some("Animals & Nature".to_string()),
            aliases: Some(vec!["monkey".to_string()]),
            tags: Some(vec!["animal".to_string()]),
            unicode_version: Some("6.0".to_string()),
            ios_version: Some("6.0".to_string()),
        },
        EmojiData {
            emoji: "🐵".to_string(),
            description: Some("monkey face".to_string()),
            category: Some("Animals & Nature".to_string()),
            aliases: Some(vec!["monkey_face".to_string()]),
            tags: Some(vec!["animal".to_string(), "monkey".to_string()]),
            unicode_version: Some("6.0".to_string()),
            ios_version: Some("6.0".to_string()),
        },
    ]
}

// Sample ranks data for testing
fn create_test_ranks_data() -> HashMap<String, u32> {
    let mut ranks = HashMap::new();
    ranks.insert("🧡".to_string(), 5);
    ranks.insert("🎉".to_string(), 3);
    ranks.insert("👀".to_string(), 6);
    ranks.insert("🐒".to_string(), 1);
    ranks
}

fn ranks_document() -> String {
    serde_json::to_string(&create_test_ranks_data()).unwrap()
}

const EMOJI_FILE: &str = "/tmp/emojiq-test/emoji.json";
const RANKS_FILE: &str = "/tmp/emojiq-test/ranks.json";
const TEST_RANKS_FILE: &str = "/tmp/emojiq-test/test_ranks.json";

fn initialized_manager() -> EmojiManager {
    let mut manager = EmojiManager::new(EMOJI_FILE.to_string(), RANKS_FILE.to_string());
    manager.load_emojis(Ok(create_test_emoji_data())).unwrap();
    manager.load_ranks(Ok(Some(ranks_document()))).unwrap();
    manager.build_keywords().unwrap();
    manager.build_index().unwrap();
    manager
}

#[test]
fn test_emoji_manager_initialization() {
    let emoji_file = EMOJI_FILE.to_string();
    let ranks_file = RANKS_FILE.to_string();

    let manager = EmojiManager::new(emoji_file.clone(), ranks_file.clone());

    assert_eq!(manager.emoji_file_path, emoji_file);
    assert!(manager.ranks_file_path.contains("ranks.json"));

    // Check initial state
    let data = &manager.data;
    assert!(!data.emojis_loaded);
    assert!(!data.ranks_loaded);
    assert!(!data.keywords_built);
    assert!(!data.index_built);
}

#[test]
fn test_load_emojis() {
    let mut manager = EmojiManager::new(EMOJI_FILE.to_string(), TEST_RANKS_FILE.to_string());
    manager.load_emojis(Ok(create_test_emoji_data())).unwrap();

    let data = &manager.data;
    assert!(data.emojis_loaded);
    assert_eq!(data.emojis.len(), 5);
    assert_eq!(data.emojis[0].emoji, "😀");
    assert_eq!(data.emojis[1].emoji, "😃");
    assert_eq!(data.emojis[2].emoji, "📆");
    assert_eq!(data.emojis[3].emoji, "🐒");
    assert_eq!(data.emojis[4].emoji, "🐵");
}

#[test]
fn test_load_ranks() {
    let mut manager = EmojiManager::new("nonexistent.json".to_string(), RANKS_FILE.to_string());

    manager.load_ranks(Ok(Some(ranks_document()))).unwrap();

    let data = &manager.data;
    assert!(data.ranks_loaded);
    assert_eq!(data.ranks.len(), 4);
    assert_eq!(data.ranks.get("👀"), Some(&6));
    assert_eq!(data.ranks.get("🧡"), Some(&5));
    assert_eq!(data.ranks.get("🎉"), Some(&3));
    assert_eq!(data.ranks.get("🐒"), Some(&1));
}

#[test]
fn test_build_keywords() {
    let mut manager = EmojiManager::new(EMOJI_FILE.to_string(), TEST_RANKS_FILE.to_string());
    manager.load_emojis(Ok(create_test_emoji_data())).unwrap();
    manager.build_keywords().unwrap();

    let data = &manager.data;
    assert!(data.keywords_built);
    assert!(data.keywords.len() > 0);

    // Check specific emoji keywords
    let grinning_keywords = data.keywords.get("😀").unwrap();
    assert!(grinning_keywords.contains(&"grinning face".to_string()));
    assert!(grinning_keywords.contains(&"grinning".to_string()));
    assert!(grinning_keywords.contains(&"smile".to_string()));
    assert!(grinning_keywords.contains(&"happy".to_string()));
}

#[test]
fn test_build_index() {
    let mut manager = EmojiManager::new(EMOJI_FILE.to_string(), TEST_RANKS_FILE.to_string());
    manager.load_emojis(Ok(create_test_emoji_data())).unwrap();
    manager.build_keywords().unwrap(); // Keywords must be built first
    manager.build_index().unwrap();

    let data = &manager.data;
    assert!(data.index_built);
    assert!(data.index.len() > 0);

    // Find the index of the calendar emoji
    let calendar_idx = data.emojis.iter().position(|e| e.emoji == "📆").unwrap();
    assert!(data.index.get("ca").unwrap().contains(&calendar_idx));
    assert!(data.index.get("cal").unwrap().contains(&calendar_idx));
    assert!(data.index.get("calendar").unwrap().contains(&calendar_idx));
    assert!(data.index.get("schedule").unwrap().contains(&calendar_idx));
}

#[test]
fn test_get_emojis_empty_filter() {
    let manager = initialized_manager();

    let result = manager.get_emojis("", 10).unwrap();
    let emojis = result;

    // Should return all emojis (limited by MAX_SEARCH_RESULTS)
    assert_eq!(emojis.len(), 5);

    assert!(emojis.contains(&"😀".to_string()));
    assert!(emojis.contains(&"😃".to_string()));
    assert!(emojis.contains(&"📆".to_string()));
    assert!(emojis.contains(&"🐒".to_string()));
    assert!(emojis.contains(&"🐵".to_string()));
}

#[test]
fn test_get_emojis_with_filter() {
    let manager = initialized_manager();

    let result = manager.get_emojis("monkey", 10).unwrap();

    assert!(result.contains(&"🐒".to_string()));
    assert!(result.contains(&"🐵".to_string()));
}

#[test]
fn test_get_keywords() {
    let mut manager = EmojiManager::new(EMOJI_FILE.to_string(), TEST_RANKS_FILE.to_string());
    manager.load_emojis(Ok(create_test_emoji_data())).unwrap();
    manager.build_keywords().unwrap();

    let keywords = manager.get_keywords("😀").unwrap();

    assert!(keywords.contains(&"grinning face".to_string()));
    assert!(keywords.contains(&"grinning".to_string()));
    assert!(keywords.contains(&"smile".to_string()));
    assert!(keywords.contains(&"happy".to_string()));
}

#[test]
fn test_get_keywords_nonexistent_emoji() {
    let mut manager = EmojiManager::new(EMOJI_FILE.to_string(), TEST_RANKS_FILE.to_string());
    manager.load_emojis(Ok(create_test_emoji_data())).unwrap();
    manager.build_keywords().unwrap();

    let keywords = manager.get_keywords("🏴‍☠️🦄").unwrap();
    assert_eq!(keywords, Vec::<String>::new());
}

#[test]
fn test_increment_usage() {
    let mut manager = EmojiManager::new("nonexistent.json".to_string(), RANKS_FILE.to_string());

    // Load initial ranks
    manager.load_ranks(Ok(Some(ranks_document()))).unwrap();
    let initial_count = manager.data.ranks.get("😀").copied().unwrap_or(0);

    // Increment usage
    manager.increment_usage("😀", None, 0);

    let new_count = manager.data.ranks.get("😀").copied().unwrap_or(0);
    assert_eq!(new_count, initial_count + 1);
}

#[test]
fn test_increment_usage_new_emoji() {
    let mut manager = EmojiManager::new("nonexistent.json".to_string(), RANKS_FILE.to_string());

    // Increment usage for emoji not in ranks
    manager.increment_usage("🚀", None, 0);

    // Should start at 1
    let count = manager.data.ranks.get("🚀").copied().unwrap_or(0);
    assert_eq!(count, 1);
}

#[test]
fn test_public_api_functions() {
    let mut manager = initialized_manager();

    let _result = manager.get_emojis("", 10);
    let _result = manager.get_keywords("😀");
    let _result = manager.increment_usage("😀", None, 0);

    // Just test that the functions can be called without panicking
    assert!(true);
}

#[test]
fn test_optimized_search_performance() {
    let manager = initialized_manager();

    // Test that short filters return all emojis (limited by MAX_SEARCH_RESULTS)
    let result = manager.get_emojis("a", 10).unwrap(); // Short filter
    assert_eq!(result.len(), 5); // Should return all 5 test emojis

    // Test that search results are limited
    let result = manager.get_emojis("an", 10).unwrap(); // Longer filter
    assert!(result.len() <= emojiq::constants::MAX_SEARCH_RESULTS); // Should be limited
}

#[test]
fn test_get_emojis_with_zero_max_top() {
    let manager = initialized_manager();

    // Test with max_top_emojis = 0 (should skip ordering)
    let result = manager.get_emojis("", 0).unwrap();
    assert_eq!(result.len(), 5); // Should return all 5 test emojis

    // Test with filter and max_top_emojis = 0
    let result = manager.get_emojis("monkey", 0).unwrap();
    assert!(result.contains(&"🐒".to_string()));
    assert!(result.contains(&"🐵".to_string()));
}
