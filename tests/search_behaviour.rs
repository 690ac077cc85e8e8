use emojiq::constants::{write_delay, MAX_SEARCH_RESULTS};
use emojiq::emoji_manager::{EmojiData, EmojiManager};
use emojiq::errors::EmojiError;
use emojiq::keywords::build_keyword_list;
use emojiq::ledger::{order_by_usage, UsageLedger};
use emojiq::scheduler::{WriteScheduler, WriteStep};
use emojiq::text::strip_variation_selector;

fn item(emoji: &str, description: Option<&str>, aliases: &[&str], tags: &[&str]) -> EmojiData {
    EmojiData {
        emoji: emoji.to_string(),
        description: description.map(|d| d.to_string()),
        category: None,
        aliases: Some(aliases.iter().map(|a| a.to_string()).collect()),
        tags: Some(tags.iter().map(|t| t.to_string()).collect()),
        unicode_version: None,
        ios_version: None,
    }
}

fn strings(v: &[&str]) -> Vec<String> {
    v.iter().map(|s| s.to_string()).collect()
}

fn engine(catalog: Vec<EmojiData>, ranks: Option<&str>) -> EmojiManager {
    let mut manager = EmojiManager::new("emoji.json".to_string(), "ranks.json".to_string());
    manager.initialize(Ok(catalog), Ok(ranks.map(|r| r.to_string()))).unwrap();
    manager
}

fn small_catalog() -> Vec<EmojiData> {
    vec![
        item("😀", None, &[], &["smile", "happy"]),
        item("📆", None, &["calendar"], &["schedule"]),
    ]
}

#[test]
fn end_to_end_example() {
    let mut manager = engine(small_catalog(), None);
    assert_eq!(manager.get_emojis("cal", 10).unwrap(), strings(&["📆"]));
    assert_eq!(manager.get_emojis("sm", 10).unwrap(), strings(&["😀"]));
    for _ in 0..3 {
        manager.increment_usage("📆", None, 0);
    }
    manager.increment_usage("😀", None, 0);
    assert_eq!(manager.get_emojis("", 10).unwrap(), strings(&["📆", "😀"]));
}

#[test]
fn top_n_pinning() {
    let manager = engine(vec![item("A", None, &[], &[]), item("B", None, &[], &[]), item("C", None, &[], &[])], Some("{\"A\":5,\"B\":3}"));
    let ordered = manager.order_emojis_by_usage(strings(&["C", "A", "B"]), 10);
    assert_eq!(ordered, strings(&["A", "B", "C"]));
}

#[test]
fn pinning_respects_the_limit_and_keeps_the_rest_in_order() {
    let ordered = order_by_usage(&strings(&["x", "b", "y", "a"]), &strings(&["a", "q"]));
    assert_eq!(ordered, strings(&["a", "x", "b", "y"]));
    let manager = engine(small_catalog(), Some("{\"📆\":2,\"😀\":1}"));
    assert_eq!(manager.get_top_emojis_from_ranks(&manager.data.ranks, 1), strings(&["📆"]));
    assert_eq!(manager.get_emojis("", 1).unwrap(), strings(&["📆", "😀"]));
}

#[test]
fn equal_counts_keep_ledger_order() {
    let mut ledger = UsageLedger::new();
    ledger.increment("b", 2);
    ledger.increment("a", 2);
    ledger.increment("c", 5);
    assert_eq!(ledger.top(10), strings(&["c", "b", "a"]));
    assert_eq!(ledger.top(0), Vec::<String>::new());
}

#[test]
fn glyph_bypass() {
    let manager = engine(small_catalog(), Some("{\"📆\":9}"));
    assert_eq!(manager.get_emojis("😀", 10).unwrap(), strings(&["😀"]));
    assert_eq!(manager.get_emojis("  😀 ", 10).unwrap(), strings(&["😀"]));
    let catalog = vec![item("☺", Some("smiling face"), &[], &[])];
    let manager = engine(catalog, None);
    assert_eq!(manager.get_emojis("☺\u{FE0F}", 10).unwrap(), strings(&["☺"]));
}

#[test]
fn empty_ledger_keeps_unranked_order() {
    let manager = engine(small_catalog(), None);
    for q in ["", "a", "sm", "ha", "cal", "zz"] {
        assert_eq!(manager.get_emojis(q, 10).unwrap(), manager.get_emojis(q, 0).unwrap());
    }
    assert_eq!(manager.get_emojis("", 10).unwrap(), strings(&["😀", "📆"]));
}

#[test]
fn results_are_catalog_glyphs_and_bounded() {
    let catalog: Vec<EmojiData> = (0..2100).map(|i| item(&format!("g{}", i), Some("same word"), &[], &[])).collect();
    let manager = engine(catalog, Some("{\"g2099\":4,\"nowhere\":7}"));
    let browse = manager.get_emojis("", 10).unwrap();
    assert_eq!(browse.len(), MAX_SEARCH_RESULTS);
    assert_eq!(browse[0], "g0");
    let found = manager.get_emojis("same", 10).unwrap();
    assert_eq!(found.len(), MAX_SEARCH_RESULTS);
    assert!(!found.contains(&"nowhere".to_string()));
    assert!(!found.contains(&"g2099".to_string()));
    // The pinning count does not cap the result.
    let small = engine(small_catalog(), None);
    assert_eq!(small.get_emojis("", 0).unwrap().len(), 2);
}

#[test]
fn prefixes_are_indexed_up_to_twelve_characters() {
    let catalog = vec![item("😃", Some("grinning face with big eyes"), &["extraordinarily"], &[])];
    let manager = engine(catalog, None);
    let index = &manager.data.index;
    for key in ["gr", "grinning fac", "grinning face with big eyes", "ex", "extraordinar", "extraordinarily", "eyes", "ey", "big", "bi", "with"] {
        assert_eq!(index.get(key), Some(&vec![0usize]), "key {}", key);
    }
    assert_eq!(index.get("grinning face"), None);
    assert_eq!(index.get("extraordinari"), None);
    assert_eq!(index.get("e"), None);
}

#[test]
fn hyphenated_keywords_are_split_into_words() {
    let manager = engine(small_catalog_with_tear_off(), None);
    assert_eq!(manager.get_emojis("off", 10).unwrap(), strings(&["📆"]));
    assert_eq!(manager.get_emojis("tear", 10).unwrap(), strings(&["📆"]));
    assert_eq!(manager.get_emojis("tear-off calendar", 10).unwrap(), strings(&["📆"]));
}

fn small_catalog_with_tear_off() -> Vec<EmojiData> {
    vec![item("📆", Some("tear-off calendar"), &[], &[])]
}

#[test]
fn search_is_case_insensitive_and_unknown_queries_find_nothing() {
    let manager = engine(small_catalog(), None);
    assert_eq!(manager.get_emojis("CAL", 10).unwrap(), strings(&["📆"]));
    assert_eq!(manager.get_emojis("xyzzy", 10).unwrap(), Vec::<String>::new());
}

#[test]
fn index_lists_are_sorted_without_repeats() {
    let catalog = vec![
        item("b", Some("monkey"), &["monkey", "monkey_face"], &["monkey"]),
        item("a", Some("monkey face"), &[], &[]),
    ];
    let manager = engine(catalog, None);
    assert_eq!(manager.data.index.get("mo"), Some(&vec![0usize, 1]));
    assert_eq!(manager.data.index.get("face"), Some(&vec![0usize, 1]));
}

#[test]
fn keyword_list_is_normalized_sorted_and_deduplicated() {
    let kws = build_keyword_list("Grinning_Face", &strings(&["grinning_face", "GRIN", "smile", "a", "Grin"]));
    assert_eq!(kws, strings(&["grinning face", "a", "grin", "smile"]));
    let manager = engine(vec![item("x", None, &["Big_Eyes"], &[])], None);
    assert_eq!(manager.get_keywords("x").unwrap(), strings(&["", "big eyes"]));
}

#[test]
fn builders_are_idempotent() {
    let mut manager = engine(small_catalog(), None);
    let keys_before = manager.data.index.len();
    let kws_before = manager.get_keywords("📆").unwrap();
    manager.load_emojis(Ok(vec![item("z", None, &[], &[])])).unwrap();
    manager.load_ranks(Ok(Some("{\"z\":1}".to_string()))).unwrap();
    manager.build_keywords().unwrap();
    manager.build_index().unwrap();
    manager.initialize(Err(EmojiError::Io("unused".to_string())), Ok(None)).unwrap();
    assert_eq!(manager.data.emojis.len(), 2);
    assert_eq!(manager.data.ranks.len(), 0);
    assert_eq!(manager.data.index.len(), keys_before);
    assert_eq!(manager.get_keywords("📆").unwrap(), kws_before);
}

#[test]
fn builders_fail_out_of_order() {
    let mut manager = EmojiManager::new("e".to_string(), "r".to_string());
    assert!(matches!(manager.build_keywords(), Err(EmojiError::Json(_))));
    assert!(matches!(manager.build_index(), Err(EmojiError::Json(_))));
    assert!(!manager.data.keywords_built);
    assert!(!manager.data.index_built);
}

#[test]
fn initialize_loads_what_it_is_given() {
    let mut manager = EmojiManager::new("e".to_string(), "r".to_string());
    manager.initialize(Ok(small_catalog()), Ok(Some("{\"😀\":2}".to_string()))).unwrap();
    assert_eq!(manager.data.emojis.len(), 2);
    assert_eq!(manager.data.emojis[1].emoji, "📆");
    assert_eq!(manager.data.ranks.get("😀"), Some(&2));
    assert!(manager.data.keywords_built && manager.data.index_built);
}

#[test]
fn initialize_reports_read_errors_and_can_be_retried() {
    let mut manager = EmojiManager::new("e".to_string(), "r".to_string());
    let r = manager.initialize(Err(EmojiError::Json("bad catalog".to_string())), Ok(Some("{\"x\":1}".to_string())));
    assert!(matches!(r, Err(EmojiError::Json(m)) if m == "bad catalog"));
    assert!(!manager.is_initialized());
    assert!(!manager.data.ranks_loaded);
    assert!(!manager.data.emojis_loaded);
    // An unreadable ledger does not fail the engine: history starts empty.
    manager.initialize(Ok(small_catalog()), Err(EmojiError::Io("unreadable".to_string()))).unwrap();
    assert!(manager.is_initialized());
    assert!(manager.data.ranks_loaded);
    assert!(manager.data.ranks.is_empty());
    assert_eq!(manager.get_emojis("cal", 5).unwrap(), strings(&["📆"]));
    // Once initialized, later arguments are ignored.
    manager.initialize(Ok(vec![]), Ok(Some("{\"📆\":3}".to_string()))).unwrap();
    assert_eq!(manager.data.emojis.len(), 2);
    assert!(manager.data.ranks.is_empty());
}

#[test]
fn load_emojis_error_changes_nothing() {
    let mut manager = EmojiManager::new("e".to_string(), "r".to_string());
    assert!(matches!(manager.load_emojis(Err(EmojiError::Io("gone".to_string()))), Err(EmojiError::Io(_))));
    assert!(!manager.data.emojis_loaded);
    assert!(!manager.data.ranks_loaded);
}

#[test]
fn malformed_missing_or_unreadable_ledger_starts_empty() {
    let mut manager = EmojiManager::new("e".to_string(), "r".to_string());
    manager.load_ranks(Err(EmojiError::Io("gone".to_string()))).unwrap();
    assert!(manager.data.ranks_loaded);
    assert!(manager.data.ranks.is_empty());
    let mut manager = EmojiManager::new("e".to_string(), "r".to_string());
    manager.load_ranks(Ok(Some("not json".to_string()))).unwrap();
    assert!(manager.data.ranks_loaded);
    assert_eq!(manager.data.ranks.len(), 0);
    let mut manager = EmojiManager::new("e".to_string(), "r".to_string());
    manager.load_ranks(Ok(None)).unwrap();
    assert!(manager.data.ranks_loaded);
    assert!(manager.data.ranks.is_empty());
}

#[test]
fn debounce_coalesces_a_burst_into_one_write() {
    let mut manager = engine(small_catalog(), None);
    let delay = write_delay();
    assert_eq!(delay, 2000);
    let mut started = 0;
    for t in [100u64, 400, 900, 1500] {
        if manager.increment_usage("📆", None, t) {
            started += 1;
        }
    }
    assert_eq!(started, 1);
    assert_eq!(manager.next_write_step(1600), WriteStep::Sleep(1900));
    assert_eq!(manager.next_write_step(3500), WriteStep::Write);
    assert_eq!(manager.ranks_document(), "{\"📆\":4}");
    manager.finish_write(true);
    assert_eq!(manager.next_write_step(9000), WriteStep::Finish);
    assert!(!manager.writer.worker_active);
    assert!(!manager.writer.pending);
    assert!(manager.remove_emoji_rank("📆", 9100));
    assert_eq!(manager.data.ranks.len(), 0);
}

#[test]
fn failed_write_stays_pending() {
    let mut s = WriteScheduler::new(50);
    assert!(s.schedule_write(10));
    assert_eq!(s.next_step(5), WriteStep::Sleep(50));
    assert_eq!(s.next_step(60), WriteStep::Write);
    s.finish_write(false);
    assert!(s.pending);
    assert!(!s.worker_active);
    assert!(s.schedule_write(70));
    assert!(!s.schedule_write(71));
}

#[test]
fn reset_writes_an_empty_document_at_once() {
    let mut manager = engine(small_catalog(), Some("{\"😀\":3}"));
    let writer_before = manager.writer;
    let doc = manager.reset_ranks().unwrap();
    assert_eq!(doc, "{}");
    assert!(manager.data.ranks.is_empty());
    assert_eq!(manager.writer, writer_before);
    assert_eq!(manager.ranks_document(), "{}");
}

#[test]
fn usage_counts_saturate() {
    let mut manager = engine(small_catalog(), Some("{\"😀\":4294967290}"));
    manager.increment_usage("😀", Some(100), 0);
    assert_eq!(manager.data.ranks.get("😀"), Some(&u32::MAX));
    manager.increment_usage("📆", Some(7), 0);
    assert_eq!(manager.data.ranks.get("📆"), Some(&7));
}

#[test]
fn removing_an_unknown_rank_is_no_error() {
    let mut manager = engine(small_catalog(), Some("{\"😀\":3}"));
    manager.remove_emoji_rank("🚀", 0);
    assert_eq!(manager.data.ranks.get("😀"), Some(&3));
}

#[test]
fn variation_selector_is_stripped() {
    assert_eq!(strip_variation_selector("❤\u{FE0F}x\u{FE0F}"), "❤x");
    assert_eq!(strip_variation_selector("abc"), "abc");
}

#[test]
fn error_messages() {
    assert_eq!(EmojiError::Io("disk".to_string()).message(), "IO error: disk");
    assert_eq!(EmojiError::Json("eof".to_string()).message(), "JSON error: eof");
    assert_eq!(EmojiError::WindowHandle.message(), "Window handle error");
    assert_eq!(EmojiError::MonitorNotFound.message(), "Monitor not found");
    assert_eq!(EmojiError::InvalidInput("x".to_string()).message(), "Invalid input: x");
}
