use rustc_ja_wrapper::{translate_message, TranslateEntry};

fn entry(en: &str, ja: &str) -> TranslateEntry {
    TranslateEntry { en: en.to_string(), ja: ja.to_string() }
}

#[test]
fn test_translate_message_simple() {
    let test_translate_entries: Vec<TranslateEntry> = vec![
        entry("hello", "こんにちは"),
        entry("error: {$name}", "エラー: {$name}"),
        entry("borrow of moved value", "移動された値の借用"),
        entry(
            "move occurs because `{$name}` has type `{$ty}`, which does not implement the `Copy` trait",
            "`{$ty}` 型の `{$name}` は `Copy` トレイトを実装していないので、移動します",
        ),
    ];

    assert_eq!(translate_message("hello", &test_translate_entries), "こんにちは");
    assert_eq!(translate_message("error: foo", &test_translate_entries), "エラー: foo");
    assert_eq!(translate_message("not found", &test_translate_entries), "not found");
    assert_eq!(
        translate_message("borrow of moved value", &test_translate_entries),
        "移動された値の借用"
    );
    assert_eq!(
        translate_message(
            "move occurs because `s1` has type `String`, which does not implement the `Copy` trait",
            &test_translate_entries
        ),
        "`String` 型の `s1` は `Copy` トレイトを実装していないので、移動します"
    );
}

#[test]
fn pass_through_when_nothing_matches() {
    let entries = vec![entry("known phrase", "既知の句")];
    assert_eq!(translate_message("an unknown phrase", &entries), "an unknown phrase");
    let empty: Vec<TranslateEntry> = Vec::new();
    assert_eq!(translate_message("anything at all", &empty), "anything at all");
    assert_eq!(translate_message("", &entries), "");
}

#[test]
fn exact_phrase_translates_to_target() {
    let entries = vec![entry("borrow of moved value", "移動された値の借用")];
    assert_eq!(translate_message("borrow of moved value", &entries), "移動された値の借用");
}

#[test]
fn trailing_remainder_appended_verbatim() {
    let entries = vec![entry("error: {$name}", "エラー: {$name}")];
    assert_eq!(
        translate_message("error: foo, more text", &entries),
        "エラー: foo, more text"
    );
}

#[test]
fn uncaptured_target_placeholder_stays_literal() {
    let entries = vec![entry("a {$x}", "B {$y}")];
    assert_eq!(translate_message("a z", &entries), "B {$y}");
}

#[test]
fn repeated_placeholder_name_keeps_latest_capture() {
    let entries = vec![entry("e {$n}-{$n}!", "[{$n}]")];
    assert_eq!(translate_message("e 1-2!", &entries), "[2]");
}
