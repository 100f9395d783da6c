use rustc_ja_wrapper::{build_phrase_table, translate_message, TranslateEntry};

fn entry(en: &str, ja: &str) -> TranslateEntry {
    TranslateEntry { en: en.to_string(), ja: ja.to_string() }
}

#[test]
fn table_is_sorted_by_descending_source_length() {
    let table = build_phrase_table(vec![
        entry("ab", "2"),
        entry("abcd", "4"),
        entry("a", "1"),
        entry("abc", "3"),
    ]);
    let lengths: Vec<usize> = table.iter().map(|e| e.en.chars().count()).collect();
    assert_eq!(lengths, vec![4, 3, 2, 1]);
}

#[test]
fn table_length_is_measured_in_characters() {
    // A multi-byte source template of two characters is shorter than a
    // four-character one, whatever their byte lengths say.
    let table = build_phrase_table(vec![entry("値だ", "v"), entry("abcd", "w")]);
    assert_eq!(table[0].en, "abcd");
    assert_eq!(table[1].en, "値だ");
}

#[test]
fn longer_template_wins_when_both_match() {
    let table = build_phrase_table(vec![
        entry("cannot find", "見つかりません"),
        entry("cannot find value `{$name}`", "値 `{$name}` が見つかりません"),
    ]);
    assert_eq!(
        translate_message("cannot find value `x` in this scope", &table),
        "値 `x` が見つかりません in this scope"
    );
    assert_eq!(translate_message("cannot find anything", &table), "見つかりません anything");
}

#[test]
fn equal_length_templates_keep_their_order() {
    let table = build_phrase_table(vec![entry("aa", "first"), entry("ab", "second")]);
    assert_eq!(table.len(), 2);
    assert_eq!(translate_message("aa", &table), "first");
    assert_eq!(translate_message("ab", &table), "second");
}
