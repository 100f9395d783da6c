use rustc_ja_wrapper::{
    translate_json_message, translate_tree, DiagnosticChild, DiagnosticRecord, DiagnosticSpan,
    TranslateEntry,
};

fn entry(en: &str, ja: &str) -> TranslateEntry {
    TranslateEntry { en: en.to_string(), ja: ja.to_string() }
}

fn span(label: Option<&str>) -> DiagnosticSpan {
    DiagnosticSpan { label: label.map(|s| s.to_string()) }
}

#[test]
fn test_translate_json_message_message_field() {
    let test_translate_entries = vec![
        entry("borrow of moved value", "移動された値の借用"),
        entry("value moved here", "ここで値を移動"),
        entry("value borrowed here after move", "移動後の値をここで借用"),
        entry(
            "consider cloning the value if the performance cost is acceptable",
            "複製コストが許容できるなら、クローンすることを検討してください",
        ),
    ];
    let record = DiagnosticRecord {
        message: Some("borrow of moved value: `s1`".to_string()),
        spans: vec![span(Some("value moved here")), span(Some("value borrowed here after move"))],
        children: vec![DiagnosticChild {
            message: Some(
                "consider cloning the value if the performance cost is acceptable".to_string(),
            ),
            spans: vec![span(Some("hello"))],
        }],
        rendered: Some(
            "borrow of moved value: `s1`\nvalue moved here\nvalue borrowed here after move\nconsider cloning the value if the performance cost is acceptable"
                .to_string(),
        ),
    };
    let translated = translate_json_message(&record, &test_translate_entries);
    assert_eq!(translated.message, Some("移動された値の借用: `s1`".to_string()));
    assert_eq!(translated.spans[0].label, Some("ここで値を移動".to_string()));
    assert_eq!(translated.spans[1].label, Some("移動後の値をここで借用".to_string()));
    assert_eq!(
        translated.children[0].message,
        Some("複製コストが許容できるなら、クローンすることを検討してください".to_string())
    );
    assert_eq!(translated.children[0].spans[0].label, Some("hello".to_string()));
    assert_eq!(
        translated.rendered,
        Some(
            "移動された値の借用: `s1`\nここで値を移動\n移動後の値をここで借用\n複製コストが許容できるなら、クローンすることを検討してください"
                .to_string()
        )
    );
}

#[test]
fn shape_is_preserved() {
    let entries = vec![entry("value moved here", "ここで値を移動")];
    let record = DiagnosticRecord {
        message: None,
        spans: vec![span(Some("value moved here")), span(None), span(Some("untouched"))],
        children: vec![
            DiagnosticChild { message: None, spans: vec![] },
            DiagnosticChild { message: Some("x".to_string()), spans: vec![span(None)] },
        ],
        rendered: None,
    };
    let translated = translate_json_message(&record, &entries);
    assert!(translated.message.is_none());
    assert_eq!(translated.spans.len(), 3);
    assert!(translated.spans[1].label.is_none());
    assert_eq!(translated.spans[2].label, Some("untouched".to_string()));
    assert_eq!(translated.children.len(), 2);
    assert_eq!(translated.children[0].spans.len(), 0);
    assert_eq!(translated.children[1].spans.len(), 1);
    assert!(translated.children[1].spans[0].label.is_none());
    assert!(translated.rendered.is_none());
}

#[test]
fn untranslated_record_is_unchanged() {
    let entries = vec![entry("known phrase", "既知の句")];
    let record = DiagnosticRecord {
        message: Some("nothing matches".to_string()),
        spans: vec![span(Some("still nothing"))],
        children: vec![DiagnosticChild {
            message: Some("no match here either".to_string()),
            spans: vec![span(Some("none"))],
        }],
        rendered: Some("nothing matches\nstill nothing".to_string()),
    };
    let translated = translate_json_message(&record, &entries);
    assert_eq!(translated.message, Some("nothing matches".to_string()));
    assert_eq!(translated.spans[0].label, Some("still nothing".to_string()));
    assert_eq!(translated.children[0].message, Some("no match here either".to_string()));
    assert_eq!(translated.children[0].spans[0].label, Some("none".to_string()));
    assert_eq!(translated.rendered, Some("nothing matches\nstill nothing".to_string()));
}

#[test]
fn rendered_line_is_translated_with_message() {
    let entries = vec![entry("borrow of moved value", "移動された値の借用")];
    let record = DiagnosticRecord {
        message: Some("borrow of moved value".to_string()),
        spans: vec![],
        children: vec![],
        rendered: Some("error[E0382]: borrow of moved value\n --> src/main.rs:4:20".to_string()),
    };
    let translated = translate_json_message(&record, &entries);
    assert_eq!(
        translated.rendered,
        Some("error[E0382]: 移動された値の借用\n --> src/main.rs:4:20".to_string())
    );
}

#[test]
fn tree_translation_logs_each_change_in_order() {
    let entries = vec![
        entry("value moved here", "ここで値を移動"),
        entry("borrow of moved value", "移動された値の借用"),
    ];
    let record = DiagnosticRecord {
        message: Some("borrow of moved value".to_string()),
        spans: vec![span(Some("value moved here")), span(Some("unmatched"))],
        children: vec![],
        rendered: None,
    };
    let (translated, log) = translate_tree(&record, &entries);
    assert_eq!(translated.message, Some("移動された値の借用".to_string()));
    assert_eq!(log.len(), 2);
    assert_eq!(log[0].0, "borrow of moved value");
    assert_eq!(log[0].1, "移動された値の借用");
    assert_eq!(log[1].0, "value moved here");
    assert_eq!(log[1].1, "ここで値を移動");
}
