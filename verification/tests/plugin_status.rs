use herdr::plugin_status::{
    load, load_plugin, normal_severity, status_file_within_limit, valid_label, valid_token,
    InstalledPluginStatus, PluginStatusItem, PluginStatusSeverity, StatusDocumentItem,
};

fn doc_item(id: &str, label: &str, priority: i32) -> StatusDocumentItem {
    StatusDocumentItem {
        id: id.to_string(),
        label: label.to_string(),
        severity: normal_severity(),
        priority,
    }
}

fn keys(items: &[PluginStatusItem]) -> Vec<(String, String, i32)> {
    items.iter().map(|i| (i.plugin_id.clone(), i.id.clone(), i.priority)).collect()
}

#[test]
fn tokens_are_short_ascii_words() {
    assert!(valid_token("notifications"));
    assert!(valid_token("a.b_c-9"));
    assert!(!valid_token(""));
    assert!(!valid_token("has space"));
    assert!(!valid_token("ünïcode"));
    assert!(valid_token(&"x".repeat(64)));
    assert!(!valid_token(&"x".repeat(65)));
}

#[test]
fn labels_are_short_and_printable() {
    assert!(valid_label("notifications off"));
    assert!(valid_label("提交 ✓"));
    assert!(!valid_label(""));
    assert!(!valid_label("line\nbreak"));
    assert!(valid_label(&"é".repeat(80)));
    assert!(!valid_label(&"é".repeat(81)));
}

#[test]
fn status_documents_over_the_limit_are_ignored() {
    assert!(status_file_within_limit(0));
    assert!(status_file_within_limit(16 * 1024));
    assert!(!status_file_within_limit(16 * 1024 + 1));
}

#[test]
fn plugin_items_drop_invalid_entries_and_keep_at_most_eight() {
    let mut document = vec![doc_item("bad id", "x", 0), doc_item("ok", "", 0)];
    for idx in 0..8 {
        document.push(doc_item(&format!("item{idx}"), "label", idx));
    }
    let items = load_plugin("example.notify", Some(document));
    assert_eq!(
        keys(&items),
        (0..6).map(|idx| ("example.notify".to_string(), format!("item{idx}"), idx)).collect::<Vec<_>>()
    );
    assert!(load_plugin("example.notify", None).is_empty());
}

#[test]
fn severity_defaults_to_normal() {
    assert_eq!(normal_severity(), PluginStatusSeverity::Normal);
}

#[test]
fn load_orders_by_priority_then_plugin_then_id() {
    let plugins = vec![
        InstalledPluginStatus {
            plugin_id: "zeta".into(),
            enabled: true,
            document: Some(vec![doc_item("b", "B", 5), doc_item("a", "A", 5)]),
        },
        InstalledPluginStatus {
            plugin_id: "alpha".into(),
            enabled: true,
            document: Some(vec![doc_item("c", "C", 5), doc_item("d", "D", 9)]),
        },
        InstalledPluginStatus {
            plugin_id: "off".into(),
            enabled: false,
            document: Some(vec![doc_item("e", "E", 100)]),
        },
        InstalledPluginStatus { plugin_id: "missing".into(), enabled: true, document: None },
    ];
    let items = load(plugins);
    assert_eq!(
        keys(&items),
        vec![
            ("alpha".to_string(), "d".to_string(), 9),
            ("alpha".to_string(), "c".to_string(), 5),
            ("zeta".to_string(), "a".to_string(), 5),
            ("zeta".to_string(), "b".to_string(), 5),
        ]
    );
    assert_eq!(items[0].label, "D");
}

#[test]
fn load_keeps_registry_order_for_equal_items() {
    let plugins = vec![
        InstalledPluginStatus {
            plugin_id: "p".into(),
            enabled: true,
            document: Some(vec![doc_item("x", "first", 1), doc_item("x", "second", 1)]),
        },
    ];
    let items = load(plugins);
    let labels: Vec<&str> = items.iter().map(|i| i.label.as_str()).collect();
    assert_eq!(labels, vec!["first", "second"]);
}

#[test]
fn negative_priorities_sort_last() {
    let plugins = vec![InstalledPluginStatus {
        plugin_id: "p".into(),
        enabled: true,
        document: Some(vec![doc_item("low", "L", -3), doc_item("zero", "Z", 0)]),
    }];
    let items = load(plugins);
    assert_eq!(items[0].id, "zero");
    assert_eq!(items[1].id, "low");
}
