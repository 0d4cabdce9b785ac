use portal_it::models::{Bookmark, SqlValue, Switch, Task};
use portal_it::strorder::{cmp_str, StrOrd};
use portal_it::tags::{decode_tags, encode_tags, trim_str};
use portal_it::DbError;

#[test]
fn tags_encode_joins_with_commas() {
    let b = Bookmark {
        id: 1,
        label: "l".to_string(),
        url: "u".to_string(),
        section: "General".to_string(),
        description: None,
        tags: Some(vec!["net".to_string(), "infra".to_string()]),
    };
    assert_eq!(b.tags_as_string(), Some("net,infra".to_string()));
    let none = Bookmark { tags: None, ..b };
    assert_eq!(none.tags_as_string(), None);
}

#[test]
fn tags_round_trip_without_commas() {
    let tags = vec!["net".to_string(), "infra".to_string()];
    let stored = encode_tags(&tags);
    assert_eq!(stored, "net,infra");
    assert_eq!(decode_tags(&stored), tags);
}

#[test]
fn decode_splits_and_trims_pieces() {
    assert_eq!(
        decode_tags(" net , infra ,ops"),
        vec!["net".to_string(), "infra".to_string(), "ops".to_string()]
    );
    assert_eq!(decode_tags(""), vec!["".to_string()]);
    assert_eq!(decode_tags("a,"), vec!["a".to_string(), "".to_string()]);
}

#[test]
fn comma_inside_a_tag_is_lost_as_documented() {
    let tags = vec!["a,b".to_string()];
    let stored = encode_tags(&tags);
    assert_eq!(decode_tags(&stored), vec!["a".to_string(), "b".to_string()]);
}

#[test]
fn trim_removes_edge_whitespace_only() {
    assert_eq!(trim_str("  hello world \t"), "hello world");
    assert_eq!(trim_str(""), "");
    assert_eq!(trim_str("   "), "");
    assert_eq!(trim_str("solid"), "solid");
}

#[test]
fn cmp_str_orders_lexicographically() {
    assert!(matches!(cmp_str("abc", "abd"), StrOrd::Less));
    assert!(matches!(cmp_str("b", "ab"), StrOrd::Greater));
    assert!(matches!(cmp_str("same", "same"), StrOrd::Equal));
    assert!(matches!(cmp_str("", "a"), StrOrd::Less));
    assert!(matches!(cmp_str("ab", "a"), StrOrd::Greater));
}

fn text(s: &str) -> SqlValue {
    SqlValue::Text(s.to_string())
}

#[test]
fn task_from_row_maps_columns_by_name() {
    let row = vec![
        ("created_at".to_string(), text("2024-01-01 00:00:00")),
        ("id".to_string(), SqlValue::Int(7)),
        ("completed".to_string(), SqlValue::Int(1)),
        ("title".to_string(), text("read")),
    ];
    let t = Task::from_row(&row).unwrap();
    assert_eq!(t.id, 7);
    assert_eq!(t.title, "read");
    assert_eq!(t.completed, 1);
    assert_eq!(t.created_at, "2024-01-01 00:00:00");
}

#[test]
fn task_from_row_rejects_missing_or_mistyped_columns() {
    let missing = vec![("id".to_string(), SqlValue::Int(7))];
    assert!(matches!(Task::from_row(&missing), Err(DbError::ColumnMismatch)));
    let mistyped = vec![
        ("id".to_string(), text("seven")),
        ("title".to_string(), text("read")),
        ("completed".to_string(), SqlValue::Int(0)),
        ("created_at".to_string(), text("2024")),
    ];
    assert!(matches!(Task::from_row(&mistyped), Err(DbError::ColumnMismatch)));
}

#[test]
fn bookmark_from_row_decodes_tags_and_nulls() {
    let row = vec![
        ("id".to_string(), SqlValue::Int(3)),
        ("label".to_string(), text("docs")),
        ("url".to_string(), text("https://example.test")),
        ("section".to_string(), text("General")),
        ("description".to_string(), SqlValue::Null),
        ("tags".to_string(), text("a, b")),
    ];
    let b = Bookmark::from_row(&row).unwrap();
    assert_eq!(b.id, 3);
    assert_eq!(b.description, None);
    assert_eq!(b.tags, Some(vec!["a".to_string(), "b".to_string()]));
    let row_null_tags = vec![
        ("id".to_string(), SqlValue::Int(3)),
        ("label".to_string(), text("docs")),
        ("url".to_string(), text("https://example.test")),
        ("section".to_string(), text("General")),
        ("description".to_string(), text("d")),
        ("tags".to_string(), SqlValue::Null),
    ];
    let b = Bookmark::from_row(&row_null_tags).unwrap();
    assert_eq!(b.tags, None);
    assert_eq!(b.description, Some("d".to_string()));
}

#[test]
fn switch_from_row_reads_optional_identity() {
    let row = vec![
        ("id".to_string(), SqlValue::Null),
        ("name".to_string(), text("edge-1")),
        ("ip".to_string(), text("10.1.1.1")),
        ("location".to_string(), SqlValue::Null),
        ("notes".to_string(), text("spare")),
    ];
    let s = Switch::from_row(&row).unwrap();
    assert_eq!(s.id, None);
    assert_eq!(s.name, "edge-1");
    assert_eq!(s.notes, Some("spare".to_string()));
}

#[test]
fn db_error_messages_are_descriptive() {
    assert!(DbError::TextTooLarge.message().contains("size limit"));
    assert!(DbError::IdExhausted.message().contains("identity"));
    assert!(DbError::ColumnMismatch.message().contains("column"));
}
