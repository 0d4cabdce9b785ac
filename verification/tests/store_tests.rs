use portal_it::json::JsonValue;
use portal_it::models::{Bookmark, SqlValue, Switch};
use portal_it::store::DbState;

fn task_doc(title: &str, completed: i64) -> JsonValue {
    JsonValue::Obj(vec![
        ("title".to_string(), JsonValue::Str(title.to_string())),
        ("completed".to_string(), JsonValue::Int(completed)),
    ])
}

fn bookmark(label: &str, section: &str) -> Bookmark {
    Bookmark {
        id: 0,
        label: label.to_string(),
        url: format!("https://example.test/{}", label),
        section: section.to_string(),
        description: None,
        tags: None,
    }
}

#[test]
fn created_task_is_listed_and_toggle_keeps_created_at() {
    let mut st = DbState::new();
    st.create_task("Write report", "2024-01-01 10:00:00").unwrap();
    let tasks = st.list_tasks().unwrap();
    assert_eq!(tasks.len(), 1);
    assert_eq!(tasks[0].title, "Write report");
    assert_eq!(tasks[0].completed, 0);
    assert_eq!(tasks[0].created_at, "2024-01-01 10:00:00");
    let id = tasks[0].id;
    st.toggle_task(id, true).unwrap();
    let tasks = st.list_tasks().unwrap();
    assert_eq!(tasks[0].completed, 1);
    assert_eq!(tasks[0].created_at, "2024-01-01 10:00:00");
    assert_eq!(tasks[0].title, "Write report");
    st.toggle_task(id, false).unwrap();
    assert_eq!(st.list_tasks().unwrap()[0].completed, 0);
}

#[test]
fn tasks_are_listed_newest_first() {
    let mut st = DbState::new();
    st.create_task("oldest", "2024-01-01 08:00:00").unwrap();
    st.create_task("newest", "2024-03-01 08:00:00").unwrap();
    st.create_task("middle", "2024-02-01 08:00:00").unwrap();
    let titles: Vec<String> =
        st.list_tasks().unwrap().into_iter().map(|t| t.title).collect();
    assert_eq!(titles, vec!["newest", "middle", "oldest"]);
}

#[test]
fn deleting_missing_ids_changes_nothing() {
    let mut st = DbState::new();
    st.create_task("keep me", "2024-01-01 08:00:00").unwrap();
    st.create_bookmark(&bookmark("a", "General")).unwrap();
    let sw = Switch {
        id: None,
        name: "core-1".to_string(),
        ip: "10.0.0.1".to_string(),
        location: None,
        notes: None,
    };
    st.upsert_switch(&sw).unwrap();
    st.delete_task(9999).unwrap();
    st.delete_bookmark(9999).unwrap();
    st.delete_switch(9999).unwrap();
    assert_eq!(st.list_tasks().unwrap().len(), 1);
    assert_eq!(st.list_bookmark_sections().unwrap().len(), 1);
    assert_eq!(st.list_switches().unwrap().len(), 1);
}

#[test]
fn deleting_an_existing_task_removes_only_it() {
    let mut st = DbState::new();
    st.create_task("first", "2024-01-01 08:00:00").unwrap();
    st.create_task("second", "2024-01-02 08:00:00").unwrap();
    let tasks = st.list_tasks().unwrap();
    let id = tasks.iter().find(|t| t.title == "first").unwrap().id;
    st.delete_task(id).unwrap();
    let titles: Vec<String> =
        st.list_tasks().unwrap().into_iter().map(|t| t.title).collect();
    assert_eq!(titles, vec!["second"]);
}

#[test]
fn bookmark_sections_group_by_section_alphabetically() {
    let mut st = DbState::new();
    st.create_bookmark(&bookmark("A", "Net")).unwrap();
    st.create_bookmark(&bookmark("B", "Ops")).unwrap();
    st.create_bookmark(&bookmark("C", "Net")).unwrap();
    let sections = st.list_bookmark_sections().unwrap();
    assert_eq!(sections.len(), 2);
    assert_eq!(sections[0].title, "Net");
    assert_eq!(sections[0].id, "Net");
    let net: Vec<String> =
        sections[0].links.iter().map(|b| b.label.clone()).collect();
    assert_eq!(net, vec!["A", "C"]);
    assert_eq!(sections[1].title, "Ops");
    let ops: Vec<String> =
        sections[1].links.iter().map(|b| b.label.clone()).collect();
    assert_eq!(ops, vec!["B"]);
}

#[test]
fn bookmark_tags_survive_storage() {
    let mut st = DbState::new();
    let mut b = bookmark("tagged", "General");
    b.tags = Some(vec!["net".to_string(), "infra".to_string()]);
    st.create_bookmark(&b).unwrap();
    let sections = st.list_bookmark_sections().unwrap();
    let stored = &sections[0].links[0];
    assert_eq!(
        stored.tags,
        Some(vec!["net".to_string(), "infra".to_string()])
    );
}

#[test]
fn save_switch_inserts_then_updates_in_place() {
    let mut st = DbState::new();
    let sw = Switch {
        id: None,
        name: "core-1".to_string(),
        ip: "10.0.0.1".to_string(),
        location: Some("rack 4".to_string()),
        notes: None,
    };
    let id1 = st.upsert_switch(&sw).unwrap();
    let listed = st.list_switches().unwrap();
    assert_eq!(listed.len(), 1);
    assert_eq!(listed[0].id, Some(id1));
    let update = Switch {
        id: Some(id1),
        name: "core-1-renamed".to_string(),
        ip: "10.0.0.2".to_string(),
        location: None,
        notes: Some("moved".to_string()),
    };
    let id2 = st.upsert_switch(&update).unwrap();
    assert_eq!(id1, id2);
    let listed = st.list_switches().unwrap();
    assert_eq!(listed.len(), 1);
    assert_eq!(listed[0].name, "core-1-renamed");
    assert_eq!(listed[0].ip, "10.0.0.2");
    assert_eq!(listed[0].location, None);
    assert_eq!(listed[0].notes, Some("moved".to_string()));
}

#[test]
fn save_switch_assigns_distinct_fresh_ids() {
    let mut st = DbState::new();
    let mut ids = Vec::new();
    for name in ["alpha", "beta", "gamma"] {
        let sw = Switch {
            id: None,
            name: name.to_string(),
            ip: "10.0.0.9".to_string(),
            location: None,
            notes: None,
        };
        ids.push(st.upsert_switch(&sw).unwrap());
    }
    ids.sort();
    ids.dedup();
    assert_eq!(ids.len(), 3);
}

#[test]
fn save_switch_with_unknown_id_changes_nothing() {
    let mut st = DbState::new();
    let sw = Switch {
        id: Some(42),
        name: "ghost".to_string(),
        ip: "10.9.9.9".to_string(),
        location: None,
        notes: None,
    };
    let rid = st.upsert_switch(&sw).unwrap();
    assert_eq!(rid, 42);
    assert_eq!(st.list_switches().unwrap().len(), 0);
}

#[test]
fn switches_are_listed_by_name() {
    let mut st = DbState::new();
    for name in ["zeta", "alpha", "mid"] {
        let sw = Switch {
            id: None,
            name: name.to_string(),
            ip: "10.0.0.1".to_string(),
            location: None,
            notes: None,
        };
        st.upsert_switch(&sw).unwrap();
    }
    let names: Vec<String> =
        st.list_switches().unwrap().into_iter().map(|s| s.name).collect();
    assert_eq!(names, vec!["alpha", "mid", "zeta"]);
}

#[test]
fn import_of_tasks_replaces_tasks_and_keeps_other_tables() {
    let mut st = DbState::new();
    st.create_task("old task", "2024-01-01 08:00:00").unwrap();
    st.create_task("older task", "2023-01-01 08:00:00").unwrap();
    st.create_bookmark(&bookmark("kept", "General")).unwrap();
    let doc = JsonValue::Obj(vec![(
        "tasks".to_string(),
        JsonValue::Arr(vec![task_doc("X", 1)]),
    )]);
    st.import_json(&doc, "2024-06-01 12:00:00").unwrap();
    let tasks = st.list_tasks().unwrap();
    assert_eq!(tasks.len(), 1);
    assert_eq!(tasks[0].title, "X");
    assert_eq!(tasks[0].completed, 1);
    let sections = st.list_bookmark_sections().unwrap();
    assert_eq!(sections.len(), 1);
    assert_eq!(sections[0].links[0].label, "kept");
    assert_eq!(st.list_switches().unwrap().len(), 0);
}

#[test]
fn import_defaults_missing_and_mistyped_fields() {
    let mut st = DbState::new();
    let item = JsonValue::Obj(vec![
        ("completed".to_string(), JsonValue::Str("yes".to_string())),
        ("unrecognized".to_string(), JsonValue::Int(7)),
    ]);
    let doc = JsonValue::Obj(vec![(
        "tasks".to_string(),
        JsonValue::Arr(vec![item, JsonValue::Null]),
    )]);
    st.import_json(&doc, "2024-06-01 12:00:00").unwrap();
    let tasks = st.list_tasks().unwrap();
    assert_eq!(tasks.len(), 2);
    for t in &tasks {
        assert_eq!(t.title, "");
        assert_eq!(t.completed, 0);
        assert_eq!(t.created_at, "2024-06-01 12:00:00");
    }
}

#[test]
fn import_bookmark_defaults_section_to_general() {
    let mut st = DbState::new();
    let item = JsonValue::Obj(vec![(
        "label".to_string(),
        JsonValue::Str("bare".to_string()),
    )]);
    let doc = JsonValue::Obj(vec![(
        "bookmarks".to_string(),
        JsonValue::Arr(vec![item]),
    )]);
    st.import_json(&doc, "2024-06-01 12:00:00").unwrap();
    let sections = st.list_bookmark_sections().unwrap();
    assert_eq!(sections.len(), 1);
    assert_eq!(sections[0].title, "General");
    assert_eq!(sections[0].links[0].label, "bare");
    assert_eq!(sections[0].links[0].url, "");
}

#[test]
fn import_without_known_keys_changes_nothing() {
    let mut st = DbState::new();
    st.create_task("stay", "2024-01-01 08:00:00").unwrap();
    let doc = JsonValue::Obj(vec![(
        "users".to_string(),
        JsonValue::Arr(vec![JsonValue::Null]),
    )]);
    st.import_json(&doc, "2024-06-01 12:00:00").unwrap();
    assert_eq!(st.list_tasks().unwrap().len(), 1);
    let doc2 = JsonValue::Obj(vec![(
        "tasks".to_string(),
        JsonValue::Str("not an array".to_string()),
    )]);
    st.import_json(&doc2, "2024-06-01 12:00:00").unwrap();
    assert_eq!(st.list_tasks().unwrap()[0].title, "stay");
}

#[test]
fn export_then_import_reproduces_bookmarks() {
    let mut st = DbState::new();
    let mut b1 = bookmark("first", "Net");
    b1.description = Some("main link".to_string());
    b1.tags = Some(vec!["net".to_string(), "infra".to_string()]);
    let b2 = bookmark("second", "Ops");
    st.create_bookmark(&b1).unwrap();
    st.create_bookmark(&b2).unwrap();
    let doc = st.export_json().unwrap();
    let mut st2 = DbState::new();
    st2.import_json(&doc, "2024-06-01 12:00:00").unwrap();
    let before = st.list_bookmark_sections().unwrap();
    let after = st2.list_bookmark_sections().unwrap();
    assert_eq!(before.len(), after.len());
    for (sa, sb) in before.iter().zip(after.iter()) {
        assert_eq!(sa.title, sb.title);
        assert_eq!(sa.links.len(), sb.links.len());
        for (la, lb) in sa.links.iter().zip(sb.links.iter()) {
            assert_eq!(la.label, lb.label);
            assert_eq!(la.url, lb.url);
            assert_eq!(la.section, lb.section);
            assert_eq!(la.description, lb.description);
            assert_eq!(la.tags, lb.tags);
        }
    }
}

#[test]
fn export_document_has_all_table_keys() {
    let st = DbState::new();
    let doc = st.export_json().unwrap();
    for key in [
        "users", "switches", "ports", "vlans", "manuals", "formats", "bookmarks",
        "tasks",
    ] {
        let table = doc.get(key).expect(key);
        match table.as_array() {
            Some(rows) => assert_eq!(rows.len(), 0),
            None => panic!("table {} is not an array", key),
        }
    }
}

#[test]
fn export_renders_task_rows_and_null_fields() {
    let mut st = DbState::new();
    st.create_task("only", "2024-05-05 05:05:05").unwrap();
    let mut b = bookmark("plain", "General");
    b.description = None;
    st.create_bookmark(&b).unwrap();
    let doc = st.export_json().unwrap();
    let tasks = doc.get("tasks").unwrap().as_array().unwrap();
    assert_eq!(tasks.len(), 1);
    let row = &tasks[0];
    assert_eq!(row.get("title").unwrap().as_str().unwrap(), "only");
    assert_eq!(row.get("completed").unwrap().as_int(), Some(0));
    assert_eq!(
        row.get("created_at").unwrap().as_str().unwrap(),
        "2024-05-05 05:05:05"
    );
    let bms = doc.get("bookmarks").unwrap().as_array().unwrap();
    match bms[0].get("description").unwrap() {
        JsonValue::Null => {},
        _ => panic!("missing description must export as null"),
    }
}

#[test]
fn export_encodes_blob_columns_as_base64() {
    let mut st = DbState::new();
    let bytes: Vec<u8> = vec![0, 159, 146, 150];
    st.users.push(vec![
        SqlValue::Int(1),
        SqlValue::Text("admin".to_string()),
        SqlValue::Blob(bytes.clone()),
        SqlValue::Text("admin".to_string()),
        SqlValue::Null,
    ]);
    let doc = st.export_json().unwrap();
    let users = doc.get("users").unwrap().as_array().unwrap();
    assert_eq!(users.len(), 1);
    let hash = users[0].get("password_hash").unwrap().as_str().unwrap();
    assert_eq!(hash.as_str(), base64::encode(&bytes));
    assert_ne!(hash.as_str(), "\u{0}\u{9f}\u{92}\u{96}");
}
