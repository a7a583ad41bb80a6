use fetch_vault::row::StoredRow;
use fetch_vault::tree::{parent_is, subtree_marks};

fn row(id: &str, parent: Option<&str>) -> StoredRow {
    StoredRow {
        id: id.to_string(),
        parent_id: parent.map(|p| p.to_string()),
        name: vec![],
        item_type: vec![],
        data_path: vec![],
        folder_type: None,
        tags: vec![],
        created_at: vec![],
        updated_at: vec![],
        deleted_at: None,
        totp_secret: None,
    }
}

fn forest() -> Vec<StoredRow> {
    vec![
        row("a", None),
        row("b", Some("a")),
        row("x", None),
        row("c", Some("b")),
        row("y", Some("x")),
        row("d", Some("a")),
        row("e", Some("c")),
        row("orphan", Some("ghost")),
    ]
}

fn marked(rows: &[StoredRow], marks: &[bool]) -> Vec<String> {
    rows.iter().zip(marks).filter(|(_, m)| **m).map(|(r, _)| r.id.clone()).collect()
}

#[test]
fn a_subtree_holds_the_root_and_all_below_it() {
    let rows = forest();
    assert_eq!(marked(&rows, &subtree_marks(&rows, "a")), ["a", "b", "c", "d", "e"]);
    assert_eq!(marked(&rows, &subtree_marks(&rows, "b")), ["b", "c", "e"]);
    assert_eq!(marked(&rows, &subtree_marks(&rows, "e")), ["e"]);
    assert_eq!(marked(&rows, &subtree_marks(&rows, "x")), ["x", "y"]);
}

#[test]
fn a_root_without_a_row_still_has_its_children() {
    let rows = forest();
    assert_eq!(marked(&rows, &subtree_marks(&rows, "ghost")), ["orphan"]);
    assert!(marked(&rows, &subtree_marks(&rows, "nobody")).is_empty());
    assert!(subtree_marks(&vec![], "a").is_empty());
}

#[test]
fn a_cycle_is_walked_once() {
    let rows = vec![row("a", Some("c")), row("b", Some("a")), row("c", Some("b")), row("d", None)];
    assert_eq!(marked(&rows, &subtree_marks(&rows, "b")), ["a", "b", "c"]);
    let rows = vec![row("self", Some("self"))];
    assert_eq!(marked(&rows, &subtree_marks(&rows, "self")), ["self"]);
}

#[test]
fn parent_is_compares_the_parent() {
    assert!(parent_is(&row("b", Some("a")), &"a".to_string()));
    assert!(!parent_is(&row("b", Some("a")), &"b".to_string()));
    assert!(!parent_is(&row("b", None), &"a".to_string()));
}
