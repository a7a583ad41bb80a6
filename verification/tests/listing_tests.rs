use fetch_vault::item::{SortOrder, VaultItem};
use fetch_vault::listing::{filter_by_type, sort_items};
use fetch_vault::time::Timestamp;

fn at(secs: i64) -> Timestamp {
    Timestamp::from_parts(secs, 0).unwrap()
}

fn item(id: &str, name: &str, item_type: &str, created: i64, updated: i64) -> VaultItem {
    VaultItem {
        id: id.to_string(),
        parent_id: None,
        name: name.to_string(),
        data_path: String::new(),
        item_type: item_type.to_string(),
        folder_type: None,
        tags: vec![],
        created_at: at(created),
        updated_at: at(updated),
        deleted_at: None,
        totp_secret: None,
    }
}

fn ids(items: &[VaultItem]) -> Vec<&str> {
    items.iter().map(|i| i.id.as_str()).collect()
}

fn sample() -> Vec<VaultItem> {
    vec![
        item("n1", "https://zeta.com", "text/plain", 10, 50),
        item("f1", "Work", "folder", 20, 40),
        item("n2", "alpha", "key", 30, 30),
        item("f2", "archive", "folder", 40, 20),
        item("n3", "www.Beta.org", "image/png", 50, 10),
    ]
}

#[test]
fn folders_come_first_in_every_order() {
    for order in [
        SortOrder::CreatedAtDesc,
        SortOrder::CreatedAtAsc,
        SortOrder::NameAsc,
        SortOrder::NameDesc,
        SortOrder::UpdatedAtDesc,
        SortOrder::UpdatedAtAsc,
    ] {
        let sorted = sort_items(sample(), order);
        assert_eq!(sorted.len(), 5);
        assert!(sorted[0].is_folder() && sorted[1].is_folder());
        assert!(!sorted[2].is_folder() && !sorted[3].is_folder() && !sorted[4].is_folder());
    }
}

#[test]
fn each_order_sorts_within_the_two_groups() {
    assert_eq!(ids(&sort_items(sample(), SortOrder::CreatedAtDesc)), ["f2", "f1", "n3", "n2", "n1"]);
    assert_eq!(ids(&sort_items(sample(), SortOrder::CreatedAtAsc)), ["f1", "f2", "n1", "n2", "n3"]);
    assert_eq!(ids(&sort_items(sample(), SortOrder::UpdatedAtDesc)), ["f1", "f2", "n1", "n2", "n3"]);
    assert_eq!(ids(&sort_items(sample(), SortOrder::UpdatedAtAsc)), ["f2", "f1", "n3", "n2", "n1"]);
    assert_eq!(ids(&sort_items(sample(), SortOrder::NameAsc)), ["f2", "f1", "n2", "n3", "n1"]);
    assert_eq!(ids(&sort_items(sample(), SortOrder::NameDesc)), ["f1", "f2", "n1", "n3", "n2"]);
}

#[test]
fn names_are_compared_without_their_scheme() {
    let items = vec![
        item("z", "https://zeta.com", "text/plain", 1, 1),
        item("a", "alpha", "text/plain", 2, 2),
    ];
    assert_eq!(ids(&sort_items(items, SortOrder::NameAsc)), ["a", "z"]);
    let items = vec![
        item("z", "https://zeta.com", "text/plain", 1, 1),
        item("a", "alpha", "text/plain", 2, 2),
    ];
    assert_eq!(ids(&sort_items(items, SortOrder::NameDesc)), ["z", "a"]);
}

#[test]
fn a_marker_inside_a_name_counts_in_the_order() {
    let items = vec![
        item("1", "xwww.a", "text/plain", 1, 1),
        item("2", "xb", "text/plain", 1, 1),
        item("3", "notes-www.old", "text/plain", 1, 1),
        item("4", "notes-a", "text/plain", 1, 1),
        item("5", "www.notes-b", "text/plain", 1, 1),
    ];
    assert_eq!(ids(&sort_items(items, SortOrder::NameAsc)), ["4", "5", "3", "2", "1"]);
}

#[test]
fn ties_stay_in_the_order_in_which_they_came() {
    let items = vec![
        item("1", "Same", "text/plain", 5, 5),
        item("2", "same", "text/plain", 5, 5),
        item("3", "https://same", "text/plain", 5, 5),
        item("0", "aaa", "text/plain", 5, 5),
    ];
    assert_eq!(ids(&sort_items(items, SortOrder::NameAsc)), ["0", "1", "2", "3"]);
    let items = vec![
        item("1", "b", "text/plain", 5, 5),
        item("2", "a", "text/plain", 5, 5),
        item("3", "c", "folder", 5, 5),
    ];
    assert_eq!(ids(&sort_items(items, SortOrder::CreatedAtDesc)), ["3", "1", "2"]);
}

#[test]
fn sorting_nothing_gives_nothing() {
    assert!(sort_items(vec![], SortOrder::NameAsc).is_empty());
    assert_eq!(SortOrder::default(), SortOrder::CreatedAtDesc);
}

#[test]
fn the_type_filter_takes_a_prefix_and_for_folders_the_folder_type() {
    let mut projects = item("f1", "Projects", "folder", 1, 1);
    projects.folder_type = Some("text".to_string());
    let mut other = item("f2", "Other", "folder", 1, 1);
    other.folder_type = Some("text/plain".to_string());
    let plain = item("f3", "Plain", "folder", 1, 1);
    let items = vec![
        item("n1", "a", "text/plain", 1, 1),
        projects,
        item("n2", "b", "text", 1, 1),
        other,
        item("n3", "c", "key", 1, 1),
        plain,
        item("n4", "d", "a text", 1, 1),
    ];
    assert_eq!(ids(&filter_by_type(items, "text")), ["n1", "f1", "n2"]);
}

#[test]
fn matches_type_and_goes_before_on_single_items() {
    let a = item("a", "alpha", "text/plain", 1, 2);
    let f = item("f", "zulu", "folder", 2, 1);
    assert!(a.matches_type("text/"));
    assert!(a.matches_type(""));
    assert!(!a.matches_type("key"));
    assert!(!f.matches_type(""));
    assert!(f.goes_before(&a, SortOrder::NameAsc));
    assert!(!a.goes_before(&f, SortOrder::NameAsc));
    assert!(!a.goes_before(&a, SortOrder::NameAsc));
    let b = item("b", "beta", "key", 2, 1);
    assert!(a.goes_before(&b, SortOrder::NameAsc));
    assert!(b.goes_before(&a, SortOrder::NameDesc));
    assert!(a.goes_before(&b, SortOrder::CreatedAtAsc));
    assert!(b.goes_before(&a, SortOrder::CreatedAtDesc));
    assert!(b.goes_before(&a, SortOrder::UpdatedAtAsc));
    assert!(a.goes_before(&b, SortOrder::UpdatedAtDesc));
}

#[test]
fn duplicate_copies_every_field() {
    let mut a = item("a", "alpha", "text/plain", 1, 2);
    a.parent_id = Some("p".to_string());
    a.tags = vec!["x".to_string(), "y".to_string()];
    a.deleted_at = Some(at(9));
    a.totp_secret = Some("s".to_string());
    a.folder_type = Some("ft".to_string());
    a.data_path = "dp".to_string();
    let b = a.duplicate();
    assert_eq!(format!("{:?}", a), format!("{:?}", b));
}
