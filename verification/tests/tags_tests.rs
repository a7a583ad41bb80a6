use fetch_vault::item::VaultItem;
use fetch_vault::tags::{collect_tags, has_tag, insert_sorted, remove_tag, rename_tag, same_tags};
use fetch_vault::time::Timestamp;

fn strings(list: &[&str]) -> Vec<String> {
    list.iter().map(|s| s.to_string()).collect()
}

#[test]
fn renaming_onto_a_tag_that_is_there_keeps_it_once() {
    assert_eq!(rename_tag(&strings(&["work", "old"]), "old", "work"), Some(strings(&["work"])));
    assert_eq!(rename_tag(&strings(&["old", "work"]), "old", "work"), Some(strings(&["work"])));
    assert_eq!(
        rename_tag(&strings(&["a", "old", "b", "work", "old"]), "old", "work"),
        Some(strings(&["a", "work", "b"]))
    );
}

#[test]
fn renaming_writes_the_new_name_in_place() {
    assert_eq!(rename_tag(&strings(&["a", "old", "b"]), "old", "new"), Some(strings(&["a", "new", "b"])));
    assert_eq!(rename_tag(&strings(&["old"]), "old", "new"), Some(strings(&["new"])));
    assert_eq!(rename_tag(&strings(&["old", "old"]), "old", "new"), Some(strings(&["new"])));
}

#[test]
fn renaming_leaves_items_without_the_tag_alone() {
    assert_eq!(rename_tag(&strings(&["a", "b"]), "old", "new"), None);
    assert_eq!(rename_tag(&strings(&[]), "old", "new"), None);
    assert_eq!(rename_tag(&strings(&["new", "new"]), "old", "new"), None);
    assert_eq!(rename_tag(&strings(&["x"]), "x", "x"), None);
    assert_eq!(rename_tag(&strings(&["x", "x"]), "x", "x"), Some(strings(&["x"])));
    assert_eq!(rename_tag(&strings(&["dup", "dup", "old"]), "old", "new"), Some(strings(&["dup", "dup", "new"])));
}

#[test]
fn removing_takes_every_occurrence() {
    assert_eq!(remove_tag(&strings(&["a", "x", "b", "x"]), "x"), Some(strings(&["a", "b"])));
    assert_eq!(remove_tag(&strings(&["x"]), "x"), Some(strings(&[])));
    assert_eq!(remove_tag(&strings(&["a", "b"]), "x"), None);
    assert_eq!(remove_tag(&strings(&[]), "x"), None);
}

#[test]
fn has_tag_and_same_tags_compare_texts() {
    let tags = strings(&["a", "b"]);
    assert!(has_tag(&tags, &"a".to_string()));
    assert!(!has_tag(&tags, &"A".to_string()));
    assert!(same_tags(&tags, &strings(&["a", "b"])));
    assert!(!same_tags(&tags, &strings(&["b", "a"])));
    assert!(!same_tags(&tags, &strings(&["a"])));
    assert!(same_tags(&strings(&[]), &strings(&[])));
}

fn tagged(tags: &[&str]) -> VaultItem {
    VaultItem {
        id: "i".to_string(),
        parent_id: None,
        name: "n".to_string(),
        data_path: String::new(),
        item_type: "key".to_string(),
        folder_type: None,
        tags: strings(tags),
        created_at: Timestamp::from_parts(1, 0).unwrap(),
        updated_at: Timestamp::from_parts(1, 0).unwrap(),
        deleted_at: None,
        totp_secret: None,
    }
}

#[test]
fn all_tags_come_sorted_and_once() {
    let items = vec![tagged(&["work", "b", "a"]), tagged(&[]), tagged(&["b", "Zed", "work", "é"])];
    assert_eq!(collect_tags(&items), strings(&["Zed", "a", "b", "work", "é"]));
    assert!(collect_tags(&vec![]).is_empty());
    let mut expected: Vec<String> = items.iter().flat_map(|i| i.tags.clone()).collect();
    expected.sort_unstable();
    expected.dedup();
    assert_eq!(collect_tags(&items), expected);
}

#[test]
fn insert_sorted_keeps_the_list_sorted_and_free_of_doubles() {
    let mut list: Vec<String> = vec![];
    for tag in ["m", "a", "z", "m", "b", "a", ""] {
        insert_sorted(&mut list, tag.to_string());
    }
    assert_eq!(list, strings(&["", "a", "b", "m", "z"]));
}
