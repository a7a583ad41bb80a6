use fetch_vault::crypto::{Crypto, KeyDerivationStrength};
use fetch_vault::error::Error;
use fetch_vault::item::{SortOrder, VaultItem};
use fetch_vault::row::{encode_row, StoredRow};
use fetch_vault::settings::{BruteForceConfig, VaultSettings};
use fetch_vault::retag::TagChange;
use fetch_vault::storage::{PayloadFile, Storage};
use fetch_vault::time::Timestamp;

fn engine(byte: u8) -> Crypto {
    let mut c = Crypto::new();
    c.unlock(&[byte; 32]).unwrap();
    c
}

fn at(secs: i64) -> Timestamp {
    Timestamp::from_parts(secs, 0).unwrap()
}

fn item(id: &str, parent: Option<&str>, item_type: &str, path: &str, tags: &[&str]) -> VaultItem {
    VaultItem {
        id: id.to_string(),
        parent_id: parent.map(|p| p.to_string()),
        name: format!("name of {id}"),
        data_path: path.to_string(),
        item_type: item_type.to_string(),
        folder_type: None,
        tags: tags.iter().map(|t| t.to_string()).collect(),
        created_at: at(100),
        updated_at: at(100),
        deleted_at: None,
        totp_secret: None,
    }
}

/// Folder A, folder B under A, note C under B with a payload, and a note D at the root.
fn family(c: &Crypto) -> Storage {
    let mut s = Storage::new("vault".to_string());
    s.add_item(&item("A", None, "folder", "", &[]), c).unwrap();
    s.add_item(&item("B", Some("A"), "folder", "", &[]), c).unwrap();
    s.add_item(&item("C", Some("B"), "text/plain", "payload-c", &["work", "old"]), c).unwrap();
    s.add_item(&item("D", None, "key", "payload-d", &["old"]), c).unwrap();
    s.write_encrypted_file(&c.encrypt(b"content of c").unwrap(), "payload-c").unwrap();
    s.write_encrypted_file(&c.encrypt(b"content of d").unwrap(), "payload-d").unwrap();
    s
}

fn get(s: &Storage, id: &str, c: &Crypto) -> VaultItem {
    s.get_item(id, c).unwrap().unwrap()
}

fn row_ids(s: &Storage) -> Vec<String> {
    s.rows().iter().map(|r| r.id.clone()).collect()
}

fn file_names(s: &Storage) -> Vec<String> {
    s.files().iter().map(|f| f.name.clone()).collect()
}

#[test]
fn a_new_store_is_empty_and_uninitialized() {
    let s = Storage::new("some/where".to_string());
    assert_eq!(s.get_vault_path(), "some/where");
    assert!(s.rows().is_empty() && s.files().is_empty());
    assert!(!s.is_initialized());
    assert!(matches!(s.get_salt(), Err(Error::Storage(_))));
    assert!(matches!(s.get_verification_token(), Err(Error::Storage(_))));
}

#[test]
fn an_added_item_can_be_read_back() {
    let c = engine(1);
    let mut s = Storage::new("v".to_string());
    let mut it = item("X", Some("P"), "text/plain", "dp", &["t1", "t2"]);
    it.totp_secret = Some("otp".to_string());
    it.folder_type = Some("ft".to_string());
    s.add_item(&it, &c).unwrap();
    assert_eq!(format!("{:?}", get(&s, "X", &c)), format!("{:?}", it));
    assert!(s.get_item("Y", &c).unwrap().is_none());
    assert_eq!(s.rows()[0].id, "X");
    assert_eq!(s.rows()[0].parent_id, Some("P".to_string()));
    assert_ne!(s.rows()[0].name, it.name.as_bytes());
}

#[test]
fn an_id_can_be_taken_only_once() {
    let c = engine(1);
    let mut s = Storage::new("v".to_string());
    s.add_item(&item("X", None, "key", "", &[]), &c).unwrap();
    assert!(matches!(s.add_item(&item("X", None, "folder", "", &[]), &c), Err(Error::Storage(_))));
    assert_eq!(s.rows().len(), 1);
    assert_eq!(get(&s, "X", &c).item_type, "key");
}

#[test]
fn a_locked_engine_adds_and_reads_nothing() {
    let c = engine(1);
    let mut s = family(&c);
    let locked = Crypto::new();
    assert!(matches!(s.add_item(&item("N", None, "key", "", &[]), &locked), Err(Error::NotUnlocked)));
    assert!(matches!(s.update_item_fields(&item("A", None, "key", "", &[]), &locked), Err(Error::NotUnlocked)));
    assert!(matches!(s.get_item("A", &locked), Err(Error::NotUnlocked)));
    assert!(matches!(s.get_items(None, None, None, &locked), Err(Error::NotUnlocked)));
    assert!(matches!(s.get_all_items_recursive(&locked), Err(Error::NotUnlocked)));
    assert!(matches!(s.get_item("A", &engine(2)), Err(Error::DecryptionFailed)));
    assert!(matches!(s.get_all_items_recursive(&engine(2)), Err(Error::DecryptionFailed)));
    assert!(matches!(s.get_item("nobody", &locked), Ok(None)));
    assert!(matches!(s.delete_item_and_descendants("A", &locked), Err(Error::NotUnlocked)));
    assert!(matches!(s.read_encrypted_file("payload-c", &locked), Err(Error::NotUnlocked)));
    assert_eq!(s.rows().len(), 4);
    assert!(s.rows().iter().all(|r| r.deleted_at.is_none()));
}

#[test]
fn update_overwrites_the_whole_row_and_ignores_unknown_ids() {
    let c = engine(1);
    let mut s = family(&c);
    let mut changed = item("C", None, "key", "other-path", &["x"]);
    changed.name = "renamed".to_string();
    changed.created_at = at(5);
    changed.updated_at = at(500);
    changed.deleted_at = Some(at(7));
    s.update_item_fields(&changed, &c).unwrap();
    assert_eq!(format!("{:?}", get(&s, "C", &c)), format!("{:?}", changed));
    assert_eq!(row_ids(&s), ["A", "B", "C", "D"]);
    let before = format!("{:?}", s.rows());
    s.update_item_fields(&item("nobody", None, "key", "", &[]), &c).unwrap();
    assert_eq!(format!("{:?}", s.rows()), before);
}

#[test]
fn listings_select_by_parent_sort_and_filter() {
    let c = engine(1);
    let mut s = Storage::new("v".to_string());
    let mut add = |id: &str, parent: Option<&str>, kind: &str, name: &str, created: i64| {
        let mut it = item(id, parent, kind, "", &[]);
        it.name = name.to_string();
        it.created_at = at(created);
        it.updated_at = at(1000 - created);
        s.add_item(&it, &c).unwrap();
    };
    add("n1", None, "text/plain", "https://zeta.com", 10);
    add("f1", None, "folder", "Work", 20);
    add("n2", None, "key", "alpha", 30);
    add("k1", Some("f1"), "key", "inside", 40);
    add("n3", None, "text/html", "Beta", 50);
    let ids = |items: Vec<VaultItem>| items.into_iter().map(|i| i.id).collect::<Vec<_>>();
    assert_eq!(ids(s.get_items(None, None, None, &c).unwrap()), ["f1", "n3", "n2", "n1"]);
    assert_eq!(
        ids(s.get_items(None, None, Some(SortOrder::NameAsc), &c).unwrap()),
        ["f1", "n2", "n3", "n1"]
    );
    assert_eq!(
        ids(s.get_items(None, Some("text".to_string()), Some(SortOrder::CreatedAtAsc), &c).unwrap()),
        ["n1", "n3"]
    );
    assert_eq!(ids(s.get_items(Some("f1".to_string()), None, None, &c).unwrap()), ["k1"]);
    assert!(s.get_items(Some("n1".to_string()), None, None, &c).unwrap().is_empty());
    assert_eq!(ids(s.get_all_items_recursive(&c).unwrap()), ["f1", "n2", "n3", "k1", "n1"]);
    assert!(matches!(s.get_items(None, None, None, &engine(2)), Err(Error::DecryptionFailed)));
    assert!(s.get_items(Some("n1".to_string()), None, None, &engine(2)).unwrap().is_empty());
}

#[test]
fn soft_delete_reaches_children_and_grandchildren() {
    let c = engine(1);
    let mut s = family(&c);
    let stamp = s.delete_item_and_descendants_at("A", &at(777), &c).unwrap();
    for id in ["A", "B", "C"] {
        assert_eq!(get(&s, id, &c).deleted_at, Some(at(777)), "{id}");
    }
    assert_eq!(get(&s, "D", &c).deleted_at, None);
    assert_eq!(c.decrypt(&stamp).unwrap(), at(777).to_rfc3339().as_bytes());
    assert!(s.rows().iter().take(3).all(|r| r.deleted_at.as_ref() == Some(&stamp)));
    assert_eq!(file_names(&s), ["payload-c", "payload-d"]);
    s.delete_item_and_descendants_at("B", &at(888), &c).unwrap();
    assert_eq!(get(&s, "A", &c).deleted_at, Some(at(777)));
    assert_eq!(get(&s, "B", &c).deleted_at, Some(at(888)));
    assert_eq!(get(&s, "C", &c).deleted_at, Some(at(888)));
}

#[test]
fn soft_delete_now_stamps_with_the_current_instant() {
    let c = engine(1);
    let mut s = family(&c);
    let before = Timestamp::now();
    s.delete_item_and_descendants("B", &c).unwrap();
    let after = Timestamp::now();
    let b = get(&s, "B", &c).deleted_at.unwrap();
    assert!(!b.is_before(&before) && !after.is_before(&b));
    assert_eq!(get(&s, "C", &c).deleted_at, Some(b));
    assert_eq!(get(&s, "A", &c).deleted_at, None);
    s.delete_item_and_descendants("nobody", &c).unwrap();
    assert_eq!(get(&s, "D", &c).deleted_at, None);
}

#[test]
fn restore_is_no_cascade() {
    let c = engine(1);
    let mut s = family(&c);
    s.delete_item_and_descendants_at("A", &at(777), &c).unwrap();
    assert!(s.restore_item("B"));
    assert_eq!(get(&s, "A", &c).deleted_at, Some(at(777)));
    assert_eq!(get(&s, "C", &c).deleted_at, Some(at(777)));
    let b = get(&s, "B", &c);
    assert_eq!(b.deleted_at, None);
    assert_eq!(b.parent_id, Some("A".to_string()));
    assert!(!s.restore_item("nobody"));
}

#[test]
fn restore_to_root_also_detaches() {
    let c = engine(1);
    let mut s = family(&c);
    s.delete_item_and_descendants_at("A", &at(777), &c).unwrap();
    assert!(s.restore_item_to_root("C"));
    let item = get(&s, "C", &c);
    assert_eq!(item.deleted_at, None);
    assert_eq!(item.parent_id, None);
    assert_eq!(get(&s, "B", &c).deleted_at, Some(at(777)));
    assert!(!s.restore_item_to_root("nobody"));
}

#[test]
fn restore_with_descendants_clears_the_subtree() {
    let c = engine(1);
    let mut s = family(&c);
    s.delete_item_and_descendants_at("A", &at(777), &c).unwrap();
    s.delete_item_and_descendants_at("D", &at(778), &c).unwrap();
    s.restore_item_and_descendants("B", &c);
    assert_eq!(get(&s, "A", &c).deleted_at, Some(at(777)));
    assert_eq!(get(&s, "B", &c).deleted_at, None);
    assert_eq!(get(&s, "C", &c).deleted_at, None);
    assert_eq!(get(&s, "D", &c).deleted_at, Some(at(778)));
}

#[test]
fn permanent_delete_removes_rows_and_payloads_of_the_subtree() {
    let c = engine(1);
    let mut s = family(&c);
    let gone = s.permanently_delete_item_and_descendants("A", &c).unwrap();
    assert_eq!(gone, ["payload-c"]);
    assert_eq!(row_ids(&s), ["D"]);
    assert_eq!(file_names(&s), ["payload-d"]);
    assert!(s.permanently_delete_item_and_descendants("nobody", &c).unwrap().is_empty());
    assert_eq!(row_ids(&s), ["D"]);
}

#[test]
fn permanent_delete_changes_nothing_where_a_row_of_the_subtree_cannot_be_read() {
    let c = engine(1);
    let mut s = family(&c);
    s.add_item(&item("X", Some("B"), "key", "payload-d", &[]), &engine(2)).unwrap();
    let before = format!("{:?} {:?}", s.rows(), s.files());
    assert!(matches!(
        s.permanently_delete_item_and_descendants("A", &c),
        Err(Error::DecryptionFailed)
    ));
    assert!(matches!(
        s.permanently_delete_item_and_descendants("X", &c),
        Err(Error::DecryptionFailed)
    ));
    assert_eq!(format!("{:?} {:?}", s.rows(), s.files()), before);
    let mut rows: Vec<StoredRow> = s.rows().iter().map(|r| r.duplicate()).collect();
    rows[4] = encode_row(&item("X", Some("B"), "key", "payload-d", &[]), &c).unwrap();
    rows[4].name = c.encrypt(&[0xFF]).unwrap();
    let files = s
        .files()
        .iter()
        .map(|f| PayloadFile { name: f.name.clone(), data: f.data.clone() })
        .collect();
    let mut s =
        Storage::from_parts("v".to_string(), rows, s.settings().duplicate(), None, None, files)
            .unwrap();
    assert!(matches!(s.permanently_delete_item_and_descendants("A", &c), Err(Error::Storage(_))));
    assert_eq!(row_ids(&s), ["A", "B", "C", "D", "X"]);
    assert_eq!(s.permanently_delete_item_and_descendants("D", &c).unwrap(), ["payload-d"]);
    assert_eq!(row_ids(&s), ["A", "B", "C", "X"]);
}

#[test]
fn permanent_delete_under_a_locked_engine_leaves_the_payloads() {
    let c = engine(1);
    let mut s = family(&c);
    let before = format!("{:?}", s.rows());
    assert!(matches!(
        s.permanently_delete_item_and_descendants("B", &Crypto::new()),
        Err(Error::NotUnlocked)
    ));
    assert!(matches!(s.permanently_delete_all_deleted_items(&Crypto::new()), Err(Error::NotUnlocked)));
    assert_eq!(format!("{:?}", s.rows()), before);
    assert_eq!(row_ids(&s), ["A", "B", "C", "D"]);
    assert_eq!(file_names(&s), ["payload-c", "payload-d"]);
}

#[test]
fn emptying_the_bin_removes_what_is_stamped() {
    let c = engine(1);
    let mut s = family(&c);
    assert!(s.permanently_delete_all_deleted_items(&c).unwrap().is_empty());
    assert_eq!(row_ids(&s), ["A", "B", "C", "D"]);
    s.delete_item_and_descendants_at("B", &at(777), &c).unwrap();
    let gone = s.permanently_delete_all_deleted_items(&c).unwrap();
    assert_eq!(gone, ["payload-c"]);
    assert_eq!(row_ids(&s), ["A", "D"]);
    assert_eq!(file_names(&s), ["payload-d"]);
}

#[test]
fn emptying_the_bin_changes_nothing_where_a_data_path_cannot_be_read() {
    let c = engine(1);
    let mut s = family(&c);
    s.add_item(&item("X", None, "key", "payload-d", &[]), &engine(2)).unwrap();
    assert!(s.permanently_delete_all_deleted_items(&c).unwrap().is_empty());
    s.delete_item_and_descendants_at("B", &at(777), &c).unwrap();
    s.delete_item_and_descendants_at("X", &at(778), &c).unwrap();
    let before = format!("{:?} {:?}", s.rows(), s.files());
    assert!(matches!(s.permanently_delete_all_deleted_items(&c), Err(Error::DecryptionFailed)));
    assert_eq!(format!("{:?} {:?}", s.rows(), s.files()), before);
    assert!(s.restore_item("X"));
    assert_eq!(s.permanently_delete_all_deleted_items(&c).unwrap(), ["payload-c"]);
    assert_eq!(row_ids(&s), ["A", "D", "X"]);
}

#[test]
fn renaming_a_tag_rewrites_only_the_items_that_change() {
    let c = engine(1);
    let mut s = family(&c);
    let rows_before: Vec<String> = s.rows().iter().map(|r| format!("{:?}", r)).collect();
    let change = TagChange::Rename("old".to_string(), "work".to_string());
    s.change_tags_at(&change, &at(900), &c).unwrap();
    let item_c = get(&s, "C", &c);
    assert_eq!(item_c.tags, ["work"]);
    assert_eq!(item_c.updated_at, at(900));
    assert_eq!(item_c.created_at, at(100));
    let item_d = get(&s, "D", &c);
    assert_eq!(item_d.tags, ["work"]);
    assert_eq!(item_d.updated_at, at(900));
    assert_eq!(format!("{:?}", s.rows()[0]), rows_before[0]);
    assert_eq!(format!("{:?}", s.rows()[1]), rows_before[1]);
    assert_ne!(format!("{:?}", s.rows()[2]), rows_before[2]);
    assert_eq!(get(&s, "A", &c).updated_at, at(100));
}

#[test]
fn renaming_and_removing_now_advance_the_instant_of_the_update() {
    let c = engine(1);
    let mut s = family(&c);
    s.rename_tag_in_all_items("old", "work", &c).unwrap();
    let item_c = get(&s, "C", &c);
    assert_eq!(item_c.tags, ["work"]);
    assert!(at(100).is_before(&item_c.updated_at));
    assert_eq!(get(&s, "A", &c).updated_at, at(100));
    s.remove_tag_from_all_items("work", &c).unwrap();
    assert!(get(&s, "C", &c).tags.is_empty());
    assert!(get(&s, "D", &c).tags.is_empty());
    let rows_before = format!("{:?}", s.rows());
    s.remove_tag_from_all_items("work", &c).unwrap();
    s.rename_tag_in_all_items("nothing", "else", &c).unwrap();
    assert_eq!(format!("{:?}", s.rows()), rows_before);
}

#[test]
fn a_tag_change_fails_as_a_whole_where_a_row_cannot_be_read() {
    let c = engine(1);
    let mut s = family(&c);
    let before = format!("{:?}", s.rows());
    assert!(matches!(
        s.rename_tag_in_all_items("old", "work", &engine(2)),
        Err(Error::DecryptionFailed)
    ));
    assert!(matches!(s.remove_tag_from_all_items("old", &Crypto::new()), Err(Error::NotUnlocked)));
    assert_eq!(format!("{:?}", s.rows()), before);
    let mut empty = Storage::new("v".to_string());
    assert!(empty.rename_tag_in_all_items("a", "b", &Crypto::new()).is_ok());
}

#[test]
fn payloads_are_kept_by_name() {
    let c = engine(1);
    let mut s = Storage::new("v".to_string());
    assert!(matches!(s.write_encrypted_file(b"x", ""), Err(Error::Storage(_))));
    let sealed = c.encrypt(b"one").unwrap();
    s.write_encrypted_file(&sealed, "p").unwrap();
    assert_eq!(s.files()[0].data, sealed);
    assert_eq!(s.read_encrypted_file("p", &c).unwrap(), b"one");
    s.write_encrypted_file(&c.encrypt(b"two").unwrap(), "p").unwrap();
    s.write_encrypted_file(&c.encrypt(b"three").unwrap(), "q").unwrap();
    assert_eq!(file_names(&s), ["p", "q"]);
    assert_eq!(s.read_encrypted_file("p", &c).unwrap(), b"two");
    assert!(matches!(s.read_encrypted_file("r", &c), Err(Error::Storage(_))));
    assert!(matches!(s.read_encrypted_file("p", &engine(2)), Err(Error::DecryptionFailed)));
}

#[test]
fn settings_read_their_defaults_until_written() {
    let mut s = Storage::new("v".to_string());
    assert_eq!(s.get_key_derivation_strength(), KeyDerivationStrength::Recommended);
    assert_eq!(
        s.get_brute_force_config(),
        BruteForceConfig { enabled: true, max_attempts: 5, lockout_duration_minutes: 5 }
    );
    assert_eq!(s.get_brute_force_config(), BruteForceConfig::default());
    assert_eq!(s.get_failed_login_attempts(), 0);
    assert_eq!(s.get_last_failed_attempt_timestamp(), None);
    assert_eq!(s.get_theme(), "dark");
    s.set_key_derivation_strength(KeyDerivationStrength::Paranoid);
    let policy = BruteForceConfig { enabled: false, max_attempts: 3, lockout_duration_minutes: 10 };
    s.set_brute_force_config(policy);
    s.set_failed_login_attempts(4);
    s.set_last_failed_attempt_timestamp(Some(at(5)));
    s.set_theme("light");
    assert_eq!(s.get_key_derivation_strength(), KeyDerivationStrength::Paranoid);
    assert_eq!(s.get_brute_force_config(), policy);
    assert_eq!(s.get_failed_login_attempts(), 4);
    assert_eq!(s.get_last_failed_attempt_timestamp(), Some(at(5)));
    assert_eq!(s.get_theme(), "light");
    assert_eq!(s.settings().failed_attempts, Some(4));
}

#[test]
fn initialize_writes_the_salt_and_the_first_settings() {
    let mut s = Storage::new("v".to_string());
    s.set_theme("light");
    s.set_failed_login_attempts(9);
    s.set_last_failed_attempt_timestamp(Some(at(5)));
    s.initialize(&[7u8; 16], KeyDerivationStrength::Fast);
    assert_eq!(s.get_salt().unwrap(), vec![7u8; 16]);
    assert!(!s.is_initialized());
    s.store_verification_token(b"token");
    assert!(s.is_initialized());
    assert_eq!(s.get_verification_token().unwrap(), b"token");
    assert_eq!(s.get_key_derivation_strength(), KeyDerivationStrength::Fast);
    assert_eq!(s.get_brute_force_config(), BruteForceConfig::default());
    assert_eq!(s.get_failed_login_attempts(), 0);
    assert_eq!(s.get_last_failed_attempt_timestamp(), None);
    assert_eq!(s.get_theme(), "light");
    s.update_salt(&[8u8; 16]);
    assert_eq!(s.get_salt().unwrap(), vec![8u8; 16]);
}

#[test]
fn reset_empties_everything() {
    let c = engine(1);
    let mut s = family(&c);
    s.initialize(&[7u8; 16], KeyDerivationStrength::Fast);
    s.store_verification_token(b"token");
    s.set_theme("light");
    s.reset();
    assert!(s.rows().is_empty() && s.files().is_empty());
    assert!(!s.is_initialized());
    assert!(s.get_salt().is_err() && s.get_verification_token().is_err());
    assert_eq!(s.get_theme(), "dark");
    assert_eq!(s.get_key_derivation_strength(), KeyDerivationStrength::Recommended);
    assert_eq!(s.get_vault_path(), "vault");
}

#[test]
fn reencrypt_seals_everything_under_the_other_key() {
    let old = engine(1);
    let new = engine(2);
    let mut s = family(&old);
    s.store_verification_token(&old.encrypt(b"marker").unwrap());
    s.write_encrypted_file(&old.encrypt(b"nobody's").unwrap(), "orphan").unwrap();
    let orphan = s.files()[2].data.clone();
    let items_before = format!("{:?}", s.get_all_items_recursive(&old).unwrap());
    s.reencrypt(&old, &new).unwrap();
    assert_eq!(format!("{:?}", s.get_all_items_recursive(&new).unwrap()), items_before);
    assert!(s.get_all_items_recursive(&old).is_err());
    assert_eq!(s.read_encrypted_file("payload-c", &new).unwrap(), b"content of c");
    assert_eq!(s.read_encrypted_file("payload-d", &new).unwrap(), b"content of d");
    assert!(matches!(s.read_encrypted_file("payload-c", &old), Err(Error::DecryptionFailed)));
    assert_eq!(new.decrypt(&s.get_verification_token().unwrap()).unwrap(), b"marker");
    assert_eq!(s.files()[2].data, orphan);
    assert_eq!(file_names(&s), ["payload-c", "payload-d", "orphan"]);
    assert_eq!(row_ids(&s), ["A", "B", "C", "D"]);
}

#[test]
fn reencrypt_changes_nothing_where_it_fails() {
    let old = engine(1);
    let new = engine(2);
    let mut s = family(&old);
    let snapshot = |s: &Storage| format!("{:?} {:?} {:?}", s.rows(), s.files(), s.get_verification_token().ok());
    let before = snapshot(&s);
    assert!(matches!(s.reencrypt(&Crypto::new(), &new), Err(Error::NotUnlocked)));
    assert!(matches!(s.reencrypt(&old, &Crypto::new()), Err(Error::NotUnlocked)));
    assert!(matches!(s.reencrypt(&new, &old), Err(Error::DecryptionFailed)));
    s.add_item(&item("E", None, "key", "missing", &[]), &old).unwrap();
    let before_missing = snapshot(&s);
    assert_ne!(before, before_missing);
    assert!(matches!(s.reencrypt(&old, &new), Err(Error::Storage(_))));
    assert_eq!(snapshot(&s), before_missing);
    s.write_encrypted_file(&new.encrypt(b"sealed under another key").unwrap(), "missing").unwrap();
    let before_foreign = snapshot(&s);
    assert!(matches!(s.reencrypt(&old, &new), Err(Error::DecryptionFailed)));
    assert_eq!(snapshot(&s), before_foreign);
    s.write_encrypted_file(&old.encrypt(b"fine").unwrap(), "missing").unwrap();
    s.store_verification_token(b"no token at all");
    assert!(matches!(s.reencrypt(&old, &new), Err(Error::DecryptionFailed)));
}

#[test]
fn from_parts_takes_only_keys_that_are_keys() {
    let c = engine(1);
    let row = |id: &str| encode_row(&item(id, None, "key", "", &[]), &c).unwrap();
    let file = |name: &str| PayloadFile { name: name.to_string(), data: vec![1] };
    let s = Storage::from_parts(
        "v".to_string(),
        vec![row("a"), row("b")],
        VaultSettings::new(),
        Some(vec![1; 16]),
        Some(vec![2; 40]),
        vec![file("x"), file("y")],
    )
    .unwrap();
    assert_eq!(row_ids(&s), ["a", "b"]);
    assert_eq!(file_names(&s), ["x", "y"]);
    assert!(s.is_initialized());
    assert_eq!(get(&s, "b", &c).id, "b");
    let twice = Storage::from_parts(
        "v".to_string(),
        vec![row("a"), row("b"), row("a")],
        VaultSettings::new(),
        None,
        None,
        vec![],
    );
    assert!(matches!(twice, Err(Error::Storage(_))));
    let twice = Storage::from_parts(
        "v".to_string(),
        vec![],
        VaultSettings::new(),
        None,
        None,
        vec![file("x"), file("x")],
    );
    assert!(matches!(twice, Err(Error::Storage(_))));
    let mut settings = VaultSettings::new();
    settings.last_failed_attempt = Some(Timestamp { secs: 0, nanos: 2_000_000_000 });
    let bad = Storage::from_parts("v".to_string(), vec![], settings, None, None, vec![]);
    assert!(matches!(bad, Err(Error::Storage(_))));
}
