use fetch_vault::crypto::{Crypto, KeyDerivationStrength};
use fetch_vault::error::Error;
use fetch_vault::item::{SortOrder, VaultItem};
use fetch_vault::items::{
    mime_type_for, AddFileItemArgs, AddFolderArgs, AddTextItemArgs, DeleteTagArgs, RenameTagArgs,
    UpdateItemArgs,
};
use fetch_vault::settings::BruteForceConfig;
use fetch_vault::time::Timestamp;
use fetch_vault::vault::{
    check_master_key, lockout_notice, DeleteVaultArgs, InitializeVaultArgs, UpdateMasterKeyArgs,
    VaultState,
};

fn at(secs: i64) -> Timestamp {
    Timestamp::from_parts(secs, 0).unwrap()
}

fn strings(list: &[&str]) -> Vec<String> {
    list.iter().map(|s| s.to_string()).collect()
}

fn fresh(passphrase: &str) -> VaultState {
    let mut v = VaultState::new("vault".to_string());
    v.initialize_vault(&InitializeVaultArgs {
        master_key: passphrase.to_string(),
        strength: Some(KeyDerivationStrength::Fast),
    })
    .unwrap();
    v
}

fn text_args(name: &str, content: &str, tags: &[&str], parent: Option<&str>) -> AddTextItemArgs {
    AddTextItemArgs {
        name: name.to_string(),
        content: content.to_string(),
        item_type: "text".to_string(),
        tags: strings(tags),
        parent_id: parent.map(|p| p.to_string()),
        totp_secret: None,
    }
}

fn folder_args(name: &str, parent: Option<&str>) -> AddFolderArgs {
    AddFolderArgs {
        name: name.to_string(),
        parent_id: parent.map(|p| p.to_string()),
        folder_type: None,
    }
}

fn invalid(r: Result<(), Error>) -> String {
    match r {
        Err(Error::InvalidInput(text)) => text,
        Err(other) => panic!("another failure: {}", other.message()),
        Ok(()) => panic!("no failure"),
    }
}

fn all(v: &VaultState) -> Vec<VaultItem> {
    v.get_all_vault_items().unwrap()
}

#[test]
fn a_new_session_is_locked_and_uninitialized() {
    let v = VaultState::new("vault".to_string());
    let status = v.get_vault_status();
    assert!(!status.initialized && !status.unlocked);
    assert_eq!(status.strength, None);
    assert!(!v.is_vault_initialized());
    assert!(matches!(v.get_key_derivation_strength(), Err(Error::Internal(_))));
}

#[test]
fn initialize_unlocks_and_stores_a_token_that_the_key_opens() {
    let mut v = VaultState::new("vault".to_string());
    v.initialize_vault_with_salt(
        &InitializeVaultArgs { master_key: "pw".to_string(), strength: Some(KeyDerivationStrength::Fast) },
        &[5u8; 16],
    )
    .unwrap();
    let status = v.get_vault_status();
    assert!(status.initialized && status.unlocked);
    assert_eq!(status.strength, Some(KeyDerivationStrength::Fast));
    assert_eq!(v.get_key_derivation_strength().unwrap(), KeyDerivationStrength::Fast);
    assert_eq!(v.storage.get_salt().unwrap(), vec![5u8; 16]);
    let token = v.storage.get_verification_token().unwrap();
    assert_eq!(v.crypto.decrypt(&token).unwrap(), Crypto::generate_verification_token());
    let key = Crypto::new().derive_key("pw", &[5u8; 16], KeyDerivationStrength::Fast).unwrap();
    let mut other = Crypto::new();
    other.unlock(&key).unwrap();
    assert_eq!(other.decrypt(&token).unwrap(), Crypto::generate_verification_token());
    assert_eq!(v.get_brute_force_config(), BruteForceConfig::default());
}

#[test]
fn initialize_refuses_a_vault_that_is_initialized() {
    let mut v = fresh("pw");
    let salt = v.storage.get_salt().unwrap();
    let r = v.initialize_vault(&InitializeVaultArgs { master_key: "other".to_string(), strength: None });
    assert!(matches!(r, Err(Error::VaultAlreadyInitialized)));
    assert_eq!(v.storage.get_salt().unwrap(), salt);
    assert!(v.crypto.is_unlocked());
}

#[test]
fn initialize_with_a_short_salt_changes_nothing() {
    let mut v = VaultState::new("vault".to_string());
    let r = v.initialize_vault_with_salt(
        &InitializeVaultArgs { master_key: "pw".to_string(), strength: None },
        &[1u8; 4],
    );
    assert!(matches!(r, Err(Error::KeyDerivation(_))));
    assert!(!v.is_vault_initialized() && !v.crypto.is_unlocked());
}

#[test]
fn the_right_passphrase_unlocks_and_clears_the_counter() {
    let mut v = fresh("pw");
    v.lock_vault();
    assert!(!v.get_vault_status().unlocked);
    v.storage.set_failed_login_attempts(2);
    v.unlock_vault("pw").unwrap();
    assert!(v.crypto.is_unlocked());
    assert_eq!(v.storage.get_failed_login_attempts(), 0);
    assert_eq!(v.storage.get_last_failed_attempt_timestamp(), None);
    let token = v.storage.get_verification_token().unwrap();
    assert!(v.crypto.decrypt(&token).is_ok());
}

#[test]
fn a_wrong_passphrase_locks_the_engine_and_counts() {
    let mut v = fresh("pw");
    assert!(matches!(v.unlock_vault("wrong"), Err(Error::InvalidMasterKey)));
    assert!(!v.crypto.is_unlocked());
    assert_eq!(v.storage.get_failed_login_attempts(), 1);
    assert!(v.storage.get_last_failed_attempt_timestamp().is_some());
    assert!(matches!(v.unlock_vault("wrong"), Err(Error::InvalidMasterKey)));
    assert!(matches!(v.unlock_vault("wrong"), Err(Error::InvalidMasterKey)));
    assert_eq!(v.storage.get_failed_login_attempts(), 3);
}

#[test]
fn failures_up_to_the_limit_lock_out_even_the_right_passphrase() {
    let mut v = fresh("pw");
    v.lock_vault();
    v.set_brute_force_config(BruteForceConfig { enabled: true, max_attempts: 3, lockout_duration_minutes: 5 });
    for _ in 0..3 {
        assert!(matches!(v.unlock_vault_at("wrong", &at(1_000)), Err(Error::InvalidMasterKey)));
    }
    let last = v.storage.get_last_failed_attempt_timestamp().unwrap();
    let inside = Timestamp::from_parts(last.secs + 10, last.nanos).unwrap();
    assert_eq!(
        invalid(v.unlock_vault_at("pw", &inside)),
        "Account locked due to too many failed attempts. Please wait 5 minutes before trying again."
    );
    assert!(!v.crypto.is_unlocked());
    assert_eq!(v.storage.get_failed_login_attempts(), 3);
    let nearly = Timestamp::from_parts(last.secs + 299, last.nanos).unwrap();
    assert_eq!(
        invalid(v.unlock_vault_at("pw", &nearly)),
        "Account locked due to too many failed attempts. Please wait 1 minutes before trying again."
    );
    let status = v.get_lockout_status();
    assert!(status.is_locked_out && status.remaining_seconds > 0);
    let after = Timestamp::from_parts(last.secs + 300, last.nanos).unwrap();
    v.unlock_vault_at("pw", &after).unwrap();
    assert!(v.crypto.is_unlocked());
    assert_eq!(v.storage.get_failed_login_attempts(), 0);
}

#[test]
fn the_notice_rounds_the_wait_up_to_minutes() {
    let text = |seconds: i64| match lockout_notice(seconds) {
        Error::InvalidInput(text) => text,
        _ => panic!("another failure"),
    };
    assert!(text(0).contains("wait 0 minutes"));
    assert!(text(1).contains("wait 1 minutes"));
    assert!(text(60).contains("wait 1 minutes"));
    assert!(text(61).contains("wait 2 minutes"));
    assert!(text(299).contains("wait 5 minutes"));
}

#[test]
fn switching_the_policy_off_clears_the_counter() {
    let mut v = fresh("pw");
    v.storage.set_failed_login_attempts(4);
    v.storage.set_last_failed_attempt_timestamp(Some(at(5)));
    v.set_brute_force_config(BruteForceConfig { enabled: true, max_attempts: 9, lockout_duration_minutes: 1 });
    assert_eq!(v.storage.get_failed_login_attempts(), 4);
    v.set_brute_force_config(BruteForceConfig { enabled: false, max_attempts: 9, lockout_duration_minutes: 1 });
    assert_eq!(v.storage.get_failed_login_attempts(), 0);
    assert_eq!(v.storage.get_last_failed_attempt_timestamp(), None);
    v.storage.set_failed_login_attempts(4);
    v.reset_failed_attempts();
    assert_eq!(v.storage.get_failed_login_attempts(), 0);
}

#[test]
fn unlock_needs_an_initialized_vault() {
    let mut v = VaultState::new("vault".to_string());
    assert!(matches!(v.unlock_vault("pw"), Err(Error::Storage(_))));
    assert_eq!(v.storage.get_failed_login_attempts(), 0);
    assert!(matches!(check_master_key(&v.storage, "pw"), Err(Error::Storage(_))));
}

#[test]
fn a_text_item_is_stored_with_its_content() {
    let mut v = fresh("pw");
    let mut args = text_args("Note", "the content", &["a", "b"], None);
    args.totp_secret = Some("otp".to_string());
    v.add_text_item_with(&args, "id-1".to_string(), "path-1".to_string(), &at(50)).unwrap();
    let items = all(&v);
    assert_eq!(items.len(), 1);
    let item = &items[0];
    assert_eq!(item.id, "id-1");
    assert_eq!(item.data_path, "path-1");
    assert_eq!(item.name, "Note");
    assert_eq!(item.item_type, "text/plain");
    assert_eq!(item.tags, ["a", "b"]);
    assert_eq!(item.created_at, at(50));
    assert_eq!(item.updated_at, at(50));
    assert_eq!(item.deleted_at, None);
    assert_eq!(item.folder_type, None);
    assert_eq!(item.parent_id, None);
    assert_eq!(item.totp_secret, Some("otp".to_string()));
    assert_eq!(v.get_item_content("id-1").unwrap(), b"the content");
    let mut key_args = text_args("Login", "user:pw", &[], Some("id-1"));
    key_args.item_type = "key".to_string();
    v.add_text_item(&key_args).unwrap();
    let items = all(&v);
    let login = items.iter().find(|i| i.name == "Login").unwrap();
    assert_eq!(login.item_type, "key");
    assert_eq!(login.parent_id, Some("id-1".to_string()));
    assert_eq!(login.id.len(), 36);
    assert_eq!(login.data_path.len(), 36);
    assert_ne!(login.id, login.data_path);
    assert_eq!(v.get_item_content(&login.id).unwrap(), b"user:pw");
}

#[test]
fn broken_rules_are_reported_before_the_lock_is_looked_at() {
    let mut v = fresh("pw");
    v.lock_vault();
    assert_eq!(invalid(v.add_text_item(&text_args(" ", "c", &[], None))), "Item name and content cannot be empty");
    assert_eq!(invalid(v.add_text_item(&text_args("n", "", &[], None))), "Item name and content cannot be empty");
    assert_eq!(
        invalid(v.add_text_item(&text_args(&"n".repeat(256), "c", &[], None))),
        "Item name too long (max 255 characters)"
    );
    assert_eq!(
        invalid(v.add_text_item(&text_args("n", "c", &[&"t".repeat(51)], None))),
        "Tag name too long (max 50 characters)"
    );
    assert_eq!(
        invalid(v.add_text_item(&text_args("n", "c", &["a\nb"], None))),
        "Tag contains invalid characters"
    );
    assert_eq!(
        invalid(v.add_text_item(&text_args("n", "c", &["t"; 21], None))),
        "Too many tags (max 20)"
    );
    assert_eq!(invalid(v.add_folder(&folder_args("", None))), "Folder name cannot be empty");
    assert_eq!(invalid(v.add_folder(&folder_args("a/b", None))), "Folder name contains invalid characters");
    assert_eq!(
        invalid(v.rename_tag(&RenameTagArgs { old_tag_name: "a".to_string(), new_tag_name: " ".to_string() })),
        "New tag name cannot be empty"
    );
    assert!(matches!(v.add_text_item(&text_args("n", "c", &[], None)), Err(Error::VaultLocked)));
    assert!(matches!(v.add_folder(&folder_args("f", None)), Err(Error::VaultLocked)));
    assert!(v.storage.rows().is_empty() && v.storage.files().is_empty());
}

#[test]
fn a_locked_vault_refuses_every_item_operation() {
    let mut v = fresh("pw");
    v.add_text_item_with(&text_args("n", "c", &["t"], None), "i".to_string(), "p".to_string(), &at(1)).unwrap();
    v.lock_vault();
    assert!(matches!(v.get_vault_items(None, None, None), Err(Error::VaultLocked)));
    assert!(matches!(v.get_all_vault_items(), Err(Error::VaultLocked)));
    assert!(matches!(v.get_deleted_items(), Err(Error::VaultLocked)));
    assert!(matches!(v.get_item_content("i"), Err(Error::VaultLocked)));
    assert!(matches!(v.delete_item("i"), Err(Error::VaultLocked)));
    assert!(matches!(v.permanently_delete_item("i"), Err(Error::VaultLocked)));
    assert!(matches!(v.permanently_delete_all_items(), Err(Error::VaultLocked)));
    assert!(matches!(v.restore_item("i"), Err(Error::VaultLocked)));
    assert!(matches!(v.restore_item_to_root("i"), Err(Error::VaultLocked)));
    assert!(matches!(v.get_all_tags(), Err(Error::VaultLocked)));
    assert!(matches!(v.delete_tag(&DeleteTagArgs { tag_name: "t".to_string() }), Err(Error::VaultLocked)));
    let update = UpdateItemArgs {
        id: "i".to_string(),
        name: "n".to_string(),
        content: "c".to_string(),
        item_type: "text".to_string(),
        tags: vec![],
        parent_id: None,
        totp_secret: None,
    };
    assert!(matches!(v.update_item(&update), Err(Error::VaultLocked)));
    assert_eq!(v.storage.rows().len(), 1);
    assert!(v.storage.rows()[0].deleted_at.is_none());
}

#[test]
fn a_file_item_gets_its_type_from_the_extension() {
    let mut v = fresh("pw");
    let args = AddFileItemArgs {
        name: "Photo".to_string(),
        file_path: "/home/me/photo.PNG".to_string(),
        tags: strings(&["pics"]),
        parent_id: None,
    };
    v.add_file_item_with(&args, Some("PNG"), &[1, 2, 3], "f1".to_string(), "p1".to_string(), &at(9)).unwrap();
    let item = &all(&v)[0];
    assert_eq!(item.item_type, "image/png");
    assert_eq!(item.totp_secret, None);
    assert_eq!(v.get_item_content("f1").unwrap(), [1, 2, 3]);
    v.add_file_item(&args, None, &[]).unwrap();
    assert_eq!(all(&v).iter().filter(|i| i.item_type == "application/octet-stream").count(), 1);
    assert_eq!(mime_type_for(Some("txt")), "text/plain");
    assert_eq!(mime_type_for(Some("no-such-extension")), "application/octet-stream");
    assert_eq!(mime_type_for(Some("")), "application/octet-stream");
    assert_eq!(mime_type_for(None), "application/octet-stream");
    assert_eq!(
        mime_type_for(Some("pdf")),
        mime_guess::from_path("x.pdf").first_or_octet_stream().to_string()
    );
    let climbing = AddFileItemArgs {
        name: "x".to_string(),
        file_path: "../secret".to_string(),
        tags: vec![],
        parent_id: None,
    };
    assert_eq!(invalid(v.add_file_item(&climbing, None, &[])), "File path contains invalid characters");
}

#[test]
fn folders_have_no_payload_and_no_tags() {
    let mut v = fresh("pw");
    let mut args = folder_args("Work", None);
    args.folder_type = Some("projects".to_string());
    v.add_folder_with(&args, "F".to_string(), &at(3)).unwrap();
    v.add_folder(&folder_args("Other", Some("F"))).unwrap();
    let f = v.storage.get_item("F", &v.crypto).unwrap().unwrap();
    assert_eq!(f.item_type, "folder");
    assert_eq!(f.data_path, "");
    assert!(f.tags.is_empty());
    assert_eq!(f.folder_type, Some("projects".to_string()));
    assert!(v.storage.files().is_empty());
    assert!(matches!(v.get_item_content("F"), Err(Error::Storage(_))));
    let listed = v.get_vault_items(None, Some("projects".to_string()), None).unwrap();
    assert_eq!(listed.len(), 1);
    assert_eq!(v.get_vault_items(Some("F".to_string()), None, Some(SortOrder::NameAsc)).unwrap().len(), 1);
    assert!(matches!(v.add_folder_with(&args, "F".to_string(), &at(4)), Err(Error::Storage(_))));
}

#[test]
fn update_keeps_what_it_is_not_given() {
    let mut v = fresh("pw");
    let mut args = text_args("Note", "old content", &["a"], None);
    args.totp_secret = Some("otp".to_string());
    v.add_text_item_with(&args, "i".to_string(), "p".to_string(), &at(10)).unwrap();
    v.delete_item("i").unwrap();
    let deleted_at = v.storage.get_item("i", &v.crypto).unwrap().unwrap().deleted_at;
    assert!(deleted_at.is_some());
    let update = UpdateItemArgs {
        id: "i".to_string(),
        name: "Renamed".to_string(),
        content: "new content".to_string(),
        item_type: "key".to_string(),
        tags: strings(&["b", "c"]),
        parent_id: Some("elsewhere".to_string()),
        totp_secret: None,
    };
    v.update_item_at(&update, &at(20)).unwrap();
    let item = v.storage.get_item("i", &v.crypto).unwrap().unwrap();
    assert_eq!(item.name, "Renamed");
    assert_eq!(item.item_type, "key");
    assert_eq!(item.tags, ["b", "c"]);
    assert_eq!(item.parent_id, Some("elsewhere".to_string()));
    assert_eq!(item.data_path, "p");
    assert_eq!(item.created_at, at(10));
    assert_eq!(item.updated_at, at(20));
    assert_eq!(item.deleted_at, deleted_at);
    assert_eq!(item.totp_secret, Some("otp".to_string()));
    assert_eq!(v.get_item_content("i").unwrap(), b"new content");
    let mut other_type = update;
    other_type.item_type = "image/png".to_string();
    other_type.content = "ignored".to_string();
    other_type.totp_secret = Some("new otp".to_string());
    v.update_item(&other_type).unwrap();
    assert_eq!(v.get_item_content("i").unwrap(), b"new content");
    let item = v.storage.get_item("i", &v.crypto).unwrap().unwrap();
    assert_eq!(item.totp_secret, Some("new otp".to_string()));
    assert!(at(20).is_before(&item.updated_at));
}

#[test]
fn update_reports_what_is_wrong() {
    let mut v = fresh("pw");
    v.add_folder_with(&folder_args("F", None), "F".to_string(), &at(1)).unwrap();
    let args = |id: &str, name: &str, kind: &str| UpdateItemArgs {
        id: id.to_string(),
        name: name.to_string(),
        content: "c".to_string(),
        item_type: kind.to_string(),
        tags: vec![],
        parent_id: None,
        totp_secret: None,
    };
    assert_eq!(invalid(v.update_item(&args("F", " ", "folder"))), "Item name cannot be empty");
    match v.update_item(&args("nobody", "n", "text")) {
        Err(Error::ItemNotFound(id)) => assert_eq!(id, "nobody"),
        _ => panic!("expected ItemNotFound"),
    }
    assert!(matches!(v.update_item(&args("F", "n", "text")), Err(Error::Storage(_))));
    assert_eq!(v.storage.get_item("F", &v.crypto).unwrap().unwrap().name, "F");
    match v.get_item_content("nobody") {
        Err(Error::ItemNotFound(id)) => assert_eq!(id, "nobody"),
        _ => panic!("expected ItemNotFound"),
    }
}

fn family() -> VaultState {
    let mut v = fresh("pw");
    v.add_folder_with(&folder_args("A", None), "A".to_string(), &at(1)).unwrap();
    v.add_folder_with(&folder_args("B", Some("A")), "B".to_string(), &at(2)).unwrap();
    v.add_text_item_with(&text_args("C", "content of c", &["work", "old"], Some("B")), "C".to_string(), "pc".to_string(), &at(3)).unwrap();
    v.add_text_item_with(&text_args("D", "content of d", &["old", "zed"], None), "D".to_string(), "pd".to_string(), &at(4)).unwrap();
    v
}

fn deleted(v: &VaultState, id: &str) -> bool {
    v.storage.get_item(id, &v.crypto).unwrap().unwrap().deleted_at.is_some()
}

#[test]
fn deleting_cascades_and_restoring_does_not() {
    let mut v = family();
    assert!(v.delete_item("A").unwrap());
    assert!(deleted(&v, "A") && deleted(&v, "B") && deleted(&v, "C") && !deleted(&v, "D"));
    let bin: Vec<String> = v.get_deleted_items().unwrap().into_iter().map(|i| i.id).collect();
    assert_eq!(bin, ["A", "B", "C"]);
    assert!(v.restore_item("B").unwrap());
    assert!(deleted(&v, "A") && !deleted(&v, "B") && deleted(&v, "C"));
    assert_eq!(v.storage.get_item("B", &v.crypto).unwrap().unwrap().parent_id, Some("A".to_string()));
    assert!(!v.restore_item("nobody").unwrap());
    assert!(v.restore_item_to_root("C").unwrap());
    assert_eq!(v.storage.get_item("C", &v.crypto).unwrap().unwrap().parent_id, None);
    assert!(!deleted(&v, "C"));
}

#[test]
fn permanent_deletion_removes_rows_and_payloads() {
    let mut v = family();
    assert_eq!(v.permanently_delete_item("A").unwrap(), ["pc"]);
    let left: Vec<String> = all(&v).into_iter().map(|i| i.id).collect();
    assert_eq!(left, ["D"]);
    assert_eq!(v.storage.files().len(), 1);
    assert!(matches!(v.get_item_content("C"), Err(Error::ItemNotFound(_))));
    v.delete_item("D").unwrap();
    assert_eq!(v.permanently_delete_all_items().unwrap(), ["pd"]);
    assert!(v.storage.rows().is_empty() && v.storage.files().is_empty());
}

#[test]
fn tags_are_listed_renamed_and_deleted_across_the_vault() {
    let mut v = family();
    assert_eq!(v.get_all_tags().unwrap(), ["old", "work", "zed"]);
    v.rename_tag(&RenameTagArgs { old_tag_name: "old".to_string(), new_tag_name: "work".to_string() }).unwrap();
    assert_eq!(v.storage.get_item("C", &v.crypto).unwrap().unwrap().tags, ["work"]);
    assert_eq!(v.storage.get_item("D", &v.crypto).unwrap().unwrap().tags, ["work", "zed"]);
    assert!(at(3).is_before(&v.storage.get_item("C", &v.crypto).unwrap().unwrap().updated_at));
    assert_eq!(v.storage.get_item("A", &v.crypto).unwrap().unwrap().updated_at, at(1));
    assert_eq!(v.get_all_tags().unwrap(), ["work", "zed"]);
    v.delete_tag(&DeleteTagArgs { tag_name: "work".to_string() }).unwrap();
    assert_eq!(v.get_all_tags().unwrap(), ["zed"]);
}

#[test]
fn rotation_keeps_the_content_and_retires_the_old_passphrase() {
    let mut v = family();
    let old_salt = v.storage.get_salt().unwrap();
    let before = format!("{:?}", all(&v));
    v.update_master_key(&UpdateMasterKeyArgs {
        current_key: "pw".to_string(),
        new_key: "new pw".to_string(),
        strength: None,
    })
    .unwrap();
    assert_ne!(v.storage.get_salt().unwrap(), old_salt);
    assert_eq!(v.storage.get_key_derivation_strength(), KeyDerivationStrength::Fast);
    assert_eq!(format!("{:?}", all(&v)), before);
    assert_eq!(v.get_item_content("C").unwrap(), b"content of c");
    assert_eq!(v.get_item_content("D").unwrap(), b"content of d");
    v.lock_vault();
    assert!(matches!(v.unlock_vault("pw"), Err(Error::InvalidMasterKey)));
    assert!(!v.crypto.is_unlocked());
    v.unlock_vault("new pw").unwrap();
    assert_eq!(v.get_item_content("C").unwrap(), b"content of c");
    assert_eq!(format!("{:?}", all(&v)), before);
}

#[test]
fn rotation_can_change_the_strength_and_takes_the_given_salt() {
    let mut v = family();
    v.lock_vault();
    v.update_master_key_with_salt(
        &UpdateMasterKeyArgs {
            current_key: "pw".to_string(),
            new_key: "pw".to_string(),
            strength: Some(KeyDerivationStrength::Recommended),
        },
        &[9u8; 16],
    )
    .unwrap();
    assert!(v.crypto.is_unlocked());
    assert_eq!(v.storage.get_salt().unwrap(), vec![9u8; 16]);
    assert_eq!(v.storage.get_key_derivation_strength(), KeyDerivationStrength::Recommended);
    assert_eq!(v.get_item_content("C").unwrap(), b"content of c");
    let key = Crypto::new().derive_key("pw", &[9u8; 16], KeyDerivationStrength::Recommended).unwrap();
    assert_eq!(check_master_key(&v.storage, "pw").unwrap(), key);
}

#[test]
fn a_rotation_that_fails_changes_neither_the_store_nor_the_session() {
    let mut v = family();
    let rows = format!("{:?}", v.storage.rows());
    let salt = v.storage.get_salt().unwrap();
    let wrong = UpdateMasterKeyArgs {
        current_key: "wrong".to_string(),
        new_key: "new".to_string(),
        strength: None,
    };
    let r = v.update_master_key(&wrong);
    assert!(matches!(r, Err(Error::InvalidMasterKey)));
    assert!(v.crypto.is_unlocked());
    assert_eq!(format!("{:?}", v.storage.rows()), rows);
    assert_eq!(v.storage.get_salt().unwrap(), salt);
    assert_eq!(v.get_item_content("C").unwrap(), b"content of c");
    v.lock_vault();
    assert!(matches!(v.update_master_key(&wrong), Err(Error::InvalidMasterKey)));
    assert!(!v.crypto.is_unlocked());
    v.unlock_vault("pw").unwrap();
    let r = v.update_master_key_with_salt(
        &UpdateMasterKeyArgs { current_key: "pw".to_string(), new_key: "new".to_string(), strength: None },
        &[1u8; 3],
    );
    assert!(matches!(r, Err(Error::KeyDerivation(_))));
    assert!(v.crypto.is_unlocked());
    assert_eq!(format!("{:?}", v.storage.rows()), rows);
    assert_eq!(v.get_item_content("C").unwrap(), b"content of c");
}

#[test]
fn a_rotation_stops_at_a_row_under_another_key_and_keeps_the_session() {
    let mut v = family();
    let mut other = Crypto::new();
    other.unlock(&[7u8; 32]).unwrap();
    let mut stray = v.storage.get_item("D", &v.crypto).unwrap().unwrap();
    stray.id = "S".to_string();
    v.storage.add_item(&stray, &other).unwrap();
    let rows = format!("{:?}", v.storage.rows());
    let salt = v.storage.get_salt().unwrap();
    let token = v.storage.get_verification_token().unwrap();
    let r = v.update_master_key(&UpdateMasterKeyArgs {
        current_key: "pw".to_string(),
        new_key: "new".to_string(),
        strength: Some(KeyDerivationStrength::Recommended),
    });
    assert!(matches!(r, Err(Error::DecryptionFailed)));
    assert!(v.crypto.is_unlocked());
    assert_eq!(format!("{:?}", v.storage.rows()), rows);
    assert_eq!(v.storage.get_salt().unwrap(), salt);
    assert_eq!(v.storage.get_verification_token().unwrap(), token);
    assert_eq!(v.storage.get_key_derivation_strength(), KeyDerivationStrength::Fast);
    assert_eq!(v.get_item_content("C").unwrap(), b"content of c");
    assert!(matches!(v.get_all_vault_items(), Err(Error::DecryptionFailed)));
    assert!(matches!(v.get_vault_items(None, None, None), Err(Error::DecryptionFailed)));
    assert!(matches!(v.get_item_content("S"), Err(Error::DecryptionFailed)));
    assert!(matches!(v.get_all_tags(), Err(Error::DecryptionFailed)));
    assert!(matches!(v.permanently_delete_item("S"), Err(Error::DecryptionFailed)));
    assert_eq!(v.permanently_delete_item("A").unwrap(), ["pc"]);
}

#[test]
fn deleting_the_vault_needs_the_passphrase() {
    let mut v = family();
    assert!(matches!(
        v.delete_vault(&DeleteVaultArgs { master_key: "wrong".to_string() }),
        Err(Error::InvalidMasterKey)
    ));
    assert_eq!(v.storage.rows().len(), 4);
    assert!(v.crypto.is_unlocked());
    v.delete_vault(&DeleteVaultArgs { master_key: "pw".to_string() }).unwrap();
    assert!(v.storage.rows().is_empty() && v.storage.files().is_empty());
    assert!(!v.is_vault_initialized());
    assert!(!v.crypto.is_unlocked());
    assert_eq!(v.storage.get_vault_path(), "vault");
}

#[test]
fn themes_are_settings() {
    let mut v = VaultState::new("vault".to_string());
    assert_eq!(v.get_theme(), "dark");
    v.set_theme("light");
    assert_eq!(v.get_theme(), "light");
}
