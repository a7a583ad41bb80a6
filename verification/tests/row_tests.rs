use fetch_vault::crypto::Crypto;
use fetch_vault::error::Error;
use fetch_vault::item::VaultItem;
use fetch_vault::row::{
    decode_all, decode_children, encode_row, instant_round_trips, item_reads_back, open_text,
    row_to_vault_item, seal_instant, StoredRow,
};
use fetch_vault::time::Timestamp;

fn engine(byte: u8) -> Crypto {
    let mut c = Crypto::new();
    c.unlock(&[byte; 32]).unwrap();
    c
}

fn full_item() -> VaultItem {
    VaultItem {
        id: "id-1".to_string(),
        parent_id: Some("parent".to_string()),
        name: "Émile's note".to_string(),
        data_path: "payload-1".to_string(),
        item_type: "text/plain".to_string(),
        folder_type: Some("kind".to_string()),
        tags: vec!["work".to_string(), "a \"quoted\" tag".to_string(), "work".to_string()],
        created_at: Timestamp::from_parts(1_700_000_000, 123_456_789).unwrap(),
        updated_at: Timestamp::from_parts(1_700_000_100, 0).unwrap(),
        deleted_at: Some(Timestamp::from_parts(1_700_000_200, 5).unwrap()),
        totp_secret: Some("SECRET".to_string()),
    }
}

fn bare_item(id: &str, parent: Option<&str>) -> VaultItem {
    VaultItem {
        id: id.to_string(),
        parent_id: parent.map(|p| p.to_string()),
        name: id.to_string(),
        data_path: String::new(),
        item_type: "folder".to_string(),
        folder_type: None,
        tags: vec![],
        created_at: Timestamp::from_parts(1, 0).unwrap(),
        updated_at: Timestamp::from_parts(2, 0).unwrap(),
        deleted_at: None,
        totp_secret: None,
    }
}

#[test]
fn a_row_gives_its_item_back() {
    let c = engine(1);
    for item in [full_item(), bare_item("x", None)] {
        let row = encode_row(&item, &c).unwrap();
        assert_eq!(row.id, item.id);
        assert_eq!(row.parent_id, item.parent_id);
        let back = row_to_vault_item(&row, &c).unwrap();
        assert_eq!(format!("{:?}", back), format!("{:?}", item));
    }
}

#[test]
fn every_column_is_sealed_on_its_own() {
    let c = engine(1);
    let item = full_item();
    let row = encode_row(&item, &c).unwrap();
    assert_eq!(c.decrypt(&row.name).unwrap(), item.name.as_bytes());
    assert_eq!(c.decrypt(&row.item_type).unwrap(), b"text/plain");
    assert_eq!(c.decrypt(&row.data_path).unwrap(), b"payload-1");
    assert_eq!(c.decrypt(row.folder_type.as_ref().unwrap()).unwrap(), b"kind");
    assert_eq!(
        c.decrypt(&row.tags).unwrap(),
        br#"["work","a \"quoted\" tag","work"]"#
    );
    assert_eq!(c.decrypt(&row.created_at).unwrap(), b"2023-11-14T22:13:20.123456789+00:00");
    assert_eq!(c.decrypt(&row.updated_at).unwrap(), b"2023-11-14T22:15:00+00:00");
    assert_eq!(
        c.decrypt(row.deleted_at.as_ref().unwrap()).unwrap(),
        b"2023-11-14T22:16:40.000000005+00:00"
    );
    assert_eq!(c.decrypt(row.totp_secret.as_ref().unwrap()).unwrap(), b"SECRET");
    assert_eq!(open_text(&row.name, &c).unwrap(), item.name);
    let again = encode_row(&item, &c).unwrap();
    assert_ne!(again.name, row.name);
    let bare = encode_row(&bare_item("x", None), &c).unwrap();
    assert!(bare.folder_type.is_none() && bare.deleted_at.is_none() && bare.totp_secret.is_none());
    assert_eq!(c.decrypt(&bare.tags).unwrap(), b"[]");
}

#[test]
fn a_locked_engine_writes_no_row() {
    let c = Crypto::new();
    assert!(matches!(encode_row(&full_item(), &c), Err(Error::NotUnlocked)));
}

#[test]
fn a_row_cannot_be_read_under_another_key_or_none() {
    let row = encode_row(&full_item(), &engine(1)).unwrap();
    assert!(matches!(row_to_vault_item(&row, &engine(2)), Err(Error::DecryptionFailed)));
    assert!(matches!(row_to_vault_item(&row, &Crypto::new()), Err(Error::NotUnlocked)));
    assert!(matches!(open_text(&row.name, &engine(2)), Err(Error::DecryptionFailed)));
    assert!(matches!(open_text(&row.name, &Crypto::new()), Err(Error::NotUnlocked)));
    let odd = engine(1).encrypt(&[0xFF, 0xFE]).unwrap();
    assert!(matches!(open_text(&odd, &engine(1)), Err(Error::Storage(_))));
}

#[test]
fn a_cell_that_does_not_open_outweighs_one_that_holds_no_text() {
    let c = engine(1);
    let row = row_with(&c, |r, c| {
        r.name = c.encrypt(&[0xFF, 0xFE]).unwrap();
        r.updated_at = vec![1, 2, 3];
    });
    assert!(matches!(row_to_vault_item(&row, &c), Err(Error::DecryptionFailed)));
    let row = row_with(&c, |r, c| {
        r.name = c.encrypt(&[0xFF, 0xFE]).unwrap();
        r.totp_secret = Some(engine(2).encrypt(b"S").unwrap());
    });
    assert!(matches!(row_to_vault_item(&row, &c), Err(Error::DecryptionFailed)));
    assert!(matches!(row_to_vault_item(&row, &Crypto::new()), Err(Error::NotUnlocked)));
}

#[test]
fn an_instant_is_sealed_as_its_text_and_not_by_a_locked_engine() {
    let c = engine(1);
    let t = Timestamp::from_parts(1_700_000_000, 0).unwrap();
    let cell = seal_instant(&t, &c).unwrap();
    assert_eq!(c.decrypt(&cell).unwrap(), b"2023-11-14T22:13:20+00:00");
    assert!(matches!(seal_instant(&t, &Crypto::new()), Err(Error::NotUnlocked)));
}

fn row_with(c: &Crypto, change: fn(&mut StoredRow, &Crypto)) -> StoredRow {
    let mut row = encode_row(&full_item(), c).unwrap();
    change(&mut row, c);
    row
}

#[test]
fn tags_that_are_no_json_read_as_no_tags() {
    let c = engine(1);
    let row = row_with(&c, |r, c| r.tags = c.encrypt(b"not json").unwrap());
    assert!(row_to_vault_item(&row, &c).unwrap().tags.is_empty());
    let row = row_with(&c, |r, c| r.tags = c.encrypt(br#"{"a":1}"#).unwrap());
    assert!(row_to_vault_item(&row, &c).unwrap().tags.is_empty());
    let row = row_with(&c, |r, c| r.tags = c.encrypt(br#"["x"]"#).unwrap());
    assert_eq!(row_to_vault_item(&row, &c).unwrap().tags, vec!["x".to_string()]);
}

#[test]
fn empty_optional_cells_read_as_absent() {
    let c = engine(1);
    let row = row_with(&c, |r, _| {
        r.deleted_at = Some(vec![]);
        r.totp_secret = Some(vec![]);
    });
    let item = row_to_vault_item(&row, &c).unwrap();
    assert_eq!(item.deleted_at, None);
    assert_eq!(item.totp_secret, None);
    let row = row_with(&c, |r, _| r.folder_type = Some(vec![]));
    assert!(matches!(row_to_vault_item(&row, &c), Err(Error::DecryptionFailed)));
}

#[test]
fn cells_that_do_not_hold_what_they_should_are_storage_failures() {
    let c = engine(1);
    let row = row_with(&c, |r, c| r.name = c.encrypt(&[0xFF, 0xFE]).unwrap());
    assert!(matches!(row_to_vault_item(&row, &c), Err(Error::Storage(_))));
    let row = row_with(&c, |r, c| r.created_at = c.encrypt(b"yesterday").unwrap());
    assert!(matches!(row_to_vault_item(&row, &c), Err(Error::Storage(_))));
    let row = row_with(&c, |r, c| r.deleted_at = Some(c.encrypt(b"2016-12-31T23:59:60Z").unwrap()));
    assert!(matches!(row_to_vault_item(&row, &c), Err(Error::Storage(_))));
    let row = row_with(&c, |r, c| r.item_type = c.encrypt(&[0xC0]).unwrap());
    assert!(matches!(row_to_vault_item(&row, &c), Err(Error::Storage(_))));
    let row = row_with(&c, |r, _| r.updated_at = vec![1, 2, 3]);
    assert!(matches!(row_to_vault_item(&row, &c), Err(Error::DecryptionFailed)));
}

#[test]
fn decode_all_and_decode_children_read_in_row_order() {
    let c = engine(1);
    let rows: Vec<StoredRow> = [
        bare_item("a", None),
        bare_item("b", Some("a")),
        bare_item("c", Some("a")),
        bare_item("d", Some("b")),
        bare_item("e", None),
    ]
    .iter()
    .map(|i| encode_row(i, &c).unwrap())
    .collect();
    let ids = |items: Vec<VaultItem>| items.into_iter().map(|i| i.id).collect::<Vec<_>>();
    assert_eq!(ids(decode_all(&rows, &c).unwrap()), ["a", "b", "c", "d", "e"]);
    assert_eq!(ids(decode_children(&rows, &Some("a".to_string()), &c).unwrap()), ["b", "c"]);
    assert_eq!(ids(decode_children(&rows, &None, &c).unwrap()), ["a", "e"]);
    assert!(decode_children(&rows, &Some("zz".to_string()), &c).unwrap().is_empty());
    assert!(matches!(decode_all(&rows, &engine(2)), Err(Error::DecryptionFailed)));
    assert!(matches!(decode_all(&rows, &Crypto::new()), Err(Error::NotUnlocked)));
    assert!(matches!(decode_children(&rows, &None, &engine(2)), Err(Error::DecryptionFailed)));
    assert!(decode_children(&rows, &Some("zz".to_string()), &engine(2)).unwrap().is_empty());
    assert!(decode_all(&vec![], &Crypto::new()).unwrap().is_empty());
}

#[test]
fn duplicate_copies_a_row() {
    let row = encode_row(&full_item(), &engine(1)).unwrap();
    assert_eq!(format!("{:?}", row.duplicate()), format!("{:?}", row));
}

#[test]
fn items_read_back_as_they_were_written() {
    assert!(item_reads_back(&full_item()));
    assert!(item_reads_back(&bare_item("x", None)));
    let mut odd = full_item();
    odd.tags = vec![String::new(), "\u{0}\n\"\\".to_string(), "日本語".to_string()];
    odd.deleted_at = None;
    assert!(item_reads_back(&odd));
    let c = engine(1);
    let back = row_to_vault_item(&encode_row(&odd, &c).unwrap(), &c).unwrap();
    assert_eq!(format!("{:?}", back), format!("{:?}", odd));
}

#[test]
fn instants_read_back_from_their_text_over_the_whole_range() {
    let instants = [
        (0, 0),
        (-1, 999_999_999),
        (1_700_000_000, 123_456_789),
        (253_402_300_799, 999_999_999),
        (253_402_300_800, 0),
        (-62_167_219_200, 0),
        (-62_167_219_201, 500),
        (8_210_266_876_799, 999_999_999),
        (-8_334_601_228_800, 0),
    ];
    for (secs, nanos) in instants {
        let t = Timestamp::from_parts(secs, nanos).unwrap();
        assert!(instant_round_trips(&t), "{secs} {nanos}");
        assert_eq!(Timestamp::parse(&t.to_rfc3339()), Some(t));
    }
    assert_eq!(
        Timestamp::from_parts(253_402_300_800, 0).unwrap().to_rfc3339(),
        "+10000-01-01T00:00:00+00:00"
    );
    assert!(!instant_round_trips(&Timestamp { secs: i64::MAX, nanos: 0 }));
    assert!(!instant_round_trips(&Timestamp { secs: 0, nanos: 1_000_000_000 }));
    let mut item = full_item();
    item.updated_at = Timestamp { secs: i64::MIN, nanos: 0 };
    assert!(!item_reads_back(&item));
}
