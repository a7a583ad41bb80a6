use fetch_vault::crypto::KeyDerivationStrength;
use fetch_vault::error::Error;
use fetch_vault::import::{host, import_entry, parse_tags, CsvImportArgs, CsvRow};
use fetch_vault::text::{split, trim, trim_end};
use fetch_vault::time::Timestamp;
use fetch_vault::vault::{InitializeVaultArgs, VaultState};

fn empty_row() -> CsvRow {
    CsvRow {
        account: None,
        login_name: None,
        password: None,
        web_site: None,
        comments: None,
        title: None,
        username: None,
        url: None,
        notes: None,
        tags: None,
        url_browser: None,
        username_browser: None,
        password_browser: None,
        name_browser: None,
        hostname_browser: None,
    }
}

fn some(s: &str) -> Option<String> {
    Some(s.to_string())
}

fn chars(s: &str) -> Vec<char> {
    s.chars().collect()
}

#[test]
fn trimming_agrees_with_the_standard_library() {
    for s in ["", " ", "a", " a", "a ", "  a b  ", "\t\na\u{3000}", "\u{A0}x\u{A0}", "   ", "a  b"] {
        assert_eq!(trim(&chars(s)).into_iter().collect::<String>(), s.trim(), "{s:?}");
        assert_eq!(trim_end(&chars(s)).into_iter().collect::<String>(), s.trim_end(), "{s:?}");
    }
}

#[test]
fn splitting_agrees_with_the_standard_library() {
    for s in ["", ",", "a", "a,b", ",a", "a,", "a,,b", ",,", "a, b ,c"] {
        let mine: Vec<String> = split(&chars(s), ',').into_iter().map(|p| p.into_iter().collect()).collect();
        let theirs: Vec<String> = s.split(',').map(|p| p.to_string()).collect();
        assert_eq!(mine, theirs, "{s:?}");
    }
}

#[test]
fn tags_are_the_pieces_that_are_not_blank() {
    assert_eq!(parse_tags("work, home ,,  , x"), ["work", "home", "x"]);
    assert!(parse_tags("").is_empty());
    assert!(parse_tags(" , ").is_empty());
    assert_eq!(parse_tags("one"), ["one"]);
}

#[test]
fn the_host_stands_before_the_first_slash() {
    assert_eq!(host("https://example.com/login?x=1"), "example.com");
    assert_eq!(host("http://example.com"), "example.com");
    assert_eq!(host("example.com/a/b"), "example.com");
    assert_eq!(host("/path"), "");
    assert_eq!(host(""), "");
    assert_eq!(host("https://https://x/y"), "x");
}

#[test]
fn a_row_of_the_first_kind() {
    let mut row = empty_row();
    row.account = some("  Bank  ");
    row.login_name = some(" me ");
    row.password = some("s3cret");
    row.web_site = some("https://bank.example/login");
    row.comments = some("pin is elsewhere\n");
    row.tags = some("money, important");
    let entry = import_entry(&row).unwrap();
    assert_eq!(entry.name, "Bank");
    assert_eq!(
        entry.content,
        "Username: me\n\nPassword: s3cret\n\nURL: https://bank.example/login\n\nNotes: pin is elsewhere"
    );
    assert_eq!(entry.tags, ["money", "important"]);
}

#[test]
fn a_row_of_a_browser() {
    let mut row = empty_row();
    row.url_browser = some("https://shop.example/cart");
    row.username_browser = some("buyer");
    row.password_browser = some("pw");
    let entry = import_entry(&row).unwrap();
    assert_eq!(entry.name, "shop.example");
    assert_eq!(entry.content, "Username: buyer\n\nPassword: pw\n\nURL: https://shop.example/cart");
    assert!(entry.tags.is_empty());
    row.name_browser = some("Shop");
    assert_eq!(import_entry(&row).unwrap().name, "Shop");
    row.hostname_browser = some("ignored");
    assert_eq!(import_entry(&row).unwrap().name, "Shop");
    row.title = some("Title wins");
    row.username = some("not used");
    row.notes = some("n");
    let entry = import_entry(&row).unwrap();
    assert_eq!(entry.name, "Title wins");
    assert_eq!(
        entry.content,
        "Username: not used\n\nPassword: pw\n\nURL: https://shop.example/cart\n\nNotes: n"
    );
}

#[test]
fn rows_without_title_or_content_are_skipped() {
    assert!(import_entry(&empty_row()).is_none());
    let mut row = empty_row();
    row.password = some("pw");
    assert!(import_entry(&row).is_none());
    row.title = some("   ");
    assert!(import_entry(&row).is_none());
    row.title = some("");
    row.name_browser = some("later columns are not looked at");
    assert!(import_entry(&row).is_none());
    let mut row = empty_row();
    row.title = some("T");
    assert!(import_entry(&row).is_none());
    row.username = some("  ");
    row.notes = some("\n");
    assert!(import_entry(&row).is_none());
    row.notes = some("x");
    assert_eq!(import_entry(&row).unwrap().content, "Notes: x");
    let mut row = empty_row();
    row.url = some("/no-host");
    row.password = some("pw");
    assert!(import_entry(&row).is_none());
}

fn vault() -> VaultState {
    let mut v = VaultState::new("vault".to_string());
    v.initialize_vault(&InitializeVaultArgs {
        master_key: "pw".to_string(),
        strength: Some(KeyDerivationStrength::Fast),
    })
    .unwrap();
    v
}

#[test]
fn an_imported_row_becomes_a_credential_with_its_content() {
    let mut v = vault();
    let mut row = empty_row();
    row.title = some("Mail");
    row.username = some("me@example.com");
    row.tags = some("a,b");
    let now = Timestamp::from_parts(500, 0).unwrap();
    assert!(v.import_csv_row_with(&row, &some("parent"), "the-id".to_string(), &now).unwrap());
    let item = v.storage.get_item("the-id", &v.crypto).unwrap().unwrap();
    assert_eq!(item.name, "Mail");
    assert_eq!(item.item_type, "key");
    assert_eq!(item.data_path, "the-id.txt");
    assert_eq!(item.parent_id, some("parent"));
    assert_eq!(item.tags, ["a", "b"]);
    assert_eq!(item.created_at, now);
    assert_eq!(item.updated_at, now);
    assert_eq!(v.get_item_content("the-id").unwrap(), b"Username: me@example.com");
    assert!(!v.import_csv_row_with(&empty_row(), &None, "other".to_string(), &now).unwrap());
    assert_eq!(v.storage.rows().len(), 1);
    assert!(matches!(
        v.import_csv_row_with(&row, &None, "the-id".to_string(), &now),
        Err(Error::Storage(_))
    ));
    assert!(v.import_csv_row(&row, &None).unwrap());
    assert_eq!(v.storage.rows().len(), 2);
    assert_eq!(v.storage.files().len(), 2);
    v.lock_vault();
    assert!(matches!(v.import_csv_row(&row, &None), Err(Error::VaultLocked)));
    assert!(matches!(v.import_csv_row(&empty_row(), &None), Err(Error::VaultLocked)));
}

#[test]
fn import_arguments_carry_the_table_and_the_folder() {
    let args = CsvImportArgs { csv_content: "Title,Notes\nA,b\n".to_string(), parent_id: None };
    assert_eq!(args.csv_content.lines().count(), 2);
    assert!(args.parent_id.is_none());
}
