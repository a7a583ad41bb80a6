use fetch_vault::error::Error;
use fetch_vault::validate::{
    check_content, check_file_path, check_folder_name, check_item_name, check_item_update,
    check_tag, check_tags, check_text_item, has_control_char, is_control_char,
};

fn message(r: Result<(), Error>) -> String {
    match r {
        Err(Error::InvalidInput(text)) => text,
        Err(other) => panic!("another failure: {}", other.message()),
        Ok(()) => panic!("no failure"),
    }
}

fn strings(list: &[&str]) -> Vec<String> {
    list.iter().map(|s| s.to_string()).collect()
}

#[test]
fn control_codes_are_the_two_blocks() {
    for c in ['\0', '\n', '\r', '\t', '\u{1F}', '\u{7F}', '\u{80}', '\u{9F}'] {
        assert!(is_control_char(c), "{c:?}");
        assert!(c.is_control());
    }
    for c in [' ', 'a', '~', '\u{A0}', 'é', '\u{20}', '\u{7E}'] {
        assert!(!is_control_char(c), "{c:?}");
        assert!(!c.is_control());
    }
    assert!(has_control_char("a\tb"));
    assert!(!has_control_char("a b"));
    assert!(!has_control_char(""));
}

#[test]
fn item_names_are_checked_in_order() {
    assert!(check_item_name("note").is_ok());
    assert_eq!(message(check_item_name("")), "Item name cannot be empty");
    assert_eq!(message(check_item_name("  \t ")), "Item name cannot be empty");
    assert!(check_item_name(&"n".repeat(255)).is_ok());
    assert!(check_item_name(&"é".repeat(255)).is_ok());
    assert_eq!(message(check_item_name(&"n".repeat(256))), "Item name too long (max 255 characters)");
    assert_eq!(message(check_item_name("a\u{0}b")), "Item name contains invalid characters");
    assert_eq!(
        message(check_item_name(&format!("{}\n", "n".repeat(255)))),
        "Item name too long (max 255 characters)"
    );
    assert!(check_item_name("a/b\\c").is_ok());
}

#[test]
fn folder_names_also_refuse_separators() {
    assert!(check_folder_name("Work").is_ok());
    assert_eq!(message(check_folder_name(" ")), "Folder name cannot be empty");
    assert_eq!(
        message(check_folder_name(&"f".repeat(256))),
        "Folder name too long (max 255 characters)"
    );
    for bad in ["a/b", "a\\b", "a\u{0}b", "a\nb"] {
        assert_eq!(message(check_folder_name(bad)), "Folder name contains invalid characters");
    }
}

#[test]
fn tags_are_checked_one_by_one_and_then_counted() {
    assert!(check_tag("work").is_ok());
    assert!(check_tag("").is_ok());
    assert!(check_tag(&"t".repeat(50)).is_ok());
    assert_eq!(message(check_tag(&"t".repeat(51))), "Tag name too long (max 50 characters)");
    assert_eq!(message(check_tag("a\rb")), "Tag contains invalid characters");
    assert!(check_tags(&strings(&[])).is_ok());
    assert!(check_tags(&vec!["t".to_string(); 20]).is_ok());
    assert_eq!(message(check_tags(&vec!["t".to_string(); 21])), "Too many tags (max 20)");
    let mut many = vec!["t".to_string(); 21];
    many[20] = "bad\n".to_string();
    assert_eq!(message(check_tags(&many)), "Tag contains invalid characters");
    let long = "t".repeat(51);
    assert_eq!(
        message(check_tags(&strings(&["ok", "bad\0", &long]))),
        "Tag contains invalid characters"
    );
    assert_eq!(
        message(check_tags(&strings(&["ok", &long, "bad\0"]))),
        "Tag name too long (max 50 characters)"
    );
}

#[test]
fn content_is_bounded_in_bytes() {
    assert!(check_content("").is_ok());
    assert!(check_content(&"c".repeat(10 * 1024 * 1024)).is_ok());
    assert_eq!(
        message(check_content(&"c".repeat(10 * 1024 * 1024 + 1))),
        "Content too large (max 10MB)"
    );
    assert_eq!(
        message(check_content(&"é".repeat(5 * 1024 * 1024 + 1))),
        "Content too large (max 10MB)"
    );
}

#[test]
fn new_text_items_meet_all_rules() {
    let tags = strings(&["a", "b"]);
    assert!(check_text_item("name", "content", &tags).is_ok());
    assert_eq!(
        message(check_text_item(" ", "content", &tags)),
        "Item name and content cannot be empty"
    );
    assert_eq!(
        message(check_text_item("name", "", &tags)),
        "Item name and content cannot be empty"
    );
    assert!(check_text_item("name", " ", &tags).is_ok());
    assert_eq!(
        message(check_text_item(&"n".repeat(256), "c", &strings(&["bad\n"]))),
        "Item name too long (max 255 characters)"
    );
    assert_eq!(
        message(check_text_item("n\u{7}", "c", &tags)),
        "Item name contains invalid characters"
    );
    assert_eq!(
        message(check_text_item("n", &"c".repeat(10 * 1024 * 1024 + 1), &strings(&["bad\n"]))),
        "Content too large (max 10MB)"
    );
    assert_eq!(
        message(check_text_item("n", "c", &strings(&["bad\n"]))),
        "Tag contains invalid characters"
    );
}

#[test]
fn updates_check_name_then_tags() {
    assert!(check_item_update("n", &strings(&["t"])).is_ok());
    assert_eq!(message(check_item_update("", &strings(&["bad\n"]))), "Item name cannot be empty");
    assert_eq!(
        message(check_item_update("n", &strings(&["bad\n"]))),
        "Tag contains invalid characters"
    );
}

#[test]
fn file_paths_must_not_climb() {
    assert!(check_file_path("/home/user/file.txt").is_ok());
    assert!(check_file_path("a.b.c").is_ok());
    for bad in ["../etc/passwd", "/a/../b", "~/file", "a~b", ".."] {
        assert_eq!(message(check_file_path(bad)), "File path contains invalid characters");
    }
}
