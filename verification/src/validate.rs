//! The rules that caller-supplied values must meet before anything is stored.

use vstd::prelude::*;
use vstd::string::StrSliceExecFns;
use crate::error::{invalid_input, Error};
use crate::text::{blank, chars_of, contains_char, contains_text, has_char, has_text, is_blank};

verus! {

/// The longest name, in characters.
pub const MAX_NAME_CHARS: usize = 255;

/// The longest tag, in characters.
pub const MAX_TAG_CHARS: usize = 50;

/// The largest number of tags on one item.
pub const MAX_TAGS: usize = 20;

/// The largest content of a text item, in bytes.
pub const MAX_CONTENT_BYTES: usize = 10_485_760;

/// A control code: U+0000 to U+001F and U+007F to U+009F.
pub open spec fn is_control(c: char) -> bool {
    (c as u32) <= 0x1F || (0x7F <= (c as u32) && (c as u32) <= 0x9F)
}

/// Some character of the text is a control code.
pub open spec fn has_control(s: Seq<char>) -> bool {
    exists|i: int| 0 <= i < s.len() && is_control(#[trigger] s[i])
}

/// What is wrong with the name of an item, if anything: it is blank, longer
/// than `MAX_NAME_CHARS`, or holds a control code.
pub open spec fn item_name_fault(name: Seq<char>) -> Option<Seq<char>> {
    if blank(name) {
        Some("Item name cannot be empty"@)
    } else if name.len() > MAX_NAME_CHARS {
        Some("Item name too long (max 255 characters)"@)
    } else if has_control(name) {
        Some("Item name contains invalid characters"@)
    } else {
        None
    }
}

/// What is wrong with the name of a folder, if anything: it is blank, longer
/// than `MAX_NAME_CHARS`, or holds a control code, a slash or a backslash.
pub open spec fn folder_name_fault(name: Seq<char>) -> Option<Seq<char>> {
    if blank(name) {
        Some("Folder name cannot be empty"@)
    } else if name.len() > MAX_NAME_CHARS {
        Some("Folder name too long (max 255 characters)"@)
    } else if has_control(name) || has_char(name, '/') || has_char(name, '\\') {
        Some("Folder name contains invalid characters"@)
    } else {
        None
    }
}

/// What is wrong with one tag, if anything: it is longer than
/// `MAX_TAG_CHARS` or holds a control code.
pub open spec fn tag_fault(tag: Seq<char>) -> Option<Seq<char>> {
    if tag.len() > MAX_TAG_CHARS {
        Some("Tag name too long (max 50 characters)"@)
    } else if has_control(tag) {
        Some("Tag contains invalid characters"@)
    } else {
        None
    }
}

/// The fault of the first tag that has one.
pub open spec fn first_tag_fault(tags: Seq<Seq<char>>) -> Option<Seq<char>>
    decreases tags.len(),
{
    if tags.len() == 0 {
        None
    } else {
        match tag_fault(tags[0]) {
            Some(fault) => Some(fault),
            None => first_tag_fault(tags.drop_first()),
        }
    }
}

/// What is wrong with a list of tags, if anything: the fault of the first
/// tag that has one, else that there are more than `MAX_TAGS`.
pub open spec fn tags_fault(tags: Seq<Seq<char>>) -> Option<Seq<char>> {
    match first_tag_fault(tags) {
        Some(fault) => Some(fault),
        None => if tags.len() > MAX_TAGS {
            Some("Too many tags (max 20)"@)
        } else {
            None
        },
    }
}

/// What is wrong with the size of a content, if anything: it is larger
/// than `MAX_CONTENT_BYTES`.
pub open spec fn content_fault(content: Seq<char>) -> Option<Seq<char>> {
    if vstd::utf8::encode_utf8(content).len() > MAX_CONTENT_BYTES {
        Some("Content too large (max 10MB)"@)
    } else {
        None
    }
}

/// What is wrong with a new text item, if anything. The rules are held
/// against it in this order: name and content are not empty, the name is
/// well-formed, the content is not too large, the tags are well-formed.
pub open spec fn text_item_fault(
    name: Seq<char>,
    content: Seq<char>,
    tags: Seq<Seq<char>>,
) -> Option<Seq<char>> {
    if blank(name) || content.len() == 0 {
        Some("Item name and content cannot be empty"@)
    } else {
        first_fault(item_name_fault(name), first_fault(content_fault(content), tags_fault(tags)))
    }
}

/// What is wrong with changed fields of an item, if anything: the fault of
/// the name, else that of the tags.
pub open spec fn item_update_fault(name: Seq<char>, tags: Seq<Seq<char>>) -> Option<Seq<char>> {
    first_fault(item_name_fault(name), tags_fault(tags))
}

/// What is wrong with the path of a file to import, if anything: it holds
/// `..` or `~`.
pub open spec fn file_path_fault(path: Seq<char>) -> Option<Seq<char>> {
    if has_text(path, ".."@) || has_char(path, '~') {
        Some("File path contains invalid characters"@)
    } else {
        None
    }
}

/// The first of the faults, in the order given.
pub open spec fn first_fault(a: Option<Seq<char>>, b: Option<Seq<char>>) -> Option<Seq<char>> {
    match a {
        Some(fault) => Some(fault),
        None => b,
    }
}

/// What a check returns for a fault: `Ok` for none, `InvalidInput` with the
/// fault as its text otherwise.
pub open spec fn reports(r: Result<(), Error>, fault: Option<Seq<char>>) -> bool {
    match r {
        Ok(_) => fault is None,
        Err(e) => e matches Error::InvalidInput(text) && fault == Some(text@),
    }
}

/// Whether the character is a control code.
pub fn is_control_char(c: char) -> (b: bool)
    ensures
        b == is_control(c),
{
    let code: u32 = c as u32;
    code <= 0x1F || (0x7F <= code && code <= 0x9F)
}

/// Whether the text holds a control code.
pub fn has_control_char(s: &str) -> (b: bool)
    ensures
        b == has_control(s@),
{
    let chars = chars_of(s);
    let mut i: usize = 0;
    while i < chars.len()
        invariant
            i <= chars.len(),
            chars@ == s@,
            forall|k: int| 0 <= k < i ==> !is_control(#[trigger] chars@[k]),
        decreases chars.len() - i,
    {
        if is_control_char(chars[i]) {
            return true;
        }
        i += 1;
    }
    false
}

/// Checks the name of an item.
pub fn check_item_name(name: &str) -> (r: Result<(), Error>)
    ensures
        reports(r, item_name_fault(name@)),
{
    if is_blank(name) {
        Err(invalid_input("Item name cannot be empty"))
    } else if name.unicode_len() > MAX_NAME_CHARS {
        Err(invalid_input("Item name too long (max 255 characters)"))
    } else if has_control_char(name) {
        Err(invalid_input("Item name contains invalid characters"))
    } else {
        Ok(())
    }
}

/// Checks the name of a folder.
pub fn check_folder_name(name: &str) -> (r: Result<(), Error>)
    ensures
        reports(r, folder_name_fault(name@)),
{
    if is_blank(name) {
        Err(invalid_input("Folder name cannot be empty"))
    } else if name.unicode_len() > MAX_NAME_CHARS {
        Err(invalid_input("Folder name too long (max 255 characters)"))
    } else if has_control_char(name) || contains_char(name, '/') || contains_char(name, '\\') {
        Err(invalid_input("Folder name contains invalid characters"))
    } else {
        Ok(())
    }
}

/// Checks one tag.
pub fn check_tag(tag: &str) -> (r: Result<(), Error>)
    ensures
        reports(r, tag_fault(tag@)),
{
    if tag.unicode_len() > MAX_TAG_CHARS {
        Err(invalid_input("Tag name too long (max 50 characters)"))
    } else if has_control_char(tag) {
        Err(invalid_input("Tag contains invalid characters"))
    } else {
        Ok(())
    }
}

/// Checks a list of tags: each tag in turn, then their number.
pub fn check_tags(tags: &Vec<String>) -> (r: Result<(), Error>)
    ensures
        reports(r, tags_fault(tags.deep_view())),
{
    let ghost tv = tags.deep_view();
    let mut i: usize = 0;
    assert(tv.skip(0) =~= tv);
    while i < tags.len()
        invariant
            i <= tags.len(),
            tv == tags.deep_view(),
            first_tag_fault(tv) == first_tag_fault(tv.skip(i as int)),
        decreases tags.len() - i,
    {
        let ghost rest = tv.skip(i as int);
        assert(rest[0] == tags[i as int]@);
        assert(rest.drop_first() =~= tv.skip(i + 1));
        match check_tag(tags[i].as_str()) {
            Ok(_) => {},
            Err(e) => {
                return Err(e);
            },
        }
        i += 1;
    }
    if tags.len() > MAX_TAGS {
        Err(invalid_input("Too many tags (max 20)"))
    } else {
        Ok(())
    }
}

/// Checks the size of a content.
pub fn check_content(content: &str) -> (r: Result<(), Error>)
    ensures
        reports(r, content_fault(content@)),
{
    if content.as_bytes().len() > MAX_CONTENT_BYTES {
        Err(invalid_input("Content too large (max 10MB)"))
    } else {
        Ok(())
    }
}

/// Checks the name, the content and the tags of a new text item.
pub fn check_text_item(name: &str, content: &str, tags: &Vec<String>) -> (r: Result<(), Error>)
    ensures
        reports(r, text_item_fault(name@, content@, tags.deep_view())),
{
    if is_blank(name) || content.unicode_len() == 0 {
        return Err(invalid_input("Item name and content cannot be empty"));
    }
    check_item_name(name)?;
    check_content(content)?;
    check_tags(tags)
}

/// Checks the changed name and tags of an item.
pub fn check_item_update(name: &str, tags: &Vec<String>) -> (r: Result<(), Error>)
    ensures
        reports(r, item_update_fault(name@, tags.deep_view())),
{
    check_item_name(name)?;
    check_tags(tags)
}

/// Checks the path of a file to import.
pub fn check_file_path(path: &str) -> (r: Result<(), Error>)
    ensures
        reports(r, file_path_fault(path@)),
{
    if contains_text(path, "..") || contains_char(path, '~') {
        Err(invalid_input("File path contains invalid characters"))
    } else {
        Ok(())
    }
}

} // verus!
