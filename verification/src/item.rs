//! Vault items, the order in which they are listed and the type filter.

use vstd::prelude::*;
use crate::import::host;
use crate::text::{
    chars_of, comes_before, has_prefix, lex_less, lowercased, matches_at, starts_with, string_of,
    strip_prefix, without_prefix,
};
use crate::time::Timestamp;

verus! {

/// One entry of the vault: a folder, a note, a credential or a file record.
#[derive(Debug)]
pub struct VaultItem {
    pub id: String,
    pub parent_id: Option<String>,
    pub name: String,
    pub data_path: String,
    pub item_type: String,
    pub folder_type: Option<String>,
    pub tags: Vec<String>,
    pub created_at: Timestamp,
    pub updated_at: Timestamp,
    pub deleted_at: Option<Timestamp>,
    pub totp_secret: Option<String>,
}

/// The mathematical content of a `VaultItem`.
pub struct ItemView {
    pub id: Seq<char>,
    pub parent_id: Option<Seq<char>>,
    pub name: Seq<char>,
    pub data_path: Seq<char>,
    pub item_type: Seq<char>,
    pub folder_type: Option<Seq<char>>,
    pub tags: Seq<Seq<char>>,
    pub created_at: Timestamp,
    pub updated_at: Timestamp,
    pub deleted_at: Option<Timestamp>,
    pub totp_secret: Option<Seq<char>>,
}

impl DeepView for VaultItem {
    type V = ItemView;

    open spec fn deep_view(&self) -> ItemView {
        ItemView {
            id: self.id@,
            parent_id: self.parent_id.deep_view(),
            name: self.name@,
            data_path: self.data_path@,
            item_type: self.item_type@,
            folder_type: self.folder_type.deep_view(),
            tags: self.tags.deep_view(),
            created_at: self.created_at,
            updated_at: self.updated_at,
            deleted_at: self.deleted_at,
            totp_secret: self.totp_secret.deep_view(),
        }
    }
}

impl View for VaultItem {
    type V = ItemView;

    open spec fn view(&self) -> ItemView {
        self.deep_view()
    }
}

impl ItemView {
    /// Folders are told from other items by their type.
    pub open spec fn is_folder(self) -> bool {
        self.item_type == "folder"@
    }

    /// The timestamps are instants the vault can store.
    pub open spec fn wf(self) -> bool {
        &&& self.created_at.wf()
        &&& self.updated_at.wf()
        &&& self.deleted_at matches Some(t) ==> t.wf()
    }
}

/// The order of a listing.
#[derive(Clone, Copy, Debug, PartialEq, Eq, Structural)]
pub enum SortOrder {
    CreatedAtDesc,
    CreatedAtAsc,
    NameAsc,
    NameDesc,
    UpdatedAtDesc,
    UpdatedAtAsc,
}

impl Default for SortOrder {
    fn default() -> (order: Self)
        ensures
            order == SortOrder::CreatedAtDesc,
    {
        SortOrder::CreatedAtDesc
    }
}

/// A name without the scheme that it begins with: without a leading
/// `https://`, else without a leading `http://`.
pub open spec fn without_scheme(name: Seq<char>) -> Seq<char> {
    if has_prefix(name, "https://"@) {
        without_prefix(name, "https://"@)
    } else {
        without_prefix(name, "http://"@)
    }
}

/// The name by which items are compared: without the scheme that it
/// begins with, then without a leading `www.`, in lower case. Only what
/// the name begins with is taken off, and each once: the same letters
/// further on stay.
pub open spec fn sort_name(name: Seq<char>) -> Seq<char> {
    lowercased(without_prefix(without_scheme(name), "www."@))
}

/// Whether `a` must stand before `b` in a listing: folders before all other
/// items, and within each of the two groups the requested order.
pub open spec fn listed_before(a: ItemView, b: ItemView, order: SortOrder) -> bool {
    if a.is_folder() != b.is_folder() {
        a.is_folder()
    } else {
        match order {
            SortOrder::CreatedAtDesc => b.created_at.precedes(a.created_at),
            SortOrder::CreatedAtAsc => a.created_at.precedes(b.created_at),
            SortOrder::NameAsc => lex_less(sort_name(a.name), sort_name(b.name)),
            SortOrder::NameDesc => lex_less(sort_name(b.name), sort_name(a.name)),
            SortOrder::UpdatedAtDesc => b.updated_at.precedes(a.updated_at),
            SortOrder::UpdatedAtAsc => a.updated_at.precedes(b.updated_at),
        }
    }
}

/// Whether an item passes a type filter: a folder by its folder type, any
/// other item by the beginning of its type.
pub open spec fn type_matches(item: ItemView, filter: Seq<char>) -> bool {
    if item.is_folder() {
        item.folder_type == Some(filter)
    } else {
        has_prefix(item.item_type, filter)
    }
}

/// Whether two texts hold the same characters.
pub fn same_text(a: &str, b: &str) -> (eq: bool)
    ensures
        eq == (a@ == b@),
{
    let x = chars_of(a);
    let y = chars_of(b);
    if x.len() != y.len() {
        return false;
    }
    let mut i: usize = 0;
    while i < x.len()
        invariant
            i <= x.len(),
            x.len() == y.len(),
            x@ == a@,
            y@ == b@,
            forall|k: int| 0 <= k < i ==> x@[k] == y@[k],
        decreases x.len() - i,
    {
        if x[i] != y[i] {
            return false;
        }
        i += 1;
    }
    assert(x@ =~= y@);
    true
}

/// A copy of an optional text.
pub fn clone_opt_text(t: &Option<String>) -> (c: Option<String>)
    ensures
        c.deep_view() == t.deep_view(),
{
    match t {
        Some(s) => Some(s.clone()),
        None => None,
    }
}

/// A copy of a list of texts.
pub fn clone_texts(list: &Vec<String>) -> (c: Vec<String>)
    ensures
        c.deep_view() == list.deep_view(),
{
    let mut c: Vec<String> = Vec::new();
    let mut i: usize = 0;
    while i < list.len()
        invariant
            i <= list.len(),
            c.len() == i,
            forall|k: int| 0 <= k < i ==> c@[k]@ == list@[k]@,
        decreases list.len() - i,
    {
        c.push(list[i].clone());
        i += 1;
    }
    assert(c.deep_view() =~= list.deep_view());
    c
}

/// The name by which an item is compared with others.
pub fn clean_url_for_sorting(name: &str) -> (key: String)
    ensures
        key@ == sort_name(name@),
{
    let chars = chars_of(name);
    let secure = chars_of("https://");
    let plain = chars_of("http://");
    let www = chars_of("www.");
    let host = if matches_at(chars.as_slice(), 0, secure.as_slice()) {
        strip_prefix(chars.as_slice(), secure.as_slice())
    } else {
        strip_prefix(chars.as_slice(), plain.as_slice())
    };
    let bare = strip_prefix(host.as_slice(), www.as_slice());
    let stripped = string_of(bare.as_slice());
    stripped.as_str().to_lowercase()
}

impl VaultItem {
    /// A copy of the item.
    pub fn duplicate(&self) -> (c: VaultItem)
        ensures
            c@ == self@,
    {
        VaultItem {
            id: self.id.clone(),
            parent_id: clone_opt_text(&self.parent_id),
            name: self.name.clone(),
            data_path: self.data_path.clone(),
            item_type: self.item_type.clone(),
            folder_type: clone_opt_text(&self.folder_type),
            tags: clone_texts(&self.tags),
            created_at: self.created_at,
            updated_at: self.updated_at,
            deleted_at: self.deleted_at,
            totp_secret: clone_opt_text(&self.totp_secret),
        }
    }

    /// Whether the item is a folder.
    pub fn is_folder(&self) -> (b: bool)
        ensures
            b == self@.is_folder(),
    {
        same_text(self.item_type.as_str(), "folder")
    }

    /// Whether the item passes the type filter.
    pub fn matches_type(&self, filter: &str) -> (b: bool)
        ensures
            b == type_matches(self@, filter@),
    {
        if self.is_folder() {
            match &self.folder_type {
                Some(t) => same_text(t.as_str(), filter),
                None => false,
            }
        } else {
            starts_with(self.item_type.as_str(), filter)
        }
    }

    /// Whether the item must stand before `other` in a listing.
    pub fn goes_before(&self, other: &VaultItem, order: SortOrder) -> (b: bool)
        ensures
            b == listed_before(self@, other@, order),
    {
        let mine: bool = self.is_folder();
        let theirs: bool = other.is_folder();
        if mine != theirs {
            return mine;
        }
        match order {
            SortOrder::CreatedAtDesc => other.created_at.is_before(&self.created_at),
            SortOrder::CreatedAtAsc => self.created_at.is_before(&other.created_at),
            SortOrder::UpdatedAtDesc => other.updated_at.is_before(&self.updated_at),
            SortOrder::UpdatedAtAsc => self.updated_at.is_before(&other.updated_at),
            SortOrder::NameAsc => {
                let a = chars_of(clean_url_for_sorting(self.name.as_str()).as_str());
                let b = chars_of(clean_url_for_sorting(other.name.as_str()).as_str());
                comes_before(a.as_slice(), b.as_slice())
            },
            SortOrder::NameDesc => {
                let a = chars_of(clean_url_for_sorting(self.name.as_str()).as_str());
                let b = chars_of(clean_url_for_sorting(other.name.as_str()).as_str());
                comes_before(b.as_slice(), a.as_slice())
            },
        }
    }
}

} // verus!
