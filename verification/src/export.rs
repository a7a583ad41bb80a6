//! The decrypted export of a vault as comma-separated values, plain text or
//! Markdown.

use vstd::prelude::*;
use vstd::string::{StrSliceExecFns, StringExecFns};
use crate::crypto::{open_under, Crypto};
use crate::error::{invalid_input, Error};
use crate::item::{same_text, ItemView, SortOrder, VaultItem};
use crate::listing::{is_listing_of, lemma_listed_all, lemma_listing_members};
use crate::reseal::payloads_present;
use crate::row::{all_readable, items_of, read_refused, row_item};
use crate::storage::{has_file, Storage, StorageView};
use crate::text::{chars_of, join, joined, push_chars, push_str, replace_all, replaced, string_of};
use crate::vault::{check_master_key, key_fault, key_for, opens_vault, VaultState};

verus! {

/// The passphrase and the format of an export.
pub struct ExportVaultArgs {
    pub master_key: String,
    pub format: String,
}

/// The formats of an export.
#[derive(Clone, Copy, Debug, PartialEq, Eq, Structural)]
pub enum ExportFormat {
    Json,
    Csv,
    Txt,
    Md,
}

/// One item of an export with its content, where it has one.
#[derive(Debug)]
pub struct ExportEntry {
    pub item: VaultItem,
    pub content: Option<Vec<u8>>,
}

/// The mathematical content of an `ExportEntry`.
pub struct EntryView {
    pub item: ItemView,
    pub content: Option<Seq<u8>>,
}

impl DeepView for ExportEntry {
    type V = EntryView;

    open spec fn deep_view(&self) -> EntryView {
        EntryView {
            item: self.item@,
            content: match self.content {
                Some(c) => Some(c@),
                None => None,
            },
        }
    }
}

impl View for ExportEntry {
    type V = EntryView;

    open spec fn view(&self) -> EntryView {
        self.deep_view()
    }
}

/// What `String::from_utf8_lossy` makes of a byte string: its text, with
/// what is no UTF-8 replaced.
pub uninterp spec fn lossy_text(bytes: Seq<u8>) -> Seq<char>;

/// Calls `String::from_utf8_lossy` and takes the text as a `String`. The
/// text is named, not described.
#[verifier::external_body]
fn lossy(bytes: &[u8]) -> (text: String)
    ensures
        text@ == lossy_text(bytes@),
{
    String::from_utf8_lossy(bytes).into_owned()
}

/// The format that a name stands for, if it stands for one.
pub open spec fn format_named(name: Seq<char>) -> Option<ExportFormat> {
    if name == "json"@ {
        Some(ExportFormat::Json)
    } else if name == "csv"@ {
        Some(ExportFormat::Csv)
    } else if name == "txt"@ {
        Some(ExportFormat::Txt)
    } else if name == "md"@ {
        Some(ExportFormat::Md)
    } else {
        None
    }
}

/// The format that a name stands for; `InvalidInput` for every name but
/// `json`, `csv`, `txt` and `md`.
pub fn export_format(name: &str) -> (r: Result<ExportFormat, Error>)
    ensures
        match r {
            Ok(format) => format_named(name@) == Some(format),
            Err(e) => {
                &&& format_named(name@) is None
                &&& e matches Error::InvalidInput(text) && text@ == "Unsupported export format"@
            },
        },
{
    if same_text(name, "json") {
        Ok(ExportFormat::Json)
    } else if same_text(name, "csv") {
        Ok(ExportFormat::Csv)
    } else if same_text(name, "txt") {
        Ok(ExportFormat::Txt)
    } else if same_text(name, "md") {
        Ok(ExportFormat::Md)
    } else {
        Err(invalid_input("Unsupported export format"))
    }
}

/// The content of an entry as text; the empty text where it has none.
pub open spec fn content_text(e: EntryView) -> Seq<char> {
    match e.content {
        Some(c) => lossy_text(c),
        None => Seq::empty(),
    }
}

/// A field between double quotes, with every double quote in it doubled.
pub open spec fn csv_quoted(field: Seq<char>) -> Seq<char> {
    "\""@ + replaced(field, "\""@, "\"\""@) + "\""@
}

/// The line of one entry: name, type, content, the tags joined by `;`, and
/// the instants of creation and update.
pub open spec fn csv_line(e: EntryView) -> Seq<char> {
    csv_quoted(e.item.name) + ","@ + csv_quoted(e.item.item_type) + ","@ + csv_quoted(
        content_text(e),
    ) + ","@ + csv_quoted(joined(e.item.tags, ";"@)) + ",\""@ + e.item.created_at.shown()
        + "\",\""@ + e.item.updated_at.shown() + "\"\n"@
}

/// The block of one entry in a plain-text export.
pub open spec fn txt_block(e: EntryView) -> Seq<char> {
    "=== "@ + e.item.name + " ===\nType: "@ + e.item.item_type + "\n"@ + (if e.item.tags.len()
        > 0 {
        "Tags: "@ + joined(e.item.tags, ", "@) + "\n"@
    } else {
        Seq::empty()
    }) + "Created: "@ + e.item.created_at.shown() + "\nUpdated: "@ + e.item.updated_at.shown()
        + "\n"@ + (match e.content {
        Some(c) => "\nContent:\n"@ + lossy_text(c),
        None => Seq::empty(),
    }) + "\n\n"@
}

/// The tags of a Markdown export: each in backticks, a comma between two.
pub open spec fn md_tags(tags: Seq<Seq<char>>) -> Seq<char>
    decreases tags.len(),
{
    if tags.len() == 0 {
        Seq::empty()
    } else if tags.len() == 1 {
        "`"@ + tags[0] + "`"@
    } else {
        md_tags(tags.drop_last()) + ", "@ + "`"@ + tags.last() + "`"@
    }
}

/// The block of one entry in a Markdown export.
pub open spec fn md_block(e: EntryView) -> Seq<char> {
    "## "@ + e.item.name + "\n\n**Type:** "@ + e.item.item_type + "\n\n"@ + (if e.item.tags.len()
        > 0 {
        "**Tags:** "@ + md_tags(e.item.tags) + "\n\n"@
    } else {
        Seq::empty()
    }) + "**Created:** "@ + e.item.created_at.shown() + "\n\n**Updated:** "@
        + e.item.updated_at.shown() + "\n\n"@ + (match e.content {
        Some(c) => "### Content\n\n```\n"@ + lossy_text(c) + "\n```\n\n"@,
        None => Seq::empty(),
    }) + "---\n\n"@
}

/// The blocks of the entries, one after the other.
pub open spec fn blocks(entries: Seq<EntryView>, block: spec_fn(EntryView) -> Seq<char>) -> Seq<
    char,
>
    decreases entries.len(),
{
    if entries.len() == 0 {
        Seq::empty()
    } else {
        blocks(entries.drop_last(), block) + block(entries.last())
    }
}

/// The export as comma-separated values: a header line, then one line for
/// each entry.
pub open spec fn csv_export(entries: Seq<EntryView>) -> Seq<char> {
    "Name,Type,Content,Tags,Created At,Updated At\n"@ + blocks(entries, |e: EntryView| csv_line(e))
}

/// The export as plain text.
pub open spec fn txt_export(entries: Seq<EntryView>) -> Seq<char> {
    blocks(entries, |e: EntryView| txt_block(e))
}

/// The export as Markdown: a title, then one block for each entry.
pub open spec fn md_export(entries: Seq<EntryView>) -> Seq<char> {
    "# Vault Export\n\n"@ + blocks(entries, |e: EntryView| md_block(e))
}

/// The instants of every entry are instants the vault can store.
pub open spec fn entries_wf(entries: Seq<EntryView>) -> bool {
    forall|i: int| 0 <= i < entries.len() ==> (#[trigger] entries[i]).item.wf()
}

/// Appends a field between double quotes, with its double quotes doubled.
fn push_csv_quoted(out: &mut Vec<char>, field: &[char])
    ensures
        final(out)@ == old(out)@ + csv_quoted(field@),
{
    let quote = chars_of("\"");
    let doubled = chars_of("\"\"");
    proof {
        reveal_strlit("\"");
    }
    let escaped = replace_all(field, quote.as_slice(), doubled.as_slice());
    push_chars(out, quote.as_slice());
    push_chars(out, escaped.as_slice());
    push_chars(out, quote.as_slice());
    assert(final(out)@ =~= old(out)@ + csv_quoted(field@));
}

/// The content of an entry as text.
fn entry_text(e: &ExportEntry) -> (text: Vec<char>)
    ensures
        text@ == content_text(e@),
{
    match &e.content {
        Some(c) => chars_of(lossy(c.as_slice()).as_str()),
        None => Vec::new(),
    }
}

/// Appends the line of one entry.
fn push_csv_line(out: &mut Vec<char>, e: &ExportEntry)
    requires
        e@.item.wf(),
    ensures
        final(out)@ == old(out)@ + csv_line(e@),
{
    let name = chars_of(e.item.name.as_str());
    let kind = chars_of(e.item.item_type.as_str());
    let content = entry_text(e);
    let tags = join(&e.item.tags, ";");
    push_csv_quoted(out, name.as_slice());
    push_str(out, ",");
    push_csv_quoted(out, kind.as_slice());
    push_str(out, ",");
    push_csv_quoted(out, content.as_slice());
    push_str(out, ",");
    push_csv_quoted(out, tags.as_slice());
    push_str(out, ",\"");
    push_str(out, e.item.created_at.display().as_str());
    push_str(out, "\",\"");
    push_str(out, e.item.updated_at.display().as_str());
    push_str(out, "\"\n");
    assert(final(out)@ =~= old(out)@ + csv_line(e@));
}

/// Appends the block of one entry of a plain-text export.
fn push_txt_block(out: &mut Vec<char>, e: &ExportEntry)
    requires
        e@.item.wf(),
    ensures
        final(out)@ == old(out)@ + txt_block(e@),
{
    push_str(out, "=== ");
    push_str(out, e.item.name.as_str());
    push_str(out, " ===\nType: ");
    push_str(out, e.item.item_type.as_str());
    push_str(out, "\n");
    if e.item.tags.len() > 0 {
        let tags = join(&e.item.tags, ", ");
        push_str(out, "Tags: ");
        push_chars(out, tags.as_slice());
        push_str(out, "\n");
    }
    push_str(out, "Created: ");
    push_str(out, e.item.created_at.display().as_str());
    push_str(out, "\nUpdated: ");
    push_str(out, e.item.updated_at.display().as_str());
    push_str(out, "\n");
    match &e.content {
        Some(c) => {
            push_str(out, "\nContent:\n");
            push_str(out, lossy(c.as_slice()).as_str());
        },
        None => {},
    }
    push_str(out, "\n\n");
    assert(final(out)@ =~= old(out)@ + txt_block(e@));
}

/// Appends the tags of a Markdown export.
fn push_md_tags(out: &mut Vec<char>, tags: &Vec<String>)
    ensures
        final(out)@ == old(out)@ + md_tags(tags.deep_view()),
{
    let ghost tv = tags.deep_view();
    let ghost before = out@;
    let mut i: usize = 0;
    assert(tv.take(0) =~= Seq::<Seq<char>>::empty());
    assert(out@ =~= before + md_tags(tv.take(0)));
    while i < tags.len()
        invariant
            i <= tags.len(),
            tv == tags.deep_view(),
            out@ == before + md_tags(tv.take(i as int)),
        decreases tags.len() - i,
    {
        let ghost had = out@;
        if i > 0 {
            push_str(out, ", ");
        }
        push_str(out, "`");
        push_str(out, tags[i].as_str());
        push_str(out, "`");
        proof {
            let next = tv.take(i + 1);
            assert(next.drop_last() =~= tv.take(i as int));
            assert(next.last() == tags[i as int]@);
            if i == 0 {
                assert(md_tags(tv.take(0)) =~= Seq::<char>::empty());
                assert(out@ =~= before + ("`"@ + next[0] + "`"@));
            } else {
                assert(out@ =~= before + (md_tags(tv.take(i as int)) + ", "@ + "`"@ + next.last()
                    + "`"@));
            }
        }
        i += 1;
    }
    assert(tv.take(tags.len() as int) =~= tv);
}

/// Appends the block of one entry of a Markdown export.
fn push_md_block(out: &mut Vec<char>, e: &ExportEntry)
    requires
        e@.item.wf(),
    ensures
        final(out)@ == old(out)@ + md_block(e@),
{
    push_str(out, "## ");
    push_str(out, e.item.name.as_str());
    push_str(out, "\n\n**Type:** ");
    push_str(out, e.item.item_type.as_str());
    push_str(out, "\n\n");
    if e.item.tags.len() > 0 {
        push_str(out, "**Tags:** ");
        push_md_tags(out, &e.item.tags);
        push_str(out, "\n\n");
    }
    push_str(out, "**Created:** ");
    push_str(out, e.item.created_at.display().as_str());
    push_str(out, "\n\n**Updated:** ");
    push_str(out, e.item.updated_at.display().as_str());
    push_str(out, "\n\n");
    match &e.content {
        Some(c) => {
            push_str(out, "### Content\n\n```\n");
            push_str(out, lossy(c.as_slice()).as_str());
            push_str(out, "\n```\n\n");
        },
        None => {},
    }
    push_str(out, "---\n\n");
    assert(final(out)@ =~= old(out)@ + md_block(e@));
}

/// The export as comma-separated values.
pub fn render_csv(entries: &Vec<ExportEntry>) -> (text: String)
    requires
        entries_wf(entries.deep_view()),
    ensures
        text@ == csv_export(entries.deep_view()),
{
    let ghost ev = entries.deep_view();
    let ghost line = |e: EntryView| csv_line(e);
    let mut out = chars_of("Name,Type,Content,Tags,Created At,Updated At\n");
    let ghost head = out@;
    let mut i: usize = 0;
    assert(ev.take(0) =~= Seq::<EntryView>::empty());
    assert(out@ =~= head + blocks(ev.take(0), line));
    while i < entries.len()
        invariant
            i <= entries.len(),
            ev == entries.deep_view(),
            entries_wf(ev),
            line == (|e: EntryView| csv_line(e)),
            out@ == head + blocks(ev.take(i as int), line),
        decreases entries.len() - i,
    {
        assert(entries[i as int]@ == ev[i as int]);
        push_csv_line(&mut out, &entries[i]);
        proof {
            let next = ev.take(i + 1);
            assert(next.drop_last() =~= ev.take(i as int));
            assert(out@ =~= head + (blocks(next.drop_last(), line) + line(next.last())));
        }
        i += 1;
    }
    assert(ev.take(entries.len() as int) =~= ev);
    string_of(out.as_slice())
}

/// The export as plain text.
pub fn render_txt(entries: &Vec<ExportEntry>) -> (text: String)
    requires
        entries_wf(entries.deep_view()),
    ensures
        text@ == txt_export(entries.deep_view()),
{
    let ghost ev = entries.deep_view();
    let ghost block = |e: EntryView| txt_block(e);
    let mut out: Vec<char> = Vec::new();
    let mut i: usize = 0;
    assert(ev.take(0) =~= Seq::<EntryView>::empty());
    assert(out@ =~= blocks(ev.take(0), block));
    while i < entries.len()
        invariant
            i <= entries.len(),
            ev == entries.deep_view(),
            entries_wf(ev),
            block == (|e: EntryView| txt_block(e)),
            out@ == blocks(ev.take(i as int), block),
        decreases entries.len() - i,
    {
        assert(entries[i as int]@ == ev[i as int]);
        push_txt_block(&mut out, &entries[i]);
        proof {
            let next = ev.take(i + 1);
            assert(next.drop_last() =~= ev.take(i as int));
            assert(out@ =~= blocks(next.drop_last(), block) + block(next.last()));
        }
        i += 1;
    }
    assert(ev.take(entries.len() as int) =~= ev);
    string_of(out.as_slice())
}

/// The export as Markdown.
pub fn render_md(entries: &Vec<ExportEntry>) -> (text: String)
    requires
        entries_wf(entries.deep_view()),
    ensures
        text@ == md_export(entries.deep_view()),
{
    let ghost ev = entries.deep_view();
    let ghost block = |e: EntryView| md_block(e);
    let mut out = chars_of("# Vault Export\n\n");
    let ghost head = out@;
    let mut i: usize = 0;
    assert(ev.take(0) =~= Seq::<EntryView>::empty());
    assert(out@ =~= head + blocks(ev.take(0), block));
    while i < entries.len()
        invariant
            i <= entries.len(),
            ev == entries.deep_view(),
            entries_wf(ev),
            block == (|e: EntryView| md_block(e)),
            out@ == head + blocks(ev.take(i as int), block),
        decreases entries.len() - i,
    {
        assert(entries[i as int]@ == ev[i as int]);
        push_md_block(&mut out, &entries[i]);
        proof {
            let next = ev.take(i + 1);
            assert(next.drop_last() =~= ev.take(i as int));
            assert(out@ =~= head + (blocks(next.drop_last(), block) + block(next.last())));
        }
        i += 1;
    }
    assert(ev.take(entries.len() as int) =~= ev);
    string_of(out.as_slice())
}

/// What an export gives: the text of the export, or, for the JSON format,
/// the entries to be serialized.
#[derive(Debug)]
pub enum Export {
    Entries(Vec<ExportEntry>),
    Text(String),
}

/// The entry of an item: the item, and what its payload opens to where it
/// names one.
pub open spec fn entry_for(v: StorageView, key: Seq<u8>, item: ItemView) -> EntryView {
    EntryView {
        item,
        content: if item.data_path.len() > 0 {
            open_under(key, v.payload(item.data_path))
        } else {
            None
        },
    }
}

/// The entries of the items, item by item.
pub open spec fn entries_for(v: StorageView, key: Seq<u8>, items: Seq<ItemView>) -> Seq<EntryView> {
    items.map_values(|item: ItemView| entry_for(v, key, item))
}

/// Every item that names a payload has one.
pub open spec fn contents_present(v: StorageView, items: Seq<ItemView>) -> bool {
    forall|i: int|
        0 <= i < items.len() && (#[trigger] items[i]).data_path.len() > 0 ==> has_file(
            v.files,
            items[i].data_path,
        )
}

/// The payload of every item that names one opens under the key.
pub open spec fn contents_open(v: StorageView, key: Seq<u8>, items: Seq<ItemView>) -> bool {
    forall|i: int|
        0 <= i < items.len() && (#[trigger] items[i]).data_path.len() > 0 ==> open_under(
            key,
            v.payload(items[i].data_path),
        ) is Some
}

/// The payload that a row names opens under the key, for every row that
/// names one.
pub open spec fn payloads_open(v: StorageView, key: Seq<u8>) -> bool {
    forall|i: int|
        0 <= i < v.rows.len() && row_item(Some(key), #[trigger] v.rows[i]).data_path.len() > 0
            ==> open_under(key, v.payload(row_item(Some(key), v.rows[i]).data_path)) is Some
}

/// `out` is the export of the entries in the format.
pub open spec fn export_of(format: ExportFormat, entries: Seq<EntryView>, out: Export) -> bool {
    match format {
        ExportFormat::Json => out matches Export::Entries(list) && list.deep_view() == entries,
        ExportFormat::Csv => out matches Export::Text(text) && text@ == csv_export(entries),
        ExportFormat::Txt => out matches Export::Text(text) && text@ == txt_export(entries),
        ExportFormat::Md => out matches Export::Text(text) && text@ == md_export(entries),
    }
}

/// The items with their contents. The payloads are looked for first and
/// opened then.
///
/// Fails with `NotUnlocked` where the engine is locked, else with `Storage`
/// where an item names a payload that is not there, else with
/// `DecryptionFailed` where a payload does not open.
pub fn gather_entries(storage: &Storage, items: Vec<VaultItem>, crypto: &Crypto) -> (r: Result<
    Vec<ExportEntry>,
    Error,
>)
    requires
        storage.wf(),
        crypto.wf(),
        forall|i: int| 0 <= i < items.len() ==> (#[trigger] items[i])@.wf(),
    ensures
        match r {
            Ok(entries) => {
                &&& crypto.unlocked()
                &&& contents_present(storage@, items.deep_view())
                &&& contents_open(storage@, crypto.key().unwrap(), items.deep_view())
                &&& entries.deep_view() == entries_for(
                    storage@,
                    crypto.key().unwrap(),
                    items.deep_view(),
                )
                &&& entries_wf(entries.deep_view())
            },
            Err(e) => if !crypto.unlocked() {
                e is NotUnlocked
            } else if !contents_present(storage@, items.deep_view()) {
                e is Storage
            } else {
                e is DecryptionFailed && !contents_open(
                    storage@,
                    crypto.key().unwrap(),
                    items.deep_view(),
                )
            },
        },
{
    if !crypto.is_unlocked() {
        return Err(Error::NotUnlocked);
    }
    let ghost v = storage@;
    let ghost key = crypto.key().unwrap();
    let ghost iv = items.deep_view();
    let ghost given = items@;
    let mut k: usize = 0;
    while k < items.len()
        invariant
            k <= items.len(),
            iv == items.deep_view(),
            v == storage@,
            crypto.unlocked(),
            forall|i: int|
                0 <= i < k && (#[trigger] iv[i]).data_path.len() > 0 ==> has_file(
                    v.files,
                    iv[i].data_path,
                ),
        decreases items.len() - k,
    {
        assert(items[k as int]@ == iv[k as int]);
        let path = items[k].data_path.as_str();
        if path.unicode_len() > 0 && !storage.has_payload(path) {
            return Err(Error::Storage(String::from_str("File not found: ").concat(path)));
        }
        k += 1;
    }
    let mut entries: Vec<ExportEntry> = Vec::new();
    assert(entries.deep_view() =~= entries_for(v, key, iv.take(0)));
    for item in it: items
        invariant
            it.seq() == given,
            iv == Seq::new(given.len(), |i: int| given[i].deep_view()),
            v == storage@,
            storage.wf(),
            crypto.wf(),
            crypto.unlocked(),
            key == crypto.key().unwrap(),
            contents_present(v, iv),
            forall|i: int| 0 <= i < given.len() ==> (#[trigger] given[i])@.wf(),
            entries.deep_view() == entries_for(v, key, iv.take(it.index() as int)),
            entries_wf(entries.deep_view()),
            forall|i: int|
                0 <= i < it.index() && (#[trigger] iv[i]).data_path.len() > 0 ==> open_under(
                    key,
                    v.payload(iv[i].data_path),
                ) is Some,
    {
        let ghost idx = it.index() as int;
        let ghost done = entries.deep_view();
        assert(item@ == iv[idx]);
        let content = if item.data_path.as_str().unicode_len() > 0 {
            match storage.read_encrypted_file(item.data_path.as_str(), crypto) {
                Ok(plain) => Some(plain),
                Err(e) => {
                    return Err(e);
                },
            }
        } else {
            None
        };
        let entry = ExportEntry { item, content };
        proof {
            assert(entry@ == entry_for(v, key, iv[idx]));
            assert(entries_for(v, key, iv.take(idx + 1)) =~= entries_for(v, key, iv.take(idx)).push(
                entry@,
            ));
        }
        entries.push(entry);
        assert(entries.deep_view() =~= done.push(entry@));
    }
    assert(iv.take(iv.len() as int) =~= iv);
    Ok(entries)
}

impl VaultState {
    /// Exports the whole vault, decrypted, in the format asked for. The
    /// passphrase is verified first and the key it gives is taken as the
    /// session's key. The items come folders first, then by cleaned name.
    ///
    /// Fails as `check_master_key` fails, leaving the engine as it was. Past
    /// that check the engine holds the key, and the call fails as
    /// `row_to_vault_item` does on the first row that cannot be read, else
    /// with `InvalidInput` where the format is not known, else with
    /// `Storage` where an item names a
    /// payload that is not there, else with `DecryptionFailed` where a
    /// payload does not open. The store is never changed.
    pub fn export_decrypted_vault(&mut self, args: &ExportVaultArgs) -> (r: Result<Export, Error>)
        requires
            old(self).wf(),
        ensures
            final(self).wf(),
            final(self).storage@ == old(self).storage@,
            match r {
                Ok(out) => {
                    let v = old(self).storage@;
                    let key = key_for(v, args.master_key@);
                    &&& opens_vault(v, args.master_key@)
                    &&& final(self).crypto.key() == Some(key)
                    &&& all_readable(Some(key), v.rows)
                    &&& format_named(args.format@) is Some
                    &&& payloads_present(v, Some(key))
                    &&& payloads_open(v, key)
                    &&& exists|list: Seq<ItemView>|
                        {
                            &&& #[trigger] is_listing_of(
                                list,
                                items_of(Some(key), v.rows),
                                SortOrder::NameAsc,
                            )
                            &&& contents_open(v, key, list)
                            &&& export_of(
                                format_named(args.format@).unwrap(),
                                entries_for(v, key, list),
                                out,
                            )
                        }
                },
                Err(e) => {
                    let v = old(self).storage@;
                    let key = key_for(v, args.master_key@);
                    if !v.initialized() {
                        e is Storage && final(self).crypto.key() == old(self).crypto.key()
                    } else if key_fault(v, args.master_key@) {
                        e is KeyDerivation && final(self).crypto.key() == old(self).crypto.key()
                    } else if !opens_vault(v, args.master_key@) {
                        e is InvalidMasterKey && final(self).crypto.key() == old(self).crypto.key()
                    } else {
                        &&& final(self).crypto.key() == Some(key)
                        &&& if !all_readable(Some(key), v.rows) {
                            read_refused(e, Some(key), v.rows)
                        } else if format_named(args.format@) is None {
                            e matches Error::InvalidInput(text) && text@
                                == "Unsupported export format"@
                        } else if !payloads_present(v, Some(key)) {
                            e is Storage
                        } else {
                            e is DecryptionFailed && !payloads_open(v, key)
                        }
                    }
                },
            },
    {
        let key = check_master_key(&self.storage, args.master_key.as_str())?;
        match self.crypto.unlock(key.as_slice()) {
            Ok(_) => {},
            Err(e) => {
                return Err(e);
            },
        }
        let items = self.storage.get_all_items_recursive(&self.crypto)?;
        let format = export_format(args.format.as_str())?;
        let ghost list = items.deep_view();
        let ghost v = self.storage@;
        let ghost fk = self.crypto.key();
        proof {
            lemma_present_either_way(v, fk, list);
            lemma_open_either_way(v, fk.unwrap(), list);
        }
        let entries = gather_entries(&self.storage, items, &self.crypto)?;
        let out = match format {
            ExportFormat::Json => Export::Entries(entries),
            ExportFormat::Csv => Export::Text(render_csv(&entries)),
            ExportFormat::Txt => Export::Text(render_txt(&entries)),
            ExportFormat::Md => Export::Text(render_md(&entries)),
        };
        assert(is_listing_of(list, items_of(fk, v.rows), SortOrder::NameAsc));
        Ok(out)
    }
}

/// The items of a listing name payloads that are there just when the rows
/// do.
proof fn lemma_present_either_way(v: StorageView, key: Option<Seq<u8>>, list: Seq<ItemView>)
    requires
        is_listing_of(list, items_of(key, v.rows), SortOrder::NameAsc),
    ensures
        contents_present(v, list) <==> payloads_present(v, key),
{
    let items = items_of(key, v.rows);
    if payloads_present(v, key) {
        assert forall|i: int|
            0 <= i < list.len() && (#[trigger] list[i]).data_path.len() > 0 implies has_file(
            v.files,
            list[i].data_path,
        ) by {
            lemma_listing_members(list, items, SortOrder::NameAsc, i);
            let k = choose|k: int| 0 <= k < items.len() && items[k] == list[i];
            assert(items[k] == row_item(key, v.rows[k]));
        }
    }
    if contents_present(v, list) {
        assert forall|k: int|
            0 <= k < v.rows.len() && row_item(key, #[trigger] v.rows[k]).data_path.len()
                > 0 implies has_file(v.files, row_item(key, v.rows[k]).data_path) by {
            lemma_listed_all(list, items, SortOrder::NameAsc, k);
            let i = choose|i: int| 0 <= i < list.len() && list[i] == items[k];
            assert(list[i].data_path.len() > 0);
        }
    }
}

/// The payloads that the items of a listing name open just when those that
/// the rows name do.
proof fn lemma_open_either_way(v: StorageView, key: Seq<u8>, list: Seq<ItemView>)
    requires
        is_listing_of(list, items_of(Some(key), v.rows), SortOrder::NameAsc),
    ensures
        contents_open(v, key, list) <==> payloads_open(v, key),
{
    let items = items_of(Some(key), v.rows);
    if payloads_open(v, key) {
        assert forall|i: int|
            0 <= i < list.len() && (#[trigger] list[i]).data_path.len() > 0 implies open_under(
            key,
            v.payload(list[i].data_path),
        ) is Some by {
            lemma_listing_members(list, items, SortOrder::NameAsc, i);
            let k = choose|k: int| 0 <= k < items.len() && items[k] == list[i];
            assert(items[k] == row_item(Some(key), v.rows[k]));
        }
    }
    if contents_open(v, key, list) {
        assert forall|k: int|
            0 <= k < v.rows.len() && row_item(Some(key), #[trigger] v.rows[k]).data_path.len()
                > 0 implies open_under(
            key,
            v.payload(row_item(Some(key), v.rows[k]).data_path),
        ) is Some by {
            lemma_listed_all(list, items, SortOrder::NameAsc, k);
            let i = choose|i: int| 0 <= i < list.len() && list[i] == items[k];
            assert(list[i].data_path.len() > 0);
        }
    }
}

} // verus!
