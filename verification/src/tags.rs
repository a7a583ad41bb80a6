//! Renaming and removing a tag on one item's tag list.

use vstd::prelude::*;
use vstd::string::StringExecFns;
use crate::item::{ItemView, VaultItem};
use crate::text::{chars_of, comes_before, lemma_lex_total, lemma_lex_transitive, lex_less};

verus! {

/// The tags without any occurrence of `tag`.
pub open spec fn without_tag(tags: Seq<Seq<char>>, tag: Seq<char>) -> Seq<Seq<char>> {
    tags.filter(|t: Seq<char>| t != tag)
}

/// The tags with `old` written as `new`, where `new` is kept only the first
/// time it comes up.
pub open spec fn rename_each(tags: Seq<Seq<char>>, old: Seq<char>, new: Seq<char>) -> Seq<
    Seq<char>,
>
    decreases tags.len(),
{
    if tags.len() == 0 {
        tags
    } else {
        let head = rename_each(tags.drop_last(), old, new);
        let t = if tags.last() == old {
            new
        } else {
            tags.last()
        };
        if t == new && head.contains(new) {
            head
        } else {
            head.push(t)
        }
    }
}

/// The tag list of an item after `old` was renamed to `new`: untouched
/// where `old` is not among the tags, else with `new` in place of `old` and
/// no second `new`.
pub open spec fn renamed_tags(tags: Seq<Seq<char>>, old: Seq<char>, new: Seq<char>) -> Seq<
    Seq<char>,
> {
    if tags.contains(old) {
        rename_each(tags, old, new)
    } else {
        tags
    }
}

/// How often `tag` stands in `tags`.
pub open spec fn occurrences(tags: Seq<Seq<char>>, tag: Seq<char>) -> nat
    decreases tags.len(),
{
    if tags.len() == 0 {
        0
    } else {
        occurrences(tags.drop_last(), tag) + if tags.last() == tag {
            1nat
        } else {
            0nat
        }
    }
}

/// A tag that does not occur is not contained, and the other way round.
pub proof fn lemma_occurrences_contains(tags: Seq<Seq<char>>, tag: Seq<char>)
    ensures
        occurrences(tags, tag) > 0 <==> tags.contains(tag),
    decreases tags.len(),
{
    if tags.len() > 0 {
        lemma_occurrences_contains(tags.drop_last(), tag);
        if tags.contains(tag) {
            let i = choose|i: int| 0 <= i < tags.len() && tags[i] == tag;
            if i < tags.len() - 1 {
                assert(tags.drop_last()[i] == tag);
            }
        }
        if tags.drop_last().contains(tag) {
            let i = choose|i: int| 0 <= i < tags.drop_last().len() && tags.drop_last()[i] == tag;
            assert(tags[i] == tag);
        }
    }
}

/// After `rename_each`, `new` stands at most once, it stands where `old` or
/// `new` stood before, and `old` is gone unless it is `new` itself.
pub proof fn lemma_rename_each(tags: Seq<Seq<char>>, old: Seq<char>, new: Seq<char>)
    ensures
        occurrences(rename_each(tags, old, new), new) <= 1,
        rename_each(tags, old, new).contains(new) <==> (tags.contains(old) || tags.contains(new)),
        old != new ==> !rename_each(tags, old, new).contains(old),
        forall|t: Seq<char>|
            t != old && t != new ==> occurrences(rename_each(tags, old, new), t) == occurrences(
                tags,
                t,
            ),
    decreases tags.len(),
{
    let out = rename_each(tags, old, new);
    if tags.len() > 0 {
        let init = tags.drop_last();
        let head = rename_each(init, old, new);
        lemma_rename_each(init, old, new);
        lemma_occurrences_contains(head, new);
        lemma_occurrences_contains(head, old);
        lemma_occurrences_contains(out, new);
        lemma_occurrences_contains(out, old);
        lemma_occurrences_contains(tags, old);
        lemma_occurrences_contains(tags, new);
        lemma_occurrences_contains(init, old);
        lemma_occurrences_contains(init, new);
        let t = if tags.last() == old {
            new
        } else {
            tags.last()
        };
        if !(t == new && head.contains(new)) {
            assert(out.drop_last() =~= head);
        }
        assert forall|u: Seq<char>| u != old && u != new implies occurrences(out, u)
            == occurrences(tags, u) by {
            assert(occurrences(head, u) == occurrences(init, u));
            if !(t == new && head.contains(new)) {
                assert(out.drop_last() =~= head);
                assert(out.last() == t);
            } else {
                assert(out == head);
            }
        }
    } else {
        lemma_occurrences_contains(tags, old);
        lemma_occurrences_contains(tags, new);
        lemma_occurrences_contains(out, new);
        lemma_occurrences_contains(out, old);
    }
}

/// Renaming a tag that an item carries leaves the new name exactly once
/// among its tags, whether or not the item carried the new name before.
pub proof fn lemma_rename_leaves_one(tags: Seq<Seq<char>>, old: Seq<char>, new: Seq<char>)
    requires
        tags.contains(old),
    ensures
        occurrences(renamed_tags(tags, old, new), new) == 1,
        old != new ==> !renamed_tags(tags, old, new).contains(old),
{
    lemma_rename_each(tags, old, new);
    lemma_occurrences_contains(rename_each(tags, old, new), new);
}

/// Whether `tag` is among `tags`.
pub fn has_tag(tags: &Vec<String>, tag: &String) -> (b: bool)
    ensures
        b == tags.deep_view().contains(tag@),
{
    let mut i: usize = 0;
    while i < tags.len()
        invariant
            i <= tags.len(),
            forall|k: int| 0 <= k < i ==> tags.deep_view()[k] != tag@,
        decreases tags.len() - i,
    {
        if tags[i] == *tag {
            assert(tags.deep_view()[i as int] == tag@);
            return true;
        }
        i += 1;
    }
    false
}

/// Whether the two lists hold the same tags in the same order.
pub fn same_tags(a: &Vec<String>, b: &Vec<String>) -> (eq: bool)
    ensures
        eq == (a.deep_view() == b.deep_view()),
{
    if a.len() != b.len() {
        assert(a.deep_view().len() != b.deep_view().len());
        return false;
    }
    let mut i: usize = 0;
    while i < a.len()
        invariant
            i <= a.len(),
            a.len() == b.len(),
            forall|k: int| 0 <= k < i ==> a.deep_view()[k] == b.deep_view()[k],
        decreases a.len() - i,
    {
        if !(a[i] == b[i]) {
            assert(a.deep_view()[i as int] != b.deep_view()[i as int]);
            return false;
        }
        i += 1;
    }
    assert(a.deep_view() =~= b.deep_view());
    true
}

/// The tag list after renaming `old` to `new`, if that changes the list.
pub fn rename_tag(tags: &Vec<String>, old: &str, new: &str) -> (r: Option<Vec<String>>)
    ensures
        match r {
            Some(out) => out.deep_view() == renamed_tags(tags.deep_view(), old@, new@)
                && out.deep_view() != tags.deep_view(),
            None => renamed_tags(tags.deep_view(), old@, new@) == tags.deep_view(),
        },
{
    let old_tag = String::from_str(old);
    let new_tag = String::from_str(new);
    if !has_tag(tags, &old_tag) {
        return None;
    }
    let ghost tv = tags.deep_view();
    let mut out: Vec<String> = Vec::new();
    let mut i: usize = 0;
    assert(tv.take(0) =~= Seq::<Seq<char>>::empty());
    while i < tags.len()
        invariant
            i <= tags.len(),
            tv == tags.deep_view(),
            old_tag@ == old@,
            new_tag@ == new@,
            out.deep_view() == rename_each(tv.take(i as int), old@, new@),
        decreases tags.len() - i,
    {
        let ghost head = out.deep_view();
        assert(tv.take(i + 1).drop_last() =~= tv.take(i as int));
        assert(tv.take(i + 1).last() == tags[i as int]@);
        if tags[i] == old_tag {
            if !has_tag(&out, &new_tag) {
                out.push(new_tag.clone());
                assert(out.deep_view() =~= head.push(new@));
            }
        } else if tags[i] == new_tag {
            if !has_tag(&out, &new_tag) {
                out.push(new_tag.clone());
                assert(out.deep_view() =~= head.push(new@));
            }
        } else {
            out.push(tags[i].clone());
            assert(out.deep_view() =~= head.push(tags[i as int]@));
        }
        i += 1;
    }
    assert(tv.take(tags.len() as int) =~= tv);
    if same_tags(&out, tags) {
        None
    } else {
        Some(out)
    }
}

/// The tag list without `tag`, if `tag` was among the tags.
pub fn remove_tag(tags: &Vec<String>, tag: &str) -> (r: Option<Vec<String>>)
    ensures
        match r {
            Some(out) => out.deep_view() == without_tag(tags.deep_view(), tag@)
                && tags.deep_view().contains(tag@),
            None => !tags.deep_view().contains(tag@) && without_tag(tags.deep_view(), tag@)
                == tags.deep_view(),
        },
{
    let gone = String::from_str(tag);
    let ghost tv = tags.deep_view();
    let ghost keep = |t: Seq<char>| t != tag@;
    let mut out: Vec<String> = Vec::new();
    let mut i: usize = 0;
    proof {
        reveal(Seq::filter);
        assert(tv.take(0).filter(keep) =~= out.deep_view());
    }
    while i < tags.len()
        invariant
            i <= tags.len(),
            tv == tags.deep_view(),
            gone@ == tag@,
            keep == (|t: Seq<char>| t != tag@),
            out.deep_view() == tv.take(i as int).filter(keep),
            out.len() <= i,
            out.len() == i <==> !tv.take(i as int).contains(tag@),
            out.len() == i ==> out.deep_view() == tv.take(i as int),
        decreases tags.len() - i,
    {
        let ghost head = out.deep_view();
        let ghost before = tv.take(i as int);
        proof {
            before.lemma_filter_push(tv[i as int], keep);
            assert(before.push(tv[i as int]) =~= tv.take(i + 1));
            if before.contains(tag@) {
                let at = choose|at: int| 0 <= at < before.len() && before[at] == tag@;
                assert(tv.take(i + 1)[at] == tag@);
            }
            if tv.take(i + 1).contains(tag@) && tv[i as int] != tag@ {
                let next = tv.take(i + 1);
                let at = choose|at: int| 0 <= at < next.len() && next[at] == tag@;
                assert(before[at] == tag@);
            }
        }
        if !(tags[i] == gone) {
            out.push(tags[i].clone());
            assert(out.deep_view() =~= head.push(tv[i as int]));
        } else {
            assert(tv.take(i + 1)[i as int] == tag@);
        }
        i += 1;
    }
    assert(tv.take(tags.len() as int) =~= tv);
    if out.len() == tags.len() {
        None
    } else {
        Some(out)
    }
}

/// Each tag comes before the next in dictionary order, so none stands twice.
pub open spec fn strictly_sorted(tags: Seq<Seq<char>>) -> bool {
    forall|i: int, j: int| 0 <= i < j < tags.len() ==> lex_less(tags[i], tags[j])
}

/// Some item carries the tag.
pub open spec fn carried_by(items: Seq<ItemView>, tag: Seq<char>) -> bool {
    exists|i: int, k: int|
        0 <= i < items.len() && 0 <= k < items[i].tags.len() && #[trigger] items[i].tags[k] == tag
}

/// Puts `tag` into a sorted list of tags, unless it is in the list already.
pub fn insert_sorted(list: &mut Vec<String>, tag: String)
    requires
        strictly_sorted(old(list).deep_view()),
    ensures
        strictly_sorted(final(list).deep_view()),
        forall|t: Seq<char>|
            final(list).deep_view().contains(t) <==> (old(list).deep_view().contains(t) || t
                == tag@),
{
    let ghost before = list.deep_view();
    let wanted = chars_of(tag.as_str());
    let mut p: usize = 0;
    let mut found: bool = false;
    while p < list.len()
        invariant_except_break
            !found,
        invariant
            p <= list.len(),
            before == list.deep_view(),
            wanted@ == tag@,
            forall|k: int| 0 <= k < p ==> lex_less(#[trigger] before[k], tag@),
        ensures
            p <= list.len(),
            before == list.deep_view(),
            forall|k: int| 0 <= k < p ==> lex_less(#[trigger] before[k], tag@),
            found ==> p < list.len() && before[p as int] == tag@,
            !found && p < list.len() ==> lex_less(tag@, before[p as int]),
        decreases list.len() - p,
    {
        let here = chars_of(list[p].as_str());
        assert(here@ == before[p as int]);
        if comes_before(here.as_slice(), wanted.as_slice()) {
            p += 1;
        } else {
            if !comes_before(wanted.as_slice(), here.as_slice()) {
                proof {
                    lemma_lex_total(here@, wanted@);
                }
                found = true;
            }
            break;
        }
    }
    if found {
        proof {
            assert forall|t: Seq<char>| before.contains(t) <==> (before.contains(t) || t
                == tag@) by {
                assert(before[p as int] == tag@);
            }
        }
        return;
    }
    list.insert(p, tag);
    proof {
        let after = list.deep_view();
        assert(after =~= before.insert(p as int, tag@));
        assert forall|i: int, j: int| 0 <= i < j < after.len() implies lex_less(
            after[i],
            after[j],
        ) by {
            if i == p {
                if j - 1 > p {
                    lemma_lex_transitive(tag@, before[p as int], before[j - 1]);
                }
            } else if j == p {
            } else {
                let i0 = if i < p { i } else { i - 1 };
                let j0 = if j < p { j } else { j - 1 };
                assert(after[i] == before[i0] && after[j] == before[j0]);
            }
        }
        assert forall|t: Seq<char>| after.contains(t) <==> (before.contains(t) || t == tag@) by {
            if after.contains(t) {
                let at = choose|at: int| 0 <= at < after.len() && after[at] == t;
                if at < p {
                    assert(before[at] == t);
                } else if at > p {
                    assert(before[at - 1] == t);
                }
            }
            if before.contains(t) {
                let at = choose|at: int| 0 <= at < before.len() && before[at] == t;
                if at < p {
                    assert(after[at] == t);
                } else {
                    assert(after[at + 1] == t);
                }
            }
            if t == tag@ {
                assert(after[p as int] == t);
            }
        }
    }
}

/// The tags that the items carry, each once, in dictionary order.
pub fn collect_tags(items: &Vec<VaultItem>) -> (out: Vec<String>)
    ensures
        strictly_sorted(out.deep_view()),
        forall|t: Seq<char>| out.deep_view().contains(t) <==> carried_by(items.deep_view(), t),
{
    let ghost iv = items.deep_view();
    let mut out: Vec<String> = Vec::new();
    let mut i: usize = 0;
    while i < items.len()
        invariant
            i <= items.len(),
            iv == items.deep_view(),
            strictly_sorted(out.deep_view()),
            forall|t: Seq<char>|
                out.deep_view().contains(t) <==> exists|a: int, k: int|
                    0 <= a < i && 0 <= k < iv[a].tags.len() && #[trigger] iv[a].tags[k] == t,
        decreases items.len() - i,
    {
        let tags = &items[i].tags;
        assert(tags.deep_view() == iv[i as int].tags);
        let mut k: usize = 0;
        while k < tags.len()
            invariant
                k <= tags.len(),
                i < items.len(),
                iv == items.deep_view(),
                tags.deep_view() == iv[i as int].tags,
                strictly_sorted(out.deep_view()),
                forall|t: Seq<char>|
                    out.deep_view().contains(t) <==> ((exists|a: int, b: int|
                        0 <= a < i && 0 <= b < iv[a].tags.len() && #[trigger] iv[a].tags[b] == t)
                        || (exists|b: int| 0 <= b < k && #[trigger] iv[i as int].tags[b] == t)),
            decreases tags.len() - k,
        {
            let ghost had = out.deep_view();
            insert_sorted(&mut out, tags[k].clone());
            proof {
                let now = out.deep_view();
                let added = iv[i as int].tags[k as int];
                assert(tags[k as int]@ == added);
                assert forall|t: Seq<char>|
                    now.contains(t) <==> ((exists|a: int, b: int|
                        0 <= a < i && 0 <= b < iv[a].tags.len() && #[trigger] iv[a].tags[b] == t)
                        || (exists|b: int| 0 <= b < k + 1 && #[trigger] iv[i as int].tags[b] == t)) by {
                    if now.contains(t) {
                        if had.contains(t) {
                        } else {
                            assert(t == added);
                        }
                    }
                    if exists|b: int| 0 <= b < k + 1 && #[trigger] iv[i as int].tags[b] == t {
                        let b = choose|b: int| 0 <= b < k + 1 && #[trigger] iv[i as int].tags[b] == t;
                        if b < k {
                            assert(had.contains(t));
                        }
                    }
                }
            }
            k += 1;
        }
        i += 1;
    }
    out
}

} // verus!
