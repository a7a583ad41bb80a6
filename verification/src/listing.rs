//! Listings: the stable sort that puts folders first, and the type filter.

use vstd::prelude::*;
use crate::item::{listed_before, sort_name, type_matches, ItemView, SortOrder, VaultItem};
use crate::text::{lemma_lex_irreflexive, lemma_lex_total, lemma_lex_transitive};

verus! {

/// No item stands before one that must precede it.
pub open spec fn in_listing_order(s: Seq<ItemView>, order: SortOrder) -> bool {
    forall|i: int, j: int| 0 <= i < j < s.len() ==> !listed_before(s[j], s[i], order)
}

/// The items that the order does not tell from `x`.
pub open spec fn ranks_with(x: ItemView, order: SortOrder) -> spec_fn(ItemView) -> bool {
    |y: ItemView| !listed_before(x, y, order) && !listed_before(y, x, order)
}

/// Items that the order does not tell apart stand in `out` as they stood in `input`.
pub open spec fn keeps_ties(out: Seq<ItemView>, input: Seq<ItemView>, order: SortOrder) -> bool {
    forall|x: ItemView| #[trigger]
        out.filter(ranks_with(x, order)) == input.filter(ranks_with(x, order))
}

/// `out` is `input` sorted stably: the same items, in listing order, ties
/// left as they were. One sequence only is the listing of an input (see
/// `lemma_listing_unique`).
pub open spec fn is_listing_of(out: Seq<ItemView>, input: Seq<ItemView>, order: SortOrder) -> bool {
    &&& in_listing_order(out, order)
    &&& out.to_multiset() == input.to_multiset()
    &&& keeps_ties(out, input, order)
}

/// No item must stand before itself.
pub proof fn lemma_listed_irreflexive(a: ItemView, order: SortOrder)
    ensures
        !listed_before(a, a, order),
{
    lemma_lex_irreflexive(sort_name(a.name));
}

/// "Must stand before" is transitive.
pub proof fn lemma_listed_transitive(a: ItemView, b: ItemView, c: ItemView, order: SortOrder)
    requires
        listed_before(a, b, order),
        listed_before(b, c, order),
    ensures
        listed_before(a, c, order),
{
    if a.is_folder() == b.is_folder() && b.is_folder() == c.is_folder() {
        match order {
            SortOrder::NameAsc => lemma_lex_transitive(
                sort_name(a.name),
                sort_name(b.name),
                sort_name(c.name),
            ),
            SortOrder::NameDesc => lemma_lex_transitive(
                sort_name(c.name),
                sort_name(b.name),
                sort_name(a.name),
            ),
            _ => {},
        }
    }
}

/// If `a` must stand before `c`, any third item is after `a` or before `c`.
pub proof fn lemma_listed_between(a: ItemView, b: ItemView, c: ItemView, order: SortOrder)
    requires
        listed_before(a, c, order),
    ensures
        listed_before(a, b, order) || listed_before(b, c, order),
{
    if a.is_folder() == b.is_folder() && b.is_folder() == c.is_folder() {
        let x = sort_name(a.name);
        let y = sort_name(b.name);
        let z = sort_name(c.name);
        match order {
            SortOrder::NameAsc => {
                lemma_lex_total(x, y);
                if lex_less_or_same(y, x) && y != x {
                    lemma_lex_transitive(y, x, z);
                }
            },
            SortOrder::NameDesc => {
                lemma_lex_total(y, x);
                if lex_less_or_same(x, y) && y != x {
                    lemma_lex_transitive(z, x, y);
                }
            },
            _ => {},
        }
    }
}

/// `a` is before `b` in dictionary order, or the same text.
pub open spec fn lex_less_or_same(a: Seq<char>, b: Seq<char>) -> bool {
    crate::text::lex_less(a, b) || a == b
}

/// In a listing, every folder stands before every item that is no folder.
pub proof fn lemma_folders_first(s: Seq<ItemView>, order: SortOrder, i: int, j: int)
    requires
        in_listing_order(s, order),
        0 <= i < j < s.len(),
        s[j].is_folder(),
    ensures
        s[i].is_folder(),
{
    assert(!listed_before(s[j], s[i], order));
}

/// Putting `x` into a listing behind every item that need not follow it
/// gives a listing again, with `x` as the last of its ties.
proof fn lemma_insert(
    ov: Seq<ItemView>,
    j: int,
    x: ItemView,
    seen: Seq<ItemView>,
    order: SortOrder,
)
    requires
        0 <= j <= ov.len(),
        is_listing_of(ov, seen, order),
        forall|k: int| 0 <= k < j ==> !listed_before(x, #[trigger] ov[k], order),
        j < ov.len() ==> listed_before(x, ov[j], order),
    ensures
        is_listing_of(ov.insert(j, x), seen.push(x), order),
{
    let nv = ov.insert(j, x);
    assert forall|m: int| j <= m < ov.len() implies listed_before(x, #[trigger] ov[m], order) by {
        if m > j {
            lemma_listed_between(x, ov[m], ov[j], order);
        }
    }
    assert forall|a: int, b: int| 0 <= a < b < nv.len() implies !listed_before(
        nv[b],
        nv[a],
        order,
    ) by {
        if a == j {
            assert(nv[b] == ov[b - 1]);
            if listed_before(nv[b], x, order) {
                lemma_listed_transitive(x, ov[b - 1], x, order);
                lemma_listed_irreflexive(x, order);
            }
        } else if b == j {
            assert(nv[a] == ov[a]);
        } else {
            let a0 = if a < j { a } else { a - 1 };
            let b0 = if b < j { b } else { b - 1 };
            assert(nv[a] == ov[a0] && nv[b] == ov[b0]);
        }
    }
    vstd::seq_lib::to_multiset_insert(ov, j, x);
    vstd::seq_lib::to_multiset_build(seen, x);
    assert forall|k: ItemView| #[trigger]
        nv.filter(ranks_with(k, order)) == seen.push(x).filter(ranks_with(k, order)) by {
        let p = ranks_with(k, order);
        let head = ov.take(j);
        let tail = ov.skip(j);
        assert(ov =~= head + tail);
        assert(nv =~= head.push(x) + tail);
        Seq::filter_distributes_over_add(head, tail, p);
        Seq::filter_distributes_over_add(head.push(x), tail, p);
        head.lemma_filter_push(x, p);
        seen.lemma_filter_push(x, p);
        assert(ov.filter(p) == seen.filter(p));
        if p(x) {
            if tail.filter(p).len() > 0 {
                let e = tail.filter(p)[0];
                tail.lemma_filter_pred(p, 0);
                assert(tail.filter(p).contains(e));
                tail.lemma_filter_contains_rev(p, e);
                let m = choose|m: int| 0 <= m < tail.len() && tail[m] == e;
                assert(tail[m] == ov[j + m]);
                lemma_listed_between(x, k, e, order);
            }
            assert(tail.filter(p) =~= Seq::<ItemView>::empty());
            assert(head.filter(p) + tail.filter(p) =~= head.filter(p));
            assert(head.filter(p).push(x) + tail.filter(p) =~= head.filter(p).push(x));
        }
    }
}

/// Every item of a listing is an item of its input.
pub proof fn lemma_listing_members(
    out: Seq<ItemView>,
    input: Seq<ItemView>,
    order: SortOrder,
    i: int,
)
    requires
        is_listing_of(out, input, order),
        0 <= i < out.len(),
    ensures
        input.contains(out[i]),
        out.len() == input.len(),
{
    broadcast use vstd::seq_lib::group_to_multiset_ensures;

    assert(out.contains(out[i]));
    assert(out.to_multiset().count(out[i]) > 0);
    assert(input.to_multiset().count(out[i]) > 0);
    assert(out.len() == out.to_multiset().len());
    assert(input.len() == input.to_multiset().len());
}

/// Every item of the input is an item of its listing.
pub proof fn lemma_listed_all(out: Seq<ItemView>, input: Seq<ItemView>, order: SortOrder, i: int)
    requires
        is_listing_of(out, input, order),
        0 <= i < input.len(),
    ensures
        out.contains(input[i]),
{
    broadcast use vstd::seq_lib::group_to_multiset_ensures;

    assert(input.contains(input[i]));
    assert(input.to_multiset().count(input[i]) > 0);
    assert(out.to_multiset().count(input[i]) > 0);
}

/// Filtering twice gives the same whichever filter comes first.
pub proof fn lemma_filter_commutes<A>(s: Seq<A>, p: spec_fn(A) -> bool, q: spec_fn(A) -> bool)
    ensures
        s.filter(p).filter(q) == s.filter(q).filter(p),
    decreases s.len(),
{
    reveal(Seq::filter);
    if s.len() > 0 {
        let init = s.drop_last();
        let e = s.last();
        lemma_filter_commutes(init, p, q);
        assert(s =~= init.push(e));
        init.lemma_filter_push(e, p);
        init.lemma_filter_push(e, q);
        init.filter(p).lemma_filter_push(e, q);
        init.filter(q).lemma_filter_push(e, p);
    }
}

/// The items that a filter keeps, counted: those of the sequence that pass.
pub proof fn lemma_filter_to_multiset<A>(s: Seq<A>, p: spec_fn(A) -> bool)
    ensures
        s.filter(p).to_multiset() =~= s.to_multiset().filter(p),
    decreases s.len(),
{
    broadcast use vstd::multiset::group_multiset_axioms;

    reveal(Seq::filter);
    if s.len() == 0 {
        assert(s.filter(p) =~= Seq::<A>::empty());
        assert(s.to_multiset() =~= vstd::multiset::Multiset::<A>::empty()) by {
            s.to_multiset_ensures();
        }
        assert(s.filter(p).to_multiset() =~= vstd::multiset::Multiset::<A>::empty()) by {
            s.filter(p).to_multiset_ensures();
        }
    } else {
        let init = s.drop_last();
        let e = s.last();
        lemma_filter_to_multiset(init, p);
        assert(s =~= init.push(e));
        init.lemma_filter_push(e, p);
        vstd::seq_lib::to_multiset_build(init, e);
        vstd::seq_lib::to_multiset_build(init.filter(p), e);
    }
}

/// A part of a listing, taken in order, is in listing order.
pub proof fn lemma_filter_keeps_order(
    s: Seq<ItemView>,
    p: spec_fn(ItemView) -> bool,
    order: SortOrder,
)
    requires
        in_listing_order(s, order),
    ensures
        in_listing_order(s.filter(p), order),
    decreases s.len(),
{
    reveal(Seq::filter);
    if s.len() > 0 {
        let init = s.drop_last();
        let e = s.last();
        assert(in_listing_order(init, order)) by {
            assert forall|i: int, j: int| 0 <= i < j < init.len() implies !listed_before(
                init[j],
                init[i],
                order,
            ) by {
                assert(init[i] == s[i] && init[j] == s[j]);
            }
        }
        lemma_filter_keeps_order(init, p, order);
        assert(s =~= init.push(e));
        init.lemma_filter_push(e, p);
        let kept = init.filter(p);
        if p(e) {
            assert forall|i: int, j: int| 0 <= i < j < kept.push(e).len() implies !listed_before(
                kept.push(e)[j],
                kept.push(e)[i],
                order,
            ) by {
                if j == kept.len() {
                    assert(kept.contains(kept[i]));
                    init.lemma_filter_contains_rev(p, kept[i]);
                    let m = choose|m: int| 0 <= m < init.len() && init[m] == kept[i];
                    assert(s[m] == kept[i]);
                    assert(s[s.len() - 1] == e);
                }
            }
        }
    }
}

/// Filtering a listing gives the listing of the filtered input: to sort and
/// then filter is to filter and then sort.
pub proof fn lemma_filter_keeps_listing(
    s: Seq<ItemView>,
    input: Seq<ItemView>,
    p: spec_fn(ItemView) -> bool,
    order: SortOrder,
)
    requires
        is_listing_of(s, input, order),
    ensures
        is_listing_of(s.filter(p), input.filter(p), order),
{
    lemma_filter_keeps_order(s, p, order);
    lemma_filter_to_multiset(s, p);
    lemma_filter_to_multiset(input, p);
    assert forall|x: ItemView| #[trigger]
        s.filter(p).filter(ranks_with(x, order)) == input.filter(p).filter(
            ranks_with(x, order),
        ) by {
        let q = ranks_with(x, order);
        lemma_filter_commutes(s, p, q);
        lemma_filter_commutes(input, p, q);
        assert(s.filter(q) == input.filter(q));
    }
}

/// Two sequences in listing order that hold the same items of every rank,
/// in the same order within the rank, are the same.
proof fn lemma_sorted_with_same_ties(a: Seq<ItemView>, b: Seq<ItemView>, order: SortOrder)
    requires
        a.len() == b.len(),
        in_listing_order(a, order),
        in_listing_order(b, order),
        forall|x: ItemView| #[trigger]
            a.filter(ranks_with(x, order)) == b.filter(ranks_with(x, order)),
    ensures
        a == b,
    decreases a.len(),
{
    if a.len() == 0 {
        assert(a =~= b);
    } else {
        let x = a.last();
        let y = b.last();
        let a1 = a.drop_last();
        let b1 = b.drop_last();
        let cx = ranks_with(x, order);
        let cy = ranks_with(y, order);
        lemma_listed_irreflexive(x, order);
        lemma_listed_irreflexive(y, order);
        assert(a =~= a1.push(x));
        assert(b =~= b1.push(y));
        a1.lemma_filter_push(x, cx);
        b1.lemma_filter_push(y, cy);
        // x stands in b, so the last of b does not precede it.
        assert(a.filter(cx).last() == x);
        assert(b.filter(cx).contains(x)) by {
            assert(a.filter(cx)[a.filter(cx).len() - 1] == x);
        }
        b.lemma_filter_contains_rev(cx, x);
        let jb = choose|jb: int| 0 <= jb < b.len() && b[jb] == x;
        assert(!listed_before(y, x, order)) by {
            if jb < b.len() - 1 {
                assert(!listed_before(b[b.len() - 1], b[jb], order));
            }
        }
        // y stands in a, so the last of a does not precede it.
        assert(b.filter(cy).last() == y);
        assert(a.filter(cy).contains(y)) by {
            assert(b.filter(cy)[b.filter(cy).len() - 1] == y);
            assert(a.filter(cy) == b.filter(cy));
        }
        a.lemma_filter_contains_rev(cy, y);
        let ja = choose|ja: int| 0 <= ja < a.len() && a[ja] == y;
        assert(!listed_before(x, y, order)) by {
            if ja < a.len() - 1 {
                assert(!listed_before(a[a.len() - 1], a[ja], order));
            }
        }
        // So both are the last of the same rank, hence the same item.
        b1.lemma_filter_push(y, cx);
        assert(b.filter(cx).last() == y);
        assert(x == y);
        assert forall|k: ItemView| #[trigger]
            a1.filter(ranks_with(k, order)) == b1.filter(ranks_with(k, order)) by {
            let ck = ranks_with(k, order);
            a1.lemma_filter_push(x, ck);
            b1.lemma_filter_push(x, ck);
            assert(a.filter(ck) == b.filter(ck));
            if ck(x) {
                assert(a1.filter(ck) =~= a1.filter(ck).push(x).drop_last());
                assert(b1.filter(ck) =~= b1.filter(ck).push(x).drop_last());
            }
        }
        assert forall|i: int, j: int| 0 <= i < j < a1.len() implies !listed_before(
            a1[j],
            a1[i],
            order,
        ) by {
            assert(a1[i] == a[i] && a1[j] == a[j]);
        }
        assert forall|i: int, j: int| 0 <= i < j < b1.len() implies !listed_before(
            b1[j],
            b1[i],
            order,
        ) by {
            assert(b1[i] == b[i] && b1[j] == b[j]);
        }
        lemma_sorted_with_same_ties(a1, b1, order);
    }
}

/// An input has one listing only: what `is_listing_of` says of a sequence
/// determines the sequence.
pub proof fn lemma_listing_unique(
    a: Seq<ItemView>,
    b: Seq<ItemView>,
    input: Seq<ItemView>,
    order: SortOrder,
)
    requires
        is_listing_of(a, input, order),
        is_listing_of(b, input, order),
    ensures
        a == b,
{
    broadcast use vstd::seq_lib::group_to_multiset_ensures;

    assert(a.len() == a.to_multiset().len());
    assert(b.len() == b.to_multiset().len());
    assert forall|x: ItemView| #[trigger]
        a.filter(ranks_with(x, order)) == b.filter(ranks_with(x, order)) by {
        assert(a.filter(ranks_with(x, order)) == input.filter(ranks_with(x, order)));
    }
    lemma_sorted_with_same_ties(a, b, order);
}

/// The items in listing order: folders first, then by `order`, with ties
/// left in the order in which they came.
pub fn sort_items(items: Vec<VaultItem>, order: SortOrder) -> (out: Vec<VaultItem>)
    ensures
        is_listing_of(out.deep_view(), items.deep_view(), order),
{
    let ghost input = items.deep_view();
    let ghost given = items@;
    let mut out: Vec<VaultItem> = Vec::new();
    assert(input.take(0) =~= out.deep_view());
    assert(out.deep_view().filter(ranks_with(arbitrary(), order)) == input.take(0).filter(
        ranks_with(arbitrary(), order),
    ));
    for item in it: items
        invariant
            it.seq() == given,
            input == Seq::new(given.len(), |i: int| given[i].deep_view()),
            is_listing_of(out.deep_view(), input.take(it.index() as int), order),
    {
        let ghost ov = out.deep_view();
        let ghost x = item@;
        let ghost idx = it.index() as int;
        let mut j: usize = 0;
        while j < out.len() && !item.goes_before(&out[j], order)
            invariant
                j <= out.len(),
                ov == out.deep_view(),
                x == item@,
                forall|k: int| 0 <= k < j ==> !listed_before(x, #[trigger] ov[k], order),
            decreases out.len() - j,
        {
            j += 1;
        }
        proof {
            lemma_insert(ov, j as int, x, input.take(idx), order);
            assert(input.take(idx).push(x) =~= input.take(idx + 1));
        }
        out.insert(j, item);
        assert(out.deep_view() =~= ov.insert(j as int, x));
    }
    assert(input.take(input.len() as int) =~= input);
    out
}

/// The items that pass a type filter.
pub open spec fn passes_type(filter: Seq<char>) -> spec_fn(ItemView) -> bool {
    |v: ItemView| type_matches(v, filter)
}

/// The items that pass the type filter, in the order in which they came.
pub fn filter_by_type(items: Vec<VaultItem>, filter: &str) -> (out: Vec<VaultItem>)
    ensures
        out.deep_view() == items.deep_view().filter(passes_type(filter@)),
{
    let ghost input = items.deep_view();
    let ghost given = items@;
    let ghost p = passes_type(filter@);
    let mut out: Vec<VaultItem> = Vec::new();
    proof {
        reveal(Seq::filter);
        assert(input.take(0).filter(p) =~= out.deep_view());
    }
    for item in it: items
        invariant
            it.seq() == given,
            input == Seq::new(given.len(), |i: int| given[i].deep_view()),
            p == passes_type(filter@),
            out.deep_view() == input.take(it.index() as int).filter(p),
    {
        let ghost ov = out.deep_view();
        let ghost idx = it.index() as int;
        proof {
            input.take(idx).lemma_filter_push(item@, p);
            assert(input.take(idx).push(item@) =~= input.take(idx + 1));
        }
        if item.matches_type(filter) {
            out.push(item);
            assert(out.deep_view() =~= ov.push(item@));
        }
    }
    assert(input.take(input.len() as int) =~= input);
    out
}

} // verus!
