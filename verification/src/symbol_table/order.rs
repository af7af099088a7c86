//! What it means to sort a table by size. A sort puts the sizes in order and
//! leaves the entries of each size in the order they had, so a table has
//! exactly one ascending and one descending sort.

use super::entry::EntryView;
use vstd::prelude::*;

verus! {

/// Whether `a` may stand before `b`: its size is not larger in an ascending
/// table, not smaller in a descending one.
pub open spec fn in_order(a: EntryView, b: EntryView, descending: bool) -> bool {
    if descending {
        a.alignment_or_size >= b.alignment_or_size
    } else {
        a.alignment_or_size <= b.alignment_or_size
    }
}

/// Whether the sizes of `t` never fall (or, descending, never rise) from one
/// entry to a later one.
pub open spec fn sorted_by_size(t: Seq<EntryView>, descending: bool) -> bool {
    forall|i: int, j: int| 0 <= i < j < t.len() ==> in_order(t[i], t[j], descending)
}

/// The entries of `t` that have the given size, in the order in which they
/// stand in `t`.
pub open spec fn with_size(t: Seq<EntryView>, size: u32) -> Seq<EntryView> {
    t.filter(|e: EntryView| e.alignment_or_size == size)
}

/// Whether `a` and `b` hold the same entries, those of each size in the same
/// order.
pub open spec fn same_order_within_sizes(a: Seq<EntryView>, b: Seq<EntryView>) -> bool {
    forall|size: u32| #[trigger] with_size(a, size) == with_size(b, size)
}

/// Whether `sorted` is `t` sorted by size: it is in order, holds the entries
/// of `t` and no others, and entries of equal size have kept their order.
pub open spec fn is_sort_by_size(
    sorted: Seq<EntryView>,
    t: Seq<EntryView>,
    descending: bool,
) -> bool {
    sorted_by_size(sorted, descending) && same_order_within_sizes(sorted, t)
}

/// Whether no two entries of `t` have the same size.
pub open spec fn no_size_ties(t: Seq<EntryView>) -> bool {
    forall|i: int, j: int|
        0 <= i < j < t.len() ==> t[i].alignment_or_size != t[j].alignment_or_size
}

/// The entries of one size, when one entry is added behind the others.
pub proof fn lemma_with_size_push(t: Seq<EntryView>, e: EntryView, size: u32)
    ensures
        with_size(t.push(e), size) == (if e.alignment_or_size == size {
            with_size(t, size).push(e)
        } else {
            with_size(t, size)
        }),
{
    reveal(Seq::filter);
    assert(t.push(e).drop_last() =~= t);
}

/// The entries of one size, when one entry is added before the others.
pub proof fn lemma_with_size_cons(e: EntryView, t: Seq<EntryView>, size: u32)
    ensures
        with_size(seq![e] + t, size) == (if e.alignment_or_size == size {
            seq![e] + with_size(t, size)
        } else {
            with_size(t, size)
        }),
{
    let p = |x: EntryView| x.alignment_or_size == size;
    Seq::filter_distributes_over_add(seq![e], t, p);
    lemma_with_size_push(Seq::empty(), e, size);
    assert(Seq::<EntryView>::empty().push(e) =~= seq![e]);
    assert(with_size(Seq::empty(), size) =~= Seq::<EntryView>::empty()) by {
        reveal(Seq::filter);
    }
    if e.alignment_or_size == size {
        assert(with_size(seq![e], size) =~= seq![e]);
    } else {
        assert(with_size(seq![e] + t, size) =~= with_size(t, size));
    }
}

/// An entry of `t` stands among the entries of its size, and every entry
/// among those of one size stands in `t` and has that size.
pub proof fn lemma_with_size_members(t: Seq<EntryView>, size: u32)
    ensures
        forall|i: int|
            0 <= i < t.len() && t[i].alignment_or_size == size ==> with_size(t, size).contains(
                #[trigger] t[i],
            ),
        forall|i: int|
            0 <= i < with_size(t, size).len() ==> ({
                &&& (#[trigger] with_size(t, size)[i]).alignment_or_size == size
                &&& t.contains(with_size(t, size)[i])
            }),
    decreases t.len(),
{
    reveal(Seq::filter);
    if t.len() > 0 {
        let front = t.drop_last();
        let last = t.last();
        lemma_with_size_members(front, size);
        assert(t =~= front.push(last));
        lemma_with_size_push(front, last, size);
        let w = with_size(t, size);
        let wf = with_size(front, size);
        assert forall|i: int| 0 <= i < t.len() && t[i].alignment_or_size == size implies w.contains(
            #[trigger] t[i],
        ) by {
            if i < front.len() {
                assert(front[i] == t[i]);
                assert(wf.contains(front[i]));
                let j = choose|j: int| 0 <= j < wf.len() && wf[j] == front[i];
                assert(w[j] == t[i]);
            } else {
                assert(w[w.len() - 1] == t[i]);
            }
        }
        assert forall|i: int| 0 <= i < w.len() implies (#[trigger] w[i]).alignment_or_size == size
            && t.contains(w[i]) by {
            if i < wf.len() {
                assert(w[i] == wf[i]);
                assert(front.contains(wf[i]));
                let j = choose|j: int| 0 <= j < front.len() && front[j] == wf[i];
                assert(t[j] == w[i]);
            } else {
                assert(w[i] == last);
                assert(t[t.len() - 1] == last);
            }
        }
    }
}

/// The entries of one size in the reversed table are those of the table,
/// reversed.
pub proof fn lemma_with_size_reverse(t: Seq<EntryView>, size: u32)
    ensures
        with_size(t.reverse(), size) == with_size(t, size).reverse(),
    decreases t.len(),
{
    if t.len() == 0 {
        assert(t.reverse() =~= t);
        assert(with_size(t, size) =~= Seq::<EntryView>::empty()) by {
            reveal(Seq::filter);
        }
        assert(with_size(t, size).reverse() =~= with_size(t, size));
    } else {
        let front = t.drop_last();
        let last = t.last();
        lemma_with_size_reverse(front, size);
        assert(t =~= front.push(last));
        lemma_with_size_push(front, last, size);
        assert(t.reverse() =~= seq![last] + front.reverse());
        lemma_with_size_cons(last, front.reverse(), size);
        if last.alignment_or_size == size {
            assert(with_size(front, size).push(last).reverse() =~= seq![last] + with_size(
                front,
                size,
            ).reverse());
        }
    }
}

/// Where no two entries have the same size, at most one entry has a given
/// size.
pub proof fn lemma_no_ties_singletons(t: Seq<EntryView>, size: u32)
    requires
        no_size_ties(t),
    ensures
        with_size(t, size).len() <= 1,
    decreases t.len(),
{
    reveal(Seq::filter);
    if t.len() > 0 {
        let front = t.drop_last();
        let last = t.last();
        lemma_no_ties_singletons(front, size);
        assert(t =~= front.push(last));
        lemma_with_size_push(front, last, size);
        if last.alignment_or_size == size && with_size(front, size).len() > 0 {
            lemma_with_size_members(front, size);
            let x = with_size(front, size)[0];
            assert(front.contains(x));
            let j = choose|j: int| 0 <= j < front.len() && front[j] == x;
            assert(t[j].alignment_or_size == t[t.len() - 1].alignment_or_size);
        }
    }
}

/// A table has one sort in each direction: two tables that are both in
/// order, and that hold the same entries with those of each size in the same
/// order, are equal.
pub proof fn lemma_sort_is_unique(a: Seq<EntryView>, b: Seq<EntryView>, descending: bool)
    requires
        sorted_by_size(a, descending),
        sorted_by_size(b, descending),
        same_order_within_sizes(a, b),
    ensures
        a == b,
    decreases a.len(),
{
    if a.len() == 0 || b.len() == 0 {
        if a.len() > 0 {
            let size = a.last().alignment_or_size;
            lemma_with_size_members(a, size);
            lemma_with_size_members(b, size);
            assert(with_size(a, size).contains(a[a.len() - 1]));
            assert(with_size(a, size) == with_size(b, size));
            let w = with_size(b, size);
            let j = choose|j: int| 0 <= j < w.len() && w[j] == a[a.len() - 1];
            assert(b.contains(w[j]));
        }
        if b.len() > 0 {
            let size = b.last().alignment_or_size;
            lemma_with_size_members(a, size);
            lemma_with_size_members(b, size);
            assert(with_size(b, size).contains(b[b.len() - 1]));
            assert(with_size(a, size) == with_size(b, size));
            let w = with_size(a, size);
            let j = choose|j: int| 0 <= j < w.len() && w[j] == b[b.len() - 1];
            assert(a.contains(w[j]));
        }
        assert(a =~= b);
    } else {
        let x = a.last();
        let y = b.last();
        let (af, bf) = (a.drop_last(), b.drop_last());
        assert(a =~= af.push(x));
        assert(b =~= bf.push(y));
        // The two last entries have the same size: each table holds an entry
        // of the size of the other's last, and its own last is the extreme.
        assert(x.alignment_or_size == y.alignment_or_size) by {
            let sx = x.alignment_or_size;
            let sy = y.alignment_or_size;
            lemma_with_size_members(a, sx);
            lemma_with_size_members(b, sx);
            lemma_with_size_members(a, sy);
            lemma_with_size_members(b, sy);
            assert(with_size(a, sx).contains(a[a.len() - 1]));
            assert(with_size(a, sx) == with_size(b, sx));
            let wb = with_size(b, sx);
            let j = choose|j: int| 0 <= j < wb.len() && wb[j] == x;
            assert(b.contains(wb[j]));
            let jb = choose|k: int| 0 <= k < b.len() && b[k] == wb[j];
            assert(b[jb].alignment_or_size == sx);
            assert(jb < b.len() - 1 ==> in_order(b[jb], b[b.len() - 1], descending));
            assert(with_size(b, sy).contains(b[b.len() - 1]));
            assert(with_size(a, sy) == with_size(b, sy));
            let wa = with_size(a, sy);
            let i = choose|i: int| 0 <= i < wa.len() && wa[i] == y;
            assert(a.contains(wa[i]));
            let ia = choose|k: int| 0 <= k < a.len() && a[k] == wa[i];
            assert(a[ia].alignment_or_size == sy);
            assert(ia < a.len() - 1 ==> in_order(a[ia], a[a.len() - 1], descending));
        }
        let size = x.alignment_or_size;
        lemma_with_size_push(af, x, size);
        lemma_with_size_push(bf, y, size);
        assert(with_size(a, size) == with_size(b, size));
        assert(with_size(a, size).last() == x);
        assert(with_size(b, size).last() == y);
        assert(x == y);
        assert(sorted_by_size(af, descending)) by {
            assert forall|i: int, j: int| 0 <= i < j < af.len() implies in_order(
                af[i],
                af[j],
                descending,
            ) by {
                assert(af[i] == a[i] && af[j] == a[j]);
            }
        }
        assert(sorted_by_size(bf, descending)) by {
            assert forall|i: int, j: int| 0 <= i < j < bf.len() implies in_order(
                bf[i],
                bf[j],
                descending,
            ) by {
                assert(bf[i] == b[i] && bf[j] == b[j]);
            }
        }
        assert forall|s: u32| #[trigger] with_size(af, s) == with_size(bf, s) by {
            lemma_with_size_push(af, x, s);
            lemma_with_size_push(bf, y, s);
            assert(with_size(a, s) == with_size(b, s));
            if s == size {
                assert(with_size(af, s) =~= with_size(a, s).drop_last());
                assert(with_size(bf, s) =~= with_size(b, s).drop_last());
            }
        }
        lemma_sort_is_unique(af, bf, descending);
    }
}

/// Sorting a table ascending and sorting it descending, be it the table as
/// it was or as the first sort left it, gives two tables that are exact
/// reverses of each other, provided no two entries have the same size.
pub proof fn lemma_descending_is_ascending_reversed(
    t: Seq<EntryView>,
    ascending: Seq<EntryView>,
    descending: Seq<EntryView>,
)
    requires
        no_size_ties(t),
        is_sort_by_size(ascending, t, false),
        is_sort_by_size(descending, t, true) || is_sort_by_size(descending, ascending, true),
    ensures
        descending == ascending.reverse(),
{
    let r = ascending.reverse();
    assert(sorted_by_size(r, true)) by {
        assert forall|i: int, j: int| 0 <= i < j < r.len() implies in_order(r[i], r[j], true) by {
            let n = ascending.len();
            assert(r[i] == ascending[n - 1 - i]);
            assert(r[j] == ascending[n - 1 - j]);
            assert(in_order(ascending[n - 1 - j], ascending[n - 1 - i], false));
        }
    }
    assert forall|size: u32| #[trigger] with_size(r, size) == with_size(descending, size) by {
        lemma_with_size_reverse(ascending, size);
        lemma_no_ties_singletons(t, size);
        assert(with_size(ascending, size) == with_size(t, size));
        assert(with_size(descending, size) == with_size(t, size));
        assert(with_size(t, size).reverse() =~= with_size(t, size));
    }
    lemma_sort_is_unique(r, descending, true);
}

/// A table that is in order stays in order when entries are taken out of it.
pub proof fn lemma_filter_keeps_order(
    t: Seq<EntryView>,
    keep: spec_fn(EntryView) -> bool,
    descending: bool,
)
    requires
        sorted_by_size(t, descending),
    ensures
        sorted_by_size(t.filter(keep), descending),
    decreases t.len(),
{
    reveal(Seq::filter);
    if t.len() > 0 {
        let front = t.drop_last();
        let last = t.last();
        assert forall|i: int, j: int| 0 <= i < j < front.len() implies in_order(
            front[i],
            front[j],
            descending,
        ) by {
            assert(front[i] == t[i] && front[j] == t[j]);
        }
        lemma_filter_keeps_order(front, keep, descending);
        let kept = t.filter(keep);
        let kept_front = front.filter(keep);
        assert forall|i: int, j: int| 0 <= i < j < kept.len() implies in_order(
            kept[i],
            kept[j],
            descending,
        ) by {
            if j < kept_front.len() {
                assert(kept[i] == kept_front[i] && kept[j] == kept_front[j]);
            } else {
                assert(kept[j] == last);
                assert(kept_front.contains(kept_front[i]));
                front.lemma_filter_contains_rev(keep, kept_front[i]);
                let k = choose|k: int| 0 <= k < front.len() && front[k] == kept_front[i];
                assert(in_order(t[k], t[t.len() - 1], descending));
            }
        }
    }
}

/// Taking the entries of one size out of a filtered table gives what
/// filtering the entries of that size gives.
pub proof fn lemma_with_size_of_filtered(
    t: Seq<EntryView>,
    keep: spec_fn(EntryView) -> bool,
    size: u32,
)
    ensures
        with_size(t.filter(keep), size) == with_size(t, size).filter(keep),
    decreases t.len(),
{
    reveal(Seq::filter);
    if t.len() > 0 {
        let front = t.drop_last();
        let last = t.last();
        lemma_with_size_of_filtered(front, keep, size);
        if keep(last) {
            lemma_with_size_push(front.filter(keep), last, size);
        }
        if last.alignment_or_size == size {
            assert(with_size(front, size).push(last).drop_last() =~= with_size(front, size));
        }
    }
}

/// Filtering and sorting may be done in either order: the sort of the
/// filtered table is the sorted table, filtered.
pub proof fn lemma_filter_commutes_with_sort(
    t: Seq<EntryView>,
    keep: spec_fn(EntryView) -> bool,
    descending: bool,
    sorted: Seq<EntryView>,
    filtered_and_sorted: Seq<EntryView>,
)
    requires
        is_sort_by_size(sorted, t, descending),
        is_sort_by_size(filtered_and_sorted, t.filter(keep), descending),
    ensures
        filtered_and_sorted == sorted.filter(keep),
{
    lemma_filter_keeps_order(sorted, keep, descending);
    assert forall|size: u32| #[trigger]
        with_size(sorted.filter(keep), size) == with_size(filtered_and_sorted, size) by {
        lemma_with_size_of_filtered(sorted, keep, size);
        lemma_with_size_of_filtered(t, keep, size);
        assert(with_size(sorted, size) == with_size(t, size));
        assert(with_size(filtered_and_sorted, size) == with_size(t.filter(keep), size));
    }
    lemma_sort_is_unique(sorted.filter(keep), filtered_and_sorted, descending);
}

} // verus!
