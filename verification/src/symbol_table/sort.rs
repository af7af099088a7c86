//! Sorting entries by size: a merge sort that keeps entries of equal size in
//! the order they had.

use super::entry::{entry_views, EntryView, SymbolTableEntry};
use super::order::{
    in_order, is_sort_by_size, lemma_with_size_cons, lemma_with_size_members, sorted_by_size,
    with_size,
};
use vstd::prelude::*;

verus! {

/// Whether every entry of `front` may stand before every entry of `back`.
spec fn all_in_order(
    front: Seq<EntryView>,
    back: Seq<EntryView>,
    descending: bool,
) -> bool {
    forall|p: int, q: int|
        0 <= p < front.len() && 0 <= q < back.len() ==> in_order(front[p], back[q], descending)
}

/// Whether every entry of `back` must stand behind every entry of `front`.
spec fn all_strictly_behind(
    back: Seq<EntryView>,
    front: Seq<EntryView>,
    descending: bool,
) -> bool {
    forall|p: int, q: int|
        0 <= p < back.len() && 0 <= q < front.len() ==> !in_order(back[p], front[q], descending)
}

/// Whether `a` may stand before `b` in a table sorted in the given direction.
pub(crate) fn stands_before(
    a: &SymbolTableEntry,
    b: &SymbolTableEntry,
    descending: bool,
) -> (r: bool)
    ensures
        r == in_order(a@, b@, descending),
{
    if descending {
        a.alignment_or_size >= b.alignment_or_size
    } else {
        a.alignment_or_size <= b.alignment_or_size
    }
}

/// The entries of `entries`, last first.
pub(crate) fn reversed(entries: Vec<SymbolTableEntry>) -> (r: Vec<SymbolTableEntry>)
    ensures
        r@ == entries@.reverse(),
{
    let mut entries = entries;
    let ghost all = entries@;
    let mut r: Vec<SymbolTableEntry> = Vec::new();
    while entries.len() > 0
        invariant
            entries@ == all.take(entries@.len() as int),
            entries@.len() <= all.len(),
            r@.len() + entries@.len() == all.len(),
            forall|i: int| 0 <= i < r@.len() ==> r@[i] == all[all.len() - 1 - i],
        decreases entries.len(),
    {
        match entries.pop() {
            Some(e) => {
                r.push(e);
            },
            None => {},
        }
        assert(entries@ =~= all.take(entries@.len() as int));
    }
    assert(r@ =~= all.reverse());
    r
}

/// Merges two sorted runs into one. Of two entries of equal size, the one from
/// `left` comes first.
pub(crate) fn merge(
    left: Vec<SymbolTableEntry>,
    right: Vec<SymbolTableEntry>,
    descending: bool,
) -> (merged: Vec<SymbolTableEntry>)
    requires
        sorted_by_size(entry_views(left@), descending),
        sorted_by_size(entry_views(right@), descending),
    ensures
        sorted_by_size(entry_views(merged@), descending),
        forall|size: u32|
            #[trigger] with_size(entry_views(merged@), size) == with_size(
                entry_views(left@),
                size,
            ) + with_size(entry_views(right@), size),
{
    let ghost l0 = entry_views(left@);
    let ghost r0 = entry_views(right@);
    let mut left = left;
    let mut right = right;
    // The merged run is built from its end, so `backwards` holds it reversed.
    let mut backwards: Vec<SymbolTableEntry> = Vec::new();
    assert(entry_views(backwards@).reverse() =~= Seq::<EntryView>::empty());
    assert(l0.skip(l0.len() as int) =~= Seq::<EntryView>::empty());
    assert(r0.skip(r0.len() as int) =~= Seq::<EntryView>::empty());
    assert(l0.take(l0.len() as int) =~= l0);
    assert(r0.take(r0.len() as int) =~= r0);
    assert forall|size: u32|
        #[trigger] with_size(Seq::<EntryView>::empty(), size)
            == Seq::<EntryView>::empty() by {
        reveal(Seq::filter);
    }
    while left.len() > 0 || right.len() > 0
        invariant
            sorted_by_size(l0, descending),
            sorted_by_size(r0, descending),
            left@.len() <= l0.len(),
            right@.len() <= r0.len(),
            entry_views(left@) == l0.take(left@.len() as int),
            entry_views(right@) == r0.take(right@.len() as int),
            sorted_by_size(entry_views(backwards@).reverse(), descending),
            all_in_order(
                l0.take(left@.len() as int),
                entry_views(backwards@).reverse(),
                descending,
            ),
            all_in_order(
                r0.take(right@.len() as int),
                entry_views(backwards@).reverse(),
                descending,
            ),
            all_strictly_behind(
                l0.skip(left@.len() as int),
                r0.take(right@.len() as int),
                descending,
            ),
            forall|size: u32|
                #[trigger] with_size(entry_views(backwards@).reverse(), size) == with_size(
                    l0.skip(left@.len() as int),
                    size,
                ) + with_size(r0.skip(right@.len() as int), size),
        decreases left.len() + right.len(),
    {
        let ghost i = left@.len() as int;
        let ghost j = right@.len() as int;
        let ghost m = entry_views(backwards@).reverse();
        let from_right = if left.len() == 0 {
            true
        } else if right.len() == 0 {
            false
        } else {
            stands_before(&left[left.len() - 1], &right[right.len() - 1], descending)
        };
        if from_right {
            let ghost last = right@[j - 1];
            match right.pop() {
                Some(e) => {
                    backwards.push(e);
                },
                None => {},
            }
            proof {
                let x = last@;
                let m2 = entry_views(backwards@).reverse();
                assert(r0.take(j)[j - 1] == x);
                assert(m2 =~= seq![x] + m);
                assert(entry_views(right@) =~= r0.take(j - 1));
                assert(r0.skip(j - 1) =~= seq![x] + r0.skip(j));
                assert(sorted_by_size(m2, descending)) by {
                    assert forall|a: int, b: int| 0 <= a < b < m2.len() implies in_order(
                        m2[a],
                        m2[b],
                        descending,
                    ) by {
                        if a == 0 {
                            assert(m2[b] == m[b - 1]);
                            assert(in_order(r0.take(j)[j - 1], m[b - 1], descending));
                        } else {
                            assert(m2[a] == m[a - 1] && m2[b] == m[b - 1]);
                        }
                    }
                }
                assert(all_in_order(l0.take(i), m2, descending)) by {
                    assert forall|p: int, q: int|
                        0 <= p < l0.take(i).len() && 0 <= q < m2.len() implies in_order(
                        l0.take(i)[p],
                        m2[q],
                        descending,
                    ) by {
                        if q == 0 {
                            // the last entry of `left` may stand before `x`,
                            // and all the others before it
                            assert(i > 0);
                            assert(entry_views(left@)[i - 1] == l0.take(i)[i - 1]);
                            assert(in_order(l0[i - 1], x, descending));
                            assert(p < i - 1 ==> in_order(l0[p], l0[i - 1], descending));
                        } else {
                            assert(m2[q] == m[q - 1]);
                        }
                    }
                }
                let rest = r0.take(j - 1);
                assert(all_in_order(rest, m2, descending)) by {
                    assert forall|p: int, q: int|
                        0 <= p < rest.len() && 0 <= q < m2.len() implies in_order(
                        rest[p],
                        m2[q],
                        descending,
                    ) by {
                        if q == 0 {
                            assert(in_order(r0[p], r0[j - 1], descending));
                        } else {
                            assert(m2[q] == m[q - 1]);
                            assert(r0.take(j)[p] == r0[p]);
                        }
                    }
                }
                assert(all_strictly_behind(l0.skip(i), rest, descending)) by {
                    assert forall|p: int, q: int|
                        0 <= p < l0.skip(i).len() && 0 <= q < rest.len() implies !in_order(
                        l0.skip(i)[p],
                        rest[q],
                        descending,
                    ) by {
                        assert(rest[q] == r0.take(j)[q]);
                    }
                }
                assert forall|size: u32| #[trigger]
                    with_size(m2, size) == with_size(l0.skip(i), size) + with_size(
                        r0.skip(j - 1),
                        size,
                    ) by {
                    lemma_with_size_cons(x, m, size);
                    lemma_with_size_cons(x, r0.skip(j), size);
                    assert(with_size(m, size) == with_size(l0.skip(i), size) + with_size(
                        r0.skip(j),
                        size,
                    ));
                    if x.alignment_or_size == size {
                        // no entry that was taken from `left` has this size
                        let w = with_size(l0.skip(i), size);
                        lemma_with_size_members(l0.skip(i), size);
                        if w.len() > 0 {
                            assert(l0.skip(i).contains(w[0]));
                            let taken = l0.skip(i);
                            let p = choose|p: int| 0 <= p < taken.len() && taken[p] == w[0];
                            assert(!in_order(taken[p], r0.take(j)[j - 1], descending));
                        }
                        assert(w =~= Seq::<EntryView>::empty());
                        assert(with_size(m2, size) =~= with_size(l0.skip(i), size) + with_size(
                            r0.skip(j - 1),
                            size,
                        ));
                    }
                }
            }
        } else {
            let ghost last = left@[i - 1];
            match left.pop() {
                Some(e) => {
                    backwards.push(e);
                },
                None => {},
            }
            proof {
                let x = last@;
                let m2 = entry_views(backwards@).reverse();
                assert(l0.take(i)[i - 1] == x);
                assert(m2 =~= seq![x] + m);
                assert(entry_views(left@) =~= l0.take(i - 1));
                assert(l0.skip(i - 1) =~= seq![x] + l0.skip(i));
                assert(sorted_by_size(m2, descending)) by {
                    assert forall|a: int, b: int| 0 <= a < b < m2.len() implies in_order(
                        m2[a],
                        m2[b],
                        descending,
                    ) by {
                        if a == 0 {
                            assert(m2[b] == m[b - 1]);
                            assert(in_order(l0.take(i)[i - 1], m[b - 1], descending));
                        } else {
                            assert(m2[a] == m[a - 1] && m2[b] == m[b - 1]);
                        }
                    }
                }
                let rest = l0.take(i - 1);
                let taken = l0.skip(i - 1);
                assert(all_in_order(rest, m2, descending)) by {
                    assert forall|p: int, q: int|
                        0 <= p < rest.len() && 0 <= q < m2.len() implies in_order(
                        rest[p],
                        m2[q],
                        descending,
                    ) by {
                        if q == 0 {
                            assert(in_order(l0[p], l0[i - 1], descending));
                        } else {
                            assert(m2[q] == m[q - 1]);
                            assert(l0.take(i)[p] == l0[p]);
                        }
                    }
                }
                assert(all_in_order(r0.take(j), m2, descending)) by {
                    assert forall|p: int, q: int|
                        0 <= p < r0.take(j).len() && 0 <= q < m2.len() implies in_order(
                        r0.take(j)[p],
                        m2[q],
                        descending,
                    ) by {
                        if q == 0 {
                            // `x` must stand behind the last entry of `right`,
                            // and all the others may stand before that one
                            assert(j > 0);
                            assert(entry_views(right@)[j - 1] == r0.take(j)[j - 1]);
                            assert(!in_order(x, r0[j - 1], descending));
                            assert(p < j - 1 ==> in_order(r0[p], r0[j - 1], descending));
                        } else {
                            assert(m2[q] == m[q - 1]);
                        }
                    }
                }
                assert(all_strictly_behind(taken, r0.take(j), descending)) by {
                    assert forall|p: int, q: int|
                        0 <= p < taken.len() && 0 <= q < r0.take(j).len() implies !in_order(
                        taken[p],
                        r0.take(j)[q],
                        descending,
                    ) by {
                        if p == 0 {
                            assert(entry_views(right@)[j - 1] == r0.take(j)[j - 1]);
                            assert(!in_order(x, r0[j - 1], descending));
                            assert(q < j - 1 ==> in_order(r0[q], r0[j - 1], descending));
                        } else {
                            assert(taken[p] == l0.skip(i)[p - 1]);
                        }
                    }
                }
                assert forall|size: u32| #[trigger]
                    with_size(m2, size) == with_size(l0.skip(i - 1), size) + with_size(
                        r0.skip(j),
                        size,
                    ) by {
                    lemma_with_size_cons(x, m, size);
                    lemma_with_size_cons(x, l0.skip(i), size);
                    assert(with_size(m, size) == with_size(l0.skip(i), size) + with_size(
                        r0.skip(j),
                        size,
                    ));
                    if x.alignment_or_size == size {
                        assert(with_size(m2, size) =~= with_size(l0.skip(i - 1), size) + with_size(
                            r0.skip(j),
                            size,
                        ));
                    }
                }
            }
        }
    }
    assert(l0.skip(0) =~= l0);
    assert(r0.skip(0) =~= r0);
    let merged = reversed(backwards);
    assert(entry_views(merged@) =~= entry_views(backwards@).reverse());
    merged
}

/// Sorts entries by size, ascending or descending. Entries of equal size
/// keep the order they had.
pub(crate) fn sort_by_size(entries: Vec<SymbolTableEntry>, descending: bool) -> (sorted: Vec<
    SymbolTableEntry,
>)
    ensures
        is_sort_by_size(entry_views(sorted@), entry_views(entries@), descending),
    decreases entries@.len(),
{
    if entries.len() <= 1 {
        return entries;
    }
    let ghost all = entry_views(entries@);
    let mut left = entries;
    let right = left.split_off(left.len() / 2);
    let ghost unsorted_left = entry_views(left@);
    let ghost unsorted_right = entry_views(right@);
    let left = sort_by_size(left, descending);
    let right = sort_by_size(right, descending);
    let sorted = merge(left, right, descending);
    proof {
        assert(all =~= unsorted_left + unsorted_right);
        assert forall|size: u32| #[trigger]
            with_size(entry_views(sorted@), size) == with_size(all, size) by {
            Seq::filter_distributes_over_add(
                unsorted_left,
                unsorted_right,
                |e: EntryView| e.alignment_or_size == size,
            );
            assert(with_size(entry_views(left@), size) == with_size(unsorted_left, size));
            assert(with_size(entry_views(right@), size) == with_size(unsorted_right, size));
        }
    }
    sorted
}

} // verus!
