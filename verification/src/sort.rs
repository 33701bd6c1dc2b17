//! Ordering of the output timeline: a stable sort of items by publication
//! timestamp, most recent first, with untimed items last.

use vstd::prelude::*;
use crate::structs::{Item, ItemV, date_key};

verus! {

/// The sort key of an item: seconds since the epoch of its publication
/// date, when that parses.
pub open spec fn item_key(it: ItemV) -> Option<i64> {
    date_key(it.pub_date)
}

/// `a` sorts no later than `b` in the output: a missing timestamp counts as
/// older than any present one, present timestamps order by value, most
/// recent first.
pub open spec fn key_ge(a: Option<i64>, b: Option<i64>) -> bool {
    match (a, b) {
        (None, None) => true,
        (Some(x), None) => true,
        (None, Some(y)) => false,
        (Some(x), Some(y)) => x >= y,
    }
}

/// The sequence is ordered most recent first.
pub open spec fn sorted_desc(s: Seq<ItemV>) -> bool {
    forall|p: int, q: int| 0 <= p < q < s.len() ==> key_ge(item_key(s[p]), item_key(s[q]))
}

/// `x` inserted behind every element that sorts no later than it, so that
/// earlier input stays first among equal keys.
pub open spec fn insert_desc(x: ItemV, s: Seq<ItemV>) -> Seq<ItemV>
    decreases s.len(),
{
    if s.len() > 0 && key_ge(item_key(s[0]), item_key(x)) {
        seq![s[0]] + insert_desc(x, s.skip(1))
    } else {
        seq![x] + s
    }
}

/// The stable descending sort of `s`, defined by insertion left to right.
pub open spec fn sort_desc(s: Seq<ItemV>) -> Seq<ItemV>
    decreases s.len(),
{
    if s.len() == 0 {
        Seq::empty()
    } else {
        insert_desc(s.last(), sort_desc(s.drop_last()))
    }
}

/// The subsequence of items whose key is exactly `k`, in order.
pub open spec fn with_key(s: Seq<ItemV>, k: Option<i64>) -> Seq<ItemV>
    decreases s.len(),
{
    if s.len() == 0 {
        Seq::empty()
    } else if item_key(s[0]) == k {
        seq![s[0]] + with_key(s.skip(1), k)
    } else {
        with_key(s.skip(1), k)
    }
}

/// Inserting preserves order.
proof fn lemma_insert_desc_sorted(x: ItemV, s: Seq<ItemV>)
    requires
        sorted_desc(s),
    ensures
        sorted_desc(insert_desc(x, s)),
        insert_desc(x, s).len() == s.len() + 1,
    decreases s.len(),
{
    if s.len() > 0 && key_ge(item_key(s[0]), item_key(x)) {
        assert(sorted_desc(s.skip(1))) by {
            assert(forall|m: int| 0 <= m < s.len() - 1 ==> s.skip(1)[m] == s[m + 1]);
        }
        lemma_insert_desc_sorted(x, s.skip(1));
        let r = insert_desc(x, s);
        let r1 = insert_desc(x, s.skip(1));
        assert(r == seq![s[0]] + r1);
        assert forall|p: int, q: int| 0 <= p < q < r.len() implies key_ge(
            item_key(r[p]),
            item_key(r[q]),
        ) by {
            if p == 0 {
                // every element of r1 is x or an element of s.skip(1)
                lemma_insert_desc_members(x, s.skip(1), q - 1);
                assert(r[q] == r1[q - 1]);
                if r1[q - 1] == x {
                } else {
                    let w = choose|m: int|
                        0 <= m < s.skip(1).len() && r1[q - 1] == s.skip(1)[m];
                    assert(s.skip(1)[w] == s[w + 1]);
                    assert(key_ge(item_key(s[0]), item_key(s[w + 1])));
                }
            } else {
                assert(r[p] == r1[p - 1] && r[q] == r1[q - 1]);
            }
        }
    } else {
        let r = insert_desc(x, s);
        assert(r == seq![x] + s);
        assert forall|p: int, q: int| 0 <= p < q < r.len() implies key_ge(
            item_key(r[p]),
            item_key(r[q]),
        ) by {
            if p == 0 {
                if s.len() > 0 {
                    assert(!key_ge(item_key(s[0]), item_key(x)));
                    assert(key_ge(item_key(x), item_key(s[0])));
                    assert(r[q] == s[q - 1]);
                    if q > 1 {
                        assert(key_ge(item_key(s[0]), item_key(s[q - 1])));
                    }
                }
            } else {
                assert(r[p] == s[p - 1] && r[q] == s[q - 1]);
            }
        }
    }
}

/// Every element of an insertion result is the inserted item or an element
/// of the original sequence.
proof fn lemma_insert_desc_members(x: ItemV, s: Seq<ItemV>, q: int)
    requires
        0 <= q < insert_desc(x, s).len(),
    ensures
        insert_desc(x, s)[q] == x || exists|m: int| 0 <= m < s.len() && insert_desc(x, s)[q]
            == s[m],
    decreases s.len(),
{
    if s.len() > 0 && key_ge(item_key(s[0]), item_key(x)) {
        if q == 0 {
            assert(insert_desc(x, s)[0] == s[0]);
        } else {
            lemma_insert_desc_members(x, s.skip(1), q - 1);
            assert(insert_desc(x, s)[q] == insert_desc(x, s.skip(1))[q - 1]);
            if insert_desc(x, s.skip(1))[q - 1] != x {
                let w = choose|m: int|
                    0 <= m < s.skip(1).len() && insert_desc(x, s.skip(1))[q - 1] == s.skip(1)[m];
                assert(insert_desc(x, s)[q] == s[w + 1]);
            }
        }
    } else {
        if q > 0 {
            assert(insert_desc(x, s)[q] == s[q - 1]);
        }
    }
}

/// The key class of an appended element.
proof fn lemma_with_key_snoc(a: Seq<ItemV>, x: ItemV, k: Option<i64>)
    ensures
        with_key(a.push(x), k) == (if item_key(x) == k {
            with_key(a, k).push(x)
        } else {
            with_key(a, k)
        }),
    decreases a.len(),
{
    if a.len() == 0 {
        assert(a.push(x)[0] == x);
        assert(a.push(x).skip(1) =~= Seq::<ItemV>::empty());
        assert(with_key(Seq::<ItemV>::empty(), k) == Seq::<ItemV>::empty());
        if item_key(x) == k {
            assert(with_key(a.push(x), k) =~= with_key(a, k).push(x));
        }
    } else {
        lemma_with_key_snoc(a.skip(1), x, k);
        assert(a.push(x).skip(1) =~= a.skip(1).push(x));
        assert(a.push(x)[0] == a[0]);
        if item_key(a[0]) == k {
            if item_key(x) == k {
                assert(seq![a[0]] + with_key(a.skip(1), k).push(x) =~= (seq![a[0]] + with_key(
                    a.skip(1),
                    k,
                )).push(x));
            }
        }
    }
}

/// Insertion appends the inserted item to its key class and leaves every
/// other key class unchanged.
proof fn lemma_insert_with_key(x: ItemV, t: Seq<ItemV>, k: Option<i64>)
    requires
        sorted_desc(t),
    ensures
        with_key(insert_desc(x, t), k) == (if item_key(x) == k {
            with_key(t, k).push(x)
        } else {
            with_key(t, k)
        }),
    decreases t.len(),
{
    if t.len() > 0 && key_ge(item_key(t[0]), item_key(x)) {
        assert(sorted_desc(t.skip(1))) by {
            assert(forall|m: int| 0 <= m < t.len() - 1 ==> t.skip(1)[m] == t[m + 1]);
        }
        lemma_insert_with_key(x, t.skip(1), k);
        let r = insert_desc(x, t);
        assert(r == seq![t[0]] + insert_desc(x, t.skip(1)));
        assert(r[0] == t[0]);
        assert(r.skip(1) =~= insert_desc(x, t.skip(1)));
        if item_key(t[0]) == k {
            if item_key(x) == k {
                assert(seq![t[0]] + with_key(t.skip(1), k).push(x) =~= (seq![t[0]] + with_key(
                    t.skip(1),
                    k,
                )).push(x));
            }
        }
    } else {
        let r = insert_desc(x, t);
        assert(r == seq![x] + t);
        assert(r[0] == x);
        assert(r.skip(1) =~= t);
        if item_key(x) == k {
            // no later element shares x's key: each sorts strictly later
            assert(with_key(t, k) =~= Seq::<ItemV>::empty()) by {
                if t.len() > 0 {
                    assert(!key_ge(item_key(t[0]), item_key(x)));
                    assert forall|m: int| 0 <= m < t.len() implies item_key(#[trigger] t[m])
                        != k by {
                        if m > 0 {
                            assert(key_ge(item_key(t[0]), item_key(t[m])));
                        }
                    }
                    lemma_with_key_none(t, k);
                }
            }
            assert(with_key(r, k) == seq![x] + with_key(t, k));
            assert(seq![x] + with_key(t, k) =~= Seq::<ItemV>::empty().push(x));
        }
    }
}

/// A sequence with no element of key `k` has an empty key class.
proof fn lemma_with_key_none(t: Seq<ItemV>, k: Option<i64>)
    requires
        forall|m: int| 0 <= m < t.len() ==> item_key(#[trigger] t[m]) != k,
    ensures
        with_key(t, k) == Seq::<ItemV>::empty(),
    decreases t.len(),
{
    if t.len() > 0 {
        assert(forall|m: int| 0 <= m < t.len() - 1 ==> t.skip(1)[m] == t[m + 1]);
        lemma_with_key_none(t.skip(1), k);
    }
}

/// The sort is ordered and stable: the output is sorted most recent first,
/// and the items of any one key keep their input order.
pub proof fn lemma_sort_desc_stable(s: Seq<ItemV>, k: Option<i64>)
    ensures
        sorted_desc(sort_desc(s)),
        sort_desc(s).len() == s.len(),
        with_key(sort_desc(s), k) == with_key(s, k),
    decreases s.len(),
{
    if s.len() > 0 {
        lemma_sort_desc_stable(s.drop_last(), k);
        lemma_insert_desc_sorted(s.last(), sort_desc(s.drop_last()));
        lemma_insert_with_key(s.last(), sort_desc(s.drop_last()), k);
        lemma_with_key_snoc(s.drop_last(), s.last(), k);
        assert(s.drop_last().push(s.last()) =~= s);
    }
}

/// Inserting at the first position whose element sorts strictly later than
/// `x` is what `insert_desc` does.
proof fn lemma_insert_desc_at(x: ItemV, t: Seq<ItemV>, p: int)
    requires
        0 <= p <= t.len(),
        forall|m: int| 0 <= m < p ==> key_ge(item_key(#[trigger] t[m]), item_key(x)),
        p == t.len() || !key_ge(item_key(t[p]), item_key(x)),
    ensures
        insert_desc(x, t) == t.insert(p, x),
    decreases p,
{
    if p == 0 {
        assert(insert_desc(x, t) == seq![x] + t);
        assert(seq![x] + t =~= t.insert(0, x));
    } else {
        assert(key_ge(item_key(t[0]), item_key(x)));
        assert(forall|m: int| 0 <= m < t.len() - 1 ==> t.skip(1)[m] == t[m + 1]);
        lemma_insert_desc_at(x, t.skip(1), p - 1);
        assert(insert_desc(x, t) == seq![t[0]] + t.skip(1).insert(p - 1, x));
        assert(seq![t[0]] + t.skip(1).insert(p - 1, x) =~= t.insert(p, x));
    }
}

/// Decides `key_ge`.
fn key_ge_exec(a: &Option<i64>, b: &Option<i64>) -> (r: bool)
    ensures
        r == key_ge(*a, *b),
{
    match (a, b) {
        (None, None) => true,
        (Some(_), None) => true,
        (None, Some(_)) => false,
        (Some(x), Some(y)) => *x >= *y,
    }
}

/// Sorts items by publication timestamp, most recent first, stably:
/// equal and missing timestamps keep their input order.
pub fn sort_items_by_published(items: &Vec<Item>) -> (r: Vec<Item>)
    ensures
        r.deep_view() == sort_desc(items.deep_view()),
{
    let mut r: Vec<Item> = Vec::new();
    let mut idx: usize = 0;
    proof {
        assert(items.deep_view().take(0) =~= Seq::<ItemV>::empty());
    }
    while idx < items.len()
        invariant
            idx <= items.len(),
            r.len() == idx,
            r.deep_view() == sort_desc(items.deep_view().take(idx as int)),
        decreases items.len() - idx,
    {
        let ghost t = r.deep_view();
        let x = items[idx].clone();
        let ghost xv = x.deep_view();
        let kx = x.get_published_timestamp();
        let mut p: usize = 0;
        while p < r.len() && key_ge_exec(&r[p].get_published_timestamp(), &kx)
            invariant
                p <= r.len(),
                kx == item_key(xv),
                t == r.deep_view(),
                r.len() == t.len(),
                forall|m: int| 0 <= m < p ==> key_ge(item_key(#[trigger] t[m]), item_key(xv)),
            decreases r.len() - p,
        {
            p += 1;
        }
        let ghost prev = r.deep_view();
        r.insert(p, x);
        proof {
            lemma_insert_desc_at(xv, t, p as int);
            assert(r@.len() == t.len() + 1);
            assert forall|k: int| 0 <= k < r@.len() implies r.deep_view()[k] == t.insert(
                p as int,
                xv,
            )[k] by {
                if k < p {
                    assert(r@[k] == r@.insert(p as int, x)[k]);
                    assert(r.deep_view()[k] == r@[k].deep_view());
                } else if k == p {
                    assert(r@[k] == x);
                } else {
                    assert(r.deep_view()[k] == r@[k].deep_view());
                }
            }
            assert(r.deep_view() =~= t.insert(p as int, xv));
            assert(items.deep_view().take(idx + 1).drop_last() =~= items.deep_view().take(
                idx as int,
            ));
            assert(items.deep_view().take(idx + 1).last() == xv);
        }
        idx += 1;
    }
    proof {
        assert(items.deep_view().take(items.len() as int) =~= items.deep_view());
    }
    r
}

} // verus!
