//! The merge engine: reconciles freshly parsed items against the stored
//! item sequence of the same source, keyed by `guid`. Stored items keep
//! their position and are overwritten in place; unmatched incoming items
//! are appended in incoming order.

use vstd::prelude::*;
use crate::structs::{Channel, ChannelV, Db, DbV, FeedOptions, FeedOptionsV, FeedSource,
    FeedSourceV, Item, ItemV, Rss, RssV, update_item};

verus! {

/// Some item of `items` carries guid `g`.
pub open spec fn has_guid(items: Seq<ItemV>, g: Seq<char>) -> bool {
    exists|i: int| 0 <= i < items.len() && items[i].guid == g
}

/// First index of `ns` whose item carries guid `g`, or `-1`.
pub open spec fn find_guid(ns: Seq<ItemV>, g: Seq<char>) -> int
    decreases ns.len(),
{
    if ns.len() == 0 {
        -1
    } else if ns[0].guid == g {
        0
    } else {
        let r = find_guid(ns.skip(1), g);
        if r < 0 {
            -1
        } else {
            r + 1
        }
    }
}

/// What `find_guid` returns: the first position carrying `g`, or `-1` when
/// no position does.
pub proof fn lemma_find_guid(ns: Seq<ItemV>, g: Seq<char>)
    ensures
        find_guid(ns, g) >= 0 ==> {
            &&& find_guid(ns, g) < ns.len()
            &&& ns[find_guid(ns, g)].guid == g
            &&& forall|m: int| 0 <= m < find_guid(ns, g) ==> ns[m].guid != g
        },
        find_guid(ns, g) < 0 ==> forall|m: int| 0 <= m < ns.len() ==> ns[m].guid != g,
    decreases ns.len(),
{
    if ns.len() > 0 && ns[0].guid != g {
        lemma_find_guid(ns.skip(1), g);
        assert(forall|m: int| 1 <= m < ns.len() ==> ns[m] == ns.skip(1)[m - 1]);
    }
}

/// Every stored item carrying `b`'s guid overwritten with `b`'s content.
pub open spec fn update_all(items: Seq<ItemV>, b: ItemV) -> Seq<ItemV> {
    items.map_values(
        |a: ItemV|
            if a.guid == b.guid {
                update_item(a, b)
            } else {
                a
            },
    )
}

/// One incoming item merged into the stored sequence: an overwrite when its
/// guid is present, an append when it is not.
pub open spec fn merge_step(items: Seq<ItemV>, b: ItemV) -> Seq<ItemV> {
    if has_guid(items, b.guid) {
        update_all(items, b)
    } else {
        items.push(b)
    }
}

/// The incoming sequence merged into the stored sequence, item by item,
/// left to right.
pub open spec fn merge_lists(items: Seq<ItemV>, news: Seq<ItemV>) -> Seq<ItemV>
    decreases news.len(),
{
    if news.len() == 0 {
        items
    } else {
        merge_lists(merge_step(items, news[0]), news.skip(1))
    }
}

/// No two items of `ns` share a guid, as items of one canonical feed do
/// not.
pub open spec fn unique_guids(ns: Seq<ItemV>) -> bool {
    forall|p: int, q: int| 0 <= p < q < ns.len() ==> ns[p].guid != ns[q].guid
}

/// The incoming items whose guid is absent from `s`, in incoming order.
pub open spec fn fresh_items(ns: Seq<ItemV>, s: Seq<ItemV>) -> Seq<ItemV>
    decreases ns.len(),
{
    if ns.len() == 0 {
        Seq::empty()
    } else if has_guid(s, ns[0].guid) {
        fresh_items(ns.skip(1), s)
    } else {
        seq![ns[0]] + fresh_items(ns.skip(1), s)
    }
}

/// Merging one item keeps the length when its guid is stored, and the
/// updated sequence keeps every guid in place.
proof fn lemma_update_all_pointwise(s: Seq<ItemV>, b: ItemV)
    ensures
        update_all(s, b).len() == s.len(),
        forall|k: int| 0 <= k < s.len() ==> (#[trigger] update_all(s, b)[k]).guid == s[k].guid,
        forall|k: int|
            0 <= k < s.len() ==> update_all(s, b)[k] == (if s[k].guid == b.guid {
                update_item(s[k], b)
            } else {
                s[k]
            }),
        forall|g: Seq<char>| has_guid(update_all(s, b), g) <==> #[trigger] has_guid(s, g),
{
    assert forall|g: Seq<char>| has_guid(update_all(s, b), g) <==> #[trigger] has_guid(
        s,
        g,
    ) by {
        if has_guid(s, g) {
            let w = choose|i: int| 0 <= i < s.len() && s[i].guid == g;
            assert(update_all(s, b)[w].guid == g);
        }
        if has_guid(update_all(s, b), g) {
            let w = choose|i: int|
                0 <= i < update_all(s, b).len() && update_all(s, b)[i].guid == g;
            assert(s[w].guid == g);
        }
    }
}

/// Two stored sequences holding the same incoming guids leave the same
/// incoming items fresh.
proof fn lemma_fresh_items_same(ns: Seq<ItemV>, s1: Seq<ItemV>, s2: Seq<ItemV>)
    requires
        forall|k: int|
            0 <= k < ns.len() ==> (has_guid(s1, #[trigger] ns[k].guid) <==> has_guid(
                s2,
                ns[k].guid,
            )),
    ensures
        fresh_items(ns, s1) == fresh_items(ns, s2),
    decreases ns.len(),
{
    if ns.len() > 0 {
        assert(forall|k: int| 0 <= k < ns.len() - 1 ==> ns.skip(1)[k] == ns[k + 1]);
        lemma_fresh_items_same(ns.skip(1), s1, s2);
    }
}

/// Every fresh item is one of the incoming items.
proof fn lemma_fresh_items_members(ns: Seq<ItemV>, s: Seq<ItemV>)
    ensures
        forall|m: int|
            0 <= m < fresh_items(ns, s).len() ==> exists|j: int|
                0 <= j < ns.len() && #[trigger] fresh_items(ns, s)[m] == ns[j],
    decreases ns.len(),
{
    if ns.len() > 0 {
        lemma_fresh_items_members(ns.skip(1), s);
        assert forall|m: int| 0 <= m < fresh_items(ns, s).len() implies exists|j: int|
            0 <= j < ns.len() && #[trigger] fresh_items(ns, s)[m] == ns[j] by {
            if has_guid(s, ns[0].guid) {
                let j1 = choose|j: int|
                    0 <= j < ns.skip(1).len() && fresh_items(ns.skip(1), s)[m] == ns.skip(1)[j];
                assert(fresh_items(ns, s)[m] == ns[j1 + 1]);
            } else {
                if m == 0 {
                    assert(fresh_items(ns, s)[0] == ns[0]);
                } else {
                    let j1 = choose|j: int|
                        0 <= j < ns.skip(1).len() && fresh_items(ns.skip(1), s)[m - 1] == ns.skip(
                            1,
                        )[j];
                    assert(fresh_items(ns, s)[m] == fresh_items(ns.skip(1), s)[m - 1]);
                    assert(fresh_items(ns, s)[m] == ns[j1 + 1]);
                }
            }
        }
    }
}

/// An incoming item whose guid is absent from `s` appears among the fresh
/// items.
proof fn lemma_fresh_items_complete(ns: Seq<ItemV>, s: Seq<ItemV>, j: int)
    requires
        0 <= j < ns.len(),
        !has_guid(s, ns[j].guid),
    ensures
        exists|m: int| 0 <= m < fresh_items(ns, s).len() && #[trigger] fresh_items(ns, s)[m]
            == ns[j],
    decreases ns.len(),
{
    if j == 0 {
        assert(fresh_items(ns, s)[0] == ns[0]);
    } else {
        lemma_fresh_items_complete(ns.skip(1), s, j - 1);
        let m1 = choose|m: int|
            0 <= m < fresh_items(ns.skip(1), s).len() && #[trigger] fresh_items(ns.skip(1), s)[m]
                == ns.skip(1)[j - 1];
        if has_guid(s, ns[0].guid) {
            assert(fresh_items(ns, s)[m1] == ns[j]);
        } else {
            assert(fresh_items(ns, s)[m1 + 1] == ns[j]);
        }
    }
}

/// What merging does, position by position: stored items keep their index,
/// are overwritten by the unique incoming item sharing their guid when one
/// exists, and the incoming items with unmatched guids stand appended, in
/// incoming order.
pub proof fn lemma_merge_characterization(s: Seq<ItemV>, ns: Seq<ItemV>)
    requires
        unique_guids(ns),
    ensures
        merge_lists(s, ns).len() == s.len() + fresh_items(ns, s).len(),
        forall|k: int|
            0 <= k < s.len() ==> merge_lists(s, ns)[k] == ({
                let j = find_guid(ns, s[k].guid);
                if j >= 0 {
                    update_item(s[k], ns[j])
                } else {
                    s[k]
                }
            }),
        merge_lists(s, ns).skip(s.len() as int) == fresh_items(ns, s),
    decreases ns.len(),
{
    if ns.len() == 0 {
        assert(merge_lists(s, ns) == s);
        assert(s.skip(s.len() as int) =~= Seq::<ItemV>::empty());
        assert(forall|k: int|
            0 <= k < s.len() ==> find_guid(ns, (#[trigger] s[k]).guid) < 0);
    } else {
        let b = ns[0];
        let rest = ns.skip(1);
        assert(unique_guids(rest)) by {
            assert(forall|p: int, q: int|
                0 <= p < q < rest.len() ==> rest[p] == ns[p + 1] && rest[q] == ns[q + 1]);
        }
        assert(forall|m: int| 0 <= m < rest.len() ==> rest[m] == ns[m + 1]);
        assert(forall|m: int| 0 <= m < rest.len() ==> (#[trigger] rest[m]).guid != b.guid);
        if has_guid(s, b.guid) {
            let s1 = update_all(s, b);
            lemma_update_all_pointwise(s, b);
            lemma_merge_characterization(s1, rest);
            assert(merge_lists(s, ns) == merge_lists(s1, rest));
            lemma_fresh_items_same(rest, s1, s);
            assert(fresh_items(ns, s) == fresh_items(rest, s));
            // positions of stored items
            assert forall|k: int| 0 <= k < s.len() implies merge_lists(s, ns)[k] == ({
                let j = find_guid(ns, s[k].guid);
                if j >= 0 {
                    update_item(s[k], ns[j])
                } else {
                    s[k]
                }
            }) by {
                let g = s[k].guid;
                lemma_find_guid(rest, g);
                lemma_find_guid(ns, g);
                if g == b.guid {
                    assert(find_guid(ns, g) == 0);
                    assert(find_guid(rest, g) < 0) by {
                        if find_guid(rest, g) >= 0 {
                            assert(rest[find_guid(rest, g)].guid == g);
                        }
                    }
                    assert(s1[k] == update_item(s[k], b));
                    assert(merge_lists(s1, rest)[k] == s1[k]);
                } else {
                    assert(s1[k] == s[k]);
                    let jr = find_guid(rest, g);
                    if jr >= 0 {
                        assert(find_guid(ns, g) == jr + 1);
                        assert(ns[jr + 1] == rest[jr]);
                        assert(merge_lists(s1, rest)[k] == update_item(s[k], rest[jr]));
                    } else {
                        assert(find_guid(ns, g) < 0) by {
                            if find_guid(ns, g) >= 0 {
                                let f = find_guid(ns, g);
                                assert(ns[f].guid == g);
                                if f >= 1 {
                                    assert(rest[f - 1].guid == g);
                                }
                            }
                        }
                        assert(merge_lists(s1, rest)[k] == s[k]);
                    }
                }
            }
            assert(merge_lists(s, ns).skip(s.len() as int) == fresh_items(ns, s));
        } else {
            let s1 = s.push(b);
            lemma_merge_characterization(s1, rest);
            assert(merge_lists(s, ns) == merge_lists(s1, rest));
            assert(forall|k: int|
                0 <= k < rest.len() ==> (has_guid(s1, #[trigger] rest[k].guid) <==> has_guid(
                    s,
                    rest[k].guid,
                ))) by {
                assert forall|k: int| 0 <= k < rest.len() implies (has_guid(
                    s1,
                    #[trigger] rest[k].guid,
                ) <==> has_guid(s, rest[k].guid)) by {
                    let g = rest[k].guid;
                    if has_guid(s, g) {
                        let w = choose|i: int| 0 <= i < s.len() && s[i].guid == g;
                        assert(s1[w].guid == g);
                    }
                    if has_guid(s1, g) {
                        let w = choose|i: int| 0 <= i < s1.len() && s1[i].guid == g;
                        assert(w < s.len()) by {
                            if w == s.len() {
                                assert(s1[w] == b);
                            }
                        }
                        assert(s[w].guid == g);
                    }
                }
            }
            lemma_fresh_items_same(rest, s1, s);
            assert(fresh_items(ns, s) == seq![b] + fresh_items(rest, s));
            assert(fresh_items(rest, s1) == fresh_items(rest, s));
            // positions of stored items
            assert forall|k: int| 0 <= k < s.len() implies merge_lists(s, ns)[k] == ({
                let j = find_guid(ns, s[k].guid);
                if j >= 0 {
                    update_item(s[k], ns[j])
                } else {
                    s[k]
                }
            }) by {
                let g = s[k].guid;
                assert(s1[k] == s[k]);
                lemma_find_guid(rest, g);
                lemma_find_guid(ns, g);
                assert(g != b.guid);
                let jr = find_guid(rest, g);
                if jr >= 0 {
                    assert(find_guid(ns, g) == jr + 1);
                    assert(ns[jr + 1] == rest[jr]);
                    assert(merge_lists(s1, rest)[k] == update_item(s[k], rest[jr]));
                } else {
                    assert(find_guid(ns, g) < 0) by {
                        if find_guid(ns, g) >= 0 {
                            let f = find_guid(ns, g);
                            assert(ns[f].guid == g);
                            if f >= 1 {
                                assert(rest[f - 1].guid == g);
                            }
                        }
                    }
                    assert(merge_lists(s1, rest)[k] == s[k]);
                }
            }
            // the appended item keeps b's content
            assert(merge_lists(s1, rest)[s.len() as int] == b) by {
                let g = b.guid;
                assert(s1[s.len() as int] == b);
                lemma_find_guid(rest, g);
                if find_guid(rest, g) >= 0 {
                    assert(rest[find_guid(rest, g)].guid == g);
                }
            }
            assert(merge_lists(s, ns).skip(s.len() as int) =~= seq![b] + fresh_items(
                rest,
                s1,
            )) by {
                assert(merge_lists(s1, rest).skip(s1.len() as int) == fresh_items(rest, s1));
                assert(forall|m: int|
                    0 <= m < fresh_items(rest, s1).len() ==> #[trigger] fresh_items(rest, s1)[m]
                        == merge_lists(s1, rest)[s1.len() + m]);
            }
            assert(merge_lists(s, ns).skip(s.len() as int) == fresh_items(ns, s));
        }
    }
}

/// GUID join: a stored item and an incoming item with equal guid merge into
/// the incoming item's content fields, standing at the stored item's
/// original position.
pub proof fn lemma_merge_guid_join(s: Seq<ItemV>, ns: Seq<ItemV>, i: int, j: int)
    requires
        unique_guids(ns),
        0 <= i < s.len(),
        0 <= j < ns.len(),
        s[i].guid == ns[j].guid,
    ensures
        merge_lists(s, ns).len() >= s.len(),
        merge_lists(s, ns)[i] == update_item(s[i], ns[j]),
        merge_lists(s, ns)[i].guid == s[i].guid,
{
    lemma_merge_characterization(s, ns);
    lemma_find_guid(ns, s[i].guid);
    let f = find_guid(ns, s[i].guid);
    assert(f >= 0) by {
        if f < 0 {
            assert(ns[j].guid != s[i].guid);
        }
    }
    assert(f == j) by {
        if f < j {
            assert(ns[f].guid == ns[j].guid);
        }
        if f > j {
            assert(ns[j].guid != s[i].guid);
        }
    }
}

/// New-item append: incoming items whose guid matches no stored item stand
/// after all originally stored items, in incoming order, and stored items
/// keep their positions and guids.
pub proof fn lemma_merge_appends_new(s: Seq<ItemV>, ns: Seq<ItemV>)
    requires
        unique_guids(ns),
    ensures
        merge_lists(s, ns).len() == s.len() + fresh_items(ns, s).len(),
        merge_lists(s, ns).skip(s.len() as int) == fresh_items(ns, s),
        forall|k: int|
            0 <= k < s.len() ==> (#[trigger] merge_lists(s, ns)[k]).guid == s[k].guid,
        forall|j: int|
            0 <= j < ns.len() && !has_guid(s, (#[trigger] ns[j]).guid) ==> exists|m: int|
                0 <= m < fresh_items(ns, s).len() && fresh_items(ns, s)[m] == ns[j],
{
    lemma_merge_characterization(s, ns);
    assert forall|k: int| 0 <= k < s.len() implies (#[trigger] merge_lists(s, ns)[k]).guid
        == s[k].guid by {
        let j = find_guid(ns, s[k].guid);
        if j >= 0 {
            assert(merge_lists(s, ns)[k] == update_item(s[k], ns[j]));
        }
    }
    assert forall|j: int|
        0 <= j < ns.len() && !has_guid(s, (#[trigger] ns[j]).guid) implies exists|m: int|
        0 <= m < fresh_items(ns, s).len() && fresh_items(ns, s)[m] == ns[j] by {
        lemma_fresh_items_complete(ns, s, j);
    }
}

/// Merge idempotence: merging one canonical feed twice leaves the state the
/// first merge produced.
pub proof fn lemma_merge_idempotent(s: Seq<ItemV>, ns: Seq<ItemV>)
    requires
        unique_guids(ns),
    ensures
        merge_lists(merge_lists(s, ns), ns) == merge_lists(s, ns),
{
    let t = merge_lists(s, ns);
    lemma_merge_characterization(s, ns);
    lemma_fresh_items_members(ns, s);
    // every incoming guid is stored after the first merge
    assert forall|j: int| 0 <= j < ns.len() implies has_guid(t, (#[trigger] ns[j]).guid) by {
        let g = ns[j].guid;
        if has_guid(s, g) {
            let w = choose|i: int| 0 <= i < s.len() && s[i].guid == g;
            let jw = find_guid(ns, s[w].guid);
            if jw >= 0 {
                assert(t[w] == update_item(s[w], ns[jw]));
                assert(t[w].guid == g);
            } else {
                assert(t[w] == s[w]);
            }
        } else {
            lemma_fresh_items_complete(ns, s, j);
            let m = choose|m: int|
                0 <= m < fresh_items(ns, s).len() && #[trigger] fresh_items(ns, s)[m] == ns[j];
            assert(t[s.len() + m] == fresh_items(ns, s)[m]) by {
                assert(t.skip(s.len() as int)[m] == t[s.len() + m]);
            }
            assert(t[s.len() + m].guid == g);
        }
    }
    // so nothing is fresh for the second merge
    lemma_fresh_none(ns, t);
    lemma_merge_characterization(t, ns);
    let t2 = merge_lists(t, ns);
    assert(t2.len() == t.len());
    assert forall|k: int| 0 <= k < t.len() implies t2[k] == t[k] by {
        let g = t[k].guid;
        let j = find_guid(ns, g);
        lemma_find_guid(ns, g);
        if j >= 0 {
            assert(t2[k] == update_item(t[k], ns[j]));
            if k < s.len() {
                let j0 = find_guid(ns, s[k].guid);
                lemma_find_guid(ns, s[k].guid);
                if j0 >= 0 {
                    assert(t[k] == update_item(s[k], ns[j0]));
                    assert(t[k].guid == s[k].guid);
                    assert(j == j0);
                    assert(update_item(update_item(s[k], ns[j0]), ns[j0]) =~= update_item(
                        s[k],
                        ns[j0],
                    ));
                } else {
                    assert(t[k] == s[k]);
                    assert(ns[j].guid == s[k].guid);
                }
            } else {
                let m = k - s.len();
                assert(t.skip(s.len() as int)[m] == t[k]);
                assert(t[k] == fresh_items(ns, s)[m]);
                let jf = choose|jj: int|
                    0 <= jj < ns.len() && #[trigger] fresh_items(ns, s)[m] == ns[jj];
                assert(t[k] == ns[jf]);
                assert(j == jf) by {
                    if j < jf {
                        assert(ns[j].guid == ns[jf].guid);
                    }
                    if j > jf {
                        assert(ns[jf].guid == g);
                    }
                }
                assert(update_item(ns[jf], ns[jf]) =~= ns[jf]);
            }
        }
    }
    assert(t2 =~= t);
}

/// With every incoming guid already stored, nothing is fresh.
proof fn lemma_fresh_none(ns: Seq<ItemV>, t: Seq<ItemV>)
    requires
        forall|j: int| 0 <= j < ns.len() ==> has_guid(t, (#[trigger] ns[j]).guid),
    ensures
        fresh_items(ns, t).len() == 0,
    decreases ns.len(),
{
    if ns.len() > 0 {
        assert(forall|m: int| 0 <= m < ns.len() - 1 ==> ns.skip(1)[m] == ns[m + 1]);
        lemma_fresh_none(ns.skip(1), t);
    }
}

// ---------------------------------------------------------------------------
// Executable merge
// ---------------------------------------------------------------------------

/// A stored item sequence that can absorb a batch of incoming items.
pub trait CombineItemLists {
    /// Merges `new_items` into this sequence, keyed by guid.
    fn update_list_by_guids(&mut self, new_items: Vec<Item>);
}

impl CombineItemLists for Vec<Item> {
    /// Merges `new_items` into the stored sequence: items sharing a guid
    /// are overwritten in place, the rest are appended in incoming order.
    fn update_list_by_guids(&mut self, new_items: Vec<Item>)
        ensures
            final(self).deep_view() == merge_lists(old(self).deep_view(), new_items.deep_view()),
    {
        let ghost orig = self.deep_view();
        let ghost newsv = new_items.deep_view();
        let mut n: usize = 0;
        proof {
            assert(newsv.take(0) =~= Seq::<ItemV>::empty());
        }
        while n < new_items.len()
            invariant
                n <= new_items.len(),
                newsv == new_items.deep_view(),
                self.deep_view() == merge_lists(orig, newsv.take(n as int)),
            decreases new_items.len() - n,
        {
            let ghost cur = self.deep_view();
            let ghost bv = new_items.deep_view()[n as int];
            let new_item = &new_items[n];
            let mut is_new = true;
            let mut updated: Vec<Item> = Vec::new();
            let mut i: usize = 0;
            while i < self.len()
                invariant
                    i <= self.len(),
                    cur == self.deep_view(),
                    cur.len() == self.len(),
                    bv == new_item.deep_view(),
                    updated.len() == i,
                    is_new <==> !has_guid(cur.take(i as int), bv.guid),
                    forall|k: int|
                        0 <= k < i ==> #[trigger] updated.deep_view()[k] == (if cur[k].guid
                            == bv.guid {
                            update_item(cur[k], bv)
                        } else {
                            cur[k]
                        }),
                decreases self.len() - i,
            {
                let ghost pre = updated.deep_view();
                if self[i].guid == new_item.guid {
                    is_new = false;
                    let mut u = self[i].clone();
                    u.update(new_item.clone());
                    updated.push(u);
                    proof {
                        assert(has_guid(cur.take(i + 1), bv.guid)) by {
                            assert(cur.take(i + 1)[i as int].guid == bv.guid);
                        }
                    }
                } else {
                    updated.push(self[i].clone());
                    proof {
                        if !has_guid(cur.take(i as int), bv.guid) {
                            assert(!has_guid(cur.take(i + 1), bv.guid)) by {
                                if has_guid(cur.take(i + 1), bv.guid) {
                                    let w = choose|k: int|
                                        0 <= k < i + 1 && (#[trigger] cur.take(i + 1)[k]).guid
                                            == bv.guid;
                                    if w < i {
                                        assert(cur.take(i as int)[w].guid == bv.guid);
                                    } else {
                                        assert(cur[i as int].guid == bv.guid);
                                    }
                                }
                            }
                        } else {
                            let w = choose|k: int|
                                0 <= k < i && (#[trigger] cur.take(i as int)[k]).guid == bv.guid;
                            assert(cur.take(i + 1)[w].guid == bv.guid);
                        }
                    }
                }
                proof {
                    assert(updated@.len() == i + 1);
                    assert(forall|k: int|
                        0 <= k < i ==> #[trigger] updated.deep_view()[k] == pre[k]);
                    assert(updated.deep_view()[i as int] == updated@[i as int].deep_view());
                }
                i += 1;
            }
            proof {
                assert(cur.take(cur.len() as int) =~= cur);
                lemma_update_all_pointwise(cur, bv);
            }
            if is_new {
                self.push(new_item.clone());
                proof {
                    assert(self.deep_view() =~~= cur.push(bv));
                    assert(!has_guid(cur, bv.guid));
                    assert(self.deep_view() == merge_step(cur, bv));
                }
            } else {
                *self = updated;
                proof {
                    assert(has_guid(cur, bv.guid));
                    assert(self.deep_view() =~~= update_all(cur, bv));
                    assert(self.deep_view() == merge_step(cur, bv));
                }
            }
            proof {
                lemma_merge_snoc(orig, newsv.take(n as int), bv);
                assert(newsv.take(n + 1) =~= newsv.take(n as int).push(bv));
            }
            n += 1;
        }
        proof {
            assert(newsv.take(newsv.len() as int) =~= newsv);
        }
    }
}

// ---------------------------------------------------------------------------
// Ingest: the feed state store
// ---------------------------------------------------------------------------

/// First index of the slot stored for `url`, or `-1`.
pub open spec fn find_slot(slots: Seq<FeedSourceV>, url: Seq<char>) -> int
    decreases slots.len(),
{
    if slots.len() == 0 {
        -1
    } else if slots[0].url == url {
        0
    } else {
        let r = find_slot(slots.skip(1), url);
        if r < 0 {
            -1
        } else {
            r + 1
        }
    }
}

/// What `find_slot` returns: the first slot stored for `url`, or `-1` when
/// none is.
pub proof fn lemma_find_slot(slots: Seq<FeedSourceV>, url: Seq<char>)
    ensures
        find_slot(slots, url) >= 0 ==> {
            &&& find_slot(slots, url) < slots.len()
            &&& slots[find_slot(slots, url)].url == url
            &&& forall|m: int| 0 <= m < find_slot(slots, url) ==> slots[m].url != url
        },
        find_slot(slots, url) < 0 ==> forall|m: int| 0 <= m < slots.len() ==> slots[m].url != url,
    decreases slots.len(),
{
    if slots.len() > 0 && slots[0].url != url {
        lemma_find_slot(slots.skip(1), url);
        assert(forall|m: int| 1 <= m < slots.len() ==> slots[m] == slots.skip(1)[m - 1]);
    }
}

/// No two slots of the store name the same source URL: the key property
/// the store's mapping from source URL to state rests on.
pub open spec fn unique_urls(slots: Seq<FeedSourceV>) -> bool {
    forall|p: int, q: int| 0 <= p < q < slots.len() ==> slots[p].url != slots[q].url
}

/// Ingest keeps source URLs unique: it updates the slot stored for the
/// URL in place, or appends a slot for a URL no slot had.
pub proof fn lemma_ingest_preserves_unique_urls(db: DbV, url: Seq<char>, rss: RssV)
    requires
        unique_urls(db.rss),
    ensures
        unique_urls(ingest_v(db, url, rss).rss),
{
    let j = find_slot(db.rss, url);
    lemma_find_slot(db.rss, url);
    let d1 = ingest_v(db, url, rss);
    if j >= 0 {
        assert forall|p: int, q: int| 0 <= p < q < d1.rss.len() implies d1.rss[p].url
            != d1.rss[q].url by {
            assert(d1.rss[p].url == db.rss[p].url);
            assert(d1.rss[q].url == db.rss[q].url);
        }
    } else {
        let n = db.rss.len() as int;
        assert forall|p: int, q: int| 0 <= p < q < d1.rss.len() implies d1.rss[p].url
            != d1.rss[q].url by {
            if q < n {
                assert(d1.rss[p] == db.rss[p]);
                assert(d1.rss[q] == db.rss[q]);
            } else {
                assert(d1.rss[p] == db.rss[p]);
                assert(db.rss[p].url != url);
                assert(d1.rss[q] == new_slot(url, rss));
            }
        }
    }
}

/// A source's stored state after one ingest: items merged by guid, the
/// stored source title and link overwritten with the incoming feed's
/// current values, everything else kept.
pub open spec fn ingest_slot(opt: FeedOptionsV, rss: RssV) -> FeedOptionsV {
    FeedOptionsV {
        rss: RssV {
            channel: ChannelV {
                title: rss.channel.title,
                link: rss.channel.link,
                item: merge_lists(opt.rss.channel.item, rss.channel.item),
            },
            ..opt.rss
        },
        title: rss.channel.title,
        link: rss.channel.link,
        ..opt
    }
}

/// The slot created for a newly seen source: the parsed feed as its state,
/// no transform command, and every entry retained.
pub open spec fn new_slot(url: Seq<char>, rss: RssV) -> FeedSourceV {
    FeedSourceV {
        url: url,
        options: FeedOptionsV {
            rss: rss,
            manipulate_input: Seq::empty(),
            retain_all_entries: true,
            title: rss.channel.title,
            link: rss.channel.link,
        },
    }
}

/// The store after ingesting one parsed feed for `url`: the slot stored
/// for `url` updated in place, or a new slot appended.
pub open spec fn ingest_v(db: DbV, url: Seq<char>, rss: RssV) -> DbV {
    let j = find_slot(db.rss, url);
    if j >= 0 {
        DbV {
            rss: db.rss.update(
                j,
                FeedSourceV { url: db.rss[j].url, options: ingest_slot(db.rss[j].options, rss) },
            ),
            ..db
        }
    } else {
        DbV { rss: db.rss.push(new_slot(url, rss)), ..db }
    }
}

impl Db {
    /// Merges one freshly parsed canonical feed into the slot stored for
    /// `url`, creating the slot when the source is new. Stored items keep
    /// their positions; the stored source title and link follow the
    /// incoming feed.
    pub fn ingest(&mut self, url: String, rss: Rss)
        ensures
            final(self).deep_view() == ingest_v(old(self).deep_view(), url@, rss.deep_view()),
            unique_urls(old(self).deep_view().rss) ==> unique_urls(final(self).deep_view().rss),
    {
        proof {
            if unique_urls(old(self).deep_view().rss) {
                lemma_ingest_preserves_unique_urls(
                    old(self).deep_view(),
                    url@,
                    rss.deep_view(),
                );
            }
        }
        let ghost dbv = old(self).deep_view();
        let ghost slots = old(self).rss.deep_view();
        let ghost rssv = rss.deep_view();
        let mut j: usize = 0;
        while j < self.rss.len() && !(self.rss[j].url == url)
            invariant
                j <= self.rss.len(),
                *self == *old(self),
                forall|m: int| 0 <= m < j ==> (#[trigger] slots[m]).url != url@,
                slots == self.rss.deep_view(),
                self.rss.len() == slots.len(),
            decreases self.rss.len() - j,
        {
            proof {
                assert(slots[j as int] == self.rss@[j as int].deep_view());
            }
            j += 1;
        }
        proof {
            lemma_find_slot(slots, url@);
        }
        if j < self.rss.len() {
            proof {
                assert(slots[j as int] == self.rss@[j as int].deep_view());
                assert(slots[j as int].url == url@);
                let f = find_slot(slots, url@);
                assert(f == j) by {
                    if f < 0 {
                        assert(slots[j as int].url != url@);
                    } else {
                        if f < j {
                            assert(slots[f].url != url@);
                        }
                        if f > j {
                            assert(slots[j as int].url != url@);
                        }
                    }
                }
            }
            let mut slot = self.rss.remove(j);
            let ghost slotv = slot.deep_view();
            let Rss { channel, .. } = rss;
            let Channel { title, link, item } = channel;
            slot.options.rss.channel.item.update_list_by_guids(item);
            slot.options.rss.channel.title = title.clone();
            slot.options.rss.channel.link = link.clone();
            slot.options.title = title;
            slot.options.link = link;
            self.rss.insert(j, slot);
            proof {
                assert(slotv == slots[j as int]);
                let target = FeedSourceV {
                    url: slots[j as int].url,
                    options: ingest_slot(slots[j as int].options, rssv),
                };
                assert forall|k: int| 0 <= k < self.rss@.len() implies self.rss.deep_view()[k]
                    == slots.update(j as int, target)[k] by {
                    assert(self.rss.deep_view()[k] == self.rss@[k].deep_view());
                    if k < j {
                        assert(self.rss@[k] == old(self).rss@[k]);
                    } else if k > j {
                        assert(self.rss@[k] == old(self).rss@[k]);
                    } else {
                        assert(self.rss@[k].deep_view() =~~= target);
                    }
                }
                assert(self.rss.deep_view() =~= slots.update(j as int, target));
                assert(self.deep_view() =~~= ingest_v(dbv, url@, rssv));
            }
        } else {
            proof {
                let f = find_slot(slots, url@);
                if f >= 0 {
                    assert(slots[f].url == url@);
                }
                assert(f < 0);
            }
            let title = rss.channel.title.clone();
            let link = rss.channel.link.clone();
            self.rss.push(
                FeedSource {
                    url,
                    options: FeedOptions {
                        rss,
                        manipulate_input: String::new(),
                        retain_all_entries: true,
                        title,
                        link,
                    },
                },
            );
            proof {
                assert forall|k: int| 0 <= k < self.rss@.len() implies self.rss.deep_view()[k]
                    == slots.push(new_slot(url@, rssv))[k] by {
                    assert(self.rss.deep_view()[k] == self.rss@[k].deep_view());
                    if k < slots.len() {
                        assert(self.rss@[k] == old(self).rss@[k]);
                    } else {
                        assert(self.rss@[k].deep_view() =~~= new_slot(url@, rssv));
                    }
                }
                assert(self.rss.deep_view() =~= slots.push(new_slot(url@, rssv)));
                assert(self.deep_view() =~~= ingest_v(dbv, url@, rssv));
            }
        }
    }
}

/// Nothing is stored, so every incoming item is fresh.
proof fn lemma_fresh_of_empty(ns: Seq<ItemV>)
    ensures
        fresh_items(ns, Seq::empty()) == ns,
    decreases ns.len(),
{
    if ns.len() > 0 {
        lemma_fresh_of_empty(ns.skip(1));
        assert(seq![ns[0]] + ns.skip(1) =~= ns);
    }
}

/// Merging into an empty store appends the whole canonical feed.
pub proof fn lemma_merge_into_empty(ns: Seq<ItemV>)
    requires
        unique_guids(ns),
    ensures
        merge_lists(Seq::empty(), ns) == ns,
{
    lemma_merge_characterization(Seq::empty(), ns);
    lemma_fresh_of_empty(ns);
    let m = merge_lists(Seq::<ItemV>::empty(), ns);
    assert(m.skip(0) =~= m);
    assert(m == ns);
}

/// Merging a canonical feed into itself leaves it unchanged.
pub proof fn lemma_merge_self(ns: Seq<ItemV>)
    requires
        unique_guids(ns),
    ensures
        merge_lists(ns, ns) == ns,
{
    lemma_merge_into_empty(ns);
    lemma_merge_idempotent(Seq::empty(), ns);
}

/// Ingest idempotence at the store: ingesting the same canonical feed into
/// the same source twice yields the state one ingest produced.
pub proof fn lemma_ingest_idempotent(db: DbV, url: Seq<char>, rss: RssV)
    requires
        unique_guids(rss.channel.item),
    ensures
        ingest_v(ingest_v(db, url, rss), url, rss) == ingest_v(db, url, rss),
{
    let d1 = ingest_v(db, url, rss);
    let j = find_slot(db.rss, url);
    lemma_find_slot(db.rss, url);
    lemma_find_slot(d1.rss, url);
    if j >= 0 {
        let slot1 = FeedSourceV {
            url: db.rss[j].url,
            options: ingest_slot(db.rss[j].options, rss),
        };
        assert(d1.rss == db.rss.update(j, slot1));
        assert(find_slot(d1.rss, url) == j) by {
            let f = find_slot(d1.rss, url);
            assert(d1.rss[j].url == url);
            if f < 0 {
            } else {
                if f < j {
                    assert(d1.rss[f] == db.rss[f]);
                    assert(db.rss[f].url != url);
                }
                if f > j {
                    assert(d1.rss[j].url != url);
                }
            }
        }
        lemma_merge_idempotent(db.rss[j].options.rss.channel.item, rss.channel.item);
        let slot2 = FeedSourceV {
            url: d1.rss[j].url,
            options: ingest_slot(d1.rss[j].options, rss),
        };
        assert(d1.rss[j] == slot1);
        assert(slot2 =~~= slot1);
        assert(d1.rss.update(j, slot2) =~= d1.rss);
        assert(ingest_v(d1, url, rss) =~~= d1);
    } else {
        let n = db.rss.len() as int;
        let slot1 = new_slot(url, rss);
        assert(d1.rss == db.rss.push(slot1));
        assert(find_slot(d1.rss, url) == n) by {
            let f = find_slot(d1.rss, url);
            assert(d1.rss[n].url == url);
            if f < 0 {
            } else {
                if f < n {
                    assert(d1.rss[f] == db.rss[f]);
                    assert(db.rss[f].url != url);
                }
            }
        }
        lemma_merge_self(rss.channel.item);
        let slot2 = FeedSourceV {
            url: d1.rss[n].url,
            options: ingest_slot(d1.rss[n].options, rss),
        };
        assert(d1.rss[n] == slot1);
        assert(slot2 =~~= slot1);
        assert(d1.rss.update(n, slot2) =~= d1.rss);
        assert(ingest_v(d1, url, rss) =~~= d1);
    }
}

/// Merging one more incoming item merges it into the result of merging the
/// items before it.
pub proof fn lemma_merge_snoc(s: Seq<ItemV>, ns: Seq<ItemV>, b: ItemV)
    ensures
        merge_lists(s, ns.push(b)) == merge_step(merge_lists(s, ns), b),
    decreases ns.len(),
{
    if ns.len() == 0 {
        assert(ns.push(b)[0] == b);
        assert(ns.push(b).skip(1) =~= Seq::<ItemV>::empty());
        assert(merge_lists(merge_step(s, b), Seq::<ItemV>::empty()) == merge_step(s, b));
    } else {
        lemma_merge_snoc(merge_step(s, ns[0]), ns.skip(1), b);
        assert(ns.push(b)[0] == ns[0]);
        assert(ns.push(b).skip(1) =~= ns.skip(1).push(b));
    }
}

} // verus!
