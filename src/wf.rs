//! The invariant of the store and the facts that carry it across each
//! operation: names are counted, positions compared.

use vstd::prelude::*;
use crate::closure::{negate, select};
use crate::node::BarNode;
use crate::state::{
    Layout,
    add_error,
    bound,
    first_beyond,
    first_group_of,
    group_of,
    insert_all,
    lemma_locate_none,
    locate,
    drop_names,
    removed_names,
    all_nodes,
    migrated,
    named_flags,
    relocated,
    reposition,
    set_outcome,
    sorted_by_position,
    staying,
    with_added,
    with_migrated,
    with_removed,
};
use crate::closure::closure;
use crate::props::Property;
use crate::resolve::{lemma_resolve_keeps_identity, resolve};

verus! {

/// How many nodes of `s` are named `x`.
pub open spec fn count_named(s: Seq<BarNode>, x: Seq<char>) -> nat
    decreases s.len(),
{
    if s.len() == 0 {
        0
    } else {
        count_named(s.drop_last(), x) + if s.last().name@ == x {
            1nat
        } else {
            0nat
        }
    }
}

/// How many nodes of the store are named `x`, over all displays.
pub open spec fn count_in_layout(l: Layout, x: Seq<char>) -> nat
    decreases l.len(),
{
    if l.len() == 0 {
        0
    } else {
        count_in_layout(l.drop_last(), x) + count_named(l.last().1, x)
    }
}

/// Whether the store is well formed: one collection per display, every
/// node in the collection of its own display, each collection sorted by
/// position, and no name borne by two nodes, whatever their displays.
pub open spec fn layout_wf(l: Layout) -> bool {
    &&& forall|i: int, j: int| 0 <= i < j < l.len() ==> l[i].0 != l[j].0
    &&& forall|i: int, k: int|
        0 <= i < l.len() && 0 <= k < l[i].1.len() ==> #[trigger] l[i].1[k].display == l[i].0
    &&& forall|i: int| 0 <= i < l.len() ==> sorted_by_position(#[trigger] l[i].1)
    &&& forall|x: Seq<char>| #[trigger] count_in_layout(l, x) <= 1
}

/// `1` where `n` is named `x`, else `0`.
pub open spec fn named(n: BarNode, x: Seq<char>) -> nat {
    if n.name@ == x {
        1
    } else {
        0
    }
}

/// Counting over two sequences one after the other adds the counts.
pub proof fn lemma_count_concat(a: Seq<BarNode>, b: Seq<BarNode>, x: Seq<char>)
    ensures
        count_named(a + b, x) == count_named(a, x) + count_named(b, x),
    decreases b.len(),
{
    if b.len() > 0 {
        lemma_count_concat(a, b.drop_last(), x);
        assert((a + b).drop_last() =~= a + b.drop_last());
    } else {
        assert(a + b =~= a);
    }
}

/// Inserting a node adds one to the count of its name.
pub proof fn lemma_count_insert(s: Seq<BarNode>, u: int, n: BarNode, x: Seq<char>)
    requires
        0 <= u <= s.len(),
    ensures
        count_named(s.insert(u, n), x) == count_named(s, x) + named(n, x),
{
    assert(s.insert(u, n) =~= s.take(u) + seq![n] + s.skip(u));
    assert(s =~= s.take(u) + s.skip(u));
    lemma_count_concat(s.take(u) + seq![n], s.skip(u), x);
    lemma_count_concat(s.take(u), seq![n], x);
    lemma_count_concat(s.take(u), s.skip(u), x);
    assert(seq![n].drop_last() =~= Seq::<BarNode>::empty());
    assert(count_named(Seq::<BarNode>::empty(), x) == 0);
    assert(count_named(seq![n], x) == named(n, x));
}

/// Removing a node takes one from the count of its name.
pub proof fn lemma_count_remove(s: Seq<BarNode>, k: int, x: Seq<char>)
    requires
        0 <= k < s.len(),
    ensures
        count_named(s.remove(k), x) + named(s[k], x) == count_named(s, x),
{
    assert(s.remove(k).insert(k, s[k]) =~= s);
    lemma_count_insert(s.remove(k), k, s[k], x);
}

/// The selected and the unselected nodes share the counts between them.
pub proof fn lemma_count_select(s: Seq<BarNode>, keep: Seq<bool>, x: Seq<char>)
    requires
        keep.len() == s.len(),
    ensures
        count_named(select(s, keep), x) + count_named(select(s, negate(keep)), x) == count_named(
            s,
            x,
        ),
    decreases s.len(),
{
    if s.len() > 0 {
        let t = s.drop_last();
        lemma_count_select(t, keep.drop_last(), x);
        lemma_select_flags(t, keep, keep.drop_last());
        lemma_select_flags(t, negate(keep), negate(keep.drop_last()));
        let y = s.last();
        if keep[s.len() - 1] {
            assert(select(s, keep).drop_last() =~= select(t, keep));
            assert(select(s, keep).last() == y);
            assert(select(s, negate(keep)) == select(t, negate(keep)));
        } else {
            assert(select(s, negate(keep)).drop_last() =~= select(t, negate(keep)));
            assert(select(s, negate(keep)).last() == y);
            assert(select(s, keep) == select(t, keep));
        }
    }
}

/// Selection reads only the flags of the nodes selected from.
pub proof fn lemma_select_flags(t: Seq<BarNode>, a: Seq<bool>, b: Seq<bool>)
    requires
        a.len() >= t.len(),
        b.len() >= t.len(),
        forall|j: int| 0 <= j < t.len() ==> a[j] == b[j],
    ensures
        select(t, a) == select(t, b),
    decreases t.len(),
{
    if t.len() > 0 {
        lemma_select_flags(t.drop_last(), a, b);
    }
}

/// Changing displays leaves names, and so counts, alone.
pub proof fn lemma_count_relocated(s: Seq<BarNode>, to: u32, x: Seq<char>)
    ensures
        count_named(relocated(s, to), x) == count_named(s, x),
    decreases s.len(),
{
    if s.len() > 0 {
        lemma_count_relocated(s.drop_last(), to, x);
        assert(relocated(s, to).drop_last() =~= relocated(s.drop_last(), to));
    }
}

/// Inserting nodes one by one adds their counts.
pub proof fn lemma_count_insert_all(t: Seq<BarNode>, m: Seq<BarNode>, x: Seq<char>)
    ensures
        count_named(insert_all(t, m), x) == count_named(t, x) + count_named(m, x),
    decreases m.len(),
{
    if m.len() > 0 {
        lemma_count_insert_all(t, m.drop_last(), x);
        let u = insert_all(t, m.drop_last());
        lemma_bound_range(u, m.last().position, true);
        lemma_count_insert(u, bound(u, m.last().position, true), m.last(), x);
    }
}

/// Replacing one collection changes the store's count by the difference
/// of the collections' counts.
pub proof fn lemma_count_layout_update(l: Layout, i: int, g: (u32, Seq<BarNode>), x: Seq<char>)
    requires
        0 <= i < l.len(),
    ensures
        count_in_layout(l.update(i, g), x) + count_named(l[i].1, x) == count_in_layout(l, x)
            + count_named(g.1, x),
    decreases l.len(),
{
    if i < l.len() - 1 {
        lemma_count_layout_update(l.drop_last(), i, g, x);
        assert(l.update(i, g).drop_last() =~= l.drop_last().update(i, g));
    } else {
        assert(l.update(i, g).drop_last() =~= l.drop_last());
    }
}

/// Dropping a collection takes its count from the store's.
pub proof fn lemma_count_layout_remove(l: Layout, i: int, x: Seq<char>)
    requires
        0 <= i < l.len(),
    ensures
        count_in_layout(l.remove(i), x) + count_named(l[i].1, x) == count_in_layout(l, x),
    decreases l.len(),
{
    if i < l.len() - 1 {
        lemma_count_layout_remove(l.drop_last(), i, x);
        assert(l.remove(i).drop_last() =~= l.drop_last().remove(i));
    } else {
        assert(l.remove(i) =~= l.drop_last());
    }
}

/// Adding a collection adds its count to the store's.
pub proof fn lemma_count_layout_push(l: Layout, g: (u32, Seq<BarNode>), x: Seq<char>)
    ensures
        count_in_layout(l.push(g), x) == count_in_layout(l, x) + count_named(g.1, x),
{
    assert(l.push(g).drop_last() =~= l);
}

/// The nodes of one collection are counted in the store's count.
pub proof fn lemma_count_group_le(l: Layout, i: int, x: Seq<char>)
    requires
        0 <= i < l.len(),
    ensures
        count_named(l[i].1, x) <= count_in_layout(l, x),
    decreases l.len(),
{
    if i < l.len() - 1 {
        lemma_count_group_le(l.drop_last(), i, x);
    }
}

/// A node of a collection is counted under its name.
pub proof fn lemma_count_member(s: Seq<BarNode>, k: int)
    requires
        0 <= k < s.len(),
    ensures
        count_named(s, s[k].name@) >= 1,
{
    lemma_count_remove(s, k, s[k].name@);
}

/// The bound lies within the collection; the nodes before it are at most
/// (or below) the position, the node at it beyond.
pub proof fn lemma_bound_range(s: Seq<BarNode>, p: i32, strict: bool)
    ensures
        0 <= bound(s, p, strict) <= s.len(),
        forall|j: int|
            0 <= j < bound(s, p, strict) ==> if strict {
                s[j].position <= p
            } else {
                s[j].position < p
            },
        bound(s, p, strict) < s.len() ==> if strict {
            s[bound(s, p, strict)].position > p
        } else {
            s[bound(s, p, strict)].position >= p
        },
{
    if exists|k: int| first_beyond(s, p, strict, k) {
        let c = choose|k: int| first_beyond(s, p, strict, k);
        assert(first_beyond(s, p, strict, c));
    } else {
        assert forall|j: int|
            0 <= j < s.len() implies if strict {
            s[j].position <= p
        } else {
            s[j].position < p
        } by {
            if !(if strict {
                s[j].position <= p
            } else {
                s[j].position < p
            }) {
                lemma_first_beyond_exists(s, p, strict, j);
            }
        }
    }
}

proof fn lemma_first_beyond_exists(s: Seq<BarNode>, p: i32, strict: bool, k: int)
    requires
        0 <= k < s.len(),
        if strict {
            s[k].position > p
        } else {
            s[k].position >= p
        },
    ensures
        exists|c: int| first_beyond(s, p, strict, c),
    decreases k,
{
    if exists|j: int|
        0 <= j < k && if strict {
            s[j].position > p
        } else {
            s[j].position >= p
        } {
        let j = choose|j: int|
            0 <= j < k && if strict {
                s[j].position > p
            } else {
                s[j].position >= p
            };
        lemma_first_beyond_exists(s, p, strict, j);
    } else {
        assert(first_beyond(s, p, strict, k));
    }
}

/// Inserting at the bound keeps a sorted collection sorted.
pub proof fn lemma_insert_sorted(s: Seq<BarNode>, n: BarNode, strict: bool)
    requires
        sorted_by_position(s),
    ensures
        sorted_by_position(s.insert(bound(s, n.position, strict), n)),
{
    lemma_bound_range(s, n.position, strict);
    let u = bound(s, n.position, strict);
    let r = s.insert(u, n);
    assert forall|i: int, j: int| 0 <= i < j < r.len() implies r[i].position <= r[j].position by {
        if j < u {
        } else if j == u {
        } else if i < u {
            assert(s[u].position >= n.position || u == s.len());
        } else if i == u {
            assert(s[u].position >= n.position);
            assert(s[u].position <= s[j - 1].position || j - 1 == u);
        } else {
        }
    }
}

/// Removing a node keeps a collection sorted.
pub proof fn lemma_remove_sorted(s: Seq<BarNode>, k: int)
    requires
        sorted_by_position(s),
        0 <= k < s.len(),
    ensures
        sorted_by_position(s.remove(k)),
{
    let r = s.remove(k);
    assert forall|i: int, j: int| 0 <= i < j < r.len() implies r[i].position <= r[j].position by {
        let a = if i < k {
            i
        } else {
            i + 1
        };
        let b = if j < k {
            j
        } else {
            j + 1
        };
        assert(r[i] == s[a] && r[j] == s[b]);
    }
}

/// Selecting nodes keeps a collection sorted, and every selected node is a
/// node of the collection.
pub proof fn lemma_select_sorted(s: Seq<BarNode>, keep: Seq<bool>)
    requires
        sorted_by_position(s),
        keep.len() >= s.len(),
    ensures
        sorted_by_position(select(s, keep)),
        forall|j: int|
            0 <= j < select(s, keep).len() ==> exists|m: int|
                0 <= m < s.len() && #[trigger] select(s, keep)[j] == s[m],
    decreases s.len(),
{
    if s.len() > 0 {
        let t = s.drop_last();
        lemma_select_sorted(t, keep);
        let r = select(t, keep);
        if keep[s.len() - 1] {
            assert forall|i: int, j: int|
                0 <= i < j < r.len() + 1 implies r.push(s.last())[i].position <= r.push(
                s.last(),
            )[j].position by {
                if j == r.len() {
                    let m = choose|m: int| 0 <= m < t.len() && r[i] == t[m];
                    assert(s[m] == t[m]);
                }
            }
            assert forall|j: int| 0 <= j < r.len() + 1 implies exists|m: int|
                0 <= m < s.len() && #[trigger] r.push(s.last())[j] == s[m] by {
                if j == r.len() {
                    assert(r.push(s.last())[j] == s[s.len() - 1]);
                } else {
                    let m = choose|m: int| 0 <= m < t.len() && r[j] == t[m];
                    assert(r.push(s.last())[j] == s[m]);
                }
            }
        } else {
            assert forall|j: int| 0 <= j < r.len() implies exists|m: int|
                0 <= m < s.len() && #[trigger] r[j] == s[m] by {
                let m = choose|m: int| 0 <= m < t.len() && r[j] == t[m];
                assert(r[j] == s[m]);
            }
        }
    }
}

proof fn lemma_count_named_zero(s: Seq<BarNode>, x: Seq<char>)
    requires
        forall|k: int| 0 <= k < s.len() ==> s[k].name@ != x,
    ensures
        count_named(s, x) == 0,
    decreases s.len(),
{
    if s.len() > 0 {
        lemma_count_named_zero(s.drop_last(), x);
    }
}

/// A name that no node bears is counted zero times.
pub proof fn lemma_count_zero(l: Layout, x: Seq<char>)
    requires
        forall|i: int, k: int|
            0 <= i < l.len() && 0 <= k < l[i].1.len() ==> l[i].1[k].name@ != x,
    ensures
        count_in_layout(l, x) == 0,
    decreases l.len(),
{
    if l.len() > 0 {
        lemma_count_zero(l.drop_last(), x);
        let s = l.last().1;
        assert forall|k: int| 0 <= k < s.len() implies s[k].name@ != x by {
            assert(l[l.len() - 1].1[k] == s[k]);
        }
        lemma_count_named_zero(s, x);
    }
}

proof fn lemma_first_group_of_exists(l: Layout, d: u32, i: int)
    requires
        0 <= i < l.len(),
        l[i].0 == d,
    ensures
        group_of(l, d) is Some,
    decreases i,
{
    if exists|j: int| 0 <= j < i && l[j].0 == d {
        let j = choose|j: int| 0 <= j < i && l[j].0 == d;
        lemma_first_group_of_exists(l, d, j);
    } else {
        assert(first_group_of(l, d, i));
    }
}

/// What `group_of` gives is the index of a collection of that display;
/// where it gives none, no collection is of that display.
pub proof fn lemma_group_of(l: Layout, d: u32)
    ensures
        group_of(l, d) matches Some(i) ==> 0 <= i < l.len() && l[i].0 == d,
        group_of(l, d) is None ==> forall|i: int| 0 <= i < l.len() ==> l[i].0 != d,
{
    if exists|i: int| first_group_of(l, d, i) {
        let c = choose|i: int| first_group_of(l, d, i);
        assert(first_group_of(l, d, c));
    } else {
        assert forall|i: int| 0 <= i < l.len() implies l[i].0 != d by {
            if l[i].0 == d {
                lemma_first_group_of_exists(l, d, i);
            }
        }
    }
}

/// Putting a node whose name no node bears into the collection of its
/// display keeps the store well formed.
pub proof fn lemma_with_added_wf(l: Layout, n: BarNode)
    requires
        layout_wf(l),
        count_in_layout(l, n.name@) == 0,
    ensures
        layout_wf(with_added(l, n)),
{
    let l2 = with_added(l, n);
    lemma_group_of(l, n.display);
    match group_of(l, n.display) {
        Some(i) => {
            let t = l[i].1;
            lemma_bound_range(t, n.position, true);
            let u = bound(t, n.position, true);
            let ins = t.insert(u, n);
            assert(l2 == l.update(i, (l[i].0, ins)));
            lemma_insert_sorted(t, n, true);
            assert forall|a: int, k: int|
                0 <= a < l2.len() && 0 <= k < l2[a].1.len() implies #[trigger] l2[a].1[k].display
                == l2[a].0 by {
                if a == i {
                    if k < u {
                        assert(ins[k] == t[k]);
                    } else if k > u {
                        assert(ins[k] == t[k - 1]);
                    }
                }
            }
            assert forall|a: int| 0 <= a < l2.len() implies sorted_by_position(#[trigger] l2[a].1) by {
                if a == i {
                } else {
                    assert(l2[a] == l[a]);
                }
            }
            assert forall|x: Seq<char>| #[trigger] count_in_layout(l2, x) <= 1 by {
                lemma_count_layout_update(l, i, (l[i].0, ins), x);
                lemma_count_insert(t, u, n, x);
                assert(count_in_layout(l, x) <= 1);
            }
        },
        None => {
            let g = (n.display, seq![n]);
            assert(l2 == l.push(g));
            assert forall|x: Seq<char>| #[trigger] count_in_layout(l2, x) <= 1 by {
                lemma_count_layout_push(l, g, x);
                assert(seq![n].drop_last() =~= Seq::<BarNode>::empty());
                assert(count_named(Seq::<BarNode>::empty(), x) == 0);
                assert(count_in_layout(l, x) <= 1);
            }
            assert forall|a: int| 0 <= a < l2.len() implies sorted_by_position(#[trigger] l2[a].1) by {
                if a < l.len() {
                    assert(l2[a] == l[a]);
                }
            }
        },
    }
}

/// A node that the store accepts leaves it well formed.
pub proof fn lemma_add_wf(l: Layout, n: BarNode)
    requires
        layout_wf(l),
        add_error(l, n) is None,
    ensures
        layout_wf(with_added(l, n)),
{
    assert(locate(l, n.name@) is None);
    lemma_locate_none(l, n.name@);
    lemma_count_zero(l, n.name@);
    lemma_with_added_wf(l, n);
}

/// Whether every node of `s` lies on display `d`.
pub open spec fn all_on(s: Seq<BarNode>, d: u32) -> bool {
    forall|k: int| 0 <= k < s.len() ==> #[trigger] s[k].display == d
}

/// Replacing the nodes of one collection by nodes of the same display,
/// sorted, and with no name counted more often, keeps the store well
/// formed.
pub proof fn lemma_replace_group_wf(l: Layout, i: int, t: Seq<BarNode>)
    requires
        layout_wf(l),
        0 <= i < l.len(),
        sorted_by_position(t),
        all_on(t, l[i].0),
        forall|x: Seq<char>| #[trigger] count_named(t, x) <= count_named(l[i].1, x),
    ensures
        layout_wf(l.update(i, (l[i].0, t))),
{
    let l2 = l.update(i, (l[i].0, t));
    assert forall|a: int| 0 <= a < l2.len() implies sorted_by_position(#[trigger] l2[a].1) by {
        if a != i {
            assert(l2[a] == l[a]);
        }
    }
    assert forall|x: Seq<char>| #[trigger] count_in_layout(l2, x) <= 1 by {
        lemma_count_layout_update(l, i, (l[i].0, t), x);
        assert(count_in_layout(l, x) <= 1);
        assert(count_named(t, x) <= count_named(l[i].1, x));
    }
}

/// Dropping a collection keeps the store well formed.
pub proof fn lemma_remove_group_wf(l: Layout, i: int)
    requires
        layout_wf(l),
        0 <= i < l.len(),
    ensures
        layout_wf(l.remove(i)),
{
    let l2 = l.remove(i);
    assert forall|a: int, b: int| 0 <= a < b < l2.len() implies l2[a].0 != l2[b].0 by {
        let a2 = if a < i {
            a
        } else {
            a + 1
        };
        let b2 = if b < i {
            b
        } else {
            b + 1
        };
        assert(l2[a] == l[a2] && l2[b] == l[b2]);
    }
    assert forall|a: int, k: int|
        0 <= a < l2.len() && 0 <= k < l2[a].1.len() implies #[trigger] l2[a].1[k].display
        == l2[a].0 by {
        let a2 = if a < i {
            a
        } else {
            a + 1
        };
        assert(l2[a] == l[a2]);
    }
    assert forall|a: int| 0 <= a < l2.len() implies sorted_by_position(#[trigger] l2[a].1) by {
        let a2 = if a < i {
            a
        } else {
            a + 1
        };
        assert(l2[a] == l[a2]);
    }
    assert forall|x: Seq<char>| #[trigger] count_in_layout(l2, x) <= 1 by {
        lemma_count_layout_remove(l, i, x);
        assert(count_in_layout(l, x) <= 1);
    }
}

/// Taking named nodes from every display keeps the store well formed.
pub proof fn lemma_drop_names_wf(l: Layout, r: Set<Seq<char>>)
    requires
        layout_wf(l),
    ensures
        layout_wf(drop_names(l, r)),
{
    let l2 = drop_names(l, r);
    assert forall|g: int| 0 <= g < l2.len() implies sorted_by_position(#[trigger] l2[g].1)
        && all_on(l2[g].1, l2[g].0) by {
        let s = l[g].1;
        let f = Seq::new(s.len(), |j: int| !r.contains(s[j].name@));
        lemma_select_sorted(s, f);
        assert forall|j: int| 0 <= j < l2[g].1.len() implies #[trigger] l2[g].1[j].display
            == l2[g].0 by {
            let m = choose|m: int| 0 <= m < s.len() && select(s, f)[j] == s[m];
        }
    }
    assert forall|g: int, k: int|
        0 <= g < l2.len() && 0 <= k < l2[g].1.len() implies #[trigger] l2[g].1[k].display
        == l2[g].0 by {
        assert(all_on(l2[g].1, l2[g].0));
    }
    assert forall|x: Seq<char>| #[trigger] count_in_layout(l2, x) <= 1 by {
        lemma_count_drop(l, r, x);
        assert(count_in_layout(l, x) <= 1);
    }
}

proof fn lemma_count_drop(l: Layout, r: Set<Seq<char>>, x: Seq<char>)
    ensures
        count_in_layout(drop_names(l, r), x) <= count_in_layout(l, x),
    decreases l.len(),
{
    if l.len() > 0 {
        lemma_count_drop(l.drop_last(), r, x);
        assert(drop_names(l, r).drop_last() =~= drop_names(l.drop_last(), r));
        let s = l.last().1;
        let f = Seq::new(s.len(), |j: int| !r.contains(s[j].name@));
        lemma_count_select(s, f, x);
    }
}

/// Removing a node, with a container its descendants, keeps the store
/// well formed.
pub proof fn lemma_remove_wf(l: Layout, i: int, k: int)
    requires
        layout_wf(l),
        0 <= i < l.len(),
        0 <= k < l[i].1.len(),
    ensures
        layout_wf(with_removed(l, i, k)),
{
    lemma_drop_names_wf(l, removed_names(l, i, k));
}

/// Two collections are counted in the store's count together.
pub proof fn lemma_count_two_groups(l: Layout, g: int, i: int, x: Seq<char>)
    requires
        0 <= g < l.len(),
        0 <= i < l.len(),
        g != i,
    ensures
        count_named(l[g].1, x) + count_named(l[i].1, x) <= count_in_layout(l, x),
    decreases l.len(),
{
    let last = l.len() - 1;
    if g == last {
        lemma_count_group_le(l.drop_last(), i, x);
    } else if i == last {
        lemma_count_group_le(l.drop_last(), g, x);
    } else {
        lemma_count_two_groups(l.drop_last(), g, i, x);
    }
}

/// A node of a well-formed store is the only one with its name.
pub proof fn lemma_named_once(l: Layout, i: int, k: int)
    requires
        layout_wf(l),
        0 <= i < l.len(),
        0 <= k < l[i].1.len(),
    ensures
        count_in_layout(l, l[i].1[k].name@) == 1,
        count_named(l[i].1, l[i].1[k].name@) == 1,
{
    let x = l[i].1[k].name@;
    lemma_count_member(l[i].1, k);
    lemma_count_group_le(l, i, x);
    assert(count_in_layout(l, x) <= 1);
}

/// A successful update keeps the store well formed.
pub proof fn lemma_set_wf(
    l: Layout,
    i: int,
    k: int,
    req: Option<Option<u32>>,
    props: Seq<Property>,
    main: u32,
)
    requires
        layout_wf(l),
        0 <= i < l.len(),
        0 <= k < l[i].1.len(),
    ensures
        set_outcome(l, i, k, req, props, main) matches Ok((l2, _)) ==> layout_wf(l2),
{
    let n = l[i].1[k];
    let n1 = match req {
        Some(t) => BarNode { display_explicit: t is Some, ..n },
        None => n,
    };
    lemma_resolve_keeps_identity(n1, props);
    if let Ok(n2) = resolve(n1, props) {
        let target = match req {
            Some(Some(d)) => d,
            Some(None) => main,
            None => l[i].0,
        };
        if target != l[i].0 {
            lemma_set_move_wf(l, i, k, BarNode { display: target, ..n2 });
        } else {
            lemma_set_in_place_wf(l, i, k, n2);
        }
    }
}

proof fn lemma_rest_facts(l: Layout, i: int, k: int)
    requires
        layout_wf(l),
        0 <= i < l.len(),
        0 <= k < l[i].1.len(),
    ensures
        sorted_by_position(l[i].1.remove(k)),
        all_on(l[i].1.remove(k), l[i].0),
        forall|y: Seq<char>| #[trigger] count_named(l[i].1.remove(k), y) + named(l[i].1[k], y) == count_named(l[i].1, y),
{
    let s = l[i].1;
    let rest = s.remove(k);
    lemma_remove_sorted(s, k);
    assert forall|j: int| 0 <= j < rest.len() implies #[trigger] rest[j].display == l[i].0 by {
        if j < k {
            assert(rest[j] == s[j]);
        } else {
            assert(rest[j] == s[j + 1]);
        }
    }
    assert forall|y: Seq<char>| #[trigger] count_named(rest, y) + named(s[k], y) == count_named(s, y) by {
        lemma_count_remove(s, k, y);
    }
}

proof fn lemma_set_move_wf(l: Layout, i: int, k: int, moved: BarNode)
    requires
        layout_wf(l),
        0 <= i < l.len(),
        0 <= k < l[i].1.len(),
        moved.name == l[i].1[k].name,
    ensures
        layout_wf(with_added(l.update(i, (l[i].0, l[i].1.remove(k))), moved)),
{
    let s = l[i].1;
    let rest = s.remove(k);
    let x = moved.name@;
    lemma_rest_facts(l, i, k);
    lemma_named_once(l, i, k);
    lemma_replace_group_wf(l, i, rest);
    lemma_count_layout_update(l, i, (l[i].0, rest), x);
    lemma_with_added_wf(l.update(i, (l[i].0, rest)), moved);
}

proof fn lemma_reposition_shape(s: Seq<BarNode>, k: int, n2: BarNode) -> (u: int)
    requires
        sorted_by_position(s),
        0 <= k < s.len(),
    ensures
        0 <= u <= s.len() - 1,
        reposition(s, k, n2) == s.remove(k).insert(u, n2),
        sorted_by_position(reposition(s, k, n2)),
{
    let rest = s.remove(k);
    lemma_remove_sorted(s, k);
    if n2.position == s[k].position {
        let t = s.update(k, n2);
        assert(t =~= rest.insert(k, n2));
        assert forall|a: int, b: int| 0 <= a < b < t.len() implies t[a].position <= t[b].position by {
            assert(s[a].position == t[a].position);
            assert(s[b].position == t[b].position);
        }
        k
    } else {
        let strict = n2.position < s[k].position;
        lemma_insert_sorted(rest, n2, strict);
        lemma_bound_range(rest, n2.position, strict);
        bound(rest, n2.position, strict)
    }
}

proof fn lemma_set_in_place_wf(l: Layout, i: int, k: int, n2: BarNode)
    requires
        layout_wf(l),
        0 <= i < l.len(),
        0 <= k < l[i].1.len(),
        n2.name == l[i].1[k].name,
        n2.display == l[i].0,
    ensures
        layout_wf(l.update(i, (l[i].0, reposition(l[i].1, k, n2)))),
{
    let s = l[i].1;
    let rest = s.remove(k);
    lemma_rest_facts(l, i, k);
    let u = lemma_reposition_shape(s, k, n2);
    let t = reposition(s, k, n2);
    assert forall|j: int| 0 <= j < t.len() implies #[trigger] t[j].display == l[i].0 by {
        if j < u {
            assert(t[j] == rest[j]);
        } else if j > u {
            assert(t[j] == rest[j - 1]);
        }
    }
    assert forall|y: Seq<char>| #[trigger] count_named(t, y) <= count_named(s, y) by {
        lemma_count_insert(rest, u, n2, y);
    }
    lemma_replace_group_wf(l, i, t);
}

/// Inserting nodes of one display one by one into a sorted collection of
/// that display keeps it sorted and on that display.
pub proof fn lemma_insert_all_wf(t: Seq<BarNode>, m: Seq<BarNode>, d: u32)
    requires
        sorted_by_position(t),
        all_on(t, d),
        all_on(m, d),
    ensures
        sorted_by_position(insert_all(t, m)),
        all_on(insert_all(t, m), d),
    decreases m.len(),
{
    if m.len() > 0 {
        lemma_insert_all_wf(t, m.drop_last(), d);
        let r = insert_all(t, m.drop_last());
        let y = m.last();
        lemma_insert_sorted(r, y, true);
        lemma_bound_range(r, y.position, true);
        let u = bound(r, y.position, true);
        let q = r.insert(u, y);
        assert(m[m.len() - 1] == y);
        assert forall|j: int| 0 <= j < q.len() implies #[trigger] q[j].display == d by {
            if j < u {
                assert(q[j] == r[j]);
            } else if j > u {
                assert(q[j] == r[j - 1]);
            }
        }
    }
}

/// Migration keeps the store well formed.
pub proof fn lemma_migrate_wf(l: Layout, from: u32, to: u32)
    requires
        layout_wf(l),
    ensures
        layout_wf(with_migrated(l, from, to)),
{
    lemma_group_of(l, from);
    if let Some(i) = group_of(l, from) {
        let s = l[i].1;
        let st = staying(s);
        let kept = select(s, st);
        let gone = select(s, negate(st));
        let m = migrated(l, from, to);
        assert(m == relocated(gone, to));
        lemma_select_sorted(s, st);
        assert forall|j: int| 0 <= j < kept.len() implies #[trigger] kept[j].display == l[i].0 by {
            let q = choose|q: int| 0 <= q < s.len() && kept[j] == s[q];
        }
        let l1 = if kept.len() == 0 {
            l.remove(i)
        } else {
            l.update(i, (l[i].0, kept))
        };
        if kept.len() == 0 {
            lemma_remove_group_wf(l, i);
        } else {
            assert forall|x: Seq<char>| #[trigger] count_named(kept, x) <= count_named(s, x) by {
                lemma_count_select(s, st, x);
            }
            lemma_replace_group_wf(l, i, kept);
        }
        assert forall|x: Seq<char>| count_in_layout(l1, x) + count_named(m, x) == count_in_layout(l, x) by {
            lemma_count_select(s, st, x);
            lemma_count_relocated(gone, to, x);
            if kept.len() == 0 {
                lemma_count_layout_remove(l, i, x);
                assert(count_named(kept, x) == 0);
            } else {
                lemma_count_layout_update(l, i, (l[i].0, kept), x);
            }
        }
        assert(all_on(m, to));
        lemma_group_of(l1, to);
        let l2 = with_migrated(l, from, to);
        match group_of(l1, to) {
            Some(j) => {
                let t = l1[j].1;
                assert(sorted_by_position(t));
                assert(all_on(t, to));
                lemma_insert_all_wf(t, m, to);
                assert forall|x: Seq<char>| #[trigger] count_named(insert_all(t, m), x) <= 1 + count_named(t, x) && count_in_layout(l2, x) <= 1 by {
                    lemma_count_insert_all(t, m, x);
                    lemma_count_layout_update(l1, j, (l1[j].0, insert_all(t, m)), x);
                    assert(count_in_layout(l, x) <= 1);
                }
                lemma_replace_group_wf_loose(l1, j, insert_all(t, m), l2);
            },
            None => {
                let e = Seq::<BarNode>::empty();
                lemma_insert_all_wf(e, m, to);
                let g = (to, insert_all(e, m));
                assert(l2 == l1.push(g));
                assert forall|x: Seq<char>| #[trigger] count_in_layout(l2, x) <= 1 by {
                    lemma_count_insert_all(e, m, x);
                    lemma_count_layout_push(l1, g, x);
                    assert(count_named(e, x) == 0);
                    assert(count_in_layout(l, x) <= 1);
                }
                assert forall|a: int| 0 <= a < l2.len() implies sorted_by_position(#[trigger] l2[a].1) by {
                    if a < l1.len() {
                        assert(l2[a] == l1[a]);
                    }
                }
            },
        }
    }
}

/// Replacing the nodes of one collection by sorted nodes of its display
/// keeps the store well formed where names stay counted at most once.
proof fn lemma_replace_group_wf_loose(l: Layout, i: int, t: Seq<BarNode>, l2: Layout)
    requires
        layout_wf(l),
        0 <= i < l.len(),
        sorted_by_position(t),
        all_on(t, l[i].0),
        l2 == l.update(i, (l[i].0, t)),
        forall|x: Seq<char>| #[trigger] count_in_layout(l2, x) <= 1,
    ensures
        layout_wf(l2),
{
    assert forall|a: int| 0 <= a < l2.len() implies sorted_by_position(#[trigger] l2[a].1) by {
        if a != i {
            assert(l2[a] == l[a]);
        }
    }
}

/// Counting names over all the nodes is counting them display by display.
pub proof fn lemma_count_all_nodes(l: Layout, x: Seq<char>)
    ensures
        count_named(all_nodes(l), x) == count_in_layout(l, x),
    decreases l.len(),
{
    if l.len() > 0 {
        lemma_count_all_nodes(l.drop_last(), x);
        lemma_count_concat(all_nodes(l.drop_last()), l.last().1, x);
    } else {
        assert(all_nodes(l).len() == 0);
    }
}

/// The nodes of `s` named `x` are as many as `count_named` says, and each
/// is a node of `s` named `x`.
pub proof fn lemma_select_named(s: Seq<BarNode>, x: Seq<char>)
    ensures
        select(s, named_flags(s, x)).len() == count_named(s, x),
        forall|j: int|
            0 <= j < select(s, named_flags(s, x)).len() ==> exists|m: int|
                0 <= m < s.len() && #[trigger] select(s, named_flags(s, x))[j] == s[m] && s[m].name@
                    == x,
    decreases s.len(),
{
    if s.len() > 0 {
        let t = s.drop_last();
        lemma_select_named(t, x);
        lemma_select_flags(t, named_flags(s, x), named_flags(t, x));
        let r = select(t, named_flags(t, x));
        let q = select(s, named_flags(s, x));
        if s.last().name@ == x {
            assert(q == r.push(s.last()));
            assert forall|j: int| 0 <= j < q.len() implies exists|m: int|
                0 <= m < s.len() && #[trigger] q[j] == s[m] && s[m].name@ == x by {
                if j == r.len() {
                    assert(q[j] == s[s.len() - 1]);
                } else {
                    let m = choose|m: int| 0 <= m < t.len() && r[j] == t[m] && t[m].name@ == x;
                    assert(q[j] == s[m]);
                }
            }
        } else {
            assert(q == r);
            assert forall|j: int| 0 <= j < q.len() implies exists|m: int|
                0 <= m < s.len() && #[trigger] q[j] == s[m] && s[m].name@ == x by {
                let m = choose|m: int| 0 <= m < t.len() && r[j] == t[m] && t[m].name@ == x;
                assert(q[j] == s[m]);
            }
        }
    }
}

/// Where a name is counted once, two nodes bearing it stand at one index.
pub proof fn lemma_named_at_most_once(s: Seq<BarNode>, x: Seq<char>, a: int, b: int)
    requires
        count_named(s, x) <= 1,
        0 <= a < s.len(),
        0 <= b < s.len(),
        s[a].name@ == x,
        s[b].name@ == x,
    ensures
        a == b,
{
    if a != b {
        lemma_count_remove(s, a, x);
        let r = s.remove(a);
        let b2 = if b < a {
            b
        } else {
            b - 1
        };
        assert(r[b2] == s[b]);
        lemma_count_member(r, b2);
    }
}

} // verus!
