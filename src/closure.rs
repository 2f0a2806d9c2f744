//! Propagation of a mark down name-keyed parent links: the nodes reached
//! from a set of seeds by following children, to a fixed point.

use vstd::prelude::*;
use crate::node::BarNode;
use crate::state::{find_in, find_index};

verus! {

/// The index of the parent of node `k` of `s`: the first node of `s` that
/// bears the parent's name.
pub open spec fn parent_index(s: Seq<BarNode>, k: int) -> Option<int> {
    match s[k].parent {
        Some(p) => find_in(s, p@),
        None => None,
    }
}

/// Whether the chain of parents of node `k` of `s`, followed for at most
/// `fuel` steps, meets a seed. A parent is the first node of `s` that
/// bears the parent's name.
pub open spec fn reaches_seed(s: Seq<BarNode>, seed: Seq<bool>, k: int, fuel: nat) -> bool
    decreases fuel,
{
    if !(0 <= k < s.len()) {
        false
    } else if seed[k] {
        true
    } else if fuel == 0 {
        false
    } else {
        match parent_index(s, k) {
            Some(j) => reaches_seed(s, seed, j, (fuel - 1) as nat),
            None => false,
        }
    }
}

/// Whether node `k` of `s` is a seed or descends from one.
pub open spec fn marked(s: Seq<BarNode>, seed: Seq<bool>, k: int) -> bool {
    exists|f: nat| reaches_seed(s, seed, k, f)
}

/// For each node of `s`, whether it is a seed or descends from one.
pub open spec fn closure(s: Seq<BarNode>, seed: Seq<bool>) -> Seq<bool> {
    Seq::new(s.len(), |k: int| marked(s, seed, k))
}

/// The nodes of `s` whose flag in `keep` is set, in order.
pub open spec fn select(s: Seq<BarNode>, keep: Seq<bool>) -> Seq<BarNode>
    decreases s.len(),
{
    if s.len() == 0 {
        Seq::empty()
    } else if keep[s.len() - 1] {
        select(s.drop_last(), keep).push(s.last())
    } else {
        select(s.drop_last(), keep)
    }
}

/// Every flag of `b` negated.
pub open spec fn negate(b: Seq<bool>) -> Seq<bool> {
    Seq::new(b.len(), |k: int| !b[k])
}

/// The number of unset flags.
pub open spec fn count_unset(b: Seq<bool>) -> nat
    decreases b.len(),
{
    if b.len() == 0 {
        0
    } else {
        count_unset(b.drop_last()) + if b.last() {
            0nat
        } else {
            1nat
        }
    }
}

proof fn lemma_count_unset_decreases(a: Seq<bool>, b: Seq<bool>, k: int)
    requires
        a.len() == b.len(),
        forall|j: int| 0 <= j < a.len() && a[j] ==> b[j],
        0 <= k < a.len(),
        b[k] && !a[k],
    ensures
        count_unset(b) < count_unset(a),
    decreases a.len(),
{
    lemma_count_unset_monotone(a.drop_last(), b.drop_last());
    if k < a.len() - 1 {
        lemma_count_unset_decreases(a.drop_last(), b.drop_last(), k);
    }
}

proof fn lemma_count_unset_monotone(a: Seq<bool>, b: Seq<bool>)
    requires
        a.len() == b.len(),
        forall|j: int| 0 <= j < a.len() && a[j] ==> b[j],
    ensures
        count_unset(b) <= count_unset(a),
    decreases a.len(),
{
    if a.len() > 0 {
        lemma_count_unset_monotone(a.drop_last(), b.drop_last());
    }
}

/// Flags that hold every seed and are closed under "the parent is
/// flagged" hold every node that descends from a seed.
proof fn lemma_closed_contains_closure(
    s: Seq<BarNode>,
    seed: Seq<bool>,
    m: Seq<bool>,
    k: int,
    f: nat,
)
    requires
        m.len() == s.len(),
        seed.len() == s.len(),
        forall|j: int| 0 <= j < s.len() && seed[j] ==> m[j],
        forall|j: int|
            0 <= j < s.len() && !m[j] ==> !(parent_index(s, j) matches Some(q) && m[q]),
        reaches_seed(s, seed, k, f),
    ensures
        m[k],
    decreases f,
{
    if !seed[k] {
        let q = parent_index(s, k)->0;
        lemma_find_in_bounds(s, s[k].parent->0@);
        lemma_closed_contains_closure(s, seed, m, q, (f - 1) as nat);
    }
}

proof fn lemma_find_in_bounds(s: Seq<BarNode>, name: Seq<char>)
    ensures
        find_in(s, name) matches Some(k) ==> 0 <= k < s.len() && s[k].name@ == name,
{
    if exists|k: int| crate::state::first_named(s, name, k) {
        let c = choose|k: int| crate::state::first_named(s, name, k);
        assert(crate::state::first_named(s, name, c));
    }
}

spec fn up_matches(s: Seq<BarNode>, up: Seq<Option<usize>>, j: int) -> bool {
    match parent_index(s, j) {
        Some(q) => 0 <= q < s.len() && up[j] == Some(q as usize),
        None => up[j] is None,
    }
}

/// For each node of `s`, whether it is a seed or descends from one, where
/// `seed` flags the seeds.
pub fn propagate(s: &Vec<BarNode>, seed: Vec<bool>) -> (r: Vec<bool>)
    requires
        seed@.len() == s@.len(),
    ensures
        r@ == closure(s@, seed@),
{
    let n = s.len();
    let ghost sd = seed@;
    // the index of each node's parent
    let mut up: Vec<Option<usize>> = Vec::new();
    let mut k: usize = 0;
    while k < n
        invariant
            n == s@.len(),
            k <= n,
            up@.len() == k,
            forall|j: int|
                0 <= j < k ==> up_matches(s@, up@, j),
        decreases n - k,
    {
        let u = match &s[k].parent {
            Some(p) => find_index(s, p.as_str()),
            None => None,
        };
        proof {
            lemma_find_in_bounds(s@, s@[k as int].parent->0@);
        }
        let ghost prev = up@;
        up.push(u);
        assert forall|j: int| 0 <= j < k + 1 implies up_matches(s@, up@, j) by {
            if j < k {
                assert(up_matches(s@, prev, j));
                assert(up@[j] == prev[j]);
            }
        }
        k = k + 1;
    }
    let mut m = seed;
    assert forall|j: int| 0 <= j < n && sd[j] implies marked(s@, sd, j) by {
        assert(reaches_seed(s@, sd, j, 0));
    }
    loop
        invariant
            n == s@.len(),
            sd.len() == n,
            sd == seed@,
            m@.len() == n,
            up@.len() == n,
            forall|j: int|
                0 <= j < n ==> up_matches(s@, up@, j),
            forall|j: int| 0 <= j < n && sd[j] ==> m@[j],
            forall|j: int| 0 <= j < n && m@[j] ==> marked(s@, sd, j),
        decreases count_unset(m@),
    {
        let ghost before = m@;
        let mut changed = false;
        let mut k: usize = 0;
        while k < n
            invariant
                n == s@.len(),
                sd.len() == n,
                sd == seed@,
                m@.len() == n,
                before.len() == n,
                up@.len() == n,
                k <= n,
                forall|j: int|
                    0 <= j < n ==> up_matches(s@, up@, j),
                forall|j: int| 0 <= j < n && sd[j] ==> m@[j],
                forall|j: int| 0 <= j < n && m@[j] ==> marked(s@, sd, j),
                forall|j: int| 0 <= j < n && before[j] ==> m@[j],
                changed ==> exists|j: int| 0 <= j < n && m@[j] && !before[j],
                !changed ==> m@ == before,
                !changed ==> forall|j: int|
                    0 <= j < k && !m@[j] ==> !(up@[j] matches Some(q) && q < n && m@[q as int]),
            decreases n - k,
        {
            if !m[k] {
                if let Some(q) = up[k] {
                    assert(up_matches(s@, up@, k as int));
                    if m[q] {
                        proof {
                            let f = choose|f: nat| reaches_seed(s@, sd, q as int, f);
                            assert(reaches_seed(s@, sd, k as int, f + 1));
                        }
                        m.set(k, true);
                        changed = true;
                    }
                }
            }
            k = k + 1;
        }
        if !changed {
            proof {
                assert forall|j: int| 0 <= j < n && !m@[j] implies !(parent_index(s@, j) matches Some(
                    q,
                ) && m@[q]) by {
                    assert(up_matches(s@, up@, j));
                }
                assert forall|j: int| 0 <= j < n implies #[trigger] m@[j] == marked(s@, sd, j) by {
                    if marked(s@, sd, j) {
                        let f = choose|f: nat| reaches_seed(s@, sd, j, f);
                        lemma_closed_contains_closure(s@, sd, m@, j, f);
                    }
                }
                assert(m@ =~= closure(s@, sd));
            }
            return m;
        }
        proof {
            let j = choose|j: int| 0 <= j < n && m@[j] && !before[j];
            lemma_count_unset_decreases(before, m@, j);
        }
    }
}

/// The nodes of `v` whose flag in `keep` is set, in order, and the others.
pub fn split_by(v: Vec<BarNode>, keep: &Vec<bool>) -> (r: (Vec<BarNode>, Vec<BarNode>))
    requires
        keep@.len() == v@.len(),
    ensures
        r.0@ == select(v@, keep@),
        r.1@ == select(v@, negate(keep@)),
{
    let ghost s = v@;
    let n = v.len();
    let mut rest = v;
    let mut kept: Vec<BarNode> = Vec::new();
    let mut dropped: Vec<BarNode> = Vec::new();
    let mut k: usize = 0;
    while k < n
        invariant
            n == s.len(),
            keep@.len() == n,
            k <= n,
            rest@ == s.skip(k as int),
            kept@ == select(s.take(k as int), keep@),
            dropped@ == select(s.take(k as int), negate(keep@)),
        decreases n - k,
    {
        let x = rest.remove(0);
        proof {
            assert(s.take(k + 1).drop_last() =~= s.take(k as int));
            assert(rest@ =~= s.skip(k + 1));
        }
        if keep[k] {
            kept.push(x);
        } else {
            dropped.push(x);
        }
        k = k + 1;
        proof {
            lemma_select_prefix(s, keep@, k as int);
            lemma_select_prefix(s, negate(keep@), k as int);
        }
    }
    assert(s.take(n as int) =~= s);
    (kept, dropped)
}

proof fn lemma_select_prefix(s: Seq<BarNode>, keep: Seq<bool>, k: int)
    requires
        0 < k <= s.len(),
        keep.len() == s.len(),
    ensures
        select(s.take(k), keep) == if keep[k - 1] {
            select(s.take(k - 1), keep).push(s[k - 1])
        } else {
            select(s.take(k - 1), keep)
        },
{
    assert(s.take(k).drop_last() =~= s.take(k - 1));
}

} // verus!
