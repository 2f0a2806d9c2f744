//! The node store: nodes kept in one collection per display, each sorted
//! by position, with name-keyed parent references.

use vstd::prelude::*;
use crate::closure::{closure, marked, negate, propagate, select, split_by};
use crate::error::StoreError;
use crate::node::{BarNode, NodeType};
use crate::props::{Properties, Property, lookup};
use crate::resolve::{apply_properties, resolve};
use crate::text::{parse_u32, parse_u32_spec, text_eq};
use crate::wf::{count_in_layout, layout_wf, lemma_add_wf, lemma_migrate_wf, lemma_remove_wf, lemma_set_wf};

verus! {

/// The abstract contents of the store: for each display in use, its id and
/// its nodes in storage order.
pub type Layout = Seq<(u32, Seq<BarNode>)>;

/// Whether `k` is the first index of `s` whose node is named `name`.
pub open spec fn first_named(s: Seq<BarNode>, name: Seq<char>, k: int) -> bool {
    &&& 0 <= k < s.len()
    &&& s[k].name@ == name
    &&& forall|j: int| 0 <= j < k ==> s[j].name@ != name
}

/// The index of the first node of `s` named `name`.
pub open spec fn find_in(s: Seq<BarNode>, name: Seq<char>) -> Option<int> {
    if exists|k: int| first_named(s, name, k) {
        Some(choose|k: int| first_named(s, name, k))
    } else {
        None
    }
}

/// Whether `i` is the first group of `l` that holds a node named `name`.
pub open spec fn first_group_with(l: Layout, name: Seq<char>, i: int) -> bool {
    &&& 0 <= i < l.len()
    &&& find_in(l[i].1, name) is Some
    &&& forall|j: int| 0 <= j < i ==> find_in(l[j].1, name) is None
}

/// Where the node named `name` is kept: its group and its index there.
pub open spec fn locate(l: Layout, name: Seq<char>) -> Option<(int, int)> {
    if exists|i: int| first_group_with(l, name, i) {
        let i = choose|i: int| first_group_with(l, name, i);
        Some((i, find_in(l[i].1, name)->0))
    } else {
        None
    }
}

/// The node named `name`, if the store holds one.
pub open spec fn node_named(l: Layout, name: Seq<char>) -> Option<BarNode> {
    match locate(l, name) {
        Some((i, k)) => Some(l[i].1[k]),
        None => None,
    }
}

/// Whether `i` is the first group of `l` for display `d`.
pub open spec fn first_group_of(l: Layout, d: u32, i: int) -> bool {
    &&& 0 <= i < l.len()
    &&& l[i].0 == d
    &&& forall|j: int| 0 <= j < i ==> l[j].0 != d
}

/// The index of the group of display `d`, if there is one.
pub open spec fn group_of(l: Layout, d: u32) -> Option<int> {
    if exists|i: int| first_group_of(l, d, i) {
        Some(choose|i: int| first_group_of(l, d, i))
    } else {
        None
    }
}

/// The nodes of display `d`, in storage order.
pub open spec fn nodes_on(l: Layout, d: u32) -> Seq<BarNode> {
    match group_of(l, d) {
        Some(i) => l[i].1,
        None => Seq::empty(),
    }
}

/// Every node of the store: the groups' nodes one group after another.
pub open spec fn all_nodes(l: Layout) -> Seq<BarNode>
    decreases l.len(),
{
    if l.len() == 0 {
        Seq::empty()
    } else {
        all_nodes(l.drop_last()) + l.last().1
    }
}

/// Flags the nodes of `s` named `name`.
pub open spec fn named_flags(s: Seq<BarNode>, name: Seq<char>) -> Seq<bool> {
    Seq::new(s.len(), |k: int| s[k].name@ == name)
}

/// Whether `k` is the first index of `s` whose position exceeds `p`
/// (or, with `strict` false, is at least `p`).
pub open spec fn first_beyond(s: Seq<BarNode>, p: i32, strict: bool, k: int) -> bool {
    &&& 0 <= k < s.len()
    &&& if strict {
        s[k].position > p
    } else {
        s[k].position >= p
    }
    &&& forall|j: int|
        0 <= j < k ==> if strict {
            s[j].position <= p
        } else {
            s[j].position < p
        }
}

/// The index before which a node at position `p` is inserted: after every
/// node whose position is at most `p` (or, with `strict` false, before
/// every node whose position is at least `p`).
pub open spec fn bound(s: Seq<BarNode>, p: i32, strict: bool) -> int {
    if exists|k: int| first_beyond(s, p, strict, k) {
        choose|k: int| first_beyond(s, p, strict, k)
    } else {
        s.len() as int
    }
}

/// `s` with `n` inserted after every node whose position is at most that
/// of `n`: where pushing `n` and sorting by position, ties kept in order,
/// puts it.
pub open spec fn insert_by_position(s: Seq<BarNode>, n: BarNode) -> Seq<BarNode> {
    s.insert(bound(s, n.position, true), n)
}

/// Whether the nodes of `s` are in ascending order of position.
pub open spec fn sorted_by_position(s: Seq<BarNode>) -> bool {
    forall|i: int, j: int| 0 <= i < j < s.len() ==> s[i].position <= s[j].position
}

/// `l` with `n` added to the collection of its display, which is created
/// where it is missing.
pub open spec fn with_added(l: Layout, n: BarNode) -> Layout {
    match group_of(l, n.display) {
        Some(i) => l.update(i, (l[i].0, insert_by_position(l[i].1, n))),
        None => l.push((n.display, seq![n])),
    }
}

/// Why adding `n` to `l` is refused, if it is: first a name already in use
/// on any display, then a missing parent or a parent that holds no
/// children.
pub open spec fn add_error(l: Layout, n: BarNode) -> Option<StoreError> {
    if locate(l, n.name@) is Some {
        Some(StoreError::AlreadyExists { name: n.name })
    } else {
        match n.parent {
            Some(p) => match node_named(l, p@) {
                None => Some(StoreError::NotFound { name: p }),
                Some(q) => if q.node_type is Item {
                    Some(StoreError::InvalidParent { name: p })
                } else {
                    None
                },
            },
            None => None,
        }
    }
}


/// The seeds of the cascade that removing the node named `root` starts:
/// the nodes whose parent is named `root`.
pub open spec fn children_of(s: Seq<BarNode>, root: Seq<char>) -> Seq<bool> {
    Seq::new(s.len(), |k: int| s[k].parent matches Some(p) && p@ == root)
}

/// The names that removing node `n` from the store whose nodes are `f`
/// takes away: its own and, where it is a container, the names of every
/// node of `f` that descends from it, parents being looked up by name over
/// all displays.
pub open spec fn cascade_set(f: Seq<BarNode>, n: BarNode) -> Set<Seq<char>> {
    if n.node_type is Item {
        set![n.name@]
    } else {
        set![n.name@] + Set::new(
            |x: Seq<char>|
                exists|m: int|
                    0 <= m < f.len() && f[m].name@ == x && marked(f, children_of(f, n.name@), m),
        )
    }
}

/// The names that removing node `k` of group `i` of `l` takes away.
pub open spec fn removed_names(l: Layout, i: int, k: int) -> Set<Seq<char>> {
    cascade_set(all_nodes(l), l[i].1[k])
}

/// The nodes of `s` whose names are not in `r`, in order.
pub open spec fn without_names(s: Seq<BarNode>, r: Set<Seq<char>>) -> Seq<BarNode> {
    select(s, Seq::new(s.len(), |j: int| !r.contains(s[j].name@)))
}

/// `l` with the nodes whose names are in `r` taken from every display.
pub open spec fn drop_names(l: Layout, r: Set<Seq<char>>) -> Layout {
    Seq::new(l.len(), |g: int| (l[g].0, without_names(l[g].1, r)))
}

/// `l` once node `k` of group `i` is removed with, for a container, every
/// node that descends from it, on whatever display.
pub open spec fn with_removed(l: Layout, i: int, k: int) -> Layout {
    drop_names(l, removed_names(l, i, k))
}

/// Whether some string of `v` is `x`.
pub open spec fn lists(v: Seq<String>, x: Seq<char>) -> bool {
    exists|j: int| 0 <= j < v.len() && v[j]@ == x
}

/// Whether the strings of `v` are exactly the names of `r`.
pub open spec fn names_denote(v: Seq<String>, r: Set<Seq<char>>) -> bool {
    forall|x: Seq<char>| #[trigger] r.contains(x) <==> lists(v, x)
}

/// What the `display` entry of a bag asks for: nothing (`None`), to follow
/// the main display (`Some(None)`, for an empty value), or to pin a given
/// display (`Some(Some(d))`).
pub open spec fn display_request(props: Seq<Property>) -> Result<Option<Option<u32>>, StoreError> {
    match lookup(props, "display"@) {
        None => Ok(None),
        Some(p) => if p.value@.len() == 0 {
            Ok(Some(None))
        } else {
            match parse_u32_spec(p.value@) {
                Some(d) => Ok(Some(Some(d))),
                None => Err(StoreError::InvalidValue { key: p.key, value: p.value }),
            }
        },
    }
}

/// `s` with node `k` replaced by `n`, placed where sorting by position,
/// ties kept in their order, puts it.
pub open spec fn reposition(s: Seq<BarNode>, k: int, n: BarNode) -> Seq<BarNode> {
    if n.position == s[k].position {
        s.update(k, n)
    } else {
        let r = s.remove(k);
        r.insert(bound(r, n.position, n.position < s[k].position), n)
    }
}

/// The outcome of applying the bag `props`, whose display request is
/// `req`, to node `k` of group `i` of `l`: the new layout and the updated
/// node. A node whose display changes moves to the new display's
/// collection.
pub open spec fn set_outcome(
    l: Layout,
    i: int,
    k: int,
    req: Option<Option<u32>>,
    props: Seq<Property>,
    main: u32,
) -> Result<(Layout, BarNode), StoreError> {
    let n = l[i].1[k];
    let n1 = match req {
        Some(t) => BarNode { display_explicit: t is Some, ..n },
        None => n,
    };
    match resolve(n1, props) {
        Err(e) => Err(e),
        Ok(n2) => {
            let target = match req {
                Some(Some(d)) => d,
                Some(None) => main,
                None => l[i].0,
            };
            if target != l[i].0 {
                let moved = BarNode { display: target, ..n2 };
                Ok((with_added(l.update(i, (l[i].0, l[i].1.remove(k))), moved), moved))
            } else {
                Ok((l.update(i, (l[i].0, reposition(l[i].1, k, n2))), n2))
            }
        },
    }
}

/// The nodes of `s` pinned to their display.
pub open spec fn pinned(s: Seq<BarNode>) -> Seq<bool> {
    Seq::new(s.len(), |k: int| s[k].display_explicit)
}

/// For each node of `s`, whether it stays when its display goes: it is
/// pinned, or it descends from a pinned node.
pub open spec fn staying(s: Seq<BarNode>) -> Seq<bool> {
    closure(s, pinned(s))
}

/// The nodes of `s`, each with its display set to `to`.
pub open spec fn relocated(s: Seq<BarNode>, to: u32) -> Seq<BarNode> {
    Seq::new(s.len(), |k: int| BarNode { display: to, ..s[k] })
}

/// `t` with the nodes of `m` inserted by position one after another.
pub open spec fn insert_all(t: Seq<BarNode>, m: Seq<BarNode>) -> Seq<BarNode>
    decreases m.len(),
{
    if m.len() == 0 {
        t
    } else {
        insert_by_position(insert_all(t, m.drop_last()), m.last())
    }
}

/// The nodes that leave display `from` for display `to`, as they arrive.
pub open spec fn migrated(l: Layout, from: u32, to: u32) -> Seq<BarNode> {
    match group_of(l, from) {
        None => Seq::empty(),
        Some(i) => relocated(select(l[i].1, negate(staying(l[i].1))), to),
    }
}

/// `l` once the nodes of display `from` that do not stay have moved to
/// display `to`; the collection of `from` is dropped where it is left
/// empty.
pub open spec fn with_migrated(l: Layout, from: u32, to: u32) -> Layout {
    match group_of(l, from) {
        None => l,
        Some(i) => {
            let kept = select(l[i].1, staying(l[i].1));
            let l1 = if kept.len() == 0 {
                l.remove(i)
            } else {
                l.update(i, (l[i].0, kept))
            };
            let m = migrated(l, from, to);
            match group_of(l1, to) {
                Some(j) => l1.update(j, (l1[j].0, insert_all(l1[j].1, m))),
                None => l1.push((to, insert_all(Seq::empty(), m))),
            }
        },
    }
}

/// The nodes of one display.
#[derive(Debug)]
pub struct DisplayNodes {
    pub display: u32,
    pub nodes: Vec<BarNode>,
}

/// The store: one collection of nodes per display in use.
///
/// A store is made empty and changes only through the operations below,
/// each of which keeps its invariant (`wf`).
#[derive(Debug)]
pub struct BarState {
    groups: Vec<DisplayNodes>,
}

impl Default for BarState {
    fn default() -> (r: BarState)
        ensures
            r@ == Seq::<(u32, Seq<BarNode>)>::empty(),
            r.wf(),
    {
        BarState::new()
    }
}

impl View for BarState {
    type V = Layout;

    closed spec fn view(&self) -> Layout {
        self.groups@.map_values(|g: DisplayNodes| (g.display, g.nodes@))
    }
}

proof fn lemma_first_named_unique(s: Seq<BarNode>, name: Seq<char>, k: int)
    requires
        first_named(s, name, k),
    ensures
        find_in(s, name) == Some(k),
{
    let c = choose|x: int| first_named(s, name, x);
    assert(first_named(s, name, c));
    if c < k {
        assert(s[c].name@ != name);
    } else if c > k {
        assert(s[k].name@ != name);
    }
}

proof fn lemma_first_group_unique(l: Layout, name: Seq<char>, i: int)
    requires
        first_group_with(l, name, i),
    ensures
        locate(l, name) == Some((i, find_in(l[i].1, name)->0)),
{
    let c = choose|x: int| first_group_with(l, name, x);
    assert(first_group_with(l, name, c));
    if c < i {
        assert(find_in(l[c].1, name) is None);
    } else if c > i {
        assert(find_in(l[i].1, name) is None);
    }
}

proof fn lemma_first_group_of_unique(l: Layout, d: u32, i: int)
    requires
        first_group_of(l, d, i),
    ensures
        group_of(l, d) == Some(i),
{
    let c = choose|x: int| first_group_of(l, d, x);
    assert(first_group_of(l, d, c));
    if c < i {
        assert(l[c].0 != d);
    } else if c > i {
        assert(l[i].0 != d);
    }
}

proof fn lemma_first_beyond_unique(s: Seq<BarNode>, p: i32, strict: bool, k: int)
    requires
        first_beyond(s, p, strict, k),
    ensures
        bound(s, p, strict) == k,
{
    let c = choose|x: int| first_beyond(s, p, strict, x);
    assert(first_beyond(s, p, strict, c));
    if c < k {
        assert(first_beyond(s, p, strict, c));
    } else if c > k {
        assert(first_beyond(s, p, strict, k));
    }
}

/// The index of the first node of `s` named `name`.
pub fn find_index(s: &Vec<BarNode>, name: &str) -> (r: Option<usize>)
    ensures
        r matches Some(k) ==> find_in(s@, name@) == Some(k as int),
        r is None ==> find_in(s@, name@) is None,
{
    let mut k: usize = 0;
    while k < s.len()
        invariant
            k <= s@.len(),
            forall|j: int| 0 <= j < k ==> s@[j].name@ != name@,
        decreases s@.len() - k,
    {
        if crate::text::text_eq(s[k].name.as_str(), name) {
            proof {
                lemma_first_named_unique(s@, name@, k as int);
            }
            return Some(k);
        }
        k = k + 1;
    }
    assert(!exists|x: int| first_named(s@, name@, x));
    None
}

/// The index before which a node at position `p` goes (see `bound`).
pub fn bound_index(s: &Vec<BarNode>, p: i32, strict: bool) -> (r: usize)
    ensures
        r == bound(s@, p, strict),
        r <= s@.len(),
{
    let mut k: usize = 0;
    while k < s.len()
        invariant
            k <= s@.len(),
            forall|j: int|
                0 <= j < k ==> if strict {
                    s@[j].position <= p
                } else {
                    s@[j].position < p
                },
        decreases s@.len() - k,
    {
        let beyond = if strict {
            s[k].position > p
        } else {
            s[k].position >= p
        };
        if beyond {
            proof {
                lemma_first_beyond_unique(s@, p, strict, k as int);
            }
            return k;
        }
        k = k + 1;
    }
    assert(!exists|x: int| first_beyond(s@, p, strict, x));
    k
}

/// Inserts `n` into `v` after every node whose position is at most that of
/// `n`.
pub fn insert_sorted(v: &mut Vec<BarNode>, n: BarNode)
    ensures
        final(v)@ == insert_by_position(old(v)@, n),
{
    let k = bound_index(v, n.position, true);
    v.insert(k, n);
}

/// Flags the nodes of `s` whose parent is named `root`.
fn children_flags(s: &Vec<BarNode>, root: &str) -> (r: Vec<bool>)
    ensures
        r@ == children_of(s@, root@),
{
    let mut r: Vec<bool> = Vec::new();
    let mut k: usize = 0;
    while k < s.len()
        invariant
            k <= s@.len(),
            r@ =~= children_of(s@, root@).take(k as int),
        decreases s@.len() - k,
    {
        let c = match &s[k].parent {
            Some(p) => text_eq(p.as_str(), root),
            None => false,
        };
        r.push(c);
        k = k + 1;
    }
    r
}

/// Whether some string of `names` is `x`.
fn name_listed(names: &Vec<String>, x: &str) -> (r: bool)
    ensures
        r == lists(names@, x@),
{
    let mut j: usize = 0;
    while j < names.len()
        invariant
            j <= names@.len(),
            forall|q: int| 0 <= q < j ==> names@[q]@ != x@,
        decreases names@.len() - j,
    {
        if text_eq(names[j].as_str(), x) {
            return true;
        }
        j = j + 1;
    }
    false
}

/// Flags the nodes of `s` whose names are not among `names`.
fn keep_flags(s: &Vec<BarNode>, names: &Vec<String>, Ghost(r): Ghost<Set<Seq<char>>>) -> (out: Vec<
    bool,
>)
    requires
        names_denote(names@, r),
    ensures
        out@ == Seq::new(s@.len(), |j: int| !r.contains(s@[j].name@)),
{
    let mut out: Vec<bool> = Vec::new();
    let mut k: usize = 0;
    while k < s.len()
        invariant
            k <= s@.len(),
            names_denote(names@, r),
            out@ =~= Seq::new(s@.len(), |j: int| !r.contains(s@[j].name@)).take(k as int),
        decreases s@.len() - k,
    {
        let listed = name_listed(names, s[k].name.as_str());
        assert(listed == r.contains(s@[k as int].name@));
        out.push(!listed);
        k = k + 1;
    }
    assert(out@ =~= Seq::new(s@.len(), |j: int| !r.contains(s@[j].name@)));
    out
}

/// The names that removing `node` from the store whose nodes are `all`
/// takes away (see `cascade_set`).
fn cascade_names(all: &Vec<BarNode>, node: &BarNode) -> (r: Vec<String>)
    ensures
        names_denote(r@, cascade_set(all@, *node)),
{
    let ghost c = cascade_set(all@, *node);
    let mut r: Vec<String> = Vec::new();
    r.push(node.name.clone());
    if matches!(node.node_type, NodeType::Item) {
        assert forall|x: Seq<char>| #[trigger] c.contains(x) <==> lists(r@, x) by {
            if x == node.name@ {
                assert(r@[0]@ == x);
            }
            if lists(r@, x) {
                assert(r@[0]@ == x);
            }
        }
        return r;
    }
    let ghost seeds = children_of(all@, node.name@);
    let flags = children_flags(all, node.name.as_str());
    let marks = propagate(all, flags);
    assert forall|x: Seq<char>| #[trigger] lists(r@, x) <==> x == node.name@ by {
        if lists(r@, x) {
            let j = choose|j: int| 0 <= j < r@.len() && r@[j]@ == x;
        }
        if x == node.name@ {
            assert(r@[0]@ == x);
        }
    }
    let mut m: usize = 0;
    while m < all.len()
        invariant
            m <= all@.len(),
            marks@ == closure(all@, seeds),
            seeds == children_of(all@, node.name@),
            r@.len() >= 1,
            r@[0]@ == node.name@,
            forall|x: Seq<char>|
                (x == node.name@ || exists|q: int|
                    0 <= q < m && all@[q].name@ == x && marked(all@, seeds, q)) <==> #[trigger] lists(
                    r@,
                    x,
                ),
        decreases all@.len() - m,
    {
        let ghost before = r@;
        if marks[m] {
            r.push(all[m].name.clone());
        }
        proof {
            let ghost nm = all@[m as int].name@;
            let ghost mk = marked(all@, seeds, m as int);
            assert(marks@[m as int] == mk);
            assert forall|x: Seq<char>|
                (x == node.name@ || exists|q: int|
                    0 <= q < m + 1 && all@[q].name@ == x && marked(all@, seeds, q)) <==> #[trigger] lists(
                    r@,
                    x,
                ) by {
                let old_side = x == node.name@ || exists|q: int|
                    0 <= q < m && all@[q].name@ == x && marked(all@, seeds, q);
                let new_side = x == node.name@ || exists|q: int|
                    0 <= q < m + 1 && all@[q].name@ == x && marked(all@, seeds, q);
                assert(old_side == lists(before, x));
                if new_side && !old_side {
                    let q = choose|q: int|
                        0 <= q < m + 1 && all@[q].name@ == x && marked(all@, seeds, q);
                    assert(q == m);
                }
                if old_side {
                    if x != node.name@ {
                        let q = choose|q: int|
                            0 <= q < m && all@[q].name@ == x && marked(all@, seeds, q);
                        assert(0 <= q < m + 1 && all@[q].name@ == x && marked(all@, seeds, q));
                    }
                }
                if mk && nm == x {
                    assert(0 <= m < m + 1 && all@[m as int].name@ == x && marked(all@, seeds, m as int));
                }
                assert(new_side == (old_side || (mk && nm == x)));
                if mk {
                    if lists(r@, x) {
                        let j = choose|j: int| 0 <= j < r@.len() && r@[j]@ == x;
                        if j < before.len() {
                            assert(before[j]@ == x);
                        }
                    }
                    if lists(before, x) {
                        let j = choose|j: int| 0 <= j < before.len() && before[j]@ == x;
                        assert(r@[j]@ == x);
                    }
                    if nm == x {
                        assert(r@[before.len() as int]@ == x);
                    }
                    assert(lists(r@, x) == (lists(before, x) || nm == x));
                } else {
                    assert(r@ == before);
                }
            }
        }
        m = m + 1;
    }
    assert forall|x: Seq<char>| #[trigger] c.contains(x) <==> lists(r@, x) by {
        if c.contains(x) && x != node.name@ {
            let q = choose|q: int|
                0 <= q < all@.len() && all@[q].name@ == x && marked(all@, seeds, q);
        }
    }
    r
}

/// Flags the nodes of `s` pinned to their display.
fn pinned_flags(s: &Vec<BarNode>) -> (r: Vec<bool>)
    ensures
        r@ == pinned(s@),
{
    let mut r: Vec<bool> = Vec::new();
    let mut k: usize = 0;
    while k < s.len()
        invariant
            k <= s@.len(),
            r@ =~= pinned(s@).take(k as int),
        decreases s@.len() - k,
    {
        r.push(s[k].display_explicit);
        k = k + 1;
    }
    r
}

/// Replaces node `k` of `v` by `n`, placed where sorting by position puts
/// it.
fn reposition_at(v: &mut Vec<BarNode>, k: usize, n: BarNode)
    requires
        k < old(v)@.len(),
    ensures
        final(v)@ == reposition(old(v)@, k as int, n),
{
    let p = v[k].position;
    if n.position == p {
        v.set(k, n);
    } else {
        v.remove(k);
        let b = bound_index(v, n.position, n.position < p);
        v.insert(b, n);
    }
}

/// Reads the `display` entry of a bag.
fn read_display_request(props: &Properties) -> (r: Result<Option<Option<u32>>, StoreError>)
    ensures
        r == display_request(props@),
{
    match props.get("display") {
        None => Ok(None),
        Some(p) => {
            if p.value.as_str().is_empty() {
                Ok(Some(None))
            } else {
                match parse_u32(p.value.as_str()) {
                    Some(d) => Ok(Some(Some(d))),
                    None => Err(
                        StoreError::InvalidValue { key: p.key.clone(), value: p.value.clone() },
                    ),
                }
            }
        },
    }
}

impl BarState {
    /// The invariant of the store (see `layout_wf`).
    pub open spec fn wf(&self) -> bool {
        layout_wf(self@)
    }

    /// An empty store.
    pub fn new() -> (r: BarState)
        ensures
            r@ == Seq::<(u32, Seq<BarNode>)>::empty(),
            r.wf(),
    {
        let r = BarState { groups: Vec::new() };
        assert forall|x: Seq<char>| #[trigger] count_in_layout(r@, x) <= 1 by {
            assert(r@.len() == 0);
        }
        r
    }

    /// The index of the group of display `d`.
    fn group_index(&self, d: u32) -> (r: Option<usize>)
        ensures
            r matches Some(i) ==> group_of(self@, d) == Some(i as int),
            r is None ==> group_of(self@, d) is None,
    {
        let mut i: usize = 0;
        while i < self.groups.len()
            invariant
                i <= self@.len(),
                self@.len() == self.groups@.len(),
                forall|j: int| 0 <= j < i ==> self@[j].0 != d,
            decreases self@.len() - i,
        {
            if self.groups[i].display == d {
                proof {
                    lemma_first_group_of_unique(self@, d, i as int);
                }
                return Some(i);
            }
            i = i + 1;
        }
        assert(!exists|x: int| first_group_of(self@, d, x));
        None
    }

    /// Where the node named `name` is kept.
    fn find_node(&self, name: &str) -> (r: Option<(usize, usize)>)
        ensures
            r matches Some((i, k)) ==> locate(self@, name@) == Some((i as int, k as int)),
            r is None ==> locate(self@, name@) is None,
    {
        let mut i: usize = 0;
        while i < self.groups.len()
            invariant
                i <= self@.len(),
                self@.len() == self.groups@.len(),
                forall|j: int| 0 <= j < i ==> find_in(#[trigger] self@[j].1, name@) is None,
            decreases self@.len() - i,
        {
            match find_index(&self.groups[i].nodes, name) {
                Some(k) => {
                    proof {
                        lemma_first_group_unique(self@, name@, i as int);
                    }
                    return Some((i, k));
                },
                None => {},
            }
            i = i + 1;
        }
        assert(!exists|x: int| first_group_with(self@, name@, x));
        None
    }

    /// The node named `name`, if the store holds one.
    pub fn find_node_ref(&self, name: &str) -> (r: Option<&BarNode>)
        ensures
            r matches Some(n) ==> node_named(self@, name@) == Some(*n),
            r is None ==> node_named(self@, name@) is None,
    {
        match self.find_node(name) {
            Some((i, k)) => Some(&self.groups[i].nodes[k]),
            None => None,
        }
    }

    /// Adds `node` to the collection of its display, keeping it sorted by
    /// position. Refused when a node of the same name exists on any
    /// display, else when the named parent is missing or is an item; the
    /// store is then unchanged.
    pub fn add_node(&mut self, node: BarNode) -> (r: Result<(), StoreError>)
        requires
            old(self).wf(),
        ensures
            final(self).wf(),
            match add_error(old(self)@, node) {
                Some(e) => r == Err::<(), StoreError>(e) && final(self)@ == old(self)@,
                None => r is Ok && final(self)@ == with_added(old(self)@, node),
            },
    {
        if self.find_node(node.name.as_str()).is_some() {
            return Err(StoreError::AlreadyExists { name: node.name.clone() });
        }
        if let Some(parent_name) = &node.parent {
            match self.find_node_ref(parent_name.as_str()) {
                Some(p) => {
                    if matches!(p.node_type, NodeType::Item) {
                        return Err(StoreError::InvalidParent { name: parent_name.clone() });
                    }
                },
                None => return Err(StoreError::NotFound { name: parent_name.clone() }),
            }
        }
        proof {
            lemma_add_wf(self@, node);
        }
        self.insert_node(node);
        Ok(())
    }

    /// Puts `node` into the collection of its display, creating it where
    /// it is missing.
    fn insert_node(&mut self, node: BarNode)
        ensures
            final(self)@ == with_added(old(self)@, node),
    {
        let ghost old_view = self@;
        match self.group_index(node.display) {
            Some(i) => {
                let mut g = self.groups.remove(i);
                insert_sorted(&mut g.nodes, node);
                self.groups.insert(i, g);
                assert(self@ =~= with_added(old_view, node));
            },
            None => {
                let d = node.display;
                let mut nodes = Vec::new();
                nodes.push(node);
                self.groups.push(DisplayNodes { display: d, nodes });
                assert(self@ =~= with_added(old_view, node));
            },
        }
    }

    /// Takes the nodes whose names are in `r` from every display.
    fn drop_named(&mut self, names: &Vec<String>, Ghost(r): Ghost<Set<Seq<char>>>)
        requires
            names_denote(names@, r),
        ensures
            final(self)@ == drop_names(old(self)@, r),
    {
        let ghost l = self@;
        let mut gs: Vec<DisplayNodes> = Vec::new();
        std::mem::swap(&mut self.groups, &mut gs);
        let ghost og = gs@;
        let n = gs.len();
        let mut out: Vec<DisplayNodes> = Vec::new();
        let mut idx: usize = 0;
        while idx < n
            invariant
                n == og.len(),
                l.len() == n,
                forall|g: int| 0 <= g < n ==> l[g] == (#[trigger] og[g].display, og[g].nodes@),
                idx <= n,
                gs@ == og.skip(idx as int),
                out@.len() == idx,
                names_denote(names@, r),
                forall|g: int|
                    0 <= g < idx ==> (#[trigger] out@[g]).display == l[g].0 && out@[g].nodes@
                        == without_names(l[g].1, r),
            decreases n - idx,
        {
            let g = gs.remove(0);
            assert(gs@ =~= og.skip(idx + 1));
            assert(g == og[idx as int]);
            let flags = keep_flags(&g.nodes, names, Ghost(r));
            let (kept, _gone) = split_by(g.nodes, &flags);
            out.push(DisplayNodes { display: g.display, nodes: kept });
            idx = idx + 1;
        }
        self.groups = out;
        assert(self@ =~= drop_names(l, r));
    }

    /// Removes the node named `name`; a container takes along every node
    /// that descends from it, on whatever display, parents being looked up
    /// by name over the whole store. Returns the removed node.
    pub fn remove_node(&mut self, name: &str) -> (r: Result<BarNode, StoreError>)
        requires
            old(self).wf(),
        ensures
            final(self).wf(),
            match locate(old(self)@, name@) {
                None => final(self)@ == old(self)@ && (r matches Err(
                    StoreError::NotFound { name: x },
                ) && x@ == name@),
                Some((i, k)) => r == Ok::<BarNode, StoreError>(old(self)@[i].1[k]) && final(self)@
                    == with_removed(old(self)@, i, k),
            },
    {
        match self.find_node(name) {
            None => Err(StoreError::NotFound { name: name.to_owned() }),
            Some((i, k)) => {
                let ghost old_view = self@;
                let node = self.groups[i].nodes[k].clone();
                let all = self.get_nodes();
                let names = cascade_names(&all, &node);
                self.drop_named(&names, Ghost(removed_names(old_view, i as int, k as int)));
                proof {
                    lemma_remove_wf(old_view, i as int, k as int);
                }
                Ok(node)
            },
        }
    }

    /// Applies the bag `properties` to the node named `name`, all or
    /// nothing. A `display` entry moves the node to that display, or, when
    /// empty, to `main_display`, unpinning it; the node's collection stays
    /// sorted by position. Returns the updated node.
    pub fn set_properties(&mut self, name: &str, properties: &Properties, main_display: u32) -> (r:
        Result<BarNode, StoreError>)
        requires
            old(self).wf(),
        ensures
            final(self).wf(),
            match display_request(properties@) {
                Err(e) => r == Err::<BarNode, StoreError>(e) && final(self)@ == old(self)@,
                Ok(req) => match locate(old(self)@, name@) {
                    None => final(self)@ == old(self)@ && (r matches Err(
                        StoreError::NotFound { name: x },
                    ) && x@ == name@),
                    Some((i, k)) => match set_outcome(
                        old(self)@,
                        i,
                        k,
                        req,
                        properties@,
                        main_display,
                    ) {
                        Err(e) => r == Err::<BarNode, StoreError>(e) && final(self)@ == old(self)@,
                        Ok((l, n)) => r == Ok::<BarNode, StoreError>(n) && final(self)@ == l,
                    },
                },
            },
    {
        let req = match read_display_request(properties) {
            Ok(req) => req,
            Err(e) => return Err(e),
        };
        let (i, k) = match self.find_node(name) {
            Some(loc) => loc,
            None => return Err(StoreError::NotFound { name: name.to_owned() }),
        };
        let ghost old_view = self@;
        proof {
            lemma_set_wf(old_view, i as int, k as int, req, properties@, main_display);
        }
        let current = self.groups[i].display;
        let mut n1 = self.groups[i].nodes[k].clone();
        match req {
            Some(t) => {
                n1.display_explicit = t.is_some();
            },
            None => {},
        }
        let n2 = match apply_properties(&n1, properties) {
            Ok(n2) => n2,
            Err(e) => return Err(e),
        };
        let target = match req {
            Some(Some(d)) => d,
            Some(None) => main_display,
            None => current,
        };
        if target != current {
            let mut g = self.groups.remove(i);
            g.nodes.remove(k);
            self.groups.insert(i, g);
            assert(self@ =~= old_view.update(i as int, (old_view[i as int].0, old_view[i as int].1.remove(k as int))));
            let mut moved = n2;
            moved.display = target;
            let out = moved.clone();
            self.insert_node(moved);
            Ok(out)
        } else {
            let mut g = self.groups.remove(i);
            let out = n2.clone();
            reposition_at(&mut g.nodes, k, n2);
            self.groups.insert(i, g);
            assert(self@ =~= old_view.update(i as int, (old_view[i as int].0, reposition(old_view[i as int].1, k as int, out))));
            Ok(out)
        }
    }

    /// Moves the nodes of display `from_display` that are not pinned, and
    /// do not descend from a pinned node, to display `to_display`, keeping
    /// its collection sorted by position. The collection of `from_display`
    /// is dropped where it is left empty. Returns the moved nodes.
    pub fn migrate_nodes(&mut self, from_display: u32, to_display: u32) -> (r: Vec<BarNode>)
        requires
            old(self).wf(),
        ensures
            final(self).wf(),
            r@ == migrated(old(self)@, from_display, to_display),
            final(self)@ == with_migrated(old(self)@, from_display, to_display),
    {
        let ghost l = self@;
        proof {
            lemma_migrate_wf(l, from_display, to_display);
        }
        let i = match self.group_index(from_display) {
            Some(i) => i,
            None => return Vec::new(),
        };
        let g = self.groups.remove(i);
        let ghost s = g.nodes@;
        let seeds = pinned_flags(&g.nodes);
        let stay = propagate(&g.nodes, seeds);
        let (kept, moving) = split_by(g.nodes, &stay);
        assert(s == l[i as int].1);
        assert(kept@ == select(s, staying(s)));
        if kept.len() > 0 {
            self.groups.insert(i, DisplayNodes { display: g.display, nodes: kept });
            assert(self@ =~= l.update(i as int, (l[i as int].0, select(s, staying(s)))));
        } else {
            assert(self@ =~= l.remove(i as int));
        }
        let ghost l1 = self@;
        assert(l1 == if select(s, staying(s)).len() == 0 {
            l.remove(i as int)
        } else {
            l.update(i as int, (l[i as int].0, select(s, staying(s))))
        });
        let mut out: Vec<BarNode> = Vec::new();
        let mut rest = moving;
        let ghost mv = rest@;
        let mut k: usize = 0;
        let n = rest.len();
        while k < n
            invariant
                n == mv.len(),
                k <= n,
                rest@ == mv.skip(k as int),
                out@ =~= relocated(mv, to_display).take(k as int),
                self@ == l1,
            decreases n - k,
        {
            let mut x = rest.remove(0);
            assert(rest@ =~= mv.skip(k + 1));
            x.display = to_display;
            out.push(x);
            k = k + 1;
        }
        assert(out@ =~= migrated(l, from_display, to_display));
        let j = self.group_index(to_display);
        let ghost old_display = match j {
            Some(j) => l1[j as int].0,
            None => to_display,
        };
        let mut target = match j {
            Some(j) => self.groups.remove(j),
            None => DisplayNodes { display: to_display, nodes: Vec::new() },
        };
        let ghost t0 = target.nodes@;
        let ghost l2 = self@;
        assert(j matches Some(j) ==> t0 == l1[j as int].1 && target.display == l1[j as int].0);
        assert(j is None ==> t0 == Seq::<BarNode>::empty() && target.display == to_display);
        let mut k: usize = 0;
        while k < out.len()
            invariant
                k <= out@.len(),
                target.nodes@ == insert_all(t0, out@.take(k as int)),
                self@ == l2,
                target.display == old_display,
            decreases out@.len() - k,
        {
            assert(out@.take(k + 1).drop_last() =~= out@.take(k as int));
            insert_sorted(&mut target.nodes, out[k].clone());
            k = k + 1;
        }
        assert(out@.take(out@.len() as int) =~= out@);
        assert(target.nodes@ == insert_all(t0, migrated(l, from_display, to_display)));
        match j {
            Some(j) => {
                self.groups.insert(j, target);
                assert(self@ =~= with_migrated(l, from_display, to_display));
            },
            None => {
                self.groups.push(target);
                assert(self@ =~= with_migrated(l, from_display, to_display));
            },
        }
        out
    }

    /// Every node, the displays' collections one after another.
    pub fn get_nodes(&self) -> (r: Vec<BarNode>)
        ensures
            r@ == all_nodes(self@),
    {
        let mut out: Vec<BarNode> = Vec::new();
        let mut i: usize = 0;
        while i < self.groups.len()
            invariant
                i <= self@.len(),
                self@.len() == self.groups@.len(),
                out@ == all_nodes(self@.take(i as int)),
            decreases self@.len() - i,
        {
            let nodes = &self.groups[i].nodes;
            let ghost before = out@;
            let mut k: usize = 0;
            while k < nodes.len()
                invariant
                    k <= nodes@.len(),
                    out@ == before + nodes@.take(k as int),
                decreases nodes@.len() - k,
            {
                out.push(nodes[k].clone());
                assert(out@ =~= before + nodes@.take(k + 1));
                k = k + 1;
            }
            proof {
                assert(self@.take(i + 1).drop_last() =~= self@.take(i as int));
                assert(nodes@.take(k as int) =~= nodes@);
                assert(self@[i as int].1 == nodes@);
            }
            i = i + 1;
        }
        assert(self@.take(i as int) =~= self@);
        out
    }

    /// The nodes of display `display`, in position order.
    pub fn get_nodes_for_display(&self, display: u32) -> (r: Vec<BarNode>)
        ensures
            r@ == nodes_on(self@, display),
    {
        match self.group_index(display) {
            Some(i) => self.groups[i].nodes.clone(),
            None => Vec::new(),
        }
    }
}


proof fn lemma_first_named_exists(s: Seq<BarNode>, name: Seq<char>, k: int)
    requires
        0 <= k < s.len(),
        s[k].name@ == name,
    ensures
        find_in(s, name) is Some,
    decreases k,
{
    if exists|j: int| 0 <= j < k && s[j].name@ == name {
        let j = choose|j: int| 0 <= j < k && s[j].name@ == name;
        lemma_first_named_exists(s, name, j);
    } else {
        assert(first_named(s, name, k));
    }
}

proof fn lemma_first_group_exists(l: Layout, name: Seq<char>, i: int)
    requires
        0 <= i < l.len(),
        find_in(l[i].1, name) is Some,
    ensures
        locate(l, name) is Some,
    decreases i,
{
    if exists|j: int| 0 <= j < i && find_in(l[j].1, name) is Some {
        let j = choose|j: int| 0 <= j < i && find_in(l[j].1, name) is Some;
        lemma_first_group_exists(l, name, j);
    } else {
        assert(first_group_with(l, name, i));
    }
}

/// No node of `l` bears a name that `locate` does not find.
pub proof fn lemma_locate_none(l: Layout, name: Seq<char>)
    requires
        locate(l, name) is None,
    ensures
        forall|i: int, k: int|
            0 <= i < l.len() && 0 <= k < l[i].1.len() ==> l[i].1[k].name@ != name,
{
    assert forall|i: int, k: int|
        0 <= i < l.len() && 0 <= k < l[i].1.len() implies l[i].1[k].name@ != name by {
        if l[i].1[k].name@ == name {
            lemma_first_named_exists(l[i].1, name, k);
            lemma_first_group_exists(l, name, i);
        }
    }
}

/// A node that the store accepts is found afterwards under its name, with
/// exactly the attributes it was added with.
pub proof fn lemma_added_node_found(l: Layout, n: BarNode)
    requires
        add_error(l, n) is None,
    ensures
        node_named(with_added(l, n), n.name@) == Some(n),
{
    let name = n.name@;
    assert(locate(l, name) is None);
    lemma_locate_none(l, name);
    let l2 = with_added(l, n);
    match group_of(l, n.display) {
        Some(i) => {
            let c = choose|x: int| first_group_of(l, n.display, x);
            assert(first_group_of(l, n.display, c));
            let s = l[i].1;
            let u = bound(s, n.position, true);
            crate::wf::lemma_bound_range(s, n.position, true);
            let ins = s.insert(u, n);
            assert(l2[i].1 == ins);
            assert(first_named(ins, name, u));
            lemma_first_named_unique(ins, name, u);
            assert forall|j: int| 0 <= j < i implies find_in(l2[j].1, name) is None by {
                assert(l2[j] == l[j]);
                if find_in(l[j].1, name) is Some {
                    let cc = choose|x: int| first_named(l[j].1, name, x);
                    assert(first_named(l[j].1, name, cc));
                }
            }
            assert(first_group_with(l2, name, i));
            lemma_first_group_unique(l2, name, i);
        },
        None => {
            let i = l.len() as int;
            assert(l2[i].1 == seq![n]);
            assert(first_named(seq![n], name, 0));
            lemma_first_named_unique(seq![n], name, 0);
            assert forall|j: int| 0 <= j < i implies find_in(l2[j].1, name) is None by {
                assert(l2[j] == l[j]);
                if find_in(l[j].1, name) is Some {
                    let cc = choose|x: int| first_named(l[j].1, name, x);
                    assert(first_named(l[j].1, name, cc));
                }
            }
            assert(first_group_with(l2, name, i));
            lemma_first_group_unique(l2, name, i);
        },
    }
}

/// Adding a node whose name is in use on any display is refused as a
/// duplicate, whatever its parent (and `add_node` then leaves the store
/// unchanged).
pub proof fn lemma_duplicate_name_refused(l: Layout, n: BarNode)
    requires
        locate(l, n.name@) is Some,
    ensures
        add_error(l, n) == Some(StoreError::AlreadyExists { name: n.name }),
{
}

/// A node is among the selected nodes exactly when some node equal to it
/// is flagged.
pub proof fn lemma_select_contains(s: Seq<BarNode>, keep: Seq<bool>, x: BarNode)
    requires
        keep.len() == s.len(),
    ensures
        select(s, keep).contains(x) <==> exists|j: int| 0 <= j < s.len() && keep[j] && s[j] == x,
    decreases s.len(),
{
    if s.len() > 0 {
        let t = s.drop_last();
        lemma_select_contains(t, keep.drop_last(), x);
        crate::wf::lemma_select_flags(t, keep, keep.drop_last());
        if select(s, keep).contains(x) {
            if keep[s.len() - 1] && s.last() == x {
                assert(s[s.len() - 1] == x);
            } else {
                let m = choose|m: int| 0 <= m < select(s, keep).len() && select(s, keep)[m] == x;
                if keep[s.len() - 1] {
                    assert(select(s, keep) == select(t, keep).push(s.last()));
                    if m < select(t, keep).len() {
                        assert(select(t, keep)[m] == x);
                    }
                }
                assert(select(t, keep.drop_last()).contains(x));
                let j = choose|j: int| 0 <= j < t.len() && keep.drop_last()[j] && t[j] == x;
                assert(s[j] == x && keep[j]);
            }
        }
        if exists|j: int| 0 <= j < s.len() && keep[j] && s[j] == x {
            let j = choose|j: int| 0 <= j < s.len() && keep[j] && s[j] == x;
            if j == s.len() - 1 {
                assert(select(s, keep) == select(t, keep).push(s.last()));
                assert(select(s, keep)[select(t, keep).len() as int] == x);
            } else {
                assert(t[j] == x && keep.drop_last()[j]);
                assert(select(t, keep).contains(x));
                let m = choose|m: int| 0 <= m < select(t, keep).len() && select(t, keep)[m] == x;
                if keep[s.len() - 1] {
                    assert(select(s, keep)[m] == x);
                }
            }
        }
    }
}

proof fn lemma_select_all(s: Seq<BarNode>, f: Seq<bool>)
    requires
        f.len() >= s.len(),
        forall|j: int| 0 <= j < s.len() ==> f[j],
    ensures
        select(s, f) == s,
    decreases s.len(),
{
    if s.len() > 0 {
        lemma_select_all(s.drop_last(), f);
        assert(select(s, f) =~= s);
    }
}

proof fn lemma_select_all_but(s: Seq<BarNode>, f: Seq<bool>, k: int)
    requires
        f.len() >= s.len(),
        0 <= k < s.len(),
        forall|j: int| 0 <= j < s.len() ==> f[j] == (j != k),
    ensures
        select(s, f) == s.remove(k),
    decreases s.len(),
{
    let t = s.drop_last();
    if k == s.len() - 1 {
        lemma_select_all(t, f);
        assert(t =~= s.remove(k));
    } else {
        lemma_select_all_but(t, f, k);
        assert(t.remove(k).push(s.last()) =~= s.remove(k));
    }
}

/// Removing an item takes it alone away: every other node, on every
/// display, keeps its place, its siblings included.
pub proof fn lemma_remove_item(l: Layout, i: int, k: int)
    requires
        layout_wf(l),
        0 <= i < l.len(),
        0 <= k < l[i].1.len(),
        l[i].1[k].node_type is Item,
    ensures
        with_removed(l, i, k) == l.update(i, (l[i].0, l[i].1.remove(k))),
{
    let x = l[i].1[k].name@;
    let r = removed_names(l, i, k);
    assert(r == set![x]);
    crate::wf::lemma_named_once(l, i, k);
    let l2 = with_removed(l, i, k);
    assert forall|g: int| 0 <= g < l.len() implies #[trigger] l2[g] == l.update(
        i,
        (l[i].0, l[i].1.remove(k)),
    )[g] by {
        let s = l[g].1;
        let f = Seq::new(s.len(), |j: int| !r.contains(s[j].name@));
        if g == i {
            assert forall|j: int| 0 <= j < s.len() implies f[j] == (j != k) by {
                if j != k && s[j].name@ == x {
                    crate::wf::lemma_named_at_most_once(s, x, j, k);
                }
            }
            lemma_select_all_but(s, f, k);
        } else {
            assert forall|j: int| 0 <= j < s.len() implies f[j] by {
                if s[j].name@ == x {
                    crate::wf::lemma_count_two_groups(l, g, i, x);
                    crate::wf::lemma_count_member(s, j);
                }
            }
            lemma_select_all(s, f);
        }
    }
    assert(l2 =~= l.update(i, (l[i].0, l[i].1.remove(k))));
}

/// Removing a node keeps the displays, and keeps on each display exactly
/// its nodes whose names are not removed: the removed node's own and, for
/// a container, the names of all its descendants on every display.
pub proof fn lemma_remove_outcome(l: Layout, i: int, k: int, g: int, x: BarNode)
    requires
        0 <= i < l.len(),
        0 <= k < l[i].1.len(),
        0 <= g < l.len(),
    ensures
        with_removed(l, i, k).len() == l.len(),
        with_removed(l, i, k)[g].0 == l[g].0,
        with_removed(l, i, k)[g].1.contains(x) <==> l[g].1.contains(x) && !removed_names(
            l,
            i,
            k,
        ).contains(x.name@),
{
    let r = removed_names(l, i, k);
    let s = l[g].1;
    let f = Seq::new(s.len(), |j: int| !r.contains(s[j].name@));
    lemma_select_contains(s, f, x);
}

proof fn lemma_group_of_absent(l: Layout, d: u32)
    requires
        forall|i: int| 0 <= i < l.len() ==> l[i].0 != d,
    ensures
        group_of(l, d) is None,
{
    assert(!exists|i: int| first_group_of(l, d, i));
}

proof fn lemma_group_of_same_ids(l: Layout, l2: Layout, d: u32)
    requires
        l.len() == l2.len(),
        forall|i: int| 0 <= i < l.len() ==> l[i].0 == l2[i].0,
    ensures
        group_of(l2, d) == group_of(l, d),
{
    crate::wf::lemma_group_of(l, d);
    match group_of(l, d) {
        Some(i) => {
            let c = choose|x: int| first_group_of(l, d, x);
            assert(first_group_of(l, d, c));
            assert(first_group_of(l2, d, i));
            lemma_first_group_of_unique(l2, d, i);
        },
        None => {
            lemma_group_of_absent(l2, d);
        },
    }
}

proof fn lemma_inserted_contains(s: Seq<BarNode>, n: BarNode)
    ensures
        insert_by_position(s, n).contains(n),
        forall|x: BarNode| s.contains(x) ==> insert_by_position(s, n).contains(x),
{
    crate::wf::lemma_bound_range(s, n.position, true);
    let u = bound(s, n.position, true);
    let r = s.insert(u, n);
    assert(r[u] == n);
    assert forall|x: BarNode| s.contains(x) implies r.contains(x) by {
        let j = choose|j: int| 0 <= j < s.len() && s[j] == x;
        if j < u {
            assert(r[j] == x);
        } else {
            assert(r[j + 1] == x);
        }
    }
}

/// A node whose display a `set` changes leaves the collection of its old
/// display, where no node of its name remains, and joins the collection of
/// the new display, which stays sorted by position.
#[verifier::rlimit(60)]
pub proof fn lemma_set_display_moves(
    l: Layout,
    i: int,
    k: int,
    req: Option<Option<u32>>,
    props: Seq<Property>,
    main: u32,
)
    requires
        layout_wf(l),
        0 <= i < l.len(),
        0 <= k < l[i].1.len(),
        set_outcome(l, i, k, req, props, main) matches Ok((_, m)) && m.display != l[i].0,
    ensures
        set_outcome(l, i, k, req, props, main) matches Ok((l2, m)) && nodes_on(l2, m.display).contains(m)
            && sorted_by_position(nodes_on(l2, m.display)) && forall|j: int|
            0 <= j < nodes_on(l2, l[i].0).len() ==> (#[trigger] nodes_on(l2, l[i].0)[j]).name@
                != m.name@,
        set_outcome(l, i, k, req, props, main) matches Ok((l2, m)) && nodes_on(l2, m.display)
            == insert_by_position(nodes_on(l, m.display), m) && nodes_on(l2, l[i].0) == l[i].1.remove(
            k,
        ),
{
    let s = l[i].1;
    let n = s[k];
    let n1 = match req {
        Some(t) => BarNode { display_explicit: t is Some, ..n },
        None => n,
    };
    crate::resolve::lemma_resolve_keeps_identity(n1, props);
    lemma_set_wf(l, i, k, req, props, main);
    let (l2, m) = set_outcome(l, i, k, req, props, main)->Ok_0;
    let rest = s.remove(k);
    let l1 = l.update(i, (l[i].0, rest));
    assert(l2 == with_added(l1, m));
    let d = m.display;
    let from = l[i].0;
    crate::wf::lemma_group_of(l1, d);
    crate::wf::lemma_group_of(l, from);
    assert(l[i].0 == from);
    match group_of(l1, d) {
        Some(j) => {
            assert(j != i);
            lemma_inserted_contains(l1[j].1, m);
            assert(l2 == l1.update(j, (l1[j].0, insert_by_position(l1[j].1, m))));
            lemma_group_of_same_ids(l1, l2, d);
            lemma_group_of_same_ids(l, l1, from);
            lemma_group_of_same_ids(l1, l2, from);
            lemma_group_of_same_ids(l, l1, d);
            assert(l1[j] == l[j]);
            assert(nodes_on(l2, from) == rest);
        },
        None => {
            assert(l2 == l1.push((d, seq![m])));
            assert(first_group_of(l2, d, l1.len() as int));
            lemma_first_group_of_unique(l2, d, l1.len() as int);
            assert(seq![m][0] == m);
            lemma_group_of_same_ids(l, l1, from);
            lemma_group_of_same_ids(l, l1, d);
            assert(insert_by_position(Seq::<BarNode>::empty(), m) =~= seq![m]) by {
                crate::wf::lemma_bound_range(Seq::<BarNode>::empty(), m.position, true);
            }
            assert(first_group_of(l2, from, i));
            lemma_first_group_of_unique(l2, from, i);
            assert(nodes_on(l2, from) == rest);
        },
    }
    crate::wf::lemma_named_once(l, i, k);
    assert forall|j: int| 0 <= j < rest.len() implies rest[j].name@ != m.name@ by {
        crate::wf::lemma_count_remove(s, k, m.name@);
        crate::wf::lemma_count_member(rest, j);
    }
    crate::wf::lemma_group_of(l2, d);
}

/// `insert_all` keeps what was there and adds what is inserted.
pub proof fn lemma_insert_all_contains(t: Seq<BarNode>, m: Seq<BarNode>, x: BarNode)
    requires
        t.contains(x) || m.contains(x),
    ensures
        insert_all(t, m).contains(x),
    decreases m.len(),
{
    if m.len() > 0 {
        let r = insert_all(t, m.drop_last());
        lemma_inserted_contains(r, m.last());
        if t.contains(x) || m.drop_last().contains(x) {
            lemma_insert_all_contains(t, m.drop_last(), x);
        } else {
            let j = choose|j: int| 0 <= j < m.len() && m[j] == x;
            if j < m.len() - 1 {
                assert(m.drop_last()[j] == x);
            }
        }
    }
}

proof fn lemma_nodes_on_remove(l: Layout, i: int, d: u32)
    requires
        forall|a: int, b: int| 0 <= a < b < l.len() ==> l[a].0 != l[b].0,
        0 <= i < l.len(),
        l[i].0 != d,
    ensures
        nodes_on(l.remove(i), d) == nodes_on(l, d),
{
    let r = l.remove(i);
    crate::wf::lemma_group_of(l, d);
    match group_of(l, d) {
        Some(j) => {
            let j2 = if j < i {
                j
            } else {
                j - 1
            };
            assert(r[j2] == l[j]);
            assert forall|x: int| 0 <= x < j2 implies r[x].0 != d by {
                let x2 = if x < i {
                    x
                } else {
                    x + 1
                };
                assert(r[x] == l[x2]);
            }
            assert(first_group_of(r, d, j2));
            lemma_first_group_of_unique(r, d, j2);
        },
        None => {
            assert forall|x: int| 0 <= x < r.len() implies r[x].0 != d by {
                let x2 = if x < i {
                    x
                } else {
                    x + 1
                };
                assert(r[x] == l[x2]);
            }
            lemma_group_of_absent(r, d);
        },
    }
}

/// When display `from` goes and its nodes migrate to display `to`: each
/// node that is neither pinned nor below a pinned node arrives on `to`,
/// its display changed and nothing else; the other nodes stay on `from`,
/// in their order, and the collection of `from` is dropped once none
/// stays; the collection of `to` is its old nodes with the arrivals
/// inserted by position.
pub proof fn lemma_migration_outcome(l: Layout, from: u32, to: u32, i: int, k: int)
    requires
        layout_wf(l),
        from != to,
        group_of(l, from) == Some(i),
        0 <= k < l[i].1.len(),
    ensures
        !staying(l[i].1)[k] ==> nodes_on(with_migrated(l, from, to), to).contains(
            BarNode { display: to, ..l[i].1[k] },
        ) && migrated(l, from, to).contains(BarNode { display: to, ..l[i].1[k] }),
        staying(l[i].1)[k] ==> nodes_on(with_migrated(l, from, to), from).contains(l[i].1[k]),
        select(l[i].1, staying(l[i].1)).len() == 0 ==> group_of(with_migrated(l, from, to), from) is None,
        select(l[i].1, staying(l[i].1)).len() > 0 ==> nodes_on(with_migrated(l, from, to), from)
            == select(l[i].1, staying(l[i].1)),
        nodes_on(with_migrated(l, from, to), to) == insert_all(
            nodes_on(l, to),
            migrated(l, from, to),
        ),
{
    let s = l[i].1;
    let st = staying(s);
    let kept = select(s, st);
    let gone = select(s, negate(st));
    let m = migrated(l, from, to);
    let l2 = with_migrated(l, from, to);
    crate::wf::lemma_group_of(l, from);
    let l1 = if kept.len() == 0 {
        l.remove(i)
    } else {
        l.update(i, (l[i].0, kept))
    };
    let y = BarNode { display: to, ..s[k] };
    if !st[k] {
        lemma_select_contains(s, negate(st), s[k]);
        let g = choose|g: int| 0 <= g < gone.len() && gone[g] == s[k];
        assert(m[g] == y);
        assert(m.contains(y));
    } else {
        lemma_select_contains(s, st, s[k]);
    }
    if kept.len() == 0 {
        lemma_nodes_on_remove(l, i, to);
    } else {
        lemma_group_of_same_ids(l, l1, to);
        crate::wf::lemma_group_of(l, to);
    }
    assert(nodes_on(l1, to) == nodes_on(l, to));
    crate::wf::lemma_group_of(l1, to);
    match group_of(l1, to) {
        Some(j) => {
            let t = l1[j].1;
            assert(l2 == l1.update(j, (l1[j].0, insert_all(t, m))));
            lemma_group_of_same_ids(l1, l2, to);
            lemma_group_of_same_ids(l1, l2, from);
            if !st[k] {
                lemma_insert_all_contains(t, m, y);
            }
        },
        None => {
            let e = Seq::<BarNode>::empty();
            assert(l2 == l1.push((to, insert_all(e, m))));
            assert(first_group_of(l2, to, l1.len() as int));
            lemma_first_group_of_unique(l2, to, l1.len() as int);
            if !st[k] {
                lemma_insert_all_contains(e, m, y);
            }
            crate::wf::lemma_group_of(l1, from);
            match group_of(l1, from) {
                Some(a) => {
                    let c = choose|x: int| first_group_of(l1, from, x);
                    assert(first_group_of(l1, from, c));
                    assert(first_group_of(l2, from, a));
                    lemma_first_group_of_unique(l2, from, a);
                },
                None => {
                    lemma_group_of_absent(l2, from);
                },
            }
        },
    }
    if kept.len() == 0 {
        assert forall|a: int| 0 <= a < l1.len() implies l1[a].0 != from by {
            if a < i {
                assert(l1[a] == l[a]);
            } else {
                assert(l1[a] == l[a + 1]);
            }
        }
        lemma_group_of_absent(l1, from);
        assert forall|a: int| 0 <= a < l2.len() implies l2[a].0 != from by {
            if a < l1.len() {
            }
        }
        lemma_group_of_absent(l2, from);
    } else {
        assert(first_group_of(l1, from, i)) by {
            assert forall|x: int| 0 <= x < i implies l1[x].0 != from by {
                assert(l1[x] == l[x]);
            }
        }
        lemma_first_group_of_unique(l1, from, i);
        assert(nodes_on(l1, from) == kept);
    }
}

/// Where `locate` finds a name, a node of that name stands.
pub proof fn lemma_located(l: Layout, name: Seq<char>)
    ensures
        locate(l, name) matches Some((i, k)) ==> 0 <= i < l.len() && 0 <= k < l[i].1.len()
            && l[i].1[k].name@ == name,
{
    if exists|i: int| first_group_with(l, name, i) {
        let i = choose|i: int| first_group_with(l, name, i);
        assert(first_group_with(l, name, i));
        let s = l[i].1;
        let c = choose|k: int| first_named(s, name, k);
        assert(first_named(s, name, c));
    }
}

/// Every node of a collection is among all the nodes of the store.
pub proof fn lemma_all_nodes_contains(l: Layout, i: int, k: int)
    requires
        0 <= i < l.len(),
        0 <= k < l[i].1.len(),
    ensures
        all_nodes(l).contains(l[i].1[k]),
    decreases l.len(),
{
    let a = all_nodes(l.drop_last());
    if i == l.len() - 1 {
        assert(all_nodes(l)[a.len() + k] == l[i].1[k]);
    } else {
        lemma_all_nodes_contains(l.drop_last(), i, k);
        let j = choose|j: int| 0 <= j < a.len() && a[j] == l[i].1[k];
        assert(all_nodes(l)[j] == l[i].1[k]);
    }
}

/// Adding a node adds its name once to the names of the store and leaves
/// every other name's count as it was.
pub proof fn lemma_add_counts(l: Layout, n: BarNode, x: Seq<char>)
    ensures
        crate::wf::count_in_layout(with_added(l, n), x) == crate::wf::count_in_layout(l, x)
            + crate::wf::named(n, x),
{
    crate::wf::lemma_group_of(l, n.display);
    match group_of(l, n.display) {
        Some(i) => {
            let t = l[i].1;
            crate::wf::lemma_bound_range(t, n.position, true);
            crate::wf::lemma_count_layout_update(l, i, (l[i].0, insert_by_position(t, n)), x);
            crate::wf::lemma_count_insert(t, bound(t, n.position, true), n, x);
        },
        None => {
            crate::wf::lemma_count_layout_push(l, (n.display, seq![n]), x);
            assert(seq![n].drop_last() =~= Seq::<BarNode>::empty());
            assert(crate::wf::count_named(Seq::<BarNode>::empty(), x) == 0);
        },
    }
}

/// Migration moves nodes without losing or adding any: every name is
/// counted as often after as before.
pub proof fn lemma_migration_keeps_names(l: Layout, from: u32, to: u32, x: Seq<char>)
    ensures
        crate::wf::count_in_layout(with_migrated(l, from, to), x) == crate::wf::count_in_layout(
            l,
            x,
        ),
{
    crate::wf::lemma_group_of(l, from);
    if let Some(i) = group_of(l, from) {
        let s = l[i].1;
        let st = staying(s);
        let kept = select(s, st);
        let gone = select(s, negate(st));
        let m = migrated(l, from, to);
        let l1 = if kept.len() == 0 {
            l.remove(i)
        } else {
            l.update(i, (l[i].0, kept))
        };
        crate::wf::lemma_count_select(s, st, x);
        crate::wf::lemma_count_relocated(gone, to, x);
        if kept.len() == 0 {
            crate::wf::lemma_count_layout_remove(l, i, x);
        } else {
            crate::wf::lemma_count_layout_update(l, i, (l[i].0, kept), x);
        }
        crate::wf::lemma_group_of(l1, to);
        match group_of(l1, to) {
            Some(j) => {
                let t = l1[j].1;
                crate::wf::lemma_count_insert_all(t, m, x);
                crate::wf::lemma_count_layout_update(l1, j, (l1[j].0, insert_all(t, m)), x);
            },
            None => {
                let e = Seq::<BarNode>::empty();
                crate::wf::lemma_count_insert_all(e, m, x);
                crate::wf::lemma_count_layout_push(l1, (to, insert_all(e, m)), x);
                assert(crate::wf::count_named(e, x) == 0);
            },
        }
    }
}

proof fn lemma_all_nodes_update_multiset(l: Layout, i: int, g: (u32, Seq<BarNode>))
    requires
        0 <= i < l.len(),
    ensures
        all_nodes(l.update(i, g)).to_multiset().add(l[i].1.to_multiset()) =~= all_nodes(
            l,
        ).to_multiset().add(g.1.to_multiset()),
    decreases l.len(),
{
    broadcast use vstd::multiset::group_multiset_axioms;

    let l2 = l.update(i, g);
    let a = all_nodes(l.drop_last());
    if i < l.len() - 1 {
        let a2 = all_nodes(l.drop_last().update(i, g));
        lemma_all_nodes_update_multiset(l.drop_last(), i, g);
        assert(l2.drop_last() =~= l.drop_last().update(i, g));
        assert(all_nodes(l2) == a2 + l.last().1);
        assert(all_nodes(l) == a + l.last().1);
        assert(l.drop_last()[i] == l[i]);
        vstd::seq_lib::lemma_multiset_commutative(a2, l.last().1);
        vstd::seq_lib::lemma_multiset_commutative(a, l.last().1);
        let ms2 = all_nodes(l2).to_multiset();
        assert forall|x: BarNode| #[trigger] ms2.add(l[i].1.to_multiset()).count(x) == all_nodes(
            l,
        ).to_multiset().add(g.1.to_multiset()).count(x) by {
            assert(a2.to_multiset().add(l[i].1.to_multiset()).count(x) == a.to_multiset().add(
                g.1.to_multiset(),
            ).count(x));
        }
    } else {
        assert(l2.drop_last() =~= l.drop_last());
        assert(all_nodes(l2) == a + g.1);
        assert(all_nodes(l) == a + l.last().1);
        vstd::seq_lib::lemma_multiset_commutative(a, g.1);
        vstd::seq_lib::lemma_multiset_commutative(a, l.last().1);
    }
}

/// Adding a node adds exactly that node to the nodes of the store, counted
/// as a multiset: nothing else appears or goes.
pub proof fn lemma_add_multiset(l: Layout, n: BarNode)
    ensures
        all_nodes(with_added(l, n)).to_multiset() =~= all_nodes(l).to_multiset().insert(n),
{
    broadcast use vstd::multiset::group_multiset_axioms;

    crate::wf::lemma_group_of(l, n.display);
    match group_of(l, n.display) {
        Some(i) => {
            let t = l[i].1;
            crate::wf::lemma_bound_range(t, n.position, true);
            let g = (l[i].0, insert_by_position(t, n));
            lemma_all_nodes_update_multiset(l, i, g);
            vstd::seq_lib::to_multiset_insert(t, bound(t, n.position, true), n);
            assert(g.1.to_multiset() =~= t.to_multiset().insert(n));
            let ms2 = all_nodes(with_added(l, n)).to_multiset();
            assert(with_added(l, n) == l.update(i, g));
            assert forall|x: BarNode| #[trigger] ms2.count(x) == all_nodes(l).to_multiset().insert(
                n,
            ).count(x) by {
                assert(ms2.add(t.to_multiset()).count(x) == all_nodes(l).to_multiset().add(
                    g.1.to_multiset(),
                ).count(x));
            }
        },
        None => {
            let l2 = l.push((n.display, seq![n]));
            let e = Seq::<BarNode>::empty();
            assert(l2.drop_last() =~= l);
            assert(all_nodes(l2) == all_nodes(l) + seq![n]);
            assert(seq![n] =~= e.push(n));
            vstd::seq_lib::to_multiset_build(e, n);
            e.to_multiset_ensures();
            assert(e.to_multiset() =~= vstd::multiset::Multiset::<BarNode>::empty());
            vstd::seq_lib::lemma_multiset_commutative(all_nodes(l), seq![n]);
        },
    }
}

} // verus!
