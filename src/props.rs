//! The untyped property bag that a `set` request carries.

use vstd::prelude::*;
use crate::text::text_eq;

verus! {

/// One entry of a property bag: a property name and its raw value.
///
/// `metric` is the value read as a 32-bit float (its IEEE-754 bit
/// pattern), or `None` where the value does not read as one. The library
/// holds no floating-point code, so whoever builds the bag supplies it.
pub struct Property {
    pub key: String,
    pub value: String,
    pub metric: Option<u32>,
}

/// A mapping from property names to raw values; each name occurs once,
/// and entries keep the order in which their names were first inserted.
pub struct Properties {
    entries: Vec<Property>,
}

/// Whether `i` is the first index of `s` whose entry bears the name `k`.
pub open spec fn first_with_key(s: Seq<Property>, k: Seq<char>, i: int) -> bool {
    &&& 0 <= i < s.len()
    &&& s[i].key@ == k
    &&& forall|j: int| 0 <= j < i ==> s[j].key@ != k
}

/// The index of the entry that bears the name `k`, if any.
pub open spec fn key_index(s: Seq<Property>, k: Seq<char>) -> Option<int> {
    if exists|i: int| first_with_key(s, k, i) {
        Some(choose|i: int| first_with_key(s, k, i))
    } else {
        None
    }
}

/// The entry that bears the name `k`, if any.
pub open spec fn lookup(s: Seq<Property>, k: Seq<char>) -> Option<Property> {
    match key_index(s, k) {
        Some(i) => Some(s[i]),
        None => None,
    }
}

/// `s` with `p` put under its name: in place of the entry of that name
/// where there is one, else at the end.
pub open spec fn put(s: Seq<Property>, p: Property) -> Seq<Property> {
    match key_index(s, p.key@) {
        Some(i) => s.update(i, p),
        None => s.push(p),
    }
}

/// Whether no two entries of `s` bear the same name.
pub open spec fn keys_distinct(s: Seq<Property>) -> bool {
    forall|i: int, j: int| 0 <= i < j < s.len() ==> s[i].key@ != s[j].key@
}

proof fn lemma_first_key_exists(s: Seq<Property>, k: Seq<char>, i: int)
    requires
        0 <= i < s.len(),
        s[i].key@ == k,
    ensures
        key_index(s, k) is Some,
    decreases i,
{
    if exists|j: int| 0 <= j < i && s[j].key@ == k {
        let j = choose|j: int| 0 <= j < i && s[j].key@ == k;
        lemma_first_key_exists(s, k, j);
    } else {
        assert(first_with_key(s, k, i));
    }
}

/// Putting an entry keeps the names of a bag distinct.
pub proof fn lemma_put_keeps_keys_distinct(s: Seq<Property>, p: Property)
    requires
        keys_distinct(s),
    ensures
        keys_distinct(put(s, p)),
{
    if exists|i: int| first_with_key(s, p.key@, i) {
        let c = choose|i: int| first_with_key(s, p.key@, i);
        assert(first_with_key(s, p.key@, c));
    } else {
        assert forall|i: int| 0 <= i < s.len() implies s[i].key@ != p.key@ by {
            if s[i].key@ == p.key@ {
                lemma_first_key_exists(s, p.key@, i);
            }
        }
    }
}

/// The first entry bearing a name is the one `key_index` gives.
pub proof fn lemma_first_unique(s: Seq<Property>, k: Seq<char>, i: int)
    requires
        first_with_key(s, k, i),
    ensures
        key_index(s, k) == Some(i),
{
    let c = choose|x: int| first_with_key(s, k, x);
    assert(first_with_key(s, k, c));
    if c < i {
        assert(s[c].key@ != k);
    } else if c > i {
        assert(s[i].key@ != k);
    }
}

impl View for Properties {
    type V = Seq<Property>;

    closed spec fn view(&self) -> Seq<Property> {
        self.entries@
    }
}

impl Properties {
    /// An empty bag.
    pub fn new() -> (r: Properties)
        ensures
            r@ == Seq::<Property>::empty(),
            keys_distinct(r@),
    {
        Properties { entries: Vec::new() }
    }

    /// The number of entries.
    pub fn len(&self) -> (r: usize)
        ensures
            r == self@.len(),
    {
        self.entries.len()
    }

    /// The entry at index `i`, in insertion order.
    pub fn entry(&self, i: usize) -> (r: &Property)
        requires
            i < self@.len(),
        ensures
            *r == self@[i as int],
    {
        &self.entries[i]
    }

    /// The index of the entry named `key`.
    pub fn index_of(&self, key: &str) -> (r: Option<usize>)
        ensures
            r matches Some(i) ==> key_index(self@, key@) == Some(i as int),
            r is None ==> key_index(self@, key@) is None,
    {
        let mut i: usize = 0;
        while i < self.entries.len()
            invariant
                i <= self@.len(),
                self@ == self.entries@,
                forall|j: int| 0 <= j < i ==> self@[j].key@ != key@,
            decreases self@.len() - i,
        {
            if text_eq(self.entries[i].key.as_str(), key) {
                proof {
                    lemma_first_unique(self@, key@, i as int);
                }
                return Some(i);
            }
            i = i + 1;
        }
        assert(!exists|x: int| first_with_key(self@, key@, x));
        None
    }

    /// The entry named `key`, if any.
    pub fn get(&self, key: &str) -> (r: Option<&Property>)
        ensures
            r matches Some(p) ==> lookup(self@, key@) == Some(*p),
            r is None ==> lookup(self@, key@) is None,
    {
        match self.index_of(key) {
            Some(i) => Some(&self.entries[i]),
            None => None,
        }
    }

    /// Puts `value` under `key`, replacing the value of an entry of that
    /// name.
    pub fn insert(&mut self, key: String, value: String, metric: Option<u32>)
        ensures
            final(self)@ == put(old(self)@, Property { key, value, metric }),
            keys_distinct(old(self)@) ==> keys_distinct(final(self)@),
    {
        proof {
            if keys_distinct(self@) {
                lemma_put_keeps_keys_distinct(self@, Property { key, value, metric });
            }
        }
        match self.index_of(key.as_str()) {
            Some(i) => {
                self.entries.set(i, Property { key, value, metric });
            },
            None => {
                self.entries.push(Property { key, value, metric });
            },
        }
    }
}

} // verus!
