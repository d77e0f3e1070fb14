//! Association tables backing the runtime's registries.
//!
//! Every registry of the runtime — the signal store, the dependency graph,
//! the effect registry, the pending-render set — is a small table keyed by
//! a signal key `(scope id, ordinal id)` or by a scope id.  Each table keeps
//! at most one entry per key; that well-formedness is a type invariant, so
//! callers never carry it in contracts.

use vstd::prelude::*;

verus! {

/// Lexicographic order on signal keys.
pub open spec fn key_le(a: (usize, usize), b: (usize, usize)) -> bool {
    a.0 < b.0 || (a.0 == b.0 && a.1 <= b.1)
}

/// Whether a key occurs in an entry sequence.
spec fn contains_in<V>(s: Seq<((usize, usize), V)>, k: (usize, usize)) -> bool {
    exists|i: int| 0 <= i < s.len() && (#[trigger] s[i]).0 == k
}

/// The value at a key in an entry sequence.
spec fn value_in<V>(s: Seq<((usize, usize), V)>, k: (usize, usize)) -> V {
    let i = choose|i: int| 0 <= i < s.len() && (#[trigger] s[i]).0 == k;
    s[i].1
}

/// No key occurs twice.
spec fn distinct_keys<V>(s: Seq<((usize, usize), V)>) -> bool {
    forall|i: int, j: int| 0 <= i < j < s.len() ==> (#[trigger] s[i]).0 != (#[trigger] s[j]).0
}

/// With distinct keys, any index holding `k` determines the value at `k`.
proof fn lemma_value_at_index<V>(s: Seq<((usize, usize), V)>, k: (usize, usize), i: int)
    requires
        distinct_keys::<V>(s),
        0 <= i < s.len(),
        s[i].0 == k,
    ensures
        contains_in::<V>(s, k),
        value_in::<V>(s, k) == s[i].1,
{
    assert(contains_in::<V>(s, k));
    let j = choose|j: int| 0 <= j < s.len() && (#[trigger] s[j]).0 == k;
    assert(j == i);
}

/// Membership in a sequence extended by one entry.
proof fn lemma_contains_push<V>(
    s: Seq<((usize, usize), V)>,
    e: ((usize, usize), V),
    k: (usize, usize),
)
    ensures
        contains_in::<V>(s.push(e), k) == (contains_in::<V>(s, k) || e.0 == k),
{
    let s1 = s.push(e);
    if contains_in::<V>(s1, k) {
        let j = choose|j: int| 0 <= j < s1.len() && (#[trigger] s1[j]).0 == k;
        if j < s.len() {
            assert(s[j] == s1[j]);
            assert(contains_in::<V>(s, k));
        } else {
            assert(s1[j] == e);
        }
    }
    if contains_in::<V>(s, k) {
        let j = choose|j: int| 0 <= j < s.len() && (#[trigger] s[j]).0 == k;
        assert(s1[j] == s[j]);
        assert(contains_in::<V>(s1, k));
    }
    if e.0 == k {
        assert(s1[s.len() as int] == e);
        assert(contains_in::<V>(s1, k));
    }
}

/// Removing an entry keeps the keys distinct.
proof fn lemma_remove_distinct<V>(s0: Seq<((usize, usize), V)>, i: int)
    requires
        distinct_keys::<V>(s0),
        0 <= i < s0.len(),
    ensures
        distinct_keys::<V>(s0.remove(i)),
{
    let s1 = s0.remove(i);
    assert forall|i2: int, j2: int|
        0 <= i2 < j2 < s1.len() implies (#[trigger] s1[i2]).0 != (#[trigger] s1[j2]).0 by {
        let a = if i2 < i { i2 } else { i2 + 1 };
        let b = if j2 < i { j2 } else { j2 + 1 };
        assert(s1[i2] == s0[a]);
        assert(s1[j2] == s0[b]);
    }
}

/// Removing the entry at an index keeps every other key, and (with distinct
/// keys) every other value.
proof fn lemma_remove_at<V>(s0: Seq<((usize, usize), V)>, i: int, k2: (usize, usize))
    requires
        distinct_keys::<V>(s0),
        0 <= i < s0.len(),
        s0[i].0 != k2,
    ensures
        contains_in::<V>(s0.remove(i), k2) == contains_in::<V>(s0, k2),
        contains_in::<V>(s0, k2) ==> value_in::<V>(s0.remove(i), k2) == value_in::<V>(s0, k2),
        distinct_keys::<V>(s0.remove(i)),
{
    let s1 = s0.remove(i);
    assert forall|i2: int, j2: int|
        0 <= i2 < j2 < s1.len() implies (#[trigger] s1[i2]).0 != (#[trigger] s1[j2]).0 by {
        let a = if i2 < i { i2 } else { i2 + 1 };
        let b = if j2 < i { j2 } else { j2 + 1 };
        assert(s1[i2] == s0[a]);
        assert(s1[j2] == s0[b]);
    }
    if contains_in::<V>(s0, k2) {
        let j = choose|j: int| 0 <= j < s0.len() && (#[trigger] s0[j]).0 == k2;
        assert(j != i);
        let j1 = if j < i { j } else { j - 1 };
        assert(s1[j1] == s0[j]);
        lemma_value_at_index::<V>(s1, k2, j1);
        lemma_value_at_index::<V>(s0, k2, j);
    }
    if contains_in::<V>(s1, k2) {
        let j = choose|j: int| 0 <= j < s1.len() && (#[trigger] s1[j]).0 == k2;
        let a = if j < i { j } else { j + 1 };
        assert(s1[j] == s0[a]);
        assert(contains_in::<V>(s0, k2));
    }
}

/// A table keyed by `(usize, usize)` holding at most one entry per key.
pub struct Table<V> {
    entries: Vec<((usize, usize), V)>,
}

/// Finds the index of `k` in an entry list; the length means "not found".
fn find_key<V>(es: &Vec<((usize, usize), V)>, k: (usize, usize)) -> (r: usize)
    ensures
        r <= es@.len(),
        r < es@.len() ==> es@[r as int].0 == k,
        r == es@.len() ==> forall|j: int| 0 <= j < es@.len() ==> (#[trigger] es@[j]).0 != k,
{
    let n: usize = es.len();
    let mut i: usize = 0;
    while i < n
        invariant
            i <= n,
            n == es@.len(),
            forall|j: int| 0 <= j < i ==> (#[trigger] es@[j]).0 != k,
        decreases n - i,
    {
        if es[i].0.0 == k.0 && es[i].0.1 == k.1 {
            proof {
                assert(es@[i as int].0 == k);
            }
            return i;
        }
        i += 1;
    }
    n
}

impl<V> Table<V> {
    #[verifier::type_invariant]
    spec fn wf(self) -> bool {
        distinct_keys::<V>(self.entries@)
    }

    /// Whether the table has an entry for `k`.
    pub closed spec fn contains_key(self, k: (usize, usize)) -> bool {
        contains_in::<V>(self.entries@, k)
    }

    /// The value stored for `k` (meaningful only when `contains_key(k)`).
    pub closed spec fn value_at(self, k: (usize, usize)) -> V {
        value_in::<V>(self.entries@, k)
    }

    /// The empty table.
    pub fn new() -> (r: Self)
        ensures
            forall|k: (usize, usize)| !r.contains_key(k),
    {
        Table { entries: Vec::new() }
    }

    /// Whether no key is present.
    pub fn is_empty(&self) -> (r: bool)
        ensures
            r == !(exists|k: (usize, usize)| self.contains_key(k)),
    {
        proof {
            use_type_invariant(&*self);
            if self.entries@.len() > 0 {
                assert(self.contains_key(self.entries@[0].0));
            }
        }
        self.entries.len() == 0
    }

    /// Looks up `k`.
    pub fn get(&self, k: (usize, usize)) -> (r: Option<&V>)
        ensures
            match r {
                Option::Some(v) => self.contains_key(k) && *v == self.value_at(k),
                Option::None => !self.contains_key(k),
            },
    {
        proof {
            use_type_invariant(&*self);
        }
        let i = find_key(&self.entries, k);
        if i < self.entries.len() {
            proof {
                lemma_value_at_index::<V>(self.entries@, k, i as int);
            }
            Option::Some(&self.entries[i].1)
        } else {
            Option::None
        }
    }

    /// Whether `k` is present.
    pub fn contains(&self, k: (usize, usize)) -> (r: bool)
        ensures
            r == self.contains_key(k),
    {
        match self.get(k) {
            Option::Some(_) => true,
            Option::None => false,
        }
    }

    /// Removes the entry for `k`, returning its value.
    pub fn take(&mut self, k: (usize, usize)) -> (r: Option<V>)
        ensures
            !final(self).contains_key(k),
            r matches Option::Some(v) ==> old(self).contains_key(k) && v == old(self).value_at(
                k,
            ),
            r is None ==> !old(self).contains_key(k),
            forall|k2: (usize, usize)| k2 != k ==> final(self).contains_key(k2) == old(
                self,
            ).contains_key(k2),
            forall|k2: (usize, usize)|
                k2 != k && old(self).contains_key(k2) ==> final(self).value_at(k2) == old(
                    self,
                ).value_at(k2),
    {
        proof {
            use_type_invariant(&*self);
        }
        let ghost s0 = self.entries@;
        let mut es: Vec<((usize, usize), V)> = Vec::new();
        std::mem::swap(&mut es, &mut self.entries);
        let i = find_key(&es, k);
        let found: Option<V>;
        if i < es.len() {
            let e = es.remove(i);
            found = Option::Some(e.1);
            proof {
                lemma_value_at_index::<V>(s0, k, i as int);
                assert(es@ == s0.remove(i as int));
                assert forall|k2: (usize, usize)|
                    k2 != k implies contains_in::<V>(es@, k2) == contains_in::<V>(s0, k2)
                    && (contains_in::<V>(s0, k2) ==> value_in::<V>(es@, k2) == value_in::<V>(
                    s0,
                    k2,
                )) by {
                    lemma_remove_at::<V>(s0, i as int, k2);
                }
                lemma_remove_distinct::<V>(s0, i as int);
                assert(distinct_keys::<V>(es@));
                assert forall|j2: int| 0 <= j2 < es@.len() implies (#[trigger] es@[j2]).0
                    != k by {
                    if j2 < i {
                        assert(es@[j2] == s0[j2]);
                    } else {
                        assert(es@[j2] == s0[j2 + 1]);
                    }
                }
            }
        } else {
            found = Option::None;
        }
        self.entries = es;
        found
    }

    /// Removes the entry for `k` if present.
    pub fn remove(&mut self, k: (usize, usize))
        ensures
            !final(self).contains_key(k),
            forall|k2: (usize, usize)| k2 != k ==> final(self).contains_key(k2) == old(
                self,
            ).contains_key(k2),
            forall|k2: (usize, usize)|
                k2 != k && old(self).contains_key(k2) ==> final(self).value_at(k2) == old(
                    self,
                ).value_at(k2),
    {
        let _ = self.take(k);
    }

    /// Inserts or replaces the entry for `k`.
    pub fn insert(&mut self, k: (usize, usize), v: V)
        ensures
            final(self).contains_key(k),
            final(self).value_at(k) == v,
            forall|k2: (usize, usize)| k2 != k ==> final(self).contains_key(k2) == old(
                self,
            ).contains_key(k2),
            forall|k2: (usize, usize)|
                k2 != k && old(self).contains_key(k2) ==> final(self).value_at(k2) == old(
                    self,
                ).value_at(k2),
    {
        let _ = self.take(k);
        proof {
            use_type_invariant(&*self);
        }
        let ghost s1 = self.entries@;
        let mut es: Vec<((usize, usize), V)> = Vec::new();
        std::mem::swap(&mut es, &mut self.entries);
        es.push((k, v));
        proof {
            assert(es@ == s1.push((k, v)));
            assert(forall|j: int| 0 <= j < s1.len() ==> (#[trigger] s1[j]).0 != k);
        }
        self.entries = es;
        proof {
            lemma_value_at_index::<V>(self.entries@, k, s1.len() as int);
            assert forall|k2: (usize, usize)|
                k2 != k implies self.contains_key(k2) == contains_in::<V>(s1, k2) && (
            contains_in::<V>(s1, k2) ==> self.value_at(k2) == value_in::<V>(s1, k2)) by {
                lemma_contains_push::<V>(s1, (k, v), k2);
                if contains_in::<V>(s1, k2) {
                    let j = choose|j: int| 0 <= j < s1.len() && (#[trigger] s1[j]).0 == k2;
                    assert(self.entries@[j] == s1[j]);
                    lemma_value_at_index::<V>(self.entries@, k2, j);
                    lemma_value_at_index::<V>(s1, k2, j);
                }
            }
        }
    }

    /// The keys present, each exactly once.
    #[verifier::loop_isolation(false)]
    pub fn keys(&self) -> (r: Vec<(usize, usize)>)
        ensures
            forall|j: int, j2: int| 0 <= j < j2 < r@.len() ==> r@[j] != r@[j2],
            forall|j: int| 0 <= j < r@.len() ==> self.contains_key(#[trigger] r@[j]),
            forall|k: (usize, usize)|
                self.contains_key(k) ==> exists|j: int| 0 <= j < r@.len() && r@[j] == k,
    {
        proof {
            use_type_invariant(&*self);
        }
        let n: usize = self.entries.len();
        let mut r: Vec<(usize, usize)> = Vec::new();
        let mut i: usize = 0;
        while i < n
            invariant
                i <= n,
                r@.len() == i,
                forall|j: int| 0 <= j < i ==> #[trigger] r@[j] == self.entries@[j].0,
            decreases n - i,
        {
            r.push(self.entries[i].0);
            i += 1;
        }
        proof {
            assert forall|j: int| 0 <= j < r@.len() implies self.contains_key(
                #[trigger] r@[j],
            ) by {
                assert(self.entries@[j].0 == r@[j]);
            }
            assert forall|k: (usize, usize)| self.contains_key(k) implies exists|j: int|
                0 <= j < r@.len() && r@[j] == k by {
                let j = choose|j: int|
                    0 <= j < self.entries@.len() && (#[trigger] self.entries@[j]).0 == k;
                assert(r@[j] == k);
            }
        }
        r
    }

    /// Removes every entry whose key has first component `s`.
    #[verifier::loop_isolation(false)]
    pub fn remove_first_component(&mut self, s: usize)
        ensures
            forall|k: (usize, usize)|
                final(self).contains_key(k) == (old(self).contains_key(k) && k.0 != s),
    {
        proof {
            use_type_invariant(&*self);
        }
        let ghost s0 = self.entries@;
        let mut es: Vec<((usize, usize), V)> = Vec::new();
        std::mem::swap(&mut es, &mut self.entries);
        let mut out: Vec<((usize, usize), V)> = Vec::new();
        let n: usize = es.len();
        let mut i: usize = 0;
        while i < n
            invariant
                i <= n,
                n == s0.len(),
                es@ == s0.subrange(i as int, n as int),
                forall|k: (usize, usize)|
                    contains_in::<V>(out@, k) == (contains_in::<V>(s0.subrange(0, i as int), k)
                        && k.0 != s),
                distinct_keys::<V>(out@),
            decreases n - i,
        {
            let ghost pre = s0.subrange(0, i as int);
            let ghost post = s0.subrange(0, i as int + 1);
            let e = es.remove(0);
            proof {
                assert(e == s0[i as int]);
                assert(post == pre.push(s0[i as int]));
                assert(es@ == s0.subrange(i as int + 1, n as int));
            }
            if e.0.0 == s {
                proof {
                    assert forall|k: (usize, usize)|
                        contains_in::<V>(out@, k) == (contains_in::<V>(post, k) && k.0 != s) by {
                        lemma_contains_push::<V>(pre, s0[i as int], k);
                    }
                }
            } else {
                proof {
                    assert forall|i2: int|
                        0 <= i2 < out@.len() implies (#[trigger] out@[i2]).0 != e.0 by {
                        assert(contains_in::<V>(out@, out@[i2].0));
                        assert(contains_in::<V>(pre, out@[i2].0));
                        let j2 = choose|j2: int|
                            0 <= j2 < pre.len() && (#[trigger] pre[j2]).0 == out@[i2].0;
                        assert(s0[j2] == pre[j2]);
                        assert(s0[j2].0 != s0[i as int].0);
                    }
                }
                let ghost out0 = out@;
                out.push(e);
                proof {
                    assert forall|k: (usize, usize)|
                        contains_in::<V>(out@, k) == (contains_in::<V>(post, k) && k.0 != s) by {
                        lemma_contains_push::<V>(pre, s0[i as int], k);
                        lemma_contains_push::<V>(out0, e, k);
                    }
                }
            }
            i += 1;
        }
        proof {
            assert(s0.subrange(0, n as int) == s0);
        }
        self.entries = out;
    }

    /// Removes and returns the entry with the least key (ordered by first
    /// component, then second), if any.
    pub fn pop_min(&mut self) -> (r: Option<((usize, usize), V)>)
        ensures
            r is None ==> {
                &&& forall|k: (usize, usize)| !old(self).contains_key(k)
                &&& forall|k: (usize, usize)| !final(self).contains_key(k)
            },
            r matches Option::Some(e) ==> {
                &&& old(self).contains_key(e.0)
                &&& e.1 == old(self).value_at(e.0)
                &&& !final(self).contains_key(e.0)
                &&& forall|k: (usize, usize)| k != e.0 ==> final(self).contains_key(k) == old(
                    self,
                ).contains_key(k)
                &&& forall|k: (usize, usize)|
                    k != e.0 && old(self).contains_key(k) ==> final(self).value_at(k) == old(
                        self,
                    ).value_at(k)
                &&& forall|k: (usize, usize)| old(self).contains_key(k) ==> key_le(e.0, k)
            },
    {
        proof {
            use_type_invariant(&*self);
        }
        if self.entries.len() == 0 {
            return Option::None;
        }
        let n: usize = self.entries.len();
        let mut best: usize = 0;
        let mut i: usize = 1;
        while i < n
            invariant
                1 <= i <= n,
                n == self.entries@.len(),
                best < i,
                forall|j: int|
                    0 <= j < i ==> key_le(
                        self.entries@[best as int].0,
                        (#[trigger] self.entries@[j]).0,
                    ),
            decreases n - i,
        {
            let cur0 = self.entries[i].0.0;
            let cur1 = self.entries[i].0.1;
            let b0 = self.entries[best].0.0;
            let b1 = self.entries[best].0.1;
            if cur0 < b0 || (cur0 == b0 && cur1 < b1) {
                best = i;
            }
            i += 1;
        }
        let k = (self.entries[best].0.0, self.entries[best].0.1);
        proof {
            assert(self.entries@[best as int].0 == k);
            assert forall|k2: (usize, usize)| self.contains_key(k2) implies key_le(k, k2) by {
                let j = choose|j: int|
                    0 <= j < self.entries@.len() && (#[trigger] self.entries@[j]).0 == k2;
            }
            assert(self.contains_key(k));
        }
        let v = self.take(k);
        match v {
            Option::Some(v) => Option::Some((k, v)),
            Option::None => Option::None,
        }
    }
}

} // verus!
