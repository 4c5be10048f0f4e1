//! Sparse containers used for the rows of the matrix and for its column index.
use vstd::prelude::*;
use crate::octet::{gf_add, gf_mul, octet_mul};

verus! {

/// No key occurs twice in `s`.
pub open spec fn distinct_keys(s: Seq<(usize, u8)>) -> bool {
    forall|i: int, j: int| 0 <= i < j < s.len() ==> s[i].0 != s[j].0
}

/// `k` is stored somewhere in `s`.
pub open spec fn holds_key(s: Seq<(usize, u8)>, k: usize) -> bool {
    exists|i: int| 0 <= i < s.len() && s[i].0 == k
}

/// The value that `s` gives to `k`: the stored value, or zero when `k` is absent.
pub open spec fn value_in(s: Seq<(usize, u8)>, k: usize) -> u8 {
    if holds_key(s, k) {
        s[choose|i: int| 0 <= i < s.len() && s[i].0 == k].1
    } else {
        0
    }
}

/// With distinct keys, the value of a key is the one stored beside it.
pub proof fn lemma_value_in(s: Seq<(usize, u8)>, k: usize)
    requires
        distinct_keys(s),
    ensures
        forall|i: int| 0 <= i < s.len() && s[i].0 == k ==> value_in(s, k) == s[i].1,
        !holds_key(s, k) ==> value_in(s, k) == 0,
{
    if holds_key(s, k) {
        let c = choose|i: int| 0 <= i < s.len() && s[i].0 == k;
        assert forall|i: int| 0 <= i < s.len() && s[i].0 == k implies value_in(s, k) == s[i].1 by {
            if i != c {
                assert(s[i].0 != s[c].0);
            }
        }
    }
}

/// A sparse vector of field elements, keyed by column. Zeros may be stored.
pub struct SparseOctetVec {
    pub elements: Vec<(usize, u8)>,
}

impl SparseOctetVec {
    pub open spec fn wf(&self) -> bool {
        distinct_keys(self.elements@)
    }

    pub open spec fn has_key(&self, k: usize) -> bool {
        holds_key(self.elements@, k)
    }

    pub open spec fn value_at(&self, k: usize) -> u8 {
        value_in(self.elements@, k)
    }

    pub fn new() -> (r: SparseOctetVec)
        ensures
            r.wf(),
            r.elements@.len() == 0,
            forall|k: usize| !r.has_key(k) && r.value_at(k) == 0,
    {
        SparseOctetVec { elements: Vec::new() }
    }

    pub fn len(&self) -> (r: usize)
        ensures
            r == self.elements@.len(),
    {
        self.elements.len()
    }

    /// The position of `k` among the stored entries, if it is stored.
    fn position(&self, k: usize) -> (r: Option<usize>)
        requires
            self.wf(),
        ensures
            r is Some ==> r->0 < self.elements@.len() && self.elements@[r->0 as int].0 == k,
            r is None ==> !self.has_key(k),
    {
        let mut i: usize = 0;
        while i < self.elements.len()
            invariant
                i <= self.elements@.len(),
                forall|j: int| 0 <= j < i ==> self.elements@[j].0 != k,
            decreases self.elements@.len() - i,
        {
            if self.elements[i].0 == k {
                return Some(i);
            }
            i = i + 1;
        }
        None
    }

    /// The stored value of `k`, if `k` is stored.
    pub fn get(&self, k: usize) -> (r: Option<u8>)
        requires
            self.wf(),
        ensures
            r is Some <==> self.has_key(k),
            r is Some ==> r->0 == self.value_at(k),
            self.value_at(k) == (match r { Some(v) => v, None => 0u8 }),
    {
        proof { lemma_value_in(self.elements@, k); }
        match self.position(k) {
            Some(i) => Some(self.elements[i].1),
            None => None,
        }
    }

    /// Stores `v` for `k`.
    pub fn insert(&mut self, k: usize, v: u8)
        requires
            old(self).wf(),
        ensures
            final(self).wf(),
            forall|c: usize| #[trigger] final(self).has_key(c) <==> (old(self).has_key(c) || c == k),
            forall|c: usize| #[trigger] final(self).value_at(c) == if c == k { v } else { old(self).value_at(c) },
    {
        let ghost s0 = self.elements@;
        match self.position(k) {
            Some(i) => {
                self.elements.set(i, (k, v));
            },
            None => {
                self.elements.push((k, v));
            },
        }
        proof {
            let s1 = self.elements@;
            assert forall|c: usize| holds_key(s1, c) <==> (holds_key(s0, c) || c == k) by {
                if holds_key(s1, c) {
                    let j = choose|j: int| 0 <= j < s1.len() && s1[j].0 == c;
                    if j < s0.len() && s1[j] == s0[j] {} else {}
                }
                if holds_key(s0, c) {
                    let j = choose|j: int| 0 <= j < s0.len() && s0[j].0 == c;
                    assert(s1[j].0 == c);
                }
                if c == k {
                    if s1.len() > s0.len() { assert(s1[s0.len() as int].0 == k); }
                }
            }
            assert forall|c: usize| value_in(s1, c) == if c == k { v } else { value_in(s0, c) } by {
                lemma_value_in(s0, c);
                lemma_value_in(s1, c);
                if holds_key(s1, c) {
                    let j = choose|j: int| 0 <= j < s1.len() && s1[j].0 == c;
                    if j < s0.len() && s1[j] == s0[j] {}
                }
                if s1.len() > s0.len() { assert(s1[s0.len() as int].0 == k); }
            }
        }
    }

    /// Removes `k`, returning its stored value if it was stored.
    pub fn remove(&mut self, k: usize) -> (r: Option<u8>)
        requires
            old(self).wf(),
        ensures
            final(self).wf(),
            r is Some <==> old(self).has_key(k),
            old(self).value_at(k) == (match r { Some(v) => v, None => 0u8 }),
            forall|c: usize| #[trigger] final(self).has_key(c) <==> (old(self).has_key(c) && c != k),
            forall|c: usize| #[trigger] final(self).value_at(c) == if c == k { 0 } else { old(self).value_at(c) },
    {
        let ghost s0 = self.elements@;
        proof { lemma_value_in(s0, k); }
        match self.position(k) {
            Some(i) => {
                let (_, v) = self.elements.remove(i);
                proof {
                    let s1 = self.elements@;
                    assert forall|c: usize| holds_key(s1, c) <==> (holds_key(s0, c) && c != k) by {
                        if holds_key(s1, c) {
                            let j = choose|j: int| 0 <= j < s1.len() && s1[j].0 == c;
                            if j < i { assert(s0[j] == s1[j]); } else { assert(s0[j + 1] == s1[j]); }
                        }
                        if holds_key(s0, c) && c != k {
                            let j = choose|j: int| 0 <= j < s0.len() && s0[j].0 == c;
                            if j < i { assert(s1[j].0 == c); } else { assert(s1[j - 1].0 == c); }
                        }
                    }
                    assert forall|c: usize| value_in(s1, c) == if c == k { 0 } else { value_in(s0, c) } by {
                        lemma_value_in(s0, c);
                        lemma_value_in(s1, c);
                        if holds_key(s1, c) {
                            let j = choose|j: int| 0 <= j < s1.len() && s1[j].0 == c;
                            if j < i { assert(s0[j] == s1[j]); } else { assert(s0[j + 1] == s1[j]); }
                        }
                    }
                }
                Some(v)
            },
            None => {
                proof {
                    assert forall|c: usize| holds_key(s0, c) && c == k implies false by {}
                }
                None
            },
        }
    }

    /// Multiplies every stored value by `s`.
    pub fn mul_assign(&mut self, s: u8)
        requires
            old(self).wf(),
        ensures
            final(self).wf(),
            final(self).elements@.len() == old(self).elements@.len(),
            forall|i: int| 0 <= i < old(self).elements@.len()
                ==> (#[trigger] final(self).elements@[i]).0 == old(self).elements@[i].0,
            forall|c: usize| #[trigger] final(self).has_key(c) <==> old(self).has_key(c),
            forall|c: usize| #[trigger] final(self).value_at(c) == gf_mul(old(self).value_at(c), s),
    {
        let ghost s0 = self.elements@;
        let mut i: usize = 0;
        while i < self.elements.len()
            invariant
                i <= self.elements@.len(),
                self.elements@.len() == s0.len(),
                forall|j: int| 0 <= j < s0.len() ==> (#[trigger] self.elements@[j]).0 == s0[j].0,
                forall|j: int| 0 <= j < i ==> (#[trigger] self.elements@[j]).1 == gf_mul(s0[j].1, s),
                forall|j: int| i <= j < s0.len() ==> (#[trigger] self.elements@[j]).1 == s0[j].1,
            decreases s0.len() - i,
        {
            let (k, v) = self.elements[i];
            self.elements.set(i, (k, octet_mul(v, s)));
            i = i + 1;
        }
        proof {
            let s1 = self.elements@;
            assert forall|c: usize| holds_key(s1, c) <==> holds_key(s0, c) by {
                if holds_key(s1, c) {
                    let j = choose|j: int| 0 <= j < s1.len() && s1[j].0 == c;
                    assert(s0[j].0 == c);
                }
                if holds_key(s0, c) {
                    let j = choose|j: int| 0 <= j < s0.len() && s0[j].0 == c;
                    assert(s1[j].0 == c);
                }
            }
            assert forall|c: usize| value_in(s1, c) == gf_mul(value_in(s0, c), s) by {
                lemma_value_in(s0, c);
                lemma_value_in(s1, c);
                crate::octet::lemma_mul_zero(s);
                if holds_key(s1, c) {
                    let j = choose|j: int| 0 <= j < s1.len() && s1[j].0 == c;
                    assert(s0[j].0 == c);
                }
            }
        }
    }

    /// Adds `other * s` to this vector and returns the columns that were newly stored.
    /// A product of zero is not stored as a new entry.
    pub fn fma(&mut self, other: &SparseOctetVec, s: u8) -> (r: Vec<usize>)
        requires
            old(self).wf(),
            other.wf(),
        ensures
            final(self).wf(),
            forall|c: usize| #[trigger] final(self).value_at(c)
                == gf_add(old(self).value_at(c), gf_mul(other.value_at(c), s)),
            forall|c: usize| #[trigger] final(self).has_key(c) ==> (old(self).has_key(c) || r@.contains(c)),
            forall|c: usize| old(self).has_key(c) ==> #[trigger] final(self).has_key(c),
            forall|j: int| 0 <= j < r@.len() ==> other.has_key(#[trigger] r@[j]),
            forall|c: usize| #[trigger] final(self).has_key(c) ==> (old(self).has_key(c) || other.has_key(c)),
    {
        let ghost s0 = self.elements@;
        let ghost o = other.elements@;
        let mut added: Vec<usize> = Vec::new();
        let mut i: usize = 0;
        while i < other.elements.len()
            invariant
                i <= o.len(),
                o == other.elements@,
                distinct_keys(o),
                self.wf(),
                forall|c: usize| #[trigger] value_in(self.elements@, c) == if holds_key(o.subrange(0, i as int), c) {
                    gf_add(value_in(s0, c), gf_mul(value_in(o, c), s))
                } else {
                    value_in(s0, c)
                },
                forall|c: usize| #[trigger] holds_key(self.elements@, c) ==> (holds_key(s0, c) || added@.contains(c)),
                forall|c: usize| holds_key(s0, c) ==> #[trigger] holds_key(self.elements@, c),
                forall|j: int| 0 <= j < added@.len() ==> holds_key(o, #[trigger] added@[j]),
                forall|c: usize| #[trigger] holds_key(self.elements@, c) ==> (holds_key(s0, c) || holds_key(o, c)),
            decreases o.len() - i,
        {
            let (c, m) = other.elements[i];
            let prod = octet_mul(m, s);
            let ghost before = self.elements@;
            let ghost added_before = added@;
            proof { lemma_value_in(o, c); lemma_value_in(before, c); }
            match self.position(c) {
                Some(p) => {
                    let (_, d) = self.elements[p];
                    self.elements.set(p, (c, d ^ prod));
                },
                None => {
                    if prod != 0 {
                        self.elements.push((c, prod));
                        added.push(c);
                    }
                },
            }
            proof {
                let after = self.elements@;
                assert(o[i as int].0 == c);
                assert forall|x: usize| holds_key(after, x) <==> (holds_key(before, x) || (x == c && after.len() > before.len())) by {
                    if holds_key(after, x) {
                        let j = choose|j: int| 0 <= j < after.len() && after[j].0 == x;
                        if j < before.len() && after[j].0 == before[j].0 {} else {}
                    }
                    if holds_key(before, x) {
                        let j = choose|j: int| 0 <= j < before.len() && before[j].0 == x;
                        assert(after[j].0 == x);
                    }
                    if x == c && after.len() > before.len() { assert(after[before.len() as int].0 == c); }
                }
                assert forall|x: usize| #[trigger] value_in(after, x) == if x == c {
                    gf_add(value_in(before, c), prod)
                } else {
                    value_in(before, x)
                } by {
                    lemma_value_in(before, x);
                    lemma_value_in(after, x);
                    if holds_key(after, x) {
                        let j = choose|j: int| 0 <= j < after.len() && after[j].0 == x;
                        if j < before.len() && after[j].0 == before[j].0 {}
                    }
                    if after.len() > before.len() { assert(after[before.len() as int].0 == c); }
                    crate::octet::lemma_add_zero(prod);
                }
                let pre = o.subrange(0, i as int);
                let pre1 = o.subrange(0, i + 1);
                assert forall|x: usize| #[trigger] holds_key(pre1, x) <==> (holds_key(pre, x) || x == c) by {
                    if x == c { assert(pre1[i as int].0 == x); }
                    if holds_key(pre1, x) {
                        let j = choose|j: int| 0 <= j < pre1.len() && pre1[j].0 == x;
                        if j < i { assert(pre[j].0 == x); }
                    }
                    if holds_key(pre, x) {
                        let j = choose|j: int| 0 <= j < pre.len() && pre[j].0 == x;
                        assert(pre1[j].0 == x);
                    }
                }
                assert forall|x: usize| holds_key(pre, x) implies x != c by {
                    let j = choose|j: int| 0 <= j < pre.len() && pre[j].0 == x;
                    assert(o[j].0 != o[i as int].0);
                }
                assert(holds_key(o, c));
                assert forall|x: usize| holds_key(after, x) implies holds_key(s0, x) || added@.contains(x) by {
                    if holds_key(before, x) {
                        if !holds_key(s0, x) {
                            let j = choose|j: int| 0 <= j < added_before.len() && added_before[j] == x;
                            assert(added@[j] == x);
                        }
                    } else {
                        assert(added@[added@.len() - 1] == c);
                    }
                }
            }
            i = i + 1;
        }
        proof {
            assert forall|c: usize| #[trigger] value_in(self.elements@, c)
                == gf_add(value_in(s0, c), gf_mul(value_in(o, c), s)) by {
                lemma_value_in(o, c);
                crate::octet::lemma_mul_zero(s);
                crate::octet::lemma_add_zero(value_in(s0, c));
                assert(o.subrange(0, i as int) == o);
            }
        }
        added
    }

    /// The stored keys, in storage order.
    pub fn keys(&self) -> (r: Vec<usize>)
        ensures
            r@.len() == self.elements@.len(),
            forall|j: int| 0 <= j < r@.len() ==> #[trigger] r@[j] == self.elements@[j].0,
            forall|c: usize| #[trigger] r@.contains(c) <==> self.has_key(c),
    {
        let mut r: Vec<usize> = Vec::with_capacity(self.elements.len());
        let mut i: usize = 0;
        while i < self.elements.len()
            invariant
                i <= self.elements@.len(),
                r@.len() == i,
                forall|j: int| 0 <= j < i ==> #[trigger] r@[j] == self.elements@[j].0,
            decreases self.elements@.len() - i,
        {
            r.push(self.elements[i].0);
            i = i + 1;
        }
        proof {
            assert forall|c: usize| #[trigger] r@.contains(c) <==> self.has_key(c) by {
                if r@.contains(c) {
                    let j = choose|j: int| 0 <= j < r@.len() && r@[j] == c;
                    assert(self.elements@[j].0 == c);
                }
                if self.has_key(c) {
                    let j = choose|j: int| 0 <= j < self.elements@.len() && self.elements@[j].0 == c;
                    assert(r@[j] == c);
                }
            }
        }
        r
    }

    /// Keeps the entries whose key `c` has `map[c] < bound`, and drops the rest.
    pub fn retain_mapped_below(&mut self, map: &Vec<usize>, bound: usize)
        requires
            old(self).wf(),
            forall|c: usize| #[trigger] old(self).has_key(c) ==> c < map@.len(),
        ensures
            final(self).wf(),
            forall|c: usize| #[trigger] final(self).has_key(c) ==> old(self).has_key(c) && map@[c as int] < bound,
            forall|c: usize| c < map@.len() ==> #[trigger] final(self).value_at(c)
                == if map@[c as int] < bound { old(self).value_at(c) } else { 0 },
    {
        let ghost s0 = self.elements@;
        let mut kept: Vec<(usize, u8)> = Vec::new();
        proof {
            assert forall|c: usize| #[trigger] holds_key(s0, c) implies c < map@.len() by {
                assert(old(self).has_key(c));
            }
        }
        let mut i: usize = 0;
        while i < self.elements.len()
            invariant
                i <= s0.len(),
                self.elements@ == s0,
                distinct_keys(s0),
                forall|c: usize| #[trigger] holds_key(s0, c) ==> c < map@.len(),
                distinct_keys(kept@),
                forall|j: int| 0 <= j < kept@.len() ==> #[trigger] holds_key(s0.subrange(0, i as int), kept@[j].0),
                forall|c: usize| #[trigger] holds_key(kept@, c) ==> (holds_key(s0.subrange(0, i as int), c) && map@[c as int] < bound),
                forall|c: usize| #[trigger] holds_key(s0.subrange(0, i as int), c) && map@[c as int] < bound ==> holds_key(kept@, c),
                forall|c: usize| #[trigger] holds_key(kept@, c) ==> value_in(kept@, c) == value_in(s0, c),
            decreases s0.len() - i,
        {
            let (c, v) = self.elements[i];
            let ghost k0 = kept@;
            proof {
                lemma_value_in(s0, c);
                assert(holds_key(s0, c));
                let pre = s0.subrange(0, i as int);
                assert forall|x: usize| holds_key(pre, x) implies x != c by {
                    let j = choose|j: int| 0 <= j < pre.len() && pre[j].0 == x;
                    assert(s0[j].0 != s0[i as int].0);
                }
            }
            if map[c] < bound {
                kept.push((c, v));
            }
            proof {
                let pre = s0.subrange(0, i as int);
                let pre1 = s0.subrange(0, i + 1);
                assert forall|x: usize| #[trigger] holds_key(pre1, x) <==> (holds_key(pre, x) || x == c) by {
                    if x == c { assert(pre1[i as int].0 == x); }
                    if holds_key(pre1, x) {
                        let j = choose|j: int| 0 <= j < pre1.len() && pre1[j].0 == x;
                        if j < i { assert(pre[j].0 == x); }
                    }
                    if holds_key(pre, x) {
                        let j = choose|j: int| 0 <= j < pre.len() && pre[j].0 == x;
                        assert(pre1[j].0 == x);
                    }
                }
                let k1 = kept@;
                assert forall|x: usize| #[trigger] holds_key(k1, x) <==> (holds_key(k0, x) || (x == c && k1.len() > k0.len())) by {
                    if holds_key(k1, x) {
                        let j = choose|j: int| 0 <= j < k1.len() && k1[j].0 == x;
                        if j < k0.len() { assert(k0[j] == k1[j]); }
                    }
                    if holds_key(k0, x) {
                        let j = choose|j: int| 0 <= j < k0.len() && k0[j].0 == x;
                        assert(k1[j].0 == x);
                    }
                    if x == c && k1.len() > k0.len() { assert(k1[k0.len() as int].0 == c); }
                }
                assert forall|a: int, b: int| 0 <= a < b < k1.len() implies k1[a].0 != k1[b].0 by {
                    if b == k0.len() {
                        assert(holds_key(k0, k1[a].0));
                    }
                }
                assert forall|j: int| 0 <= j < k1.len() implies #[trigger] holds_key(pre1, k1[j].0) by {
                    if j < k0.len() { assert(k1[j] == k0[j]); assert(holds_key(pre, k0[j].0)); }
                }
                assert forall|x: usize| #[trigger] holds_key(k1, x) implies value_in(k1, x) == value_in(s0, x) by {
                    lemma_value_in(k0, x);
                    lemma_value_in(k1, x);
                    lemma_value_in(s0, x);
                    let j = choose|j: int| 0 <= j < k1.len() && k1[j].0 == x;
                    if j < k0.len() { assert(k1[j] == k0[j]); }
                }
            }
            i = i + 1;
        }
        proof {
            assert(s0.subrange(0, s0.len() as int) == s0);
            let k = kept@;
            assert forall|c: usize| c < map@.len() implies #[trigger] value_in(k, c)
                == if map@[c as int] < bound { value_in(s0, c) } else { 0 } by {
                lemma_value_in(k, c);
                lemma_value_in(s0, c);
            }
        }
        self.elements = kept;
    }
}

/// A set of row indices, kept as a list without repetition.
pub struct SparseValuelessVec {
    pub elements: Vec<usize>,
}

impl SparseValuelessVec {
    pub open spec fn wf(&self) -> bool {
        self.elements@.no_duplicates()
    }

    pub open spec fn contains(&self, r: usize) -> bool {
        self.elements@.contains(r)
    }

    pub fn new() -> (r: SparseValuelessVec)
        ensures
            r.wf(),
            forall|x: usize| !r.contains(x),
    {
        SparseValuelessVec { elements: Vec::new() }
    }

    /// Whether `r` is in the set.
    pub fn has(&self, r: usize) -> (b: bool)
        ensures
            b == self.contains(r),
    {
        let mut i: usize = 0;
        while i < self.elements.len()
            invariant
                i <= self.elements@.len(),
                forall|j: int| 0 <= j < i ==> self.elements@[j] != r,
            decreases self.elements@.len() - i,
        {
            if self.elements[i] == r {
                return true;
            }
            i = i + 1;
        }
        false
    }

    /// Adds `r` to the set.
    pub fn insert(&mut self, r: usize)
        requires
            old(self).wf(),
        ensures
            final(self).wf(),
            forall|x: usize| #[trigger] final(self).contains(x) <==> (old(self).contains(x) || x == r),
    {
        if !self.has(r) {
            self.elements.push(r);
            proof {
                assert forall|x: usize| #[trigger] self.elements@.contains(x) implies (old(self).elements@.contains(x) || x == r) by {
                    let j = choose|j: int| 0 <= j < self.elements@.len() && self.elements@[j] == x;
                    if j < old(self).elements@.len() { assert(old(self).elements@[j] == x); }
                }
                assert forall|x: usize| old(self).elements@.contains(x) implies #[trigger] self.elements@.contains(x) by {
                    let j = choose|j: int| 0 <= j < old(self).elements@.len() && old(self).elements@[j] == x;
                    assert(self.elements@[j] == x);
                }
                assert(self.elements@[self.elements@.len() - 1] == r);
            }
        }
    }
}

} // verus!
