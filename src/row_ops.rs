//! Routines on the vectors that make up a matrix: dense rows, dense blocks,
//! sparse rows and the column index.
use vstd::prelude::*;
use crate::octet::{gf_add, gf_mul, octet_mul, fma, lemma_add_zero, lemma_mul_zero};
use crate::sparse_vec::{SparseOctetVec, SparseValuelessVec};

verus! {
/// A vector of `n` zeros.
pub(crate) fn zeros(n: usize) -> (r: Vec<u8>)
    ensures
        r@.len() == n,
        forall|k: int| 0 <= k < n ==> r@[k] == 0,
{
    let mut r: Vec<u8> = Vec::with_capacity(n);
    let mut k: usize = 0;
    while k < n
        invariant
            k <= n,
            r@.len() == k,
            forall|x: int| 0 <= x < k ==> r@[x] == 0,
        decreases n - k,
    {
        r.push(0);
        k = k + 1;
    }
    r
}

/// Exchanges entries `i` and `j` in every row of `rows`.
pub(crate) fn swap_entries(rows: &mut Vec<Vec<u8>>, i: usize, j: usize)
    requires
        forall|x: int| 0 <= x < old(rows)@.len() ==> i < (#[trigger] old(rows)@[x])@.len() && j < old(rows)@[x]@.len(),
    ensures
        final(rows)@.len() == old(rows)@.len(),
        forall|x: int| 0 <= x < old(rows)@.len() ==> (#[trigger] final(rows)@[x])@
            == old(rows)@[x]@.update(i as int, old(rows)@[x]@[j as int]).update(j as int, old(rows)@[x]@[i as int]),
{
    let mut k: usize = 0;
    while k < rows.len()
        invariant
            k <= rows@.len(),
            rows@.len() == old(rows)@.len(),
            forall|x: int| 0 <= x < old(rows)@.len() ==> i < (#[trigger] old(rows)@[x])@.len() && j < old(rows)@[x]@.len(),
            forall|x: int| 0 <= x < k ==> (#[trigger] rows@[x])@
                == old(rows)@[x]@.update(i as int, old(rows)@[x]@[j as int]).update(j as int, old(rows)@[x]@[i as int]),
            forall|x: int| k <= x < rows@.len() ==> #[trigger] rows@[x] == old(rows)@[x],
        decreases rows@.len() - k,
    {
        let a = rows[k][i];
        let b = rows[k][j];
        rows[k][i] = b;
        rows[k][j] = a;
        k = k + 1;
    }
}

/// Multiplies the first `n` entries of `v` by `s`.
pub(crate) fn scale_prefix(v: &mut Vec<u8>, n: usize, s: u8)
    requires
        n <= old(v)@.len(),
    ensures
        final(v)@.len() == old(v)@.len(),
        forall|y: int| 0 <= y < n ==> #[trigger] final(v)@[y] == gf_mul(old(v)@[y], s),
        forall|y: int| n <= y < old(v)@.len() ==> #[trigger] final(v)@[y] == old(v)@[y],
{
    let mut c: usize = 0;
    while c < n
        invariant
            c <= n,
            n <= old(v)@.len(),
            v@.len() == old(v)@.len(),
            forall|y: int| 0 <= y < c ==> #[trigger] v@[y] == gf_mul(old(v)@[y], s),
            forall|y: int| c <= y < old(v)@.len() ==> #[trigger] v@[y] == old(v)@[y],
        decreases n - c,
    {
        let x = v[c];
        v[c] = octet_mul(x, s);
        c = c + 1;
    }
}

/// Adds `src[y] * s` to `dest[y]` for the first `n` entries.
pub(crate) fn add_scaled_prefix(dest: &mut Vec<u8>, src: &Vec<u8>, n: usize, s: u8)
    requires
        n <= old(dest)@.len(),
        n <= src@.len(),
    ensures
        final(dest)@.len() == old(dest)@.len(),
        forall|y: int| 0 <= y < n ==> #[trigger] final(dest)@[y] == gf_add(old(dest)@[y], gf_mul(src@[y], s)),
        forall|y: int| n <= y < old(dest)@.len() ==> #[trigger] final(dest)@[y] == old(dest)@[y],
{
    let mut c: usize = 0;
    while c < n
        invariant
            c <= n,
            n <= old(dest)@.len(),
            n <= src@.len(),
            dest@.len() == old(dest)@.len(),
            forall|y: int| 0 <= y < c ==> #[trigger] dest@[y] == gf_add(old(dest)@[y], gf_mul(src@[y], s)),
            forall|y: int| c <= y < old(dest)@.len() ==> #[trigger] dest@[y] == old(dest)@[y],
        decreases n - c,
    {
        let x = dest[c];
        dest[c] = fma(x, src[c], s);
        c = c + 1;
    }
}

/// Adds `src * s` into the dense row `dest`, where the stored key `c` of `src`
/// lands at position `map[c]`. Stored zeros of `src` are skipped.
pub(crate) fn fma_sparse_into_dense(dest: &mut Vec<u8>, src: &SparseOctetVec, map: &Vec<usize>, s: u8)
    requires
        src.wf(),
        forall|c: usize| #[trigger] src.has_key(c) ==> c < map@.len() && map@[c as int] < old(dest)@.len(),
        forall|c1: usize, c2: usize| #[trigger] src.has_key(c1) && #[trigger] src.has_key(c2)
            && map@[c1 as int] == map@[c2 as int] ==> c1 == c2,
    ensures
        final(dest)@.len() == old(dest)@.len(),
        forall|c: usize| #[trigger] src.has_key(c) ==> final(dest)@[map@[c as int] as int]
            == gf_add(old(dest)@[map@[c as int] as int], gf_mul(src.value_at(c), s)),
        forall|y: int| 0 <= y < old(dest)@.len() && (forall|c: usize| #[trigger] src.has_key(c) ==> map@[c as int] != y)
            ==> #[trigger] final(dest)@[y] == old(dest)@[y],
{
    let ghost e = src.elements@;
    let mut k: usize = 0;
    while k < src.elements.len()
        invariant
            k <= e.len(),
            e == src.elements@,
            src.wf(),
            dest@.len() == old(dest)@.len(),
            forall|c: usize| #[trigger] src.has_key(c) ==> c < map@.len() && map@[c as int] < old(dest)@.len(),
            forall|c1: usize, c2: usize| #[trigger] src.has_key(c1) && #[trigger] src.has_key(c2)
                && map@[c1 as int] == map@[c2 as int] ==> c1 == c2,
            forall|x: int| 0 <= x < k ==> dest@[map@[(#[trigger] e[x]).0 as int] as int]
                == gf_add(old(dest)@[map@[e[x].0 as int] as int], gf_mul(e[x].1, s)),
            forall|y: int| 0 <= y < old(dest)@.len() && (forall|x: int| 0 <= x < k ==> map@[(#[trigger] e[x]).0 as int] != y)
                ==> #[trigger] dest@[y] == old(dest)@[y],
        decreases e.len() - k,
    {
        let (c, v) = src.elements[k];
        proof {
            assert(src.has_key(c));
            assert forall|x: int| 0 <= x < k implies map@[(#[trigger] e[x]).0 as int] != map@[c as int] by {
                assert(src.has_key(e[x].0));
                assert(e[x].0 != e[k as int].0);
            }
        }
        let ghost prev = dest@;
        proof {
            assert(prev[map@[c as int] as int] == old(dest)@[map@[c as int] as int]);
        }
        if v != 0 {
            let y = map[c];
            let d = dest[y];
            dest[y] = fma(d, v, s);
        } else {
            proof {
                lemma_mul_zero(s);
                lemma_add_zero(dest@[map@[c as int] as int]);
            }
        }
        proof {
            assert forall|x: int| 0 <= x < k + 1 implies dest@[map@[(#[trigger] e[x]).0 as int] as int]
                == gf_add(old(dest)@[map@[e[x].0 as int] as int], gf_mul(e[x].1, s)) by {
                if x < k {
                    assert(src.has_key(e[x].0));
                    assert(map@[e[x].0 as int] != map@[c as int]);
                    assert(prev[map@[e[x].0 as int] as int] == gf_add(old(dest)@[map@[e[x].0 as int] as int], gf_mul(e[x].1, s)));
                    assert(dest@[map@[e[x].0 as int] as int] == prev[map@[e[x].0 as int] as int]);
                } else {
                    assert(e[x] == (c, v));
                    assert(dest@[map@[c as int] as int] == gf_add(prev[map@[c as int] as int], gf_mul(v, s)));
                }
            }
        }
        k = k + 1;
    }
    proof {
        assert forall|c: usize| #[trigger] src.has_key(c) implies dest@[map@[c as int] as int]
            == gf_add(old(dest)@[map@[c as int] as int], gf_mul(src.value_at(c), s)) by {
            crate::sparse_vec::lemma_value_in(e, c);
            let x = choose|x: int| 0 <= x < e.len() && e[x].0 == c;
            assert(dest@[map@[e[x].0 as int] as int] == gf_add(old(dest)@[map@[e[x].0 as int] as int], gf_mul(e[x].1, s)));
        }
        assert forall|y: int| 0 <= y < old(dest)@.len() && (forall|c: usize| #[trigger] src.has_key(c) ==> map@[c as int] != y)
            implies #[trigger] dest@[y] == old(dest)@[y] by {
            assert forall|x: int| 0 <= x < k implies map@[(#[trigger] e[x]).0 as int] != y by {
                assert(src.has_key(e[x].0));
            }
        }
    }
}

/// Records `row` under every column of `cols` in the column index `index`.
pub(crate) fn index_insert_all(index: &mut Vec<SparseValuelessVec>, cols: &Vec<usize>, row: usize)
    requires
        forall|c: int| 0 <= c < old(index)@.len() ==> (#[trigger] old(index)@[c]).wf(),
        forall|x: int| 0 <= x < cols@.len() ==> (#[trigger] cols@[x]) < old(index)@.len(),
    ensures
        final(index)@.len() == old(index)@.len(),
        forall|c: int| 0 <= c < old(index)@.len() ==> (#[trigger] final(index)@[c]).wf(),
        forall|c: usize, r: usize| c < old(index)@.len() ==> (#[trigger] final(index)@[c as int].contains(r)
            <==> (old(index)@[c as int].contains(r) || (r == row && cols@.contains(c)))),
{
    let mut k: usize = 0;
    while k < cols.len()
        invariant
            k <= cols@.len(),
            index@.len() == old(index)@.len(),
            forall|x: int| 0 <= x < cols@.len() ==> (#[trigger] cols@[x]) < old(index)@.len(),
            forall|c: int| 0 <= c < old(index)@.len() ==> (#[trigger] index@[c]).wf(),
            forall|c: usize, r: usize| c < old(index)@.len() ==> (#[trigger] index@[c as int].contains(r)
                <==> (old(index)@[c as int].contains(r) || (r == row && cols@.subrange(0, k as int).contains(c)))),
        decreases cols@.len() - k,
    {
        let c = cols[k];
        let ghost before = index@;
        index[c].insert(row);
        proof {
            let pre = cols@.subrange(0, k as int);
            let pre1 = cols@.subrange(0, k + 1);
            assert forall|x: usize| #[trigger] pre1.contains(x) <==> (pre.contains(x) || x == c) by {
                if x == c { assert(pre1[k as int] == x); }
                if pre1.contains(x) {
                    let j = choose|j: int| 0 <= j < pre1.len() && pre1[j] == x;
                    if j < k { assert(pre[j] == x); }
                }
                if pre.contains(x) {
                    let j = choose|j: int| 0 <= j < pre.len() && pre[j] == x;
                    assert(pre1[j] == x);
                }
            }
            assert forall|c2: usize, r: usize| c2 < old(index)@.len() implies (#[trigger] index@[c2 as int].contains(r)
                <==> (old(index)@[c2 as int].contains(r) || (r == row && pre1.contains(c2)))) by {
                if c2 != c {
                    assert(index@[c2 as int] == before[c2 as int]);
                } else {
                    assert(pre1.contains(c2));
                }
            }
        }
        k = k + 1;
    }
    proof {
        assert(cols@.subrange(0, cols@.len() as int) == cols@);
    }
}

/// The non-zero entries among the first `limit` logical columns of the dense row `row`,
/// as a sparse row keyed by physical column.
pub(crate) fn sparse_from_dense(row: &Vec<u8>, limit: usize, l2p: &Vec<usize>, p2l: &Vec<usize>) -> (r: SparseOctetVec)
    requires
        limit <= row@.len(),
        limit <= l2p@.len(),
        inverse_perms(l2p@, p2l@, l2p@.len()),
    ensures
        r.wf(),
        forall|j: int| 0 <= j < limit ==> #[trigger] r.value_at(l2p@[j]) == row@[j],
        forall|c: usize| #[trigger] r.has_key(c) ==> c < l2p@.len() && p2l@[c as int] < limit,
{
    let mut r = SparseOctetVec::new();
    let mut j: usize = 0;
    while j < limit
        invariant
            j <= limit,
            limit <= row@.len(),
            limit <= l2p@.len(),
            inverse_perms(l2p@, p2l@, l2p@.len()),
            r.wf(),
            forall|x: int| 0 <= x < j ==> #[trigger] r.value_at(l2p@[x]) == row@[x],
            forall|c: usize| #[trigger] r.has_key(c) ==> c < l2p@.len() && p2l@[c as int] < j,
        decreases limit - j,
    {
        let v = row[j];
        let c = l2p[j];
        proof {
            assert(p2l@[c as int] == j);
        }
        if v != 0 {
            r.insert(c, v);
            proof {
                assert forall|x: int| 0 <= x < j implies l2p@[x] != c by {
                    assert(p2l@[l2p@[x] as int] == x);
                }
            }
        } else {
            assert(!r.has_key(c));
        }
        assert(r.value_at(l2p@[j as int]) == row@[j as int]);
        j = j + 1;
    }
    r
}

/// The entries of `v` from position `d` on.
pub(crate) fn drop_front(v: &Vec<u8>, d: usize) -> (r: Vec<u8>)
    requires
        d <= v@.len(),
    ensures
        r@ == v@.subrange(d as int, v@.len() as int),
{
    let mut r: Vec<u8> = Vec::new();
    let mut k: usize = d;
    while k < v.len()
        invariant
            d <= k <= v@.len(),
            r@ == v@.subrange(d as int, k as int),
        decreases v@.len() - k,
    {
        r.push(v[k]);
        k = k + 1;
    }
    r
}

/// A column index with `n` empty entries.
pub(crate) fn empty_index(n: usize) -> (r: Vec<SparseValuelessVec>)
    ensures
        r@.len() == n,
        forall|c: int| 0 <= c < n ==> (#[trigger] r@[c]).wf(),
        forall|c: int, x: usize| 0 <= c < n ==> !(#[trigger] r@[c].contains(x)),
{
    let mut r: Vec<SparseValuelessVec> = Vec::with_capacity(n);
    let mut k: usize = 0;
    while k < n
        invariant
            k <= n,
            r@.len() == k,
            forall|c: int| 0 <= c < k ==> (#[trigger] r@[c]).wf(),
            forall|c: int, x: usize| 0 <= c < k ==> !(#[trigger] r@[c].contains(x)),
        decreases n - k,
    {
        r.push(SparseValuelessVec::new());
        k = k + 1;
    }
    r
}

/// Appending keeps what was there and adds the new element.
pub(crate) proof fn lemma_push_contains<T>(s: Seq<T>, x: T)
    ensures
        s.push(x).contains(x),
        forall|y: T| #[trigger] s.contains(y) ==> s.push(x).contains(y),
{
    assert(s.push(x)[s.len() as int] == x);
    assert forall|y: T| #[trigger] s.contains(y) implies s.push(x).contains(y) by {
        let j = choose|j: int| 0 <= j < s.len() && s[j] == y;
        assert(s.push(x)[j] == y);
    }
}

/// Gives every row of `rows` at least `n` entries, appending zeros ten at a time.
pub(crate) fn grow_rows(rows: &mut Vec<Vec<u8>>, n: usize)
    requires
        forall|x: int| 0 <= x < old(rows)@.len() ==> (#[trigger] old(rows)@[x])@.len() + 1 >= n,
    ensures
        final(rows)@.len() == old(rows)@.len(),
        forall|x: int| 0 <= x < old(rows)@.len() ==> (#[trigger] final(rows)@[x])@.len() >= n,
        forall|x: int, y: int| 0 <= x < old(rows)@.len() && 0 <= y < final(rows)@[x]@.len()
            ==> #[trigger] final(rows)@[x]@[y] == if y < old(rows)@[x]@.len() { old(rows)@[x]@[y] } else { 0 },
{
    let mut k: usize = 0;
    while k < rows.len()
        invariant
            k <= rows@.len(),
            rows@.len() == old(rows)@.len(),
            forall|x: int| 0 <= x < old(rows)@.len() ==> (#[trigger] old(rows)@[x])@.len() + 1 >= n,
            forall|x: int| 0 <= x < k ==> (#[trigger] rows@[x])@.len() >= n,
            forall|x: int| k <= x < rows@.len() ==> #[trigger] rows@[x] == old(rows)@[x],
            forall|x: int, y: int| 0 <= x < old(rows)@.len() && 0 <= y < rows@[x]@.len()
                ==> #[trigger] rows@[x]@[y] == if y < old(rows)@[x]@.len() { old(rows)@[x]@[y] } else { 0 },
        decreases rows@.len() - k,
    {
        if rows[k].len() < n {
            let mut t: usize = 0;
            while t < 10
                invariant
                    k < rows@.len(),
                    rows@.len() == old(rows)@.len(),
                    t <= 10,
                    rows@[k as int]@.len() == old(rows)@[k as int]@.len() + t,
                    forall|x: int| 0 <= x < rows@.len() && x != k ==> #[trigger] rows@[x] == old(rows)@[x] || x < k,
                    forall|x: int| 0 <= x < k ==> (#[trigger] rows@[x])@.len() >= n,
                    forall|x: int| k < x < rows@.len() ==> #[trigger] rows@[x] == old(rows)@[x],
                    forall|x: int, y: int| 0 <= x < old(rows)@.len() && 0 <= y < rows@[x]@.len()
                        ==> #[trigger] rows@[x]@[y] == if y < old(rows)@[x]@.len() { old(rows)@[x]@[y] } else { 0 },
                decreases 10 - t,
            {
                rows[k].push(0);
                t = t + 1;
            }
        }
        k = k + 1;
    }
}

/// The columns of the pairs in `out[..n]` whose value satisfies `one` (equal to one)
/// or `!one` (non-zero).
pub open spec fn cols_of(out: Seq<(usize, u8)>, n: int, one: bool) -> Set<int> {
    Set::new(|j: int| exists|x: int| 0 <= x < n && out[x].0 == j && (if one { out[x].1 == 1 } else { out[x].1 != 0 }))
}

/// Counts the pairs of `out` whose value is one, and those whose value is non-zero.
pub(crate) fn count_entries(out: &Vec<(usize, u8)>) -> (r: (usize, usize))
    requires
        forall|x: int, y: int| 0 <= x < y < out@.len() ==> (#[trigger] out@[x]).0 != (#[trigger] out@[y]).0,
    ensures
        r.0 == cols_of(out@, out@.len() as int, true).len(),
        r.1 == cols_of(out@, out@.len() as int, false).len(),
{
    let mut ones: usize = 0;
    let mut nonzeros: usize = 0;
    let ghost mut s1: Set<int> = Set::empty();
    let ghost mut s2: Set<int> = Set::empty();
    let mut k: usize = 0;
    proof {
        assert(s1 =~= cols_of(out@, 0, true));
        assert(s2 =~= cols_of(out@, 0, false));
    }
    while k < out.len()
        invariant
            k <= out@.len(),
            forall|x: int, y: int| 0 <= x < y < out@.len() ==> (#[trigger] out@[x]).0 != (#[trigger] out@[y]).0,
            s1.finite(),
            s2.finite(),
            ones == s1.len(),
            nonzeros == s2.len(),
            ones <= k,
            nonzeros <= k,
            s1 == cols_of(out@, k as int, true),
            s2 == cols_of(out@, k as int, false),
        decreases out@.len() - k,
    {
        let (c, v) = out[k];
        proof {
            let e = out@;
            assert forall|j: int| #[trigger] cols_of(e, k + 1, true).contains(j)
                <==> (cols_of(e, k as int, true).contains(j) || (j == c && v == 1)) by {
                if cols_of(e, k as int, true).contains(j) {
                    let x = choose|x: int| 0 <= x < k && e[x].0 == j && e[x].1 == 1;
                    assert(0 <= x < k + 1 && e[x].0 == j && e[x].1 == 1);
                }
                if j == c && v == 1 {
                    assert(e[k as int].0 == j && e[k as int].1 == 1);
                }
            }
            assert forall|j: int| #[trigger] cols_of(e, k + 1, false).contains(j)
                <==> (cols_of(e, k as int, false).contains(j) || (j == c && v != 0)) by {
                if cols_of(e, k as int, false).contains(j) {
                    let x = choose|x: int| 0 <= x < k && e[x].0 == j && e[x].1 != 0;
                    assert(0 <= x < k + 1 && e[x].0 == j && e[x].1 != 0);
                }
                if j == c && v != 0 {
                    assert(e[k as int].0 == j && e[k as int].1 != 0);
                }
            }
            assert(!cols_of(e, k as int, true).contains(c as int)) by {
                if cols_of(e, k as int, true).contains(c as int) {
                    let x = choose|x: int| 0 <= x < k && e[x].0 == c as int && e[x].1 == 1;
                    assert(e[x].0 != e[k as int].0);
                }
            }
            assert(!cols_of(e, k as int, false).contains(c as int)) by {
                if cols_of(e, k as int, false).contains(c as int) {
                    let x = choose|x: int| 0 <= x < k && e[x].0 == c as int && e[x].1 != 0;
                    assert(e[x].0 != e[k as int].0);
                }
            }
        }
        if v == 1 {
            ones = ones + 1;
            proof { s1 = s1.insert(c as int); }
        }
        if v != 0 {
            nonzeros = nonzeros + 1;
            proof { s2 = s2.insert(c as int); }
        }
        proof {
            assert(s1 =~= cols_of(out@, k + 1, true));
            assert(s2 =~= cols_of(out@, k + 1, false));
        }
        k = k + 1;
    }
    (ones, nonzeros)
}

/// `a` and `b` are mutually inverse permutations of `0..n`.
pub open spec fn inverse_perms(a: Seq<usize>, b: Seq<usize>, n: nat) -> bool {
    &&& a.len() == n
    &&& b.len() == n
    &&& forall|i: int| 0 <= i < n ==> (#[trigger] a[i]) < n && b[a[i] as int] == i
    &&& forall|p: int| 0 <= p < n ==> (#[trigger] b[p]) < n && a[b[p] as int] == p
}

} // verus!
