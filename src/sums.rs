//! Finite sums of natural numbers indexed by integers.
use vstd::prelude::*;

verus! {
/// `f(0) + ... + f(n - 1)`.
pub open spec fn sum_to(f: spec_fn(int) -> nat, n: nat) -> nat
    decreases n,
{
    if n == 0 {
        0
    } else {
        sum_to(f, (n - 1) as nat) + f(n - 1)
    }
}

pub(crate) proof fn lemma_sum_ext(f: spec_fn(int) -> nat, g: spec_fn(int) -> nat, n: nat)
    requires
        forall|x: int| 0 <= x < n ==> #[trigger] f(x) == g(x),
    ensures
        sum_to(f, n) == sum_to(g, n),
    decreases n,
{
    if n > 0 {
        lemma_sum_ext(f, g, (n - 1) as nat);
    }
}

/// Changing one term changes the sum by the difference.
pub(crate) proof fn lemma_sum_update(f: spec_fn(int) -> nat, g: spec_fn(int) -> nat, n: nat, k: int)
    requires
        0 <= k < n,
        forall|x: int| 0 <= x < n && x != k ==> #[trigger] f(x) == g(x),
    ensures
        sum_to(g, n) as int == sum_to(f, n) as int - f(k) as int + g(k) as int,
    decreases n,
{
    if k == n - 1 {
        lemma_sum_ext(f, g, (n - 1) as nat);
    } else {
        lemma_sum_update(f, g, (n - 1) as nat, k);
    }
}

/// Exchanging two terms keeps the sum.
pub(crate) proof fn lemma_sum_swap(f: spec_fn(int) -> nat, g: spec_fn(int) -> nat, n: nat, i: int, j: int)
    requires
        0 <= i < n,
        0 <= j < n,
        forall|x: int| 0 <= x < n ==> #[trigger] g(x) == f(if x == i { j } else if x == j { i } else { x }),
    ensures
        sum_to(g, n) == sum_to(f, n),
{
    if i == j {
        lemma_sum_ext(f, g, n);
    } else {
        let f1 = |x: int| if x == i { f(j) } else { f(x) };
        lemma_sum_update(f, f1, n, i);
        lemma_sum_update(f1, g, n, j);
    }
}

} // verus!
