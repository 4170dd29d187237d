//! Choosing from a list without changing its order.

use vstd::prelude::*;

verus! {

/// `at` lists, from the first to the last, all numbers below `n` that `keep`
/// tells.
pub open spec fn chosen(n: int, keep: spec_fn(int) -> bool, at: Seq<int>) -> bool {
    &&& forall|k: int| 0 <= k < at.len() ==> 0 <= #[trigger] at[k] < n && keep(at[k])
    &&& forall|k: int, l: int| 0 <= k < l < at.len() ==> #[trigger] at[k] < #[trigger] at[l]
    &&& forall|i: int| 0 <= i < n && #[trigger] keep(i) ==> at.contains(i)
}

/// One more number is added at the end, or passed over.
pub proof fn lemma_chosen_next(n: int, keep: spec_fn(int) -> bool, at: Seq<int>)
    requires
        0 <= n,
        chosen(n, keep, at),
    ensures
        keep(n) ==> chosen(n + 1, keep, at.push(n)),
        !keep(n) ==> chosen(n + 1, keep, at),
{
    if keep(n) {
        let out = at.push(n);
        assert(out[at.len() as int] == n);
        assert forall|i: int| 0 <= i < n + 1 && #[trigger] keep(i) implies out.contains(i) by {
            if i < n {
                assert(at.contains(i));
                let k = choose|k: int| 0 <= k < at.len() && at[k] == i;
                assert(out[k] == i);
            }
        }
    }
}

/// The same choice, told in another way.
pub proof fn lemma_chosen_told(
    n: int,
    keep: spec_fn(int) -> bool,
    other: spec_fn(int) -> bool,
    at: Seq<int>,
)
    requires
        chosen(n, keep, at),
        forall|i: int| 0 <= i < n ==> #[trigger] keep(i) == other(i),
    ensures
        chosen(n, other, at),
{
    assert forall|i: int| 0 <= i < n && #[trigger] other(i) implies at.contains(i) by {
        assert(keep(i));
    }
}

/// There is one such list for a given choice.
pub proof fn law_chosen_unique(
    n: int,
    keep: spec_fn(int) -> bool,
    a: Seq<int>,
    b: Seq<int>,
)
    requires
        chosen(n, keep, a),
        chosen(n, keep, b),
    ensures
        a == b,
{
    assert forall|k: int| 0 <= k < a.len() && k < b.len() implies a[k] == b[k] by {
        lemma_chosen_same(n, keep, a, b, k);
    }
    if a.len() < b.len() {
        lemma_chosen_longer(n, keep, a, b);
    }
    if b.len() < a.len() {
        assert forall|k: int| 0 <= k < b.len() implies b[k] == a[k] by {
            assert(a[k] == b[k]);
        }
        lemma_chosen_longer(n, keep, b, a);
    }
    assert(a =~= b);
}

proof fn lemma_chosen_longer(
    n: int,
    keep: spec_fn(int) -> bool,
    a: Seq<int>,
    b: Seq<int>,
)
    requires
        chosen(n, keep, a),
        chosen(n, keep, b),
        forall|k: int| 0 <= k < a.len() ==> #[trigger] a[k] == b[k],
        a.len() <= b.len(),
    ensures
        a.len() == b.len(),
{
    if a.len() < b.len() {
        let x = b[a.len() as int];
        assert(keep(x));
        assert(a.contains(x));
        let k = choose|k: int| 0 <= k < a.len() && a[k] == x;
        assert(b[k] < b[a.len() as int]);
    }
}

proof fn lemma_chosen_same(
    n: int,
    keep: spec_fn(int) -> bool,
    a: Seq<int>,
    b: Seq<int>,
    k: int,
)
    requires
        chosen(n, keep, a),
        chosen(n, keep, b),
        0 <= k < a.len(),
        k < b.len(),
    ensures
        a[k] == b[k],
    decreases k,
{
    assert forall|j: int| 0 <= j < k implies a[j] == b[j] by {
        lemma_chosen_same(n, keep, a, b, j);
    }
    assert(keep(a[k]));
    assert(keep(b[k]));
    assert(b.contains(a[k]));
    assert(a.contains(b[k]));
    let i = choose|i: int| 0 <= i < b.len() && b[i] == a[k];
    let j = choose|j: int| 0 <= j < a.len() && a[j] == b[k];
    if i < k {
        assert(a[i] == b[i]);
        assert(a[i] < a[k]);
    }
    if j < k {
        assert(a[j] == b[j]);
        assert(b[j] < b[k]);
    }
    if a[k] < b[k] {
        assert(i >= k);
        if i > k {
            assert(b[k] < b[i]);
        }
    }
    if b[k] < a[k] {
        if j > k {
            assert(a[k] < a[j]);
        }
    }
}

} // verus!
