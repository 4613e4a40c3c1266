//! Small reusable predicates over keyed stores, used to state what a batch
//! of spawns changes and what it leaves alone.

use vstd::prelude::*;

verus! {

/// Outside the key range `[n0, n0 + len)` the two maps agree exactly.
pub open spec fn map_fresh_range<T>(pre: Map<int, T>, post: Map<int, T>, n0: int, len: int) -> bool {
    forall|k: int|
        !(n0 <= k < n0 + len) ==> (((#[trigger] post.contains_key(k)) <==> pre.contains_key(k)) && (
        pre.contains_key(k) ==> post[k] == pre[k]))
}

/// Every key in `[n0, n0 + len)` is present and holds `v`.
pub open spec fn map_const_range<T>(post: Map<int, T>, n0: int, len: int, v: T) -> bool {
    forall|i: int| 0 <= i < len ==> #[trigger] post.contains_key(n0 + i) && post[n0 + i] == v
}

/// Inserting outside the range keeps a constant range constant.
pub proof fn lemma_const_range_insert_outside<T>(m: Map<int, T>, n0: int, len: int, v: T, k: int, w: T)
    requires
        map_const_range(m, n0, len, v),
        !(n0 <= k < n0 + len),
    ensures
        map_const_range(m.insert(k, w), n0, len, v),
{
    assert forall|i: int|
        0 <= i < len implies #[trigger] m.insert(k, w).contains_key(n0 + i) && m.insert(k, w)[n0 + i]
        == v by {
        assert(m.contains_key(n0 + i));
        assert(m[n0 + i] == v);
    }
}

/// A constant range one longer, when the next key also holds `v`.
pub proof fn lemma_const_range_extend<T>(m: Map<int, T>, n0: int, len: int, v: T)
    requires
        map_const_range(m, n0, len, v),
        m.contains_key(n0 + len),
        m[n0 + len] == v,
    ensures
        map_const_range(m, n0, len + 1, v),
{
    assert forall|i: int| 0 <= i < len + 1 implies #[trigger] m.contains_key(n0 + i) && m[n0 + i]
        == v by {
        if i < len {
            assert(m.contains_key(n0 + i));
            assert(m[n0 + i] == v);
        }
    }
}

/// Inserting at the key just past the range widens the untouched frame by
/// one slot.
pub proof fn lemma_fresh_range_insert_top<T>(pre: Map<int, T>, post: Map<int, T>, n0: int, len: int, w: T)
    requires
        map_fresh_range(pre, post, n0, len),
        len >= 0,
    ensures
        map_fresh_range(pre, post.insert(n0 + len, w), n0, len + 1),
{
    assert forall|k: int|
        !(n0 <= k < n0 + len + 1) implies (((#[trigger] post.insert(n0 + len, w).contains_key(k))
        <==> pre.contains_key(k)) && (pre.contains_key(k) ==> post.insert(n0 + len, w)[k] == pre[k])) by {
        assert(post.contains_key(k) <==> pre.contains_key(k));
        assert(pre.contains_key(k) ==> post[k] == pre[k]);
    }
}

} // verus!
