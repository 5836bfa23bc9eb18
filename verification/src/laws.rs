//! The storage contract's laws, stated over the abstract cache — the
//! finite map from key to value that both backends' contracts speak of.
//! `add` yields `insert`, `delete` yields `remove`, `get` and the result
//! of `delete`/`modify` go by membership; these lemmas say how the
//! operations compose.  The durable backend's counterparts under crashes
//! are proved in `fsmodel`.
use vstd::prelude::*;

verus! {

/// After `add(k, v)`, `get(k)` returns `v`, and `list` carries the pair:
/// the entry is in the mapping with exactly that value.
pub proof fn lemma_add_then_get(m: Map<Seq<char>, Seq<char>>, k: Seq<char>, v: Seq<char>)
    ensures
        m.insert(k, v).dom().contains(k),
        m.insert(k, v)[k] == v,
{
}

/// Adding twice under one key keeps only the last value, and no second
/// entry appears: the two states are one and the same map.
pub proof fn lemma_add_last_wins(
    m: Map<Seq<char>, Seq<char>>,
    k: Seq<char>,
    v1: Seq<char>,
    v2: Seq<char>,
)
    ensures
        m.insert(k, v1).insert(k, v2) == m.insert(k, v2),
        m.insert(k, v2)[k] == v2,
{
    assert(m.insert(k, v1).insert(k, v2) =~= m.insert(k, v2));
}

/// `delete(k)` reports an entry at most once: after it, the key is gone,
/// so a repeated `delete` reports absence and `get` returns nothing.
pub proof fn lemma_delete_once(m: Map<Seq<char>, Seq<char>>, k: Seq<char>)
    ensures
        !m.remove(k).dom().contains(k),
        m.remove(k).remove(k) == m.remove(k),
{
    assert(m.remove(k).remove(k) =~= m.remove(k));
}

/// An operation under one key leaves every other key's entry alone.
pub proof fn lemma_other_keys_untouched(
    m: Map<Seq<char>, Seq<char>>,
    k: Seq<char>,
    v: Seq<char>,
    other: Seq<char>,
)
    requires
        other != k,
    ensures
        m.insert(k, v).dom().contains(other) == m.dom().contains(other),
        m.remove(k).dom().contains(other) == m.dom().contains(other),
        m.dom().contains(other) ==> m.insert(k, v)[other] == m[other] && m.remove(k)[other]
            == m[other],
{
}

} // verus!
