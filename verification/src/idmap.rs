//! Association vectors keyed by strictly ascending participant ids.
//!
//! The DKG state machine stores what it received from each peer in vectors
//! of `(id, value)` pairs whose keys are kept strictly ascending: keys are
//! unique, lookup is deterministic, and the qualification scan visits
//! peers in ascending id order, as the protocol requires.

use vstd::prelude::*;

verus! {

/// Whether the keys of the pairs are strictly ascending (hence unique).
pub open spec fn sorted_keys<V>(s: Seq<(u32, V)>) -> bool {
    forall|i: int, j: int| 0 <= i < j < s.len() ==> (#[trigger] s[i]).0 < (#[trigger] s[j]).0
}

/// Whether some pair holds the key `k`.
pub open spec fn has_key<V>(s: Seq<(u32, V)>, k: u32) -> bool {
    exists|i: int| 0 <= i < s.len() && (#[trigger] s[i]).0 == k
}

/// The index of a pair holding `k` (meaningful when `has_key` holds).
pub open spec fn key_index<V>(s: Seq<(u32, V)>, k: u32) -> int {
    choose|i: int| 0 <= i < s.len() && (#[trigger] s[i]).0 == k
}

/// The value stored under `k` (meaningful when `has_key` holds).
pub open spec fn value_of<V>(s: Seq<(u32, V)>, k: u32) -> V {
    s[key_index(s, k)].1
}

/// With strictly ascending keys the pair holding `k` is unique, so any
/// index found to hold `k` is `key_index`.
pub proof fn lemma_key_at<V>(s: Seq<(u32, V)>, k: u32, i: int)
    requires
        sorted_keys(s),
        0 <= i < s.len(),
        s[i].0 == k,
    ensures
        has_key(s, k),
        key_index(s, k) == i,
        value_of(s, k) == s[i].1,
{
    assert(has_key(s, k));
    let j = key_index(s, k);
    if j < i {
        assert(s[j].0 < s[i].0);
    } else if j > i {
        assert(s[i].0 < s[j].0);
    }
}

/// Find where `k` is, or where it would be inserted: the position of the
/// first key not below `k`, and whether that key is `k` itself.
pub fn lookup_position<V>(v: &Vec<(u32, V)>, k: u32) -> (r: (usize, bool))
    requires
        sorted_keys(v@),
    ensures
        r.0 <= v@.len(),
        r.1 == has_key(v@, k),
        r.1 ==> r.0 < v@.len() && v@[r.0 as int].0 == k && key_index(v@, k) == r.0,
        !r.1 ==> (forall|i: int| 0 <= i < r.0 ==> (#[trigger] v@[i]).0 < k) && (forall|i: int|
            r.0 <= i < v@.len() ==> (#[trigger] v@[i]).0 > k),
{
    let n = v.len();
    let mut pos: usize = 0;
    while pos < n
        invariant
            pos <= n,
            n == v@.len(),
            sorted_keys(v@),
            forall|i: int| 0 <= i < pos ==> (#[trigger] v@[i]).0 < k,
        decreases n - pos,
    {
        let key = v[pos].0;
        if key == k {
            proof {
                lemma_key_at(v@, k, pos as int);
            }
            return (pos, true);
        }
        if key > k {
            proof {
                if has_key(v@, k) {
                    let j = choose|i: int| 0 <= i < v@.len() && (#[trigger] v@[i]).0 == k;
                    if j < pos {
                        assert(v@[j].0 < k);
                    } else if j > pos {
                        assert(v@[pos as int].0 < v@[j].0);
                    }
                    assert(false);
                }
                assert forall|i: int| pos <= i < v@.len() implies (#[trigger] v@[i]).0 > k by {
                    if i > pos {
                        assert(v@[pos as int].0 < v@[i].0);
                    }
                }
            }
            return (pos, false);
        }
        pos = pos + 1;
    }
    proof {
        if has_key(v@, k) {
            let j = choose|i: int| 0 <= i < v@.len() && (#[trigger] v@[i]).0 == k;
            assert(v@[j].0 < k);
        }
    }
    (pos, false)
}

/// Inserting a fresh key at its sorted position keeps the keys ascending,
/// adds exactly that binding, and preserves every other binding.
pub proof fn lemma_sorted_insert<V>(s: Seq<(u32, V)>, pos: int, k: u32, v: V)
    requires
        sorted_keys(s),
        0 <= pos <= s.len(),
        forall|i: int| 0 <= i < pos ==> (#[trigger] s[i]).0 < k,
        forall|i: int| pos <= i < s.len() ==> (#[trigger] s[i]).0 > k,
    ensures
        sorted_keys(s.insert(pos, (k, v))),
        s.insert(pos, (k, v)).len() == s.len() + 1,
        forall|x: u32| #[trigger] has_key(s.insert(pos, (k, v)), x) == (x == k || has_key(s, x)),
        value_of(s.insert(pos, (k, v)), k) == v,
        forall|x: u32|
            x != k && #[trigger] has_key(s, x) ==> value_of(s.insert(pos, (k, v)), x) == value_of(
                s,
                x,
            ),
{
    let t = s.insert(pos, (k, v));
    s.insert_ensures(pos, (k, v));
    assert forall|i: int, j: int| 0 <= i < j < t.len() implies (#[trigger] t[i]).0
        < (#[trigger] t[j]).0 by {
        if i < pos && j < pos {
        } else if i < pos && j == pos {
            assert(t[i] == s[i]);
        } else if i == pos && j > pos {
            assert(t[j] == s[j - 1]);
        } else if i < pos && j > pos {
            assert(t[i] == s[i]);
            assert(t[j] == s[j - 1]);
            if pos < j - 1 {
                assert(s[pos].0 > k);
            }
        } else {
            assert(t[i] == s[i - 1]);
            assert(t[j] == s[j - 1]);
        }
    }
    assert forall|x: u32| #[trigger] has_key(t, x) == (x == k || has_key(s, x)) by {
        if has_key(t, x) {
            let i = choose|i: int| 0 <= i < t.len() && (#[trigger] t[i]).0 == x;
            if i < pos {
                assert(t[i] == s[i]);
                assert(has_key(s, x));
            } else if i == pos {
                assert(x == k);
            } else {
                assert(t[i] == s[i - 1]);
                assert(has_key(s, x));
            }
        }
        if x == k {
            assert(t[pos].0 == x);
            assert(has_key(t, x));
        }
        if has_key(s, x) {
            let i = choose|i: int| 0 <= i < s.len() && (#[trigger] s[i]).0 == x;
            if i < pos {
                assert(t[i].0 == x);
            } else {
                assert(t[i + 1].0 == x);
            }
            assert(has_key(t, x));
        }
    }
    lemma_key_at(t, k, pos);
    assert forall|x: u32| x != k && #[trigger] has_key(s, x) implies value_of(t, x) == value_of(
        s,
        x,
    ) by {
        let i = choose|i: int| 0 <= i < s.len() && (#[trigger] s[i]).0 == x;
        lemma_key_at(s, x, i);
        if i < pos {
            assert(t[i].0 == x);
            lemma_key_at(t, x, i);
        } else {
            assert(t[i + 1].0 == x);
            lemma_key_at(t, x, i + 1);
        }
    }
}

/// Appending a pair whose key is above all present keys keeps the keys
/// ascending, adds exactly that binding, and preserves every other
/// binding.
pub proof fn lemma_push_binding<V>(s: Seq<(u32, V)>, k: u32, v: V)
    requires
        sorted_keys(s),
        forall|i: int| 0 <= i < s.len() ==> (#[trigger] s[i]).0 < k,
    ensures
        sorted_keys(s.push((k, v))),
        forall|x: u32| #[trigger] has_key(s.push((k, v)), x) == (x == k || has_key(s, x)),
        value_of(s.push((k, v)), k) == v,
        forall|x: u32|
            x != k && #[trigger] has_key(s, x) ==> value_of(s.push((k, v)), x) == value_of(s, x),
{
    lemma_sorted_insert(s, s.len() as int, k, v);
    assert(s.insert(s.len() as int, (k, v)) =~= s.push((k, v)));
}

/// What appending an id does to membership.
pub proof fn lemma_push_id_contains(s: Seq<u32>, a: u32, x: u32)
    ensures
        s.push(a).contains(x) == (x == a || s.contains(x)),
{
    let t = s.push(a);
    if t.contains(x) {
        let i = choose|i: int| 0 <= i < t.len() && t[i] == x;
        if i < s.len() {
            assert(s[i] == x);
            assert(s.contains(x));
        }
    }
    if x == a {
        assert(t[s.len() as int] == x);
        assert(t.contains(x));
    }
    if s.contains(x) {
        let i = choose|i: int| 0 <= i < s.len() && s[i] == x;
        assert(t[i] == x);
        assert(t.contains(x));
    }
}

/// Whether a sequence of ids is strictly ascending (hence duplicate-free).
pub open spec fn sorted_ids(s: Seq<u32>) -> bool {
    forall|i: int, j: int| 0 <= i < j < s.len() ==> s[i] < s[j]
}

/// Insert a fresh id at its sorted position.
pub fn insert_sorted_id(v: &mut Vec<u32>, k: u32)
    requires
        sorted_ids(old(v)@),
        !old(v)@.contains(k),
    ensures
        sorted_ids(final(v)@),
        final(v)@.len() == old(v)@.len() + 1,
        final(v)@.contains(k),
        forall|x: u32| #[trigger] final(v)@.contains(x) == (x == k || old(v)@.contains(x)),
{
    let n = v.len();
    let mut pos: usize = 0;
    while pos < n && v[pos] < k
        invariant
            pos <= n,
            n == v@.len(),
            sorted_ids(v@),
            !v@.contains(k),
            forall|i: int| 0 <= i < pos ==> v@[i] < k,
        decreases n - pos,
    {
        pos = pos + 1;
    }
    let ghost pre = v@;
    proof {
        pre.insert_ensures(pos as int, k);
        if pos < n {
            assert(pre[pos as int] != k) by {
                if pre[pos as int] == k {
                    assert(pre.contains(k));
                }
            }
            assert(pre[pos as int] > k);
        }
    }
    v.insert(pos, k);
    proof {
        let t = v@;
        assert forall|i: int, j: int| 0 <= i < j < t.len() implies t[i] < t[j] by {
            if i < pos && j < pos {
            } else if i < pos && j == pos {
                assert(t[i] == pre[i]);
            } else if i == pos && j > pos {
                assert(t[j] == pre[j - 1]);
                if pos < j - 1 {
                    assert(pre[pos as int] > k);
                }
            } else if i < pos && j > pos {
                assert(t[i] == pre[i]);
                assert(t[j] == pre[j - 1]);
            } else {
                assert(t[i] == pre[i - 1]);
                assert(t[j] == pre[j - 1]);
            }
        }
        assert(t[pos as int] == k);
        assert(t.contains(k));
        assert forall|x: u32| #[trigger] t.contains(x) == (x == k || pre.contains(x)) by {
            if t.contains(x) {
                let i = choose|i: int| 0 <= i < t.len() && t[i] == x;
                if i < pos {
                    assert(pre[i] == x);
                    assert(pre.contains(x));
                } else if i > pos {
                    assert(pre[i - 1] == x);
                    assert(pre.contains(x));
                }
            }
            if pre.contains(x) {
                let i = choose|i: int| 0 <= i < pre.len() && pre[i] == x;
                if i < pos {
                    assert(t[i] == x);
                } else {
                    assert(t[i + 1] == x);
                }
                assert(t.contains(x));
            }
        }
    }
}

/// Copy a vector of ids.
pub fn copy_ids(v: &Vec<u32>) -> (r: Vec<u32>)
    ensures
        r@ == v@,
{
    let n = v.len();
    let mut out: Vec<u32> = Vec::new();
    let mut i: usize = 0;
    while i < n
        invariant
            i <= n,
            n == v@.len(),
            out@ =~= v@.subrange(0, i as int),
        decreases n - i,
    {
        out.push(v[i]);
        i = i + 1;
    }
    proof {
        assert(out@ =~= v@);
    }
    out
}

/// Whether a vector of ids contains `k`.
pub fn contains_id(v: &Vec<u32>, k: u32) -> (r: bool)
    ensures
        r == v@.contains(k),
{
    let n = v.len();
    let mut i: usize = 0;
    while i < n
        invariant
            i <= n,
            n == v@.len(),
            forall|j: int| 0 <= j < i ==> v@[j] != k,
        decreases n - i,
    {
        if v[i] == k {
            return true;
        }
        i = i + 1;
    }
    false
}

} // verus!
