//! Byte-keyed association lists and the map each one denotes.
use vstd::prelude::*;

verus! {

/// No key occurs at two positions.
pub open spec fn keys_unique<V>(s: Seq<(Seq<u8>, V)>) -> bool {
    forall|i: int, j: int|
        0 <= i < s.len() && 0 <= j < s.len() && i != j ==> #[trigger] s[i].0 != #[trigger] s[j].0
}

/// `k` is the key of some pair of `s`.
pub open spec fn has_key<V>(s: Seq<(Seq<u8>, V)>, k: Seq<u8>) -> bool {
    exists|i: int| 0 <= i < s.len() && #[trigger] s[i].0 == k
}

/// The map whose entries are the pairs of `s`.
pub open spec fn map_of<V>(s: Seq<(Seq<u8>, V)>) -> Map<Seq<u8>, V> {
    Map::new(
        |k: Seq<u8>| has_key(s, k),
        |k: Seq<u8>| s[choose|i: int| 0 <= i < s.len() && #[trigger] s[i].0 == k].1,
    )
}

pub proof fn lemma_map_of_index<V>(s: Seq<(Seq<u8>, V)>, i: int)
    requires
        keys_unique(s),
        0 <= i < s.len(),
    ensures
        map_of(s).contains_key(s[i].0),
        map_of(s)[s[i].0] == s[i].1,
{
    let k = s[i].0;
    assert(has_key(s, k));
    let j = choose|j: int| 0 <= j < s.len() && #[trigger] s[j].0 == k;
    assert(j == i);
}

pub proof fn lemma_map_of_absent<V>(s: Seq<(Seq<u8>, V)>, k: Seq<u8>)
    requires
        forall|i: int| 0 <= i < s.len() ==> #[trigger] s[i].0 != k,
    ensures
        !map_of(s).contains_key(k),
{
}

pub proof fn lemma_map_of_push<V>(s: Seq<(Seq<u8>, V)>, k: Seq<u8>, v: V)
    requires
        keys_unique(s),
        !map_of(s).contains_key(k),
    ensures
        keys_unique(s.push((k, v))),
        map_of(s.push((k, v))) == map_of(s).insert(k, v),
{
    let t = s.push((k, v));
    assert(keys_unique(t)) by {
        assert forall|i: int, j: int|
            0 <= i < t.len() && 0 <= j < t.len() && i != j implies #[trigger] t[i].0
            != #[trigger] t[j].0 by {
            if i < s.len() && j < s.len() {
                assert(t[i] == s[i] && t[j] == s[j]);
            } else if i < s.len() {
                assert(t[i] == s[i]);
                assert(!has_key(s, k));
            } else {
                assert(t[j] == s[j]);
                assert(!has_key(s, k));
            }
        }
    }
    assert forall|q: Seq<u8>| #[trigger] map_of(t).contains_key(q) <==> map_of(s).insert(
        k,
        v,
    ).contains_key(q) by {
        if has_key(s, q) {
            let j = choose|j: int| 0 <= j < s.len() && #[trigger] s[j].0 == q;
            assert(t[j] == s[j]);
        }
        if q == k {
            assert(t[s.len() as int].0 == k);
        }
        if has_key(t, q) && q != k {
            let j = choose|j: int| 0 <= j < t.len() && #[trigger] t[j].0 == q;
            assert(j < s.len());
            assert(t[j] == s[j]);
        }
    }
    assert forall|q: Seq<u8>| #[trigger] map_of(t).contains_key(q) implies map_of(t)[q] == map_of(
        s,
    ).insert(k, v)[q] by {
        if q == k {
            lemma_map_of_index(t, s.len() as int);
        } else {
            let j = choose|j: int| 0 <= j < t.len() && #[trigger] t[j].0 == q;
            assert(j < s.len());
            assert(t[j] == s[j]);
            lemma_map_of_index(t, j);
            lemma_map_of_index(s, j);
        }
    }
    assert(map_of(t) =~= map_of(s).insert(k, v));
}

pub proof fn lemma_map_of_update<V>(s: Seq<(Seq<u8>, V)>, i: int, v: V)
    requires
        keys_unique(s),
        0 <= i < s.len(),
    ensures
        keys_unique(s.update(i, (s[i].0, v))),
        map_of(s.update(i, (s[i].0, v))) == map_of(s).insert(s[i].0, v),
{
    let k = s[i].0;
    let t = s.update(i, (k, v));
    assert forall|j: int| 0 <= j < s.len() implies #[trigger] t[j].0 == s[j].0 by {}
    assert(keys_unique(t)) by {
        assert forall|a: int, b: int|
            0 <= a < t.len() && 0 <= b < t.len() && a != b implies #[trigger] t[a].0
            != #[trigger] t[b].0 by {
            assert(t[a].0 == s[a].0 && t[b].0 == s[b].0);
        }
    }
    lemma_map_of_index(s, i);
    assert forall|q: Seq<u8>| #[trigger] map_of(t).contains_key(q) <==> map_of(s).insert(
        k,
        v,
    ).contains_key(q) by {
        if has_key(s, q) {
            let j = choose|j: int| 0 <= j < s.len() && #[trigger] s[j].0 == q;
            assert(t[j].0 == q);
        }
        if has_key(t, q) {
            let j = choose|j: int| 0 <= j < t.len() && #[trigger] t[j].0 == q;
            assert(s[j].0 == q);
        }
    }
    assert forall|q: Seq<u8>| #[trigger] map_of(t).contains_key(q) implies map_of(t)[q] == map_of(
        s,
    ).insert(k, v)[q] by {
        let j = choose|j: int| 0 <= j < t.len() && #[trigger] t[j].0 == q;
        lemma_map_of_index(t, j);
        if j != i {
            assert(t[j] == s[j]);
            lemma_map_of_index(s, j);
        }
    }
    assert(map_of(t) =~= map_of(s).insert(k, v));
}

pub proof fn lemma_map_of_remove<V>(s: Seq<(Seq<u8>, V)>, i: int)
    requires
        keys_unique(s),
        0 <= i < s.len(),
    ensures
        keys_unique(s.remove(i)),
        map_of(s.remove(i)) == map_of(s).remove(s[i].0),
{
    let k = s[i].0;
    let t = s.remove(i);
    assert forall|j: int| 0 <= j < t.len() implies #[trigger] t[j] == (if j < i {
        s[j]
    } else {
        s[j + 1]
    }) by {}
    assert(keys_unique(t)) by {
        assert forall|a: int, b: int|
            0 <= a < t.len() && 0 <= b < t.len() && a != b implies #[trigger] t[a].0
            != #[trigger] t[b].0 by {
            let a2 = if a < i { a } else { a + 1 };
            let b2 = if b < i { b } else { b + 1 };
            assert(t[a] == s[a2] && t[b] == s[b2]);
        }
    }
    assert forall|q: Seq<u8>| #[trigger] map_of(t).contains_key(q) <==> map_of(s).remove(
        k,
    ).contains_key(q) by {
        if has_key(s, q) && q != k {
            let j = choose|j: int| 0 <= j < s.len() && #[trigger] s[j].0 == q;
            assert(j != i);
            let j2 = if j < i { j } else { j - 1 };
            assert(t[j2] == s[j]);
        }
        if has_key(t, q) {
            let j = choose|j: int| 0 <= j < t.len() && #[trigger] t[j].0 == q;
            let j2 = if j < i { j } else { j + 1 };
            assert(t[j] == s[j2]);
            assert(j2 != i);
        }
    }
    assert forall|q: Seq<u8>| #[trigger] map_of(t).contains_key(q) implies map_of(t)[q] == map_of(
        s,
    ).remove(k)[q] by {
        let j = choose|j: int| 0 <= j < t.len() && #[trigger] t[j].0 == q;
        let j2 = if j < i { j } else { j + 1 };
        assert(t[j] == s[j2]);
        lemma_map_of_index(t, j);
        lemma_map_of_index(s, j2);
    }
    assert(map_of(t) =~= map_of(s).remove(k));
}

/// Byte-wise equality of two slices.
pub fn bytes_eq(a: &[u8], b: &[u8]) -> (r: bool)
    ensures
        r == (a@ == b@),
{
    if a.len() != b.len() {
        return false;
    }
    let mut i: usize = 0;
    while i < a.len()
        invariant
            a@.len() == b@.len(),
            i <= a@.len(),
            forall|j: int| 0 <= j < i ==> a@[j] == b@[j],
        decreases a@.len() - i,
    {
        if a[i] != b[i] {
            return false;
        }
        i = i + 1;
    }
    assert(a@ =~= b@);
    true
}

/// A fresh vector holding the bytes of `b`.
pub fn copy_bytes(b: &[u8]) -> (r: Vec<u8>)
    ensures
        r@ == b@,
{
    let mut out: Vec<u8> = Vec::new();
    let mut i: usize = 0;
    while i < b.len()
        invariant
            i <= b@.len(),
            out@ == b@.subrange(0, i as int),
        decreases b@.len() - i,
    {
        out.push(b[i]);
        i = i + 1;
        assert(out@ =~= b@.subrange(0, i as int));
    }
    assert(b@.subrange(0, b@.len() as int) =~= b@);
    out
}

} // verus!
