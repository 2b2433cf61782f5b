//! Association lists: vectors of `(key, value)` pairs read as finite maps,
//! and the byte-wise key comparisons that the registries use.
use vstd::prelude::*;

verus! {

/// The map that a list of pairs denotes; a later pair for the same key wins.
pub open spec fn assoc_map<K, V>(s: Seq<(K, V)>) -> Map<K, V>
    decreases s.len(),
{
    if s.len() == 0 {
        Map::empty()
    } else {
        assoc_map(s.drop_last()).insert(s.last().0, s.last().1)
    }
}

/// No key occurs twice in the list.
pub open spec fn distinct_keys<K, V>(s: Seq<(K, V)>) -> bool {
    forall|i: int, j: int| 0 <= i < j < s.len() ==> s[i].0 != s[j].0
}

pub proof fn lemma_assoc_contains<K, V>(s: Seq<(K, V)>, k: K)
    ensures
        assoc_map(s).contains_key(k) <==> exists|i: int| 0 <= i < s.len() && s[i].0 == k,
    decreases s.len(),
{
    if s.len() > 0 {
        lemma_assoc_contains(s.drop_last(), k);
        if exists|i: int| 0 <= i < s.drop_last().len() && s.drop_last()[i].0 == k {
            let i = choose|i: int| 0 <= i < s.drop_last().len() && s.drop_last()[i].0 == k;
            assert(s[i].0 == k);
        }
        if exists|i: int| 0 <= i < s.len() && s[i].0 == k {
            let i = choose|i: int| 0 <= i < s.len() && s[i].0 == k;
            if i < s.len() - 1 {
                assert(s.drop_last()[i].0 == k);
            }
        }
    }
}

pub proof fn lemma_assoc_index<K, V>(s: Seq<(K, V)>, i: int)
    requires
        distinct_keys(s),
        0 <= i < s.len(),
    ensures
        assoc_map(s).contains_key(s[i].0),
        assoc_map(s)[s[i].0] == s[i].1,
    decreases s.len(),
{
    if i < s.len() - 1 {
        assert(distinct_keys(s.drop_last()));
        lemma_assoc_index(s.drop_last(), i);
        assert(s.drop_last()[i] == s[i]);
    }
}

pub proof fn lemma_assoc_absent<K, V>(s: Seq<(K, V)>, k: K)
    requires
        forall|i: int| 0 <= i < s.len() ==> s[i].0 != k,
    ensures
        !assoc_map(s).contains_key(k),
{
    lemma_assoc_contains(s, k);
}

pub proof fn lemma_assoc_update<K, V>(s: Seq<(K, V)>, i: int, v: V)
    requires
        distinct_keys(s),
        0 <= i < s.len(),
    ensures
        assoc_map(s.update(i, (s[i].0, v))) =~= assoc_map(s).insert(s[i].0, v),
        distinct_keys(s.update(i, (s[i].0, v))),
    decreases s.len(),
{
    let t = s.update(i, (s[i].0, v));
    if i == s.len() - 1 {
        assert(t.drop_last() =~= s.drop_last());
    } else {
        assert(distinct_keys(s.drop_last()));
        lemma_assoc_update(s.drop_last(), i, v);
        assert(t.drop_last() =~= s.drop_last().update(i, (s[i].0, v)));
        assert(s.last().0 != s[i].0);
    }
}

pub proof fn lemma_assoc_push<K, V>(s: Seq<(K, V)>, k: K, v: V)
    requires
        distinct_keys(s),
        forall|i: int| 0 <= i < s.len() ==> s[i].0 != k,
    ensures
        assoc_map(s.push((k, v))) =~= assoc_map(s).insert(k, v),
        distinct_keys(s.push((k, v))),
{
    assert(s.push((k, v)).drop_last() =~= s);
}

/// Byte-wise equality of two slices.
pub fn slices_equal(a: &[u8], b: &[u8]) -> (r: bool)
    ensures
        r == (a@ == b@),
{
    if a.len() != b.len() {
        return false;
    }
    let mut i: usize = 0;
    while i < a.len()
        invariant
            a@.len() == b@.len(),
            0 <= i <= a@.len(),
            forall|k: int| 0 <= k < i ==> a@[k] == b@[k],
        decreases a@.len() - i,
    {
        if a[i] != b[i] {
            return false;
        }
        i += 1;
    }
    assert(a@ =~= b@);
    true
}

/// Equality of two 32-byte identifiers.
pub fn ids32_equal(a: &[u8; 32], b: &[u8; 32]) -> (r: bool)
    ensures
        r == (*a == *b),
{
    let mut i: usize = 0;
    while i < 32
        invariant
            0 <= i <= 32,
            forall|k: int| 0 <= k < i ==> a@[k] == b@[k],
        decreases 32 - i,
    {
        if a[i] != b[i] {
            return false;
        }
        i += 1;
    }
    assert(a@ =~= b@);
    assert(*a =~= *b);
    true
}

/// Equality of two 16-byte identifiers.
pub fn ids16_equal(a: &[u8; 16], b: &[u8; 16]) -> (r: bool)
    ensures
        r == (*a == *b),
{
    let mut i: usize = 0;
    while i < 16
        invariant
            0 <= i <= 16,
            forall|k: int| 0 <= k < i ==> a@[k] == b@[k],
        decreases 16 - i,
    {
        if a[i] != b[i] {
            return false;
        }
        i += 1;
    }
    assert(a@ =~= b@);
    assert(*a =~= *b);
    true
}

/// Equality of two strings, compared by their UTF-8 bytes.
pub fn strs_equal(a: &str, b: &str) -> (r: bool)
    ensures
        r == (a@ == b@),
{
    let r = slices_equal(a.as_bytes(), b.as_bytes());
    proof {
        vstd::utf8::encode_utf8_decode_utf8(a@);
        vstd::utf8::encode_utf8_decode_utf8(b@);
    }
    r
}

/// Inserting a pair for a new key anywhere in the list adds that key to
/// the map.
pub proof fn lemma_assoc_insert_at<K, V>(s: Seq<(K, V)>, pos: int, k: K, v: V)
    requires
        distinct_keys(s),
        0 <= pos <= s.len(),
        forall|i: int| 0 <= i < s.len() ==> s[i].0 != k,
    ensures
        assoc_map(s.insert(pos, (k, v))) =~= assoc_map(s).insert(k, v),
        distinct_keys(s.insert(pos, (k, v))),
{
    let t = s.insert(pos, (k, v));
    assert forall|i: int, j: int| 0 <= i < j < t.len() implies t[i].0 != t[j].0 by {
        if i < pos && j < pos {
            assert(t[i] == s[i] && t[j] == s[j]);
        } else if i < pos && j > pos {
            assert(t[i] == s[i] && t[j] == s[j - 1]);
        } else if i > pos {
            assert(t[i] == s[i - 1] && t[j] == s[j - 1]);
        }
    }
    assert forall|x: K| #[trigger] assoc_map(t).contains_key(x) == assoc_map(s).insert(k, v).contains_key(x) by {
        lemma_assoc_contains(t, x);
        lemma_assoc_contains(s, x);
        if exists|i: int| 0 <= i < s.len() && s[i].0 == x {
            let i = choose|i: int| 0 <= i < s.len() && s[i].0 == x;
            if i < pos {
                assert(t[i] == s[i]);
            } else {
                assert(t[i + 1] == s[i]);
            }
        }
        if exists|i: int| 0 <= i < t.len() && t[i].0 == x {
            let i = choose|i: int| 0 <= i < t.len() && t[i].0 == x;
            if i < pos {
                assert(t[i] == s[i]);
            } else if i > pos {
                assert(t[i] == s[i - 1]);
            }
        }
        assert(t[pos] == (k, v));
    }
    assert forall|x: K| #[trigger] assoc_map(t).contains_key(x) implies assoc_map(t)[x] == assoc_map(
        s,
    ).insert(k, v)[x] by {
        lemma_assoc_contains(t, x);
        let i = choose|i: int| 0 <= i < t.len() && t[i].0 == x;
        lemma_assoc_index(t, i);
        if i < pos {
            assert(t[i] == s[i]);
            lemma_assoc_index(s, i);
        } else if i > pos {
            assert(t[i] == s[i - 1]);
            lemma_assoc_index(s, i - 1);
        } else {
            assert(t[pos] == (k, v));
        }
    }
}

} // verus!
