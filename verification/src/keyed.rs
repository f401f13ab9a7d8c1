//! Association lists keyed by strings: vectors of `(key, value)` pairs read
//! as maps, where the first entry with a key is the one that counts.

use vstd::prelude::*;
use crate::text::str_eq;

verus! {

/// Entry `i` is the first whose key is `k`.
pub open spec fn is_first_key<V>(s: Seq<(String, V)>, i: int, k: Seq<char>) -> bool {
    &&& 0 <= i < s.len()
    &&& s[i].0@ == k
    &&& forall|j: int| 0 <= j < i ==> s[j].0@ != k
}

/// Some entry has key `k`.
pub open spec fn has_key<V>(s: Seq<(String, V)>, k: Seq<char>) -> bool {
    exists|i: int| 0 <= i < s.len() && s[i].0@ == k
}

/// The value of the first entry with key `k`.
pub open spec fn lookup<V>(s: Seq<(String, V)>, k: Seq<char>) -> Option<V> {
    if has_key(s, k) {
        Some(s[choose|i: int| is_first_key(s, i, k)].1)
    } else {
        None
    }
}

/// No two entries share a key.
pub open spec fn unique_keys<V>(s: Seq<(String, V)>) -> bool {
    forall|i: int, j: int| 0 <= i < j < s.len() ==> s[i].0@ != s[j].0@
}

/// The keys, in order.
pub open spec fn keys_of<V>(s: Seq<(String, V)>) -> Seq<Seq<char>> {
    s.map_values(|e: (String, V)| e.0@)
}

pub proof fn lemma_first_key_unique<V>(s: Seq<(String, V)>, i: int, j: int, k: Seq<char>)
    requires
        is_first_key(s, i, k),
        is_first_key(s, j, k),
    ensures
        i == j,
{
    if i < j {
        assert(s[i].0@ != k);
    } else if j < i {
        assert(s[j].0@ != k);
    }
}

pub proof fn lemma_exists_first_key<V>(s: Seq<(String, V)>, i: int, k: Seq<char>)
    requires
        0 <= i < s.len(),
        s[i].0@ == k,
    ensures
        exists|f: int| is_first_key(s, f, k),
    decreases i,
{
    if forall|j: int| 0 <= j < i ==> s[j].0@ != k {
        assert(is_first_key(s, i, k));
    } else {
        let j = choose|j: int| 0 <= j < i && s[j].0@ == k;
        lemma_exists_first_key(s, j, k);
    }
}

/// A present key has a first entry.
pub proof fn lemma_has_key_first<V>(s: Seq<(String, V)>, k: Seq<char>)
    requires
        has_key(s, k),
    ensures
        exists|f: int| is_first_key(s, f, k),
{
    let j = choose|j: int| 0 <= j < s.len() && s[j].0@ == k;
    lemma_exists_first_key(s, j, k);
}

/// The lookup of a key is the value of its first entry.
pub proof fn lemma_lookup_at<V>(s: Seq<(String, V)>, i: int, k: Seq<char>)
    requires
        is_first_key(s, i, k),
    ensures
        lookup(s, k) == Some(s[i].1),
{
    let f = choose|f: int| is_first_key(s, f, k);
    lemma_first_key_unique(s, i, f, k);
}

/// With unique keys, any entry with key `k` is the one found.
pub proof fn lemma_unique_lookup<V>(s: Seq<(String, V)>, i: int)
    requires
        unique_keys(s),
        0 <= i < s.len(),
    ensures
        is_first_key(s, i, s[i].0@),
        lookup(s, s[i].0@) == Some(s[i].1),
{
    lemma_lookup_at(s, i, s[i].0@);
}

/// Replacing the first entry of a key by one with the same key changes that
/// key's value and no other.
pub proof fn lemma_lookup_replace<V>(s: Seq<(String, V)>, i: int, e: (String, V))
    requires
        is_first_key(s, i, s[i].0@),
        e.0@ == s[i].0@,
    ensures
        lookup(s.update(i, e), e.0@) == Some(e.1),
        forall|k: Seq<char>| k != e.0@ ==> #[trigger] lookup(s.update(i, e), k) == lookup(s, k),
        unique_keys(s) ==> unique_keys(s.update(i, e)),
{
    let t = s.update(i, e);
    assert(is_first_key(t, i, e.0@));
    lemma_lookup_at(t, i, e.0@);
    assert forall|k: Seq<char>| k != e.0@ implies #[trigger] lookup(t, k) == lookup(s, k) by {
        if has_key(s, k) {
            lemma_has_key_first(s, k);
            let f = choose|f: int| is_first_key(s, f, k);
            assert(f != i);
            assert(is_first_key(t, f, k));
            lemma_lookup_at(s, f, k);
            lemma_lookup_at(t, f, k);
        } else {
            assert(!has_key(t, k));
        }
    }
}

/// Appending an entry for a new key gives it that value and changes no
/// other key.
pub proof fn lemma_lookup_push<V>(s: Seq<(String, V)>, e: (String, V))
    requires
        !has_key(s, e.0@),
    ensures
        lookup(s.push(e), e.0@) == Some(e.1),
        forall|k: Seq<char>| k != e.0@ ==> #[trigger] lookup(s.push(e), k) == lookup(s, k),
        unique_keys(s) ==> unique_keys(s.push(e)),
{
    let t = s.push(e);
    assert(is_first_key(t, s.len() as int, e.0@));
    lemma_lookup_at(t, s.len() as int, e.0@);
    assert forall|k: Seq<char>| k != e.0@ implies #[trigger] lookup(t, k) == lookup(s, k) by {
        if has_key(s, k) {
            lemma_has_key_first(s, k);
            let f = choose|f: int| is_first_key(s, f, k);
            assert(is_first_key(t, f, k));
            lemma_lookup_at(s, f, k);
            lemma_lookup_at(t, f, k);
        } else {
            assert forall|j: int| 0 <= j < t.len() implies t[j].0@ != k by {
                if j < s.len() {
                    assert(t[j] == s[j]);
                }
            }
        }
    }
}

/// With unique keys, removing the entry of a key forgets that key and keeps
/// every other.
pub proof fn lemma_lookup_remove<V>(s: Seq<(String, V)>, i: int)
    requires
        unique_keys(s),
        0 <= i < s.len(),
    ensures
        !has_key(s.remove(i), s[i].0@),
        lookup(s.remove(i), s[i].0@) is None,
        forall|k: Seq<char>| k != s[i].0@ ==> #[trigger] lookup(s.remove(i), k) == lookup(s, k),
        unique_keys(s.remove(i)),
{
    let t = s.remove(i);
    let k0 = s[i].0@;
    assert forall|j: int| 0 <= j < t.len() implies t[j].0@ != k0 by {
        if j < i {
            assert(t[j] == s[j]);
        } else {
            assert(t[j] == s[j + 1]);
        }
    }
    assert forall|a: int, b: int| 0 <= a < b < t.len() implies t[a].0@ != t[b].0@ by {
        let a2 = if a < i { a } else { a + 1 };
        let b2 = if b < i { b } else { b + 1 };
        assert(t[a] == s[a2] && t[b] == s[b2]);
    }
    assert forall|k: Seq<char>| k != k0 implies #[trigger] lookup(t, k) == lookup(s, k) by {
        if has_key(s, k) {
            let j = choose|j: int| 0 <= j < s.len() && s[j].0@ == k;
            lemma_unique_lookup(s, j);
            let j2 = if j < i { j } else { j - 1 };
            assert(j != i);
            assert(t[j2] == s[j]);
            lemma_unique_lookup(t, j2);
        } else {
            assert forall|j: int| 0 <= j < t.len() implies t[j].0@ != k by {
                if j < i {
                    assert(t[j] == s[j]);
                } else {
                    assert(t[j] == s[j + 1]);
                }
            }
        }
    }
}

/// With unique keys, the lookup in a list is that of its last entry or of
/// the rest.
pub proof fn lemma_lookup_drop_last<V>(s: Seq<(String, V)>, k: Seq<char>)
    requires
        unique_keys(s),
        s.len() > 0,
    ensures
        unique_keys(s.drop_last()),
        lookup(s, k) == if s.last().0@ == k { Some(s.last().1) } else { lookup(s.drop_last(), k) },
        s.last().0@ == k ==> !has_key(s.drop_last(), k),
{
    let p = s.drop_last();
    let n = s.len() - 1;
    assert forall|a: int, b: int| 0 <= a < b < p.len() implies p[a].0@ != p[b].0@ by {
        assert(p[a] == s[a] && p[b] == s[b]);
    }
    if s.last().0@ == k {
        assert forall|j: int| 0 <= j < p.len() implies p[j].0@ != k by {
            assert(p[j] == s[j]);
        }
        lemma_unique_lookup(s, n);
    } else if has_key(p, k) {
        lemma_has_key_first(p, k);
        let f = choose|f: int| is_first_key(p, f, k);
        assert(is_first_key(s, f, k));
        lemma_lookup_at(p, f, k);
        lemma_lookup_at(s, f, k);
    } else {
        assert forall|j: int| 0 <= j < s.len() implies s[j].0@ != k by {
            if j < n {
                assert(p[j] == s[j]);
            }
        }
    }
}

/// The first entry whose key is `k`, if any.
pub fn find_key<V>(v: &Vec<(String, V)>, k: &str) -> (r: Option<usize>)
    ensures
        match r {
            Some(i) => is_first_key(v@, i as int, k@) && lookup(v@, k@) == Some(v@[i as int].1),
            None => !has_key(v@, k@) && lookup(v@, k@) is None,
        },
{
    let n = v.len();
    let mut i: usize = 0;
    while i < n
        invariant
            n == v@.len(),
            i <= n,
            forall|j: int| 0 <= j < i ==> v@[j].0@ != k@,
        decreases n - i,
    {
        if str_eq(v[i].0.as_str(), k) {
            proof {
                lemma_lookup_at(v@, i as int, k@);
            }
            return Some(i);
        }
        i = i + 1;
    }
    None
}

/// Sets the value of key `k`, replacing its first entry or appending one.
pub fn insert<V>(v: &mut Vec<(String, V)>, k: String, val: V)
    ensures
        lookup(final(v)@, k@) == Some(val),
        forall|k2: Seq<char>| k2 != k@ ==> #[trigger] lookup(final(v)@, k2) == lookup(old(v)@, k2),
        unique_keys(old(v)@) ==> unique_keys(final(v)@),
        has_key(old(v)@, k@) ==> keys_of(final(v)@) == keys_of(old(v)@),
        !has_key(old(v)@, k@) ==> final(v)@ == old(v)@.push((k, val)),
{
    match find_key(v, k.as_str()) {
        Some(i) => {
            proof {
                lemma_lookup_replace(v@, i as int, (k, val));
                assert(keys_of(v@.update(i as int, (k, val))) =~= keys_of(v@));
            }
            v.set(i, (k, val));
        },
        None => {
            proof {
                lemma_lookup_push(v@, (k, val));
            }
            v.push((k, val));
        },
    }
}

} // verus!
