//! Maps held as vectors of pairs with distinct keys.

use vstd::prelude::*;

verus! {

/// Whether no two pairs of `s` have keys with the same text.
pub open spec fn keys_distinct<K: View, V>(s: Seq<(K, V)>) -> bool {
    forall|i: int, j: int|
        0 <= i < s.len() && 0 <= j < s.len() && i != j ==> (#[trigger] s[i].0)@ != (#[trigger] s[j].0)@
}

/// The map that a vector of pairs stands for: each key's text to its value's view.
pub open spec fn pairs_map<K: View, V: View>(s: Seq<(K, V)>) -> Map<K::V, V::V>
    decreases s.len(),
{
    if s.len() == 0 {
        Map::empty()
    } else {
        pairs_map(s.drop_last()).insert(s.last().0@, s.last().1@)
    }
}

/// The keys of `pairs_map(s)` are exactly the keys in `s`.
pub proof fn lemma_pairs_map_dom<K: View, V: View>(s: Seq<(K, V)>, k: K::V)
    ensures
        pairs_map(s).contains_key(k) <==> exists|i: int| 0 <= i < s.len() && (#[trigger] s[i].0)@ == k,
    decreases s.len(),
{
    if s.len() > 0 {
        let t = s.drop_last();
        lemma_pairs_map_dom(t, k);
        if pairs_map(s).contains_key(k) {
            if k != s.last().0@ {
                let i = choose|i: int| 0 <= i < t.len() && (#[trigger] t[i].0)@ == k;
                assert(s[i] == t[i]);
            } else {
                assert(s[s.len() - 1].0@ == k);
            }
        }
        if exists|i: int| 0 <= i < s.len() && (#[trigger] s[i].0)@ == k {
            let i = choose|i: int| 0 <= i < s.len() && (#[trigger] s[i].0)@ == k;
            if i < s.len() - 1 {
                assert(t[i] == s[i]);
            }
        }
    }
}

/// With distinct keys, the pair at `i` gives the value of its key.
pub proof fn lemma_pairs_map_at<K: View, V: View>(s: Seq<(K, V)>, i: int)
    requires
        keys_distinct(s),
        0 <= i < s.len(),
    ensures
        pairs_map(s).contains_key(s[i].0@),
        pairs_map(s)[s[i].0@] == s[i].1@,
    decreases s.len(),
{
    let t = s.drop_last();
    if i < s.len() - 1 {
        assert(t[i] == s[i]);
        assert(keys_distinct(t)) by {
            assert forall|a: int, b: int|
                0 <= a < t.len() && 0 <= b < t.len() && a != b implies (#[trigger] t[a].0)@ != (#[trigger] t[b].0)@ by {
                assert(t[a] == s[a] && t[b] == s[b]);
            }
        }
        lemma_pairs_map_at(t, i);
        assert(s[i].0@ != s[s.len() - 1].0@);
    }
}

/// Replacing the value at `i`, key kept, replaces that key's value in the map.
pub proof fn lemma_pairs_map_update<K: View, V: View>(s: Seq<(K, V)>, i: int, p: (K, V))
    requires
        keys_distinct(s),
        0 <= i < s.len(),
        p.0@ == s[i].0@,
    ensures
        keys_distinct(s.update(i, p)),
        pairs_map(s.update(i, p)) == pairs_map(s).insert(p.0@, p.1@),
    decreases s.len(),
{
    let u = s.update(i, p);
    assert(keys_distinct(u)) by {
        assert forall|a: int, b: int|
            0 <= a < u.len() && 0 <= b < u.len() && a != b implies (#[trigger] u[a].0)@ != (#[trigger] u[b].0)@ by {
            assert(u[a].0@ == s[a].0@ && u[b].0@ == s[b].0@);
        }
    }
    let t = s.drop_last();
    if i == s.len() - 1 {
        assert(u.drop_last() =~= t);
        assert(pairs_map(u) =~= pairs_map(s).insert(p.0@, p.1@));
    } else {
        assert(keys_distinct(t)) by {
            assert forall|a: int, b: int|
                0 <= a < t.len() && 0 <= b < t.len() && a != b implies (#[trigger] t[a].0)@ != (#[trigger] t[b].0)@ by {
                assert(t[a] == s[a] && t[b] == s[b]);
            }
        }
        lemma_pairs_map_update(t, i, p);
        assert(u.drop_last() =~= t.update(i, p));
        assert(s[i].0@ != s[s.len() - 1].0@);
        assert(u.last() == s.last());
        assert(pairs_map(u) =~= pairs_map(s).insert(p.0@, p.1@));
    }
}

/// Appending a pair whose key is new inserts it into the map.
pub proof fn lemma_pairs_map_push<K: View, V: View>(s: Seq<(K, V)>, p: (K, V))
    requires
        keys_distinct(s),
        !pairs_map(s).contains_key(p.0@),
    ensures
        keys_distinct(s.push(p)),
        pairs_map(s.push(p)) == pairs_map(s).insert(p.0@, p.1@),
{
    let u = s.push(p);
    assert(u.drop_last() =~= s);
    assert(keys_distinct(u)) by {
        assert forall|a: int, b: int|
            0 <= a < u.len() && 0 <= b < u.len() && a != b implies (#[trigger] u[a].0)@ != (#[trigger] u[b].0)@ by {
            if a < s.len() && b < s.len() {
                assert(u[a] == s[a] && u[b] == s[b]);
            } else if a < s.len() {
                assert(u[a] == s[a]);
                lemma_pairs_map_dom(s, u[a].0@);
            } else {
                assert(u[b] == s[b]);
                lemma_pairs_map_dom(s, u[b].0@);
            }
        }
    }
}

/// Removing the pair at `i` removes its key from the map.
pub proof fn lemma_pairs_map_remove<K: View, V: View>(s: Seq<(K, V)>, i: int)
    requires
        keys_distinct(s),
        0 <= i < s.len(),
    ensures
        keys_distinct(s.remove(i)),
        pairs_map(s.remove(i)) == pairs_map(s).remove(s[i].0@),
    decreases s.len(),
{
    let u = s.remove(i);
    assert(keys_distinct(u)) by {
        assert forall|a: int, b: int|
            0 <= a < u.len() && 0 <= b < u.len() && a != b implies (#[trigger] u[a].0)@ != (#[trigger] u[b].0)@ by {
            let sa = if a < i { a } else { a + 1 };
            let sb = if b < i { b } else { b + 1 };
            assert(u[a] == s[sa] && u[b] == s[sb]);
        }
    }
    let t = s.drop_last();
    assert(keys_distinct(t)) by {
        assert forall|a: int, b: int|
            0 <= a < t.len() && 0 <= b < t.len() && a != b implies (#[trigger] t[a].0)@ != (#[trigger] t[b].0)@ by {
            assert(t[a] == s[a] && t[b] == s[b]);
        }
    }
    if i == s.len() - 1 {
        assert(u =~= t);
        lemma_pairs_map_dom(t, s[i].0@);
        if pairs_map(t).contains_key(s[i].0@) {
            let j = choose|j: int| 0 <= j < t.len() && (#[trigger] t[j].0)@ == s[i].0@;
            assert(t[j] == s[j]);
        }
        assert(pairs_map(u) =~= pairs_map(s).remove(s[i].0@));
    } else {
        lemma_pairs_map_remove(t, i);
        assert(u.drop_last() =~= t.remove(i));
        assert(u.last() == s.last());
        assert(t[i] == s[i]);
        assert(s[i].0@ != s[s.len() - 1].0@);
        assert(pairs_map(u) =~= pairs_map(s).remove(s[i].0@));
    }
}

/// The position of the pair whose key has the text of `k`, if any.
pub fn find_key<V>(pairs: &Vec<(String, V)>, k: &str) -> (r: Option<usize>)
    ensures
        match r {
            Some(i) => i < pairs@.len() && pairs@[i as int].0@ == k@,
            None => forall|i: int| 0 <= i < pairs@.len() ==> (#[trigger] pairs@[i].0)@ != k@,
        },
{
    let mut i: usize = 0;
    while i < pairs.len()
        invariant
            i <= pairs@.len(),
            forall|j: int| 0 <= j < i ==> (#[trigger] pairs@[j].0)@ != k@,
        decreases pairs@.len() - i,
    {
        if str_eq(pairs[i].0.as_str(), k) {
            return Some(i);
        }
        i = i + 1;
    }
    None
}

/// The position of the pair whose key is `k`, if any.
pub fn find_id<V>(pairs: &Vec<(u32, V)>, k: u32) -> (r: Option<usize>)
    ensures
        match r {
            Some(i) => i < pairs@.len() && pairs@[i as int].0 == k,
            None => forall|i: int| 0 <= i < pairs@.len() ==> (#[trigger] pairs@[i].0) != k,
        },
{
    let mut i: usize = 0;
    while i < pairs.len()
        invariant
            i <= pairs@.len(),
            forall|j: int| 0 <= j < i ==> (#[trigger] pairs@[j].0) != k,
        decreases pairs@.len() - i,
    {
        if pairs[i].0 == k {
            return Some(i);
        }
        i = i + 1;
    }
    None
}

/// Whether the text `s` is one of `v`.
pub fn contains_text(v: &Vec<String>, s: &str) -> (r: bool)
    ensures
        r == texts(v@).contains(s@),
{
    let mut i: usize = 0;
    while i < v.len()
        invariant
            i <= v@.len(),
            forall|j: int| 0 <= j < i ==> (#[trigger] v@[j])@ != s@,
        decreases v@.len() - i,
    {
        if str_eq(v[i].as_str(), s) {
            assert(texts(v@)[i as int] == s@);
            return true;
        }
        i = i + 1;
    }
    proof {
        if texts(v@).contains(s@) {
            let j = choose|j: int| 0 <= j < texts(v@).len() && texts(v@)[j] == s@;
            assert(v@[j]@ == s@);
        }
    }
    false
}

/// Whether two strings have the same characters.
pub fn str_eq(a: &str, b: &str) -> (r: bool)
    ensures
        r == (a@ == b@),
{
    let n = a.unicode_len();
    let m = b.unicode_len();
    if n != m {
        return false;
    }
    let mut i: usize = 0;
    while i < n
        invariant
            n == a@.len(),
            m == b@.len(),
            n == m,
            i <= n,
            a@.subrange(0, i as int) == b@.subrange(0, i as int),
        decreases n - i,
    {
        if a.get_char(i) != b.get_char(i) {
            return false;
        }
        assert(a@.subrange(0, i + 1) =~= a@.subrange(0, i as int).push(a@[i as int]));
        assert(b@.subrange(0, i + 1) =~= b@.subrange(0, i as int).push(b@[i as int]));
        i = i + 1;
    }
    assert(a@ =~= a@.subrange(0, n as int));
    assert(b@ =~= b@.subrange(0, n as int));
    true
}

/// The texts of a sequence of strings.
pub open spec fn texts(v: Seq<String>) -> Seq<Seq<char>> {
    v.map_values(|s: String| s@)
}

/// A copy of a string.
pub fn copy_string(s: &String) -> (r: String)
    ensures
        r@ == s@,
{
    s.clone()
}

/// A copy of a vector of strings.
pub fn copy_strings(v: &Vec<String>) -> (r: Vec<String>)
    ensures
        texts(r@) == texts(v@),
{
    let mut r: Vec<String> = Vec::new();
    let mut i: usize = 0;
    while i < v.len()
        invariant
            i <= v@.len(),
            r@.len() == i,
            texts(r@) == texts(v@).subrange(0, i as int),
        decreases v@.len() - i,
    {
        let ghost before = r@;
        let c = copy_string(&v[i]);
        r.push(c);
        assert forall|j: int| 0 <= j < i + 1 implies #[trigger] texts(r@)[j] == texts(v@)[j] by {
            if j < i {
                assert(r@[j] == before[j]);
                assert(texts(before)[j] == texts(v@).subrange(0, i as int)[j]);
            }
        }
        assert(texts(r@) =~= texts(v@).subrange(0, i + 1));
        i = i + 1;
    }
    assert(texts(v@) =~= texts(v@).subrange(0, v@.len() as int));
    r
}

/// Whether two vectors of strings hold the same texts in the same order.
pub fn strings_eq(a: &Vec<String>, b: &Vec<String>) -> (r: bool)
    ensures
        r == (texts(a@) == texts(b@)),
{
    if a.len() != b.len() {
        return false;
    }
    let mut i: usize = 0;
    while i < a.len()
        invariant
            a@.len() == b@.len(),
            i <= a@.len(),
            texts(a@).subrange(0, i as int) == texts(b@).subrange(0, i as int),
        decreases a@.len() - i,
    {
        if !str_eq(a[i].as_str(), b[i].as_str()) {
            assert(texts(a@)[i as int] != texts(b@)[i as int]);
            return false;
        }
        assert(texts(a@).subrange(0, i + 1) =~= texts(a@).subrange(0, i as int).push(texts(a@)[i as int]));
        assert(texts(b@).subrange(0, i + 1) =~= texts(b@).subrange(0, i as int).push(texts(b@)[i as int]));
        i = i + 1;
    }
    assert(texts(a@) =~= texts(a@).subrange(0, a@.len() as int));
    assert(texts(b@) =~= texts(b@).subrange(0, b@.len() as int));
    true
}

} // verus!
