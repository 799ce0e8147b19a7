//! Small tables keyed by text, kept in a `Vec` of pairs. The first entry of a
//! key is the one that counts; updates rewrite it in place.
use vstd::prelude::*;

use crate::text::same_text;

verus! {

pub open spec fn has_key<V>(v: Seq<(String, V)>, k: Seq<char>) -> bool {
    exists|i: int| 0 <= i < v.len() && v[i].0@ == k
}

pub open spec fn is_first_key<V>(v: Seq<(String, V)>, k: Seq<char>, i: int) -> bool {
    &&& 0 <= i < v.len()
    &&& v[i].0@ == k
    &&& forall|j: int| 0 <= j < i ==> v[j].0@ != k
}

pub open spec fn key_index<V>(v: Seq<(String, V)>, k: Seq<char>) -> int {
    choose|i: int| is_first_key(v, k, i)
}

/// The table as a map: the first entry of each key counts.
pub open spec fn key_map<V>(v: Seq<(String, V)>) -> Map<Seq<char>, V> {
    Map::new(|k: Seq<char>| has_key(v, k), |k: Seq<char>| v[key_index(v, k)].1)
}

pub proof fn lemma_first_key_exists<V>(v: Seq<(String, V)>, k: Seq<char>)
    requires
        has_key(v, k),
    ensures
        is_first_key(v, k, key_index(v, k)),
    decreases v.len(),
{
    if v[0].0@ == k {
        assert(is_first_key(v, k, 0));
    } else {
        let m = choose|m: int| 0 <= m < v.len() && v[m].0@ == k;
        assert(has_key(v.drop_first(), k)) by {
            assert(v.drop_first()[m - 1] == v[m]);
        }
        lemma_first_key_exists(v.drop_first(), k);
        let j = key_index(v.drop_first(), k);
        assert(is_first_key(v, k, j + 1)) by {
            assert forall|a: int| 0 <= a < j + 1 implies v[a].0@ != k by {
                if a > 0 {
                    assert(v[a] == v.drop_first()[a - 1]);
                }
            }
        }
    }
}

pub proof fn lemma_key_index<V>(v: Seq<(String, V)>, k: Seq<char>, i: int)
    requires
        is_first_key(v, k, i),
    ensures
        key_index(v, k) == i,
        key_map(v).contains_key(k),
        key_map(v)[k] == v[i].1,
{
    assert(has_key(v, k));
    lemma_first_key_exists(v, k);
    let c = key_index(v, k);
    if c < i {
        assert(v[c].0@ != k);
    } else if c > i {
        assert(v[i].0@ != k);
    }
}

pub proof fn lemma_key_map_set<V>(v: Seq<(String, V)>, i: int, e: (String, V))
    requires
        is_first_key(v, e.0@, i),
    ensures
        key_map(v.update(i, e)) == key_map(v).insert(e.0@, e.1),
{
    let w = v.update(i, e);
    assert forall|k: Seq<char>| #[trigger] has_key(w, k) == has_key(v, k) by {
        if has_key(w, k) {
            let j = choose|j: int| 0 <= j < w.len() && w[j].0@ == k;
            assert(v[j].0@ == k);
        }
        if has_key(v, k) {
            let j = choose|j: int| 0 <= j < v.len() && v[j].0@ == k;
            assert(w[j].0@ == k);
        }
    }
    assert forall|k: Seq<char>| key_map(w).contains_key(k) implies key_map(w)[k]
        == key_map(v).insert(e.0@, e.1)[k] by {
        lemma_first_key_exists(v, k);
        let j = key_index(v, k);
        assert(is_first_key(w, k, j));
        lemma_key_index(w, k, j);
        lemma_key_index(v, k, j);
    }
    lemma_key_index(v, e.0@, i);
    assert(key_map(w) =~= key_map(v).insert(e.0@, e.1));
}

pub proof fn lemma_key_map_push<V>(v: Seq<(String, V)>, e: (String, V))
    requires
        !has_key(v, e.0@),
    ensures
        key_map(v.push(e)) == key_map(v).insert(e.0@, e.1),
{
    let w = v.push(e);
    let n = v.len() as int;
    assert forall|k: Seq<char>| key_map(w).contains_key(k) <==> key_map(v).insert(
        e.0@,
        e.1,
    ).contains_key(k) by {
        if has_key(w, k) && k != e.0@ {
            let j = choose|j: int| 0 <= j < w.len() && w[j].0@ == k;
            assert(j < n);
            assert(v[j].0@ == k);
        }
        if has_key(v, k) {
            let j = choose|j: int| 0 <= j < v.len() && v[j].0@ == k;
            assert(w[j].0@ == k);
        }
        if k == e.0@ {
            assert(w[n].0@ == k);
        }
    }
    assert forall|k: Seq<char>| key_map(w).contains_key(k) implies key_map(w)[k]
        == key_map(v).insert(e.0@, e.1)[k] by {
        if k != e.0@ {
            lemma_first_key_exists(v, k);
            let j = key_index(v, k);
            assert(is_first_key(w, k, j));
            lemma_key_index(w, k, j);
            lemma_key_index(v, k, j);
        } else {
            assert(is_first_key(w, k, n));
            lemma_key_index(w, k, n);
        }
    }
    assert(key_map(w) =~= key_map(v).insert(e.0@, e.1));
}

/// Position of the first entry with the given key.
pub fn find_key<V>(v: &Vec<(String, V)>, key: &str) -> (r: Option<usize>)
    ensures
        match r {
            Some(i) => is_first_key(v@, key@, i as int),
            None => !has_key(v@, key@),
        },
{
    let mut i: usize = 0;
    while i < v.len()
        invariant
            0 <= i <= v.len(),
            forall|j: int| 0 <= j < i ==> v@[j].0@ != key@,
        decreases v.len() - i,
    {
        if same_text(v[i].0.as_str(), key) {
            return Some(i);
        }
        i = i + 1;
    }
    None
}

/// Sets `key` to `value`: the first entry of the key is rewritten, or a new
/// entry is appended.
pub fn set_key<V>(v: &mut Vec<(String, V)>, key: String, value: V)
    ensures
        key_map(final(v)@) == key_map(old(v)@).insert(key@, value),
{
    match find_key(v, key.as_str()) {
        Some(i) => {
            let ghost before = v@;
            let entry = (key, value);
            proof {
                lemma_key_map_set(before, i as int, entry);
            }
            v.set(i, entry);
        },
        None => {
            let ghost before = v@;
            let entry = (key, value);
            proof {
                lemma_key_map_push(before, entry);
            }
            v.push(entry);
        },
    }
}

} // verus!
