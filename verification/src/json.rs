//! The document tree: a dynamically typed JSON-like node, together with its
//! mathematical model and the object (mapping) operations the engine needs.
//!
//! A mapping is a vector of key/value pairs in insertion order. Lookup,
//! replacement and removal act on the first pair whose key matches; a
//! well-formed document (see [`wf_json`]) has no duplicate keys, so the first
//! match is the only one.

use vstd::prelude::*;

verus! {

/// A JSON document node. Numbers are carried opaquely as their decimal
/// rendering: the engine never reads a numeric value, it only moves or
/// deletes whole nodes.
#[derive(Debug, PartialEq, Eq)]
pub enum Json {
    Null,
    Bool(bool),
    Num(String),
    Str(String),
    Arr(Vec<Json>),
    Obj(Vec<(String, Json)>),
}

/// The mathematical model of a [`Json`] node.
#[verifier::ext_equal]
pub enum JsonV {
    Null,
    Bool(bool),
    Num(Seq<char>),
    Str(Seq<char>),
    Arr(Seq<JsonV>),
    Obj(Seq<(Seq<char>, JsonV)>),
}

/// The model of an exec node.
pub open spec fn jv(j: Json) -> JsonV
    decreases j,
{
    match j {
        Json::Null => JsonV::Null,
        Json::Bool(b) => JsonV::Bool(b),
        Json::Num(s) => JsonV::Num(s@),
        Json::Str(s) => JsonV::Str(s@),
        Json::Arr(a) => JsonV::Arr(jv_elems(a@)),
        Json::Obj(m) => JsonV::Obj(jv_pairs(m@)),
    }
}

/// The models of the elements of an array, in order.
pub open spec fn jv_elems(s: Seq<Json>) -> Seq<JsonV>
    decreases s,
{
    if s.len() == 0 {
        Seq::empty()
    } else {
        seq![jv(s[0])] + jv_elems(s.drop_first())
    }
}

/// The models of the entries of a mapping, in order.
pub open spec fn jv_pairs(s: Seq<(String, Json)>) -> Seq<(Seq<char>, JsonV)>
    decreases s,
{
    if s.len() == 0 {
        Seq::empty()
    } else {
        seq![(s[0].0@, jv(s[0].1))] + jv_pairs(s.drop_first())
    }
}

/// Pointwise reading of [`jv_elems`].
pub proof fn lemma_jv_elems(s: Seq<Json>)
    ensures
        jv_elems(s).len() == s.len(),
        forall|i: int| 0 <= i < s.len() ==> jv_elems(s)[i] == jv(s[i]),
    decreases s.len(),
{
    if s.len() > 0 {
        lemma_jv_elems(s.drop_first());
    }
}

/// Pointwise reading of [`jv_pairs`].
pub proof fn lemma_jv_pairs(s: Seq<(String, Json)>)
    ensures
        jv_pairs(s).len() == s.len(),
        forall|i: int| 0 <= i < s.len() ==> jv_pairs(s)[i] == (s[i].0@, jv(s[i].1)),
    decreases s.len(),
{
    if s.len() > 0 {
        lemma_jv_pairs(s.drop_first());
    }
}

/// The index of the first entry whose key is `k`, `-1` if there is none.
/// Lookup, replacement and removal all act on that entry.
pub open spec fn key_idx(m: Seq<(Seq<char>, JsonV)>, k: Seq<char>) -> int
    decreases m.len(),
{
    if m.len() == 0 {
        -1
    } else if m[0].0 == k {
        0
    } else if key_idx(m.drop_first(), k) == -1 {
        -1
    } else {
        key_idx(m.drop_first(), k) + 1
    }
}

/// Whether the mapping has an entry with key `k`.
pub open spec fn has_key(m: Seq<(Seq<char>, JsonV)>, k: Seq<char>) -> bool {
    key_idx(m, k) != -1
}

/// The value of the first entry with key `k`; meaningful when `has_key`.
pub open spec fn get_key(m: Seq<(Seq<char>, JsonV)>, k: Seq<char>) -> JsonV {
    m[key_idx(m, k)].1
}

/// The mapping with the first `k` entry removed; unchanged if there is none.
pub open spec fn remove_key(m: Seq<(Seq<char>, JsonV)>, k: Seq<char>) -> Seq<
    (Seq<char>, JsonV),
> {
    if has_key(m, k) {
        m.remove(key_idx(m, k))
    } else {
        m
    }
}

/// The mapping with the value of the first `k` entry replaced by `v`;
/// unchanged if there is none.
pub open spec fn set_key(m: Seq<(Seq<char>, JsonV)>, k: Seq<char>, v: JsonV) -> Seq<
    (Seq<char>, JsonV),
> {
    if has_key(m, k) {
        m.update(key_idx(m, k), (k, v))
    } else {
        m
    }
}

/// What [`key_idx`] finds: the first entry with the given key, or the fact
/// that no entry has it.
pub proof fn lemma_key_idx(m: Seq<(Seq<char>, JsonV)>, k: Seq<char>)
    ensures
        key_idx(m, k) == -1 ==> (forall|i: int| 0 <= i < m.len() ==> m[i].0 != k),
        key_idx(m, k) != -1 ==> {
            &&& 0 <= key_idx(m, k) < m.len()
            &&& m[key_idx(m, k)].0 == k
            &&& (forall|i: int| 0 <= i < key_idx(m, k) ==> m[i].0 != k)
        },
    decreases m.len(),
{
    if m.len() > 0 && m[0].0 != k {
        let mt = m.drop_first();
        lemma_key_idx(mt, k);
        if key_idx(m, k) == -1 {
            assert forall|i: int| 0 <= i < m.len() implies m[i].0 != k by {
                if i >= 1 {
                    assert(m[i] == mt[i - 1]);
                }
            }
        } else {
            assert(m[key_idx(m, k)] == mt[key_idx(mt, k)]);
            assert forall|i: int| 0 <= i < key_idx(m, k) implies m[i].0 != k by {
                if i >= 1 {
                    assert(m[i] == mt[i - 1]);
                }
            }
        }
    }
}

/// [`key_idx`] depends only on the sequence of keys.
pub proof fn lemma_key_idx_same_keys(
    m1: Seq<(Seq<char>, JsonV)>,
    m2: Seq<(Seq<char>, JsonV)>,
    k: Seq<char>,
)
    requires
        m1.len() == m2.len(),
        forall|i: int| 0 <= i < m1.len() ==> m1[i].0 == m2[i].0,
    ensures
        key_idx(m1, k) == key_idx(m2, k),
    decreases m1.len(),
{
    if m1.len() > 0 {
        assert(forall|i: int|
            0 <= i < m1.len() - 1 ==> (#[trigger] m1.drop_first()[i]).0 == m2.drop_first()[i].0);
        lemma_key_idx_same_keys(m1.drop_first(), m2.drop_first(), k);
    }
}

/// Removing a `p` entry does not disturb any other key.
pub proof fn lemma_remove_other(m: Seq<(Seq<char>, JsonV)>, p: Seq<char>, k: Seq<char>)
    requires
        p != k,
    ensures
        has_key(remove_key(m, p), k) == has_key(m, k),
        has_key(m, k) ==> get_key(remove_key(m, p), k) == get_key(m, k),
{
    lemma_key_idx(m, p);
    lemma_key_idx(m, k);
    if !has_key(m, p) {
    } else {
        let ri = key_idx(m, p);
        let m2 = m.remove(ri);
        lemma_key_idx(m2, k);
        assert(forall|j: int| 0 <= j < ri ==> m2[j] == m[j]);
        assert(forall|j: int| ri <= j < m2.len() ==> m2[j] == m[j + 1]);
        if !has_key(m, k) {
            if has_key(m2, k) {
                let j = key_idx(m2, k);
                if j < ri {
                    assert(m[j].0 == k);
                } else {
                    assert(m[j + 1].0 == k);
                }
            }
        } else {
            let ki = key_idx(m, k);
            assert(ki != ri);
            let ki2: int = if ki < ri {
                ki
            } else {
                ki - 1
            };
            assert(m2[ki2] == m[ki]);
            assert forall|j: int| 0 <= j < ki2 implies m2[j].0 != k by {
                if j < ri {
                    assert(m2[j] == m[j]);
                } else {
                    assert(m2[j] == m[j + 1]);
                }
            }
            let ki3 = key_idx(m2, k);
            if ki3 == -1 {
                assert(m2[ki2].0 != k);
            } else if ki3 < ki2 {
                assert(m2[ki3].0 != k);
            } else if ki3 > ki2 {
                assert(m2[ki2].0 != k);
            }
            assert(ki3 == ki2);
        }
    }
}

/// With no duplicate keys, removal leaves no entry with the removed key.
pub proof fn lemma_remove_unique(m: Seq<(Seq<char>, JsonV)>, k: Seq<char>)
    requires
        forall|i: int, l: int| 0 <= i < l < m.len() ==> (#[trigger] m[i]).0 != (#[trigger] m[l]).0,
    ensures
        !has_key(remove_key(m, k), k),
{
    lemma_key_idx(m, k);
    if has_key(m, k) {
        let ki = key_idx(m, k);
        let m2 = m.remove(ki);
        lemma_key_idx(m2, k);
        if has_key(m2, k) {
            let j = key_idx(m2, k);
            if j < ki {
                assert(m2[j] == m[j]);
                assert(m[j].0 == m[ki].0);
            } else {
                assert(m2[j] == m[j + 1]);
                assert(m[ki].0 == m[j + 1].0);
            }
        }
    }
}

/// Replacing the value at `p` does not disturb any other key.
pub proof fn lemma_set_other(m: Seq<(Seq<char>, JsonV)>, p: Seq<char>, v: JsonV, k: Seq<char>)
    requires
        p != k,
    ensures
        has_key(set_key(m, p, v), k) == has_key(m, k),
        has_key(m, k) ==> get_key(set_key(m, p, v), k) == get_key(m, k),
{
    lemma_key_idx(m, p);
    lemma_key_idx(m, k);
    if has_key(m, p) {
        let m2 = set_key(m, p, v);
        assert(forall|j: int| 0 <= j < m.len() ==> m2[j].0 == m[j].0);
        lemma_key_idx_same_keys(m2, m, k);
        if has_key(m, k) {
            assert(key_idx(m, k) != key_idx(m, p));
            assert(m2[key_idx(m, k)] == m[key_idx(m, k)]);
        }
    }
}

/// Replacing the value at `k` yields a mapping where `k` reads as the new
/// value; the keys themselves are untouched.
pub proof fn lemma_set_get(m: Seq<(Seq<char>, JsonV)>, k: Seq<char>, v: JsonV)
    ensures
        has_key(set_key(m, k, v), k) == has_key(m, k),
        has_key(m, k) ==> get_key(set_key(m, k, v), k) == v,
{
    lemma_key_idx(m, k);
    if has_key(m, k) {
        let m2 = set_key(m, k, v);
        assert(forall|j: int| 0 <= j < m.len() ==> m2[j].0 == m[j].0);
        lemma_key_idx_same_keys(m2, m, k);
    }
}

/// Replacement keeps the length and every key in place.
pub proof fn lemma_set_keys(m: Seq<(Seq<char>, JsonV)>, k: Seq<char>, v: JsonV)
    ensures
        set_key(m, k, v).len() == m.len(),
        forall|j: int| 0 <= j < m.len() ==> (#[trigger] set_key(m, k, v)[j]).0 == m[j].0,
{
    lemma_key_idx(m, k);
}

/// Writing the value a key already has changes nothing.
pub proof fn lemma_set_same_value(m: Seq<(Seq<char>, JsonV)>, k: Seq<char>)
    requires
        has_key(m, k),
    ensures
        set_key(m, k, get_key(m, k)) == m,
{
    lemma_key_idx(m, k);
    assert(m[key_idx(m, k)] == (k, get_key(m, k)));
    assert(set_key(m, k, get_key(m, k)) =~= m);
}

/// Mapping keys unique at every level: the well-formedness every notebook
/// loaded from JSON has, since a JSON object cannot repeat a key.
pub open spec fn wf_json(j: JsonV) -> bool
    decreases j,
{
    match j {
        JsonV::Arr(a) => forall|i: int| 0 <= i < a.len() ==> wf_json(#[trigger] a[i]),
        JsonV::Obj(m) => {
            &&& (forall|i: int, l: int|
                0 <= i < l < m.len() ==> (#[trigger] m[i]).0 != (#[trigger] m[l]).0)
            &&& (forall|i: int| 0 <= i < m.len() ==> wf_json((#[trigger] m[i]).1))
        },
        _ => true,
    }
}

/// The value behind a present key of a well-formed mapping node is itself
/// well-formed.
pub proof fn lemma_wf_get(j: JsonV, k: Seq<char>)
    requires
        wf_json(j),
        j is Obj,
        has_key(j->Obj_0, k),
    ensures
        wf_json(get_key(j->Obj_0, k)),
{
    let m = j->Obj_0;
    lemma_key_idx(m, k);
    let ki = key_idx(m, k);
    assert(0 <= ki < m.len() && m[ki].0 == k);
    assert(wf_json(m[ki].1));
}

/// Finds the first entry of `m` whose key equals `k`, as [`key_idx`] does.
pub fn key_index(m: &Vec<(String, Json)>, k: &String) -> (r: Option<usize>)
    ensures
        match r {
            Some(i) => key_idx(jv_pairs(m@), k@) == i as int,
            None => key_idx(jv_pairs(m@), k@) == -1,
        },
{
    proof {
        lemma_jv_pairs(m@);
        lemma_key_idx(jv_pairs(m@), k@);
    }
    let n = m.len();
    let mut i: usize = 0;
    while i < n
        invariant
            n == m.len(),
            i <= n,
            forall|l: int| 0 <= l < i ==> jv_pairs(m@)[l].0 != k@,
            jv_pairs(m@).len() == m@.len(),
            forall|l: int| 0 <= l < m@.len() ==> jv_pairs(m@)[l] == (m@[l].0@, jv(m@[l].1)),
        decreases n - i,
    {
        let p = &m[i];
        if p.0 == *k {
            proof {
                let pv = jv_pairs(m@);
                lemma_key_idx(pv, k@);
                assert(pv[i as int].0 == k@);
                if key_idx(pv, k@) != i as int {
                    let ki = key_idx(pv, k@);
                    if 0 <= ki < i as int {
                        assert(pv[ki].0 != k@);
                    } else if ki > i as int {
                        assert(pv[i as int].0 != k@);
                    }
                }
            }
            return Some(i);
        }
        i += 1;
    }
    proof {
        lemma_key_idx(jv_pairs(m@), k@);
    }
    None
}

/// Whether the mapping has an entry with key `k`.
pub fn obj_has(m: &Vec<(String, Json)>, k: &String) -> (r: bool)
    ensures
        r == has_key(jv_pairs(m@), k@),
{
    key_index(m, k).is_some()
}

/// A borrow of the value of the first entry with key `k`.
pub fn obj_get<'a>(m: &'a Vec<(String, Json)>, k: &String) -> (r: Option<&'a Json>)
    ensures
        match r {
            Some(v) => has_key(jv_pairs(m@), k@) && v@ == get_key(jv_pairs(m@), k@),
            None => !has_key(jv_pairs(m@), k@),
        },
{
    match key_index(m, k) {
        Some(i) => {
            proof {
                lemma_jv_pairs(m@);
                lemma_key_idx(jv_pairs(m@), k@);
            }
            Some(&m[i].1)
        },
        None => None,
    }
}

/// Removes the first entry with key `k`; reports whether one was there.
pub fn obj_remove(m: &mut Vec<(String, Json)>, k: &String) -> (r: bool)
    ensures
        r == has_key(jv_pairs(old(m)@), k@),
        jv_pairs(final(m)@) == remove_key(jv_pairs(old(m)@), k@),
{
    match key_index(m, k) {
        Some(i) => {
            proof {
                lemma_jv_pairs(m@);
                lemma_key_idx(jv_pairs(m@), k@);
            }
            let ghost before = m@;
            m.remove(i);
            proof {
                lemma_jv_pairs(m@);
                assert(jv_pairs(m@) =~= jv_pairs(before).remove(i as int));
            }
            true
        },
        None => false,
    }
}

/// Replaces the value of the first entry with key `k`, if one is there,
/// handing the old value out; the mapping's keys and order are untouched.
pub fn obj_set(m: &mut Vec<(String, Json)>, k: &String, v: Json) -> (r: Option<Json>)
    ensures
        jv_pairs(final(m)@) == set_key(jv_pairs(old(m)@), k@, v@),
        match r {
            Some(w) => has_key(jv_pairs(old(m)@), k@) && w@ == get_key(jv_pairs(old(m)@), k@),
            None => !has_key(jv_pairs(old(m)@), k@),
        },
{
    match key_index(m, k) {
        Some(i) => {
            proof {
                lemma_jv_pairs(m@);
                lemma_key_idx(jv_pairs(m@), k@);
            }
            let ghost before = m@;
            let (key, old_v) = m.remove(i);
            m.insert(i, (key, v));
            proof {
                lemma_jv_pairs(m@);
                assert(jv_pairs(m@) =~= set_key(jv_pairs(before), k@, v@));
            }
            Some(old_v)
        },
        None => None,
    }
}

impl View for Json {
    type V = JsonV;

    open spec fn view(&self) -> JsonV {
        jv(*self)
    }
}

} // verus!
