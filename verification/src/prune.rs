//! Removal of a value addressed by a dotted key path from a mapping.
//!
//! A path `"a.b.c"` first tries the literal key `"a.b.c"`; only when that key
//! is absent does it split at the first `.` and descend into `"a"` with the
//! rest. The literal match always wins, so an operator can target either a
//! key that itself contains dots or a nested field.

use vstd::prelude::*;

use crate::json::{
    jv, jv_pairs, has_key, get_key, remove_key, set_key, key_idx, lemma_jv_pairs, lemma_key_idx,
    key_index, obj_remove, Json, JsonV,
};
use vstd::string::StrSliceExecFns;

verus! {

/// The index of the first `.` in the path, `-1` if there is none.
pub open spec fn dot_idx(p: Seq<char>) -> int
    decreases p.len(),
{
    if p.len() == 0 {
        -1
    } else if p[0] == '.' {
        0
    } else if dot_idx(p.drop_first()) == -1 {
        -1
    } else {
        dot_idx(p.drop_first()) + 1
    }
}

/// The part of the path before its first `.`; meaningful when it has one.
pub open spec fn head_of(p: Seq<char>) -> Seq<char> {
    p.subrange(0, dot_idx(p))
}

/// The part of the path after its first `.`; meaningful when it has one.
pub open spec fn tail_of(p: Seq<char>) -> Seq<char> {
    p.subrange(dot_idx(p) + 1, p.len() as int)
}

/// What [`dot_idx`] finds: the first `.`, or the fact that there is none.
pub proof fn lemma_dot_idx(p: Seq<char>)
    ensures
        dot_idx(p) == -1 ==> (forall|i: int| 0 <= i < p.len() ==> p[i] != '.'),
        dot_idx(p) != -1 ==> {
            &&& 0 <= dot_idx(p) < p.len()
            &&& p[dot_idx(p)] == '.'
            &&& (forall|i: int| 0 <= i < dot_idx(p) ==> p[i] != '.')
        },
    decreases p.len(),
{
    if p.len() > 0 && p[0] != '.' {
        let pt = p.drop_first();
        lemma_dot_idx(pt);
        if dot_idx(p) == -1 {
            assert forall|i: int| 0 <= i < p.len() implies p[i] != '.' by {
                if i >= 1 {
                    assert(p[i] == pt[i - 1]);
                }
            }
        } else {
            assert(p[dot_idx(p)] == pt[dot_idx(pt)]);
            assert forall|i: int| 0 <= i < dot_idx(p) implies p[i] != '.' by {
                if i >= 1 {
                    assert(p[i] == pt[i - 1]);
                }
            }
        }
    }
}

/// What pruning a node with a dotted path leaves behind, and whether a value
/// was removed: the flat key wins; otherwise the path is split at its first
/// `.` and pruning descends; a non-mapping node is left alone.
pub open spec fn prune_s(j: JsonV, p: Seq<char>) -> (JsonV, bool)
    decreases p.len(),
    via prune_s_dec
{
    match j {
        JsonV::Obj(m) => {
            if has_key(m, p) {
                (JsonV::Obj(remove_key(m, p)), true)
            } else if dot_idx(p) != -1 && has_key(m, head_of(p)) {
                let (child, removed) = prune_s(get_key(m, head_of(p)), tail_of(p));
                (JsonV::Obj(set_key(m, head_of(p), child)), removed)
            } else {
                (JsonV::Obj(m), false)
            }
        },
        _ => (j, false),
    }
}

#[via_fn]
proof fn prune_s_dec(j: JsonV, p: Seq<char>) {
    lemma_dot_idx(p);
}

/// Whether the dotted path addresses a value of `j`, resolved as pruning
/// resolves it: the literal key first, then descent at the first `.`.
pub open spec fn path_present(j: JsonV, p: Seq<char>) -> bool
    decreases p.len(),
    via path_present_dec
{
    match j {
        JsonV::Obj(m) => has_key(m, p) || (dot_idx(p) != -1 && has_key(m, head_of(p))
            && path_present(get_key(m, head_of(p)), tail_of(p))),
        _ => false,
    }
}

#[via_fn]
proof fn path_present_dec(j: JsonV, p: Seq<char>) {
    lemma_dot_idx(p);
}

/// Law: pruning reports a removal exactly when the path addresses a value,
/// and for a path addressing nothing it is a no-op — the node comes back
/// unchanged and the report is `false`.
pub proof fn lemma_prune_absent_noop(j: JsonV, p: Seq<char>)
    ensures
        prune_s(j, p).1 == path_present(j, p),
        !path_present(j, p) ==> prune_s(j, p).0 == j,
    decreases p.len(),
{
    lemma_dot_idx(p);
    match j {
        JsonV::Obj(m) => {
            if !has_key(m, p) && dot_idx(p) != -1 && has_key(m, head_of(p)) {
                let h = head_of(p);
                lemma_key_idx(m, h);
                lemma_prune_absent_noop(get_key(m, h), tail_of(p));
                if !path_present(j, p) {
                    let child = prune_s(get_key(m, h), tail_of(p)).0;
                    assert(m[key_idx(m, h)] == (h, child));
                    assert(set_key(m, h, child) =~= m);
                }
            }
        },
        _ => {},
    }
}

/// Splits the path at its first `.` into head and tail, or reports that it
/// has none.
pub fn split_first_dot(p: &String) -> (r: Option<(String, String)>)
    ensures
        match r {
            Some(ht) => dot_idx(p@) != -1 && ht.0@ == head_of(p@) && ht.1@ == tail_of(p@),
            None => dot_idx(p@) == -1,
        },
{
    proof {
        lemma_dot_idx(p@);
    }
    let s = p.as_str();
    let n = s.unicode_len();
    let mut i: usize = 0;
    while i < n
        invariant
            n == p@.len(),
            i <= n,
            s@ == p@,
            forall|l: int| 0 <= l < i ==> p@[l] != '.',
        decreases n - i,
    {
        if s.get_char(i) == '.' {
            proof {
                lemma_dot_idx(p@);
                if dot_idx(p@) == -1 {
                    assert(p@[i as int] != '.');
                } else if dot_idx(p@) < i as int {
                    assert(p@[dot_idx(p@)] != '.');
                } else if dot_idx(p@) > i as int {
                    assert(p@[i as int] != '.');
                }
                assert(dot_idx(p@) == i as int);
            }
            let head = s.substring_char(0, i).to_owned();
            let tail = s.substring_char(i + 1, n).to_owned();
            return Some((head, tail));
        }
        i += 1;
    }
    proof {
        lemma_dot_idx(p@);
        if dot_idx(p@) != -1 {
            assert(p@[dot_idx(p@)] != '.');
        }
    }
    None
}

/// Removes the value addressed by the dotted path `key` from `node`, the
/// literal key taking precedence over nested descent; reports whether a
/// value was removed. A node that is not a mapping is left alone.
pub fn pop_recursive(node: &mut Json, key: &String) -> (removed: bool)
    ensures
        final(node)@ == prune_s(old(node)@, key@).0,
        removed == prune_s(old(node)@, key@).1,
{
    let mut cur = Json::Null;
    core::mem::swap(node, &mut cur);
    let (out, removed) = prune_owned(cur, key);
    *node = out;
    removed
}

fn prune_owned(j: Json, key: &String) -> (r: (Json, bool))
    ensures
        r.0@ == prune_s(j@, key@).0,
        r.1 == prune_s(j@, key@).1,
    decreases key@.len(),
{
    match j {
        Json::Obj(mut m) => {
            let ghost m0 = m@;
            if obj_remove(&mut m, key) {
                return (Json::Obj(m), true);
            }
            match split_first_dot(key) {
                None => (Json::Obj(m), false),
                Some((head, tail)) => {
                    match key_index(&m, &head) {
                        None => {
                            proof {
                                lemma_key_idx(jv_pairs(m@), head@);
                            }
                            (Json::Obj(m), false)
                        },
                        Some(i) => {
                            proof {
                                lemma_jv_pairs(m@);
                                lemma_key_idx(jv_pairs(m@), head@);
                                lemma_dot_idx(key@);
                            }
                            let ghost before = m@;
                            let (ck, cv) = m.remove(i);
                            let (cv2, removed) = prune_owned(cv, &tail);
                            m.insert(i, (ck, cv2));
                            proof {
                                lemma_jv_pairs(before);
                                lemma_jv_pairs(m@);
                                assert(jv_pairs(m@) =~= set_key(
                                    jv_pairs(before),
                                    head@,
                                    cv2@,
                                ));
                            }
                            (Json::Obj(m), removed)
                        },
                    }
                },
            }
        },
        other => (other, false),
    }
}

} // verus!
