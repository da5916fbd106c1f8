//! Per-cell output retention: one keep/discard decision per output.
//!
//! The decision combines three signals, strongest first: a pattern match on
//! the output's rendered text forces a discard; an explicit keep signal (a
//! `keep_output` metadata key, whatever its value, or a `keep_output` tag)
//! keeps; otherwise the caller's default applies. A `keep_output = false`
//! flag together with a `keep_output` tag is contradictory data and is
//! refused rather than resolved.

use vstd::prelude::*;

use crate::error::{ErrV, StripError};
use crate::json::{
    get_key, has_key, jv, jv_elems, jv_pairs, lemma_jv_elems, lemma_jv_pairs, obj_get, obj_has,
    Json, JsonV,
};
use crate::pattern::{pattern_matches, Matcher};
use vstd::string::StringExecFns;

verus! {

/// A line of rendered output: a string counts as its text, anything else as
/// empty.
pub open spec fn line_text(v: JsonV) -> Seq<char> {
    if v is Str {
        v->Str_0
    } else {
        Seq::empty()
    }
}

/// The lines of a rendered sequence joined into one text.
pub open spec fn join_lines(a: Seq<JsonV>) -> Seq<char>
    decreases a.len(),
{
    if a.len() == 0 {
        Seq::empty()
    } else {
        line_text(a[0]) + join_lines(a.drop_first())
    }
}

/// Whether a node can render as text: a string, or a sequence of lines.
pub open spec fn renderable(v: JsonV) -> bool {
    v is Str || v is Arr
}

/// The rendered text of a renderable node.
pub open spec fn joined_s(v: JsonV) -> Seq<char> {
    match v {
        JsonV::Str(s) => s,
        JsonV::Arr(a) => join_lines(a),
        _ => Seq::empty(),
    }
}

/// The rendered text of one output mapping: `stream` renders its `text`,
/// `display_data` and `execute_result` render `data["text/plain"]`, `error`
/// renders nothing, anything else is malformed; so is a missing field or a
/// non-renderable text node.
pub open spec fn rendered_s(out: Seq<(Seq<char>, JsonV)>) -> Result<Option<Seq<char>>, ErrV> {
    if !has_key(out, "output_type"@) {
        Result::Err(ErrV::MalformedDocument)
    } else if !(get_key(out, "output_type"@) is Str) {
        Result::Err(ErrV::MalformedDocument)
    } else {
        let ot = get_key(out, "output_type"@)->Str_0;
        if ot == "stream"@ {
            if !has_key(out, "text"@) {
                Result::Err(ErrV::MalformedDocument)
            } else {
                text_of(get_key(out, "text"@))
            }
        } else if ot == "display_data"@ || ot == "execute_result"@ {
            if !has_key(out, "data"@) {
                Result::Err(ErrV::MalformedDocument)
            } else {
                let d = get_key(out, "data"@);
                if !(d is Obj) || !has_key(d->Obj_0, "text/plain"@) {
                    Result::Err(ErrV::MalformedDocument)
                } else {
                    text_of(get_key(d->Obj_0, "text/plain"@))
                }
            }
        } else if ot == "error"@ {
            Result::Ok(None)
        } else {
            Result::Err(ErrV::MalformedDocument)
        }
    }
}

/// The rendered text of a text node, or the malformedness of one that is
/// neither a string nor a sequence.
pub open spec fn text_of(v: JsonV) -> Result<Option<Seq<char>>, ErrV> {
    if renderable(v) {
        Result::Ok(Some(joined_s(v)))
    } else {
        Result::Err(ErrV::MalformedDocument)
    }
}

/// The decision for one output when a pattern is at hand: a match forces a
/// discard, an explicit keep signal keeps, else the default; an output that
/// is not a mapping, or renders wrongly, is malformed.
pub open spec fn decision_s(out: JsonV, hf: bool, ht: bool, dflt: bool, p: Seq<char>) -> Result<
    bool,
    ErrV,
> {
    if !(out is Obj) {
        Result::Err(ErrV::MalformedDocument)
    } else {
        match rendered_s(out->Obj_0) {
            Result::Err(e) => Result::Err(e),
            Result::Ok(None) => Result::Ok(if hf || ht {
                true
            } else {
                dflt
            }),
            Result::Ok(Some(t)) => Result::Ok(
                if pattern_matches(p, t) {
                    false
                } else if hf || ht {
                    true
                } else {
                    dflt
                },
            ),
        }
    }
}

/// The decisions for a sequence of outputs, stopping at the first error.
pub open spec fn decisions_s(
    outs: Seq<JsonV>,
    hf: bool,
    ht: bool,
    dflt: bool,
    p: Seq<char>,
) -> Result<Seq<bool>, ErrV>
    decreases outs.len(),
{
    if outs.len() == 0 {
        Result::Ok(Seq::empty())
    } else {
        match decision_s(outs[0], hf, ht, dflt, p) {
            Result::Err(e) => Result::Err(e),
            Result::Ok(b) => match decisions_s(outs.drop_first(), hf, ht, dflt, p) {
                Result::Err(e) => Result::Err(e),
                Result::Ok(rest) => Result::Ok(seq![b] + rest),
            },
        }
    }
}

/// Whether the metadata mapping carries the `keep_output` flag key.
pub open spec fn flag_present(m: Seq<(Seq<char>, JsonV)>) -> bool {
    has_key(m, "keep_output"@)
}

/// Whether the `keep_output` flag's value reads as true (a non-boolean
/// value reads as false).
pub open spec fn flag_true(m: Seq<(Seq<char>, JsonV)>) -> bool {
    flag_present(m) && get_key(m, "keep_output"@) == JsonV::Bool(true)
}

/// Whether the metadata's `tags` sequence contains the string
/// `keep_output`; a missing or non-sequence `tags` carries no tag.
pub open spec fn tag_present(m: Seq<(Seq<char>, JsonV)>) -> bool {
    &&& has_key(m, "tags"@)
    &&& get_key(m, "tags"@) is Arr
    &&& exists|i: int|
        0 <= i < get_key(m, "tags"@)->Arr_0.len() && get_key(m, "tags"@)->Arr_0[i]
            == JsonV::Str("keep_output"@)
}

/// The full evaluation: one decision per output, in the outputs' order.
/// Metadata that is absent or not a mapping gives every output the default.
pub open spec fn evaluate_s(
    meta: Option<JsonV>,
    outs: Seq<JsonV>,
    dflt: bool,
    pat: Option<Seq<char>>,
) -> Result<Seq<bool>, ErrV> {
    if !(meta matches Some(mv) && mv is Obj) {
        Result::Ok(Seq::new(outs.len(), |i: int| dflt))
    } else {
        let m = meta->Some_0->Obj_0;
        let hf = flag_present(m);
        let ht = tag_present(m);
        if hf && !flag_true(m) && ht {
            Result::Err(ErrV::ContradictoryMetadata)
        } else {
            match pat {
                None => Result::Ok(
                    Seq::new(
                        outs.len(),
                        |i: int|
                            if hf || ht {
                                true
                            } else {
                                dflt
                            },
                    ),
                ),
                Some(p) => decisions_s(outs, hf, ht, dflt, p),
            }
        }
    }
}

/// The model of an optional borrowed node.
pub open spec fn opt_jv(m: Option<&Json>) -> Option<JsonV> {
    match m {
        Some(j) => Some(jv(*j)),
        None => None,
    }
}

/// The pattern text of an optional matcher.
pub open spec fn opt_src(p: Option<&Matcher>) -> Option<Seq<char>> {
    match p {
        Some(m) => Some(m.src()),
        None => None,
    }
}

/// The model of an optional owned text.
pub open spec fn opt_text(o: Option<String>) -> Option<Seq<char>> {
    match o {
        Some(s) => Some(s@),
        None => None,
    }
}

/// A vector of `n` copies of `b`.
fn filled_vec(n: usize, b: bool) -> (r: Vec<bool>)
    ensures
        r@ == Seq::new(n as nat, |i: int| b),
{
    let mut r: Vec<bool> = Vec::new();
    let mut i: usize = 0;
    while i < n
        invariant
            i <= n,
            r@ =~= Seq::new(i as nat, |l: int| b),
        decreases n - i,
    {
        r.push(b);
        i += 1;
    }
    proof {
        assert(r@ =~= Seq::new(n as nat, |i: int| b));
    }
    r
}

/// Whether the nodes contain the string `k`.
fn has_str_elem(a: &Vec<Json>, k: &String) -> (r: bool)
    ensures
        r == exists|i: int|
            0 <= i < jv_elems(a@).len() && jv_elems(a@)[i] == JsonV::Str(k@),
{
    proof {
        lemma_jv_elems(a@);
    }
    let n = a.len();
    let mut i: usize = 0;
    while i < n
        invariant
            n == a.len(),
            i <= n,
            jv_elems(a@).len() == a@.len(),
            forall|l: int| 0 <= l < a@.len() ==> jv_elems(a@)[l] == jv(a@[l]),
            forall|l: int| 0 <= l < i ==> jv_elems(a@)[l] != JsonV::Str(k@),
        decreases n - i,
    {
        match &a[i] {
            Json::Str(s) => {
                if *s == *k {
                    proof {
                        assert(jv_elems(a@)[i as int] == JsonV::Str(k@));
                    }
                    return true;
                }
            },
            _ => {},
        }
        i += 1;
    }
    false
}

/// The rendered text of a text node: a string is its own text, a sequence
/// joins its lines (non-string lines count as empty), anything else is
/// malformed.
fn join_text(v: &Json) -> (r: Result<String, StripError>)
    ensures
        renderable(v@) ==> (r matches Ok(s) && s@ == joined_s(v@)),
        !renderable(v@) ==> (r matches Err(e) && e@ == ErrV::MalformedDocument),
{
    match v {
        Json::Str(s) => Ok(s.clone()),
        Json::Arr(a) => {
            proof {
                lemma_jv_elems(a@);
            }
            let ghost lines = jv_elems(a@);
            let mut acc = String::new();
            let n = a.len();
            let mut i: usize = 0;
            proof {
                assert(lines.skip(0) =~= lines);
                assert(acc@ + join_lines(lines) =~= join_lines(lines));
            }
            while i < n
                invariant
                    n == a.len(),
                    i <= n,
                    lines == jv_elems(a@),
                    lines.len() == a@.len(),
                    forall|l: int| 0 <= l < a@.len() ==> lines[l] == jv(a@[l]),
                    join_lines(lines) == acc@ + join_lines(lines.skip(i as int)),
                decreases n - i,
            {
                let ghost acc0 = acc@;
                match &a[i] {
                    Json::Str(s) => {
                        acc.append(s.as_str());
                    },
                    _ => {},
                }
                proof {
                    let tail = lines.skip(i as int);
                    assert(tail[0] == lines[i as int]);
                    assert(tail.drop_first() =~= lines.skip(i as int + 1));
                    assert(join_lines(tail) == line_text(lines[i as int]) + join_lines(
                        lines.skip(i as int + 1),
                    ));
                    assert(acc@ =~= acc0 + line_text(lines[i as int]));
                    assert(acc0 + (line_text(lines[i as int]) + join_lines(
                        lines.skip(i as int + 1),
                    )) =~= (acc0 + line_text(lines[i as int])) + join_lines(
                        lines.skip(i as int + 1),
                    ));
                }
                i += 1;
            }
            proof {
                assert(lines.skip(n as int) =~= Seq::empty());
                assert(acc@ + join_lines(lines.skip(n as int)) =~= acc@);
            }
            Ok(acc)
        },
        _ => Err(StripError::MalformedDocument),
    }
}

/// The rendered text of one output mapping, per [`rendered_s`].
fn rendered_text(out: &Vec<(String, Json)>) -> (r: Result<Option<String>, StripError>)
    ensures
        match rendered_s(jv_pairs(out@)) {
            Result::Ok(t) => r matches Ok(s) && opt_text(s) == t,
            Result::Err(e) => r matches Err(er) && er@ == e,
        },
{
    let k_type: String = "output_type".to_owned();
    let ov = match obj_get(out, &k_type) {
        Some(v) => v,
        None => {
            return Err(StripError::MalformedDocument);
        },
    };
    let ot = match ov {
        Json::Str(s) => s,
        _ => {
            return Err(StripError::MalformedDocument);
        },
    };
    let k_stream: String = "stream".to_owned();
    let k_display: String = "display_data".to_owned();
    let k_execute: String = "execute_result".to_owned();
    let k_error: String = "error".to_owned();
    if *ot == k_stream {
        let k_text: String = "text".to_owned();
        match obj_get(out, &k_text) {
            Some(v) => match join_text(v) {
                Ok(s) => Ok(Some(s)),
                Err(e) => Err(e),
            },
            None => Err(StripError::MalformedDocument),
        }
    } else if *ot == k_display || *ot == k_execute {
        let k_data: String = "data".to_owned();
        let dv = match obj_get(out, &k_data) {
            Some(v) => v,
            None => {
                return Err(StripError::MalformedDocument);
            },
        };
        let dm = match dv {
            Json::Obj(dm) => dm,
            _ => {
                return Err(StripError::MalformedDocument);
            },
        };
        let k_plain: String = "text/plain".to_owned();
        match obj_get(dm, &k_plain) {
            Some(v) => match join_text(v) {
                Ok(s) => Ok(Some(s)),
                Err(e) => Err(e),
            },
            None => Err(StripError::MalformedDocument),
        }
    } else if *ot == k_error {
        Ok(None)
    } else {
        Err(StripError::MalformedDocument)
    }
}

/// Decides, per output and in order, which outputs of a cell to keep.
/// `metadata` is the cell's `metadata` node if it has one, `outputs` the
/// cell's outputs, `default_keep` the fallback, `pattern` the optional
/// force-discard pattern. See [`evaluate_s`] for the exact decision.
#[verifier::loop_isolation(false)]
#[verifier::rlimit(60)]
pub fn determine_keep_output(
    metadata: Option<&Json>,
    outputs: &Vec<Json>,
    default_keep: bool,
    pattern: Option<&Matcher>,
) -> (r: Result<Vec<bool>, StripError>)
    ensures
        match evaluate_s(opt_jv(metadata), jv_elems(outputs@), default_keep, opt_src(pattern)) {
            Result::Ok(s) => r matches Ok(v) && v@ == s,
            Result::Err(e) => r matches Err(er) && er@ == e,
        },
{
    proof {
        lemma_jv_elems(outputs@);
    }
    let meta_obj: Option<&Vec<(String, Json)>> = match metadata {
        Some(j) => match j {
            Json::Obj(mv) => Some(mv),
            _ => None,
        },
        None => None,
    };
    let mv = match meta_obj {
        None => {
            let v = filled_vec(outputs.len(), default_keep);
            proof {
                assert(v@ =~= Seq::new(jv_elems(outputs@).len(), |i: int| default_keep));
            }
            return Ok(v);
        },
        Some(mv) => mv,
    };
    proof {
        assert(opt_jv(metadata) == Some(JsonV::Obj(jv_pairs(mv@))));
    }
    let k_keep: String = "keep_output".to_owned();
    let hf = obj_has(mv, &k_keep);
    let fv = match obj_get(mv, &k_keep) {
        Some(v) => match v {
            Json::Bool(b) => *b,
            _ => false,
        },
        None => false,
    };
    let k_tags: String = "tags".to_owned();
    let ht = match obj_get(mv, &k_tags) {
        Some(v) => match v {
            Json::Arr(a) => has_str_elem(a, &k_keep),
            _ => false,
        },
        None => false,
    };
    proof {
        let m = jv_pairs(mv@);
        assert(hf == flag_present(m));
        assert((hf && fv) == flag_true(m));
        assert(ht == tag_present(m));
    }
    if hf && !fv && ht {
        return Err(StripError::ContradictoryMetadata);
    }
    let m = match pattern {
        None => {
            let keep_all = hf || ht;
            let v = filled_vec(outputs.len(), if keep_all {
                true
            } else {
                default_keep
            });
            proof {
                assert(v@ =~= Seq::new(
                    jv_elems(outputs@).len(),
                    |i: int|
                        if hf || ht {
                            true
                        } else {
                            default_keep
                        },
                ));
            }
            return Ok(v);
        },
        Some(m) => m,
    };
    let ghost full = jv_elems(outputs@);
    let ghost p = m.src();
    let mut res: Vec<bool> = Vec::new();
    let n = outputs.len();
    let mut i: usize = 0;
    proof {
        assert(full.skip(0) =~= full);
        if decisions_s(full, hf, ht, default_keep, p) is Ok {
            assert(res@ + decisions_s(full, hf, ht, default_keep, p)->Ok_0 =~= decisions_s(
                full,
                hf,
                ht,
                default_keep,
                p,
            )->Ok_0);
        }
    }
    while i < n
        invariant
            n == outputs.len(),
            i <= n,
            full == jv_elems(outputs@),
            full.len() == outputs@.len(),
            forall|l: int| 0 <= l < outputs@.len() ==> full[l] == jv(outputs@[l]),
            res@.len() == i,
            p == m.src(),
            decisions_s(full, hf, ht, default_keep, p) == (match decisions_s(
                full.skip(i as int),
                hf,
                ht,
                default_keep,
                p,
            ) {
                Result::Ok(rest) => Result::<Seq<bool>, ErrV>::Ok(res@ + rest),
                Result::Err(e) => Result::<Seq<bool>, ErrV>::Err(e),
            }),
        decreases n - i,
    {
        let ghost tail = full.skip(i as int);
        proof {
            assert(tail[0] == full[i as int]);
            assert(tail.drop_first() =~= full.skip(i as int + 1));
        }
        let op = match &outputs[i] {
            Json::Obj(op) => op,
            _ => {
                proof {
                    assert(tail[0] == jv(outputs@[i as int]));
                    assert(decisions_s(tail, hf, ht, default_keep, p) == Result::<
                        Seq<bool>,
                        ErrV,
                    >::Err(ErrV::MalformedDocument));
                    assert(decisions_s(full, hf, ht, default_keep, p) == Result::<
                        Seq<bool>,
                        ErrV,
                    >::Err(ErrV::MalformedDocument));
                    assert(evaluate_s(opt_jv(metadata), full, default_keep, opt_src(pattern))
                        == Result::<Seq<bool>, ErrV>::Err(ErrV::MalformedDocument));
                }
                return Err(StripError::MalformedDocument);
            },
        };
        proof {
            assert(tail[0] == JsonV::Obj(jv_pairs(op@)));
        }
        let d = match rendered_text(op) {
            Err(e) => {
                proof {
                    assert(decision_s(tail[0], hf, ht, default_keep, p) == Result::<
                        bool,
                        ErrV,
                    >::Err(e@));
                    assert(decisions_s(tail, hf, ht, default_keep, p) == Result::<
                        Seq<bool>,
                        ErrV,
                    >::Err(e@));
                }
                return Err(e);
            },
            Ok(None) => {
                if hf || ht {
                    true
                } else {
                    default_keep
                }
            },
            Ok(Some(t)) => {
                if m.is_match(&t) {
                    false
                } else if hf || ht {
                    true
                } else {
                    default_keep
                }
            },
        };
        proof {
            assert(decision_s(tail[0], hf, ht, default_keep, p) == Result::<bool, ErrV>::Ok(d));
        }
        let ghost res0 = res@;
        res.push(d);
        proof {
            let rest_r = decisions_s(full.skip(i as int + 1), hf, ht, default_keep, p);
            if rest_r is Ok {
                assert(res0 + (seq![d] + rest_r->Ok_0) =~= (res0.push(d)) + rest_r->Ok_0);
            }
        }
        i += 1;
    }
    proof {
        assert(full.skip(n as int) =~= Seq::empty());
        assert(res@ + Seq::<bool>::empty() =~= res@);
    }
    Ok(res)
}

} // verus!
