//! The top-level transformation: validate the configuration, prune
//! notebook-level metadata, drop all-blank cells on request, then rewrite
//! each cell — filter its outputs by the retention decisions, clear
//! execution counters, prune the configured cell keys.

use vstd::prelude::*;

use crate::error::{ErrV, StripError};
use crate::json::{
    get_key, has_key, jv, jv_elems, jv_pairs, key_idx, lemma_jv_elems, lemma_jv_pairs,
    lemma_key_idx, key_index, obj_get, obj_has, obj_remove, obj_set, remove_key, set_key, Json,
    JsonV,
};
use crate::pattern::{pattern_compiles, Matcher};
use crate::prune::{dot_idx, head_of, pop_recursive, prune_s, split_first_dot, tail_of};
use crate::retain::{determine_keep_output, evaluate_s, flag_true, opt_jv, opt_src};
use vstd::string::StrSliceExecFns;

verus! {

/// The views of a vector of key strings.
pub open spec fn views_of(ks: Seq<String>) -> Seq<Seq<char>> {
    Seq::new(ks.len(), |i: int| ks[i]@)
}

/// Whether `char::is_whitespace` holds of the character: the Unicode
/// `White_Space` property, a function of the character alone.
pub uninterp spec fn is_ws(c: char) -> bool;

/// A text that is empty after trimming: every character is whitespace.
pub open spec fn blank_chars(s: Seq<char>) -> bool {
    forall|i: int| 0 <= i < s.len() ==> is_ws(s[i])
}

/// A blank source line: a string of only whitespace; a non-string line has
/// no text and counts as blank.
pub open spec fn blank_line(v: JsonV) -> bool {
    !(v is Str) || blank_chars(v->Str_0)
}

/// Whether a cell is dropped when empty cells are dropped: its `source`,
/// a string or a sequence of lines, is blank throughout. A cell that is not
/// a mapping is tolerated and never dropped; a missing or wrongly typed
/// `source` is malformed.
pub open spec fn drop_verdict_s(cell: JsonV) -> Result<bool, ErrV> {
    if !(cell is Obj) {
        Result::Ok(false)
    } else if !has_key(cell->Obj_0, "source"@) {
        Result::Err(ErrV::MalformedDocument)
    } else {
        let s = get_key(cell->Obj_0, "source"@);
        if s is Str {
            Result::Ok(blank_chars(s->Str_0))
        } else if s is Arr {
            Result::Ok(forall|i: int| 0 <= i < s->Arr_0.len() ==> blank_line(#[trigger] s->Arr_0[i]))
        } else {
            Result::Err(ErrV::MalformedDocument)
        }
    }
}

/// The cells that survive dropping, in order, or the first verdict error.
pub open spec fn drop_cells_s(cs: Seq<JsonV>) -> Result<Seq<JsonV>, ErrV>
    decreases cs.len(),
{
    if cs.len() == 0 {
        Result::Ok(Seq::empty())
    } else {
        match drop_verdict_s(cs[0]) {
            Result::Err(e) => Result::Err(e),
            Result::Ok(d) => match drop_cells_s(cs.drop_first()) {
                Result::Err(e) => Result::Err(e),
                Result::Ok(rest) => Result::Ok(
                    if d {
                        rest
                    } else {
                        seq![cs[0]] + rest
                    },
                ),
            },
        }
    }
}

/// How one dotted extra key classifies: `metadata.<rest>` or `cell.<rest>`,
/// anything else refused with the offending entry.
pub open spec fn classify_key_s(k: Seq<char>) -> Result<(bool, Seq<char>), ErrV> {
    if dot_idx(k) == -1 {
        Result::Err(ErrV::Configuration(k))
    } else if head_of(k) == "metadata"@ {
        Result::Ok((true, tail_of(k)))
    } else if head_of(k) == "cell"@ {
        Result::Ok((false, tail_of(k)))
    } else {
        Result::Err(ErrV::Configuration(k))
    }
}

/// The extra keys split into metadata key paths and cell key paths, the
/// namespace stripped, or the first offending entry.
pub open spec fn partition_keys_s(ks: Seq<Seq<char>>) -> Result<
    (Seq<Seq<char>>, Seq<Seq<char>>),
    ErrV,
>
    decreases ks.len(),
{
    if ks.len() == 0 {
        Result::Ok((Seq::empty(), Seq::empty()))
    } else {
        match classify_key_s(ks[0]) {
            Result::Err(e) => Result::Err(e),
            Result::Ok(c) => match partition_keys_s(ks.drop_first()) {
                Result::Err(e) => Result::Err(e),
                Result::Ok(rest) => Result::Ok(
                    if c.0 {
                        (seq![c.1] + rest.0, rest.1)
                    } else {
                        (rest.0, seq![c.1] + rest.1)
                    },
                ),
            },
        }
    }
}

/// The node after every key path has pruned it, in order.
pub open spec fn prune_all_s(j: JsonV, ks: Seq<Seq<char>>) -> JsonV
    decreases ks.len(),
{
    if ks.len() == 0 {
        j
    } else {
        prune_all_s(prune_s(j, ks[0]).0, ks.drop_first())
    }
}

/// The retention mask: an absent retention keeps nothing.
pub open spec fn mask_of(r: Option<Seq<bool>>) -> Seq<bool> {
    match r {
        Some(s) => s,
        None => Seq::empty(),
    }
}

/// The outputs whose positional decision is true, in their original order;
/// an output beyond the mask's length is dropped.
pub open spec fn filter_mask_s(outs: Seq<JsonV>, keep: Seq<bool>) -> Seq<JsonV>
    decreases outs.len(),
{
    if outs.len() == 0 || keep.len() == 0 {
        Seq::empty()
    } else {
        let rest = filter_mask_s(outs.drop_first(), keep.drop_first());
        if keep[0] {
            seq![outs[0]] + rest
        } else {
            rest
        }
    }
}

/// Every output with its `execution_count` field removed; an output that is
/// not a mapping is malformed.
pub open spec fn strip_counts_s(outs: Seq<JsonV>) -> Result<Seq<JsonV>, ErrV>
    decreases outs.len(),
{
    if outs.len() == 0 {
        Result::Ok(Seq::empty())
    } else if !(outs[0] is Obj) {
        Result::Err(ErrV::MalformedDocument)
    } else {
        let o2 = JsonV::Obj(remove_key(outs[0]->Obj_0, "execution_count"@));
        match strip_counts_s(outs.drop_first()) {
            Result::Err(e) => Result::Err(e),
            Result::Ok(rest) => Result::Ok(seq![o2] + rest),
        }
    }
}

/// The cell's entries after the outputs step: outputs filtered by the mask
/// and, unless counts are kept, cleared of their `execution_count`.
pub open spec fn outputs_step_s(
    c: Seq<(Seq<char>, JsonV)>,
    keep_count: bool,
    retention: Option<Seq<bool>>,
) -> Result<Seq<(Seq<char>, JsonV)>, ErrV> {
    if !has_key(c, "outputs"@) {
        Result::Ok(c)
    } else if !(get_key(c, "outputs"@) is Arr) {
        Result::Err(ErrV::MalformedDocument)
    } else {
        let kept = filter_mask_s(get_key(c, "outputs"@)->Arr_0, mask_of(retention));
        if keep_count {
            Result::Ok(set_key(c, "outputs"@, JsonV::Arr(kept)))
        } else {
            match strip_counts_s(kept) {
                Result::Err(e) => Result::Err(e),
                Result::Ok(k2) => Result::Ok(set_key(c, "outputs"@, JsonV::Arr(k2))),
            }
        }
    }
}

/// The whole cell-level mutation: the outputs step, then — unless counts
/// are kept — `prompt_number` and `execution_count` set to null where
/// present, then every cell key path pruned. A cell that is not a mapping
/// is left alone.
pub open spec fn transform_s(
    cell: JsonV,
    keep_count: bool,
    cell_keys: Seq<Seq<char>>,
    retention: Option<Seq<bool>>,
) -> Result<JsonV, ErrV> {
    if !(cell is Obj) {
        Result::Ok(cell)
    } else {
        match outputs_step_s(cell->Obj_0, keep_count, retention) {
            Result::Err(e) => Result::Err(e),
            Result::Ok(c1) => {
                let c2 = if !keep_count {
                    set_key(
                        set_key(c1, "prompt_number"@, JsonV::Null),
                        "execution_count"@,
                        JsonV::Null,
                    )
                } else {
                    c1
                };
                Result::Ok(prune_all_s(JsonV::Obj(c2), cell_keys))
            },
        }
    }
}

/// The cell's `metadata` node, if it has one.
pub open spec fn meta_of(c: Seq<(Seq<char>, JsonV)>) -> Option<JsonV> {
    if has_key(c, "metadata"@) {
        Some(get_key(c, "metadata"@))
    } else {
        None
    }
}

/// One cell through the pipeline: a non-mapping cell is skipped; a cell
/// with outputs has its retention evaluated and is then transformed; a cell
/// without outputs is transformed with no retention, so counter clearing
/// and key pruning still happen.
pub open spec fn process_cell_s(
    cell: JsonV,
    eff_keep: bool,
    keep_count: bool,
    cell_keys: Seq<Seq<char>>,
    pat: Option<Seq<char>>,
) -> Result<JsonV, ErrV> {
    if !(cell is Obj) {
        Result::Ok(cell)
    } else {
        let c = cell->Obj_0;
        if has_key(c, "outputs"@) {
            if !(get_key(c, "outputs"@) is Arr) {
                Result::Err(ErrV::MalformedDocument)
            } else {
                match evaluate_s(meta_of(c), get_key(c, "outputs"@)->Arr_0, eff_keep, pat) {
                    Result::Err(e) => Result::Err(e),
                    Result::Ok(keep) => transform_s(cell, keep_count, cell_keys, Some(keep)),
                }
            }
        } else {
            transform_s(cell, keep_count, cell_keys, None)
        }
    }
}

/// Every cell through the pipeline, in order, stopping at the first error.
pub open spec fn process_cells_s(
    cs: Seq<JsonV>,
    eff_keep: bool,
    keep_count: bool,
    cell_keys: Seq<Seq<char>>,
    pat: Option<Seq<char>>,
) -> Result<Seq<JsonV>, ErrV>
    decreases cs.len(),
{
    if cs.len() == 0 {
        Result::Ok(Seq::empty())
    } else {
        match process_cell_s(cs[0], eff_keep, keep_count, cell_keys, pat) {
            Result::Err(e) => Result::Err(e),
            Result::Ok(c) => match process_cells_s(
                cs.drop_first(),
                eff_keep,
                keep_count,
                cell_keys,
                pat,
            ) {
                Result::Err(e) => Result::Err(e),
                Result::Ok(rest) => Result::Ok(seq![c] + rest),
            },
        }
    }
}

/// The transformation after the configuration has been validated: the keys
/// already split, the pattern already compiled.
pub open spec fn strip_tail_s(
    nb: JsonV,
    keep_output: bool,
    keep_count: bool,
    meta_keys: Seq<Seq<char>>,
    cell_keys: Seq<Seq<char>>,
    drop_empty: bool,
    pat: Option<Seq<char>>,
) -> Result<JsonV, ErrV> {
    if !(nb is Obj) {
        Result::Ok(nb)
    } else {
        let n = nb->Obj_0;
        if has_key(n, "metadata"@) && !(get_key(n, "metadata"@) is Obj) {
            Result::Err(ErrV::MalformedDocument)
        } else {
            let eff = keep_output || (has_key(n, "metadata"@) && flag_true(
                get_key(n, "metadata"@)->Obj_0,
            ));
            let n1 = if has_key(n, "metadata"@) {
                set_key(n, "metadata"@, prune_all_s(get_key(n, "metadata"@), meta_keys))
            } else {
                n
            };
            if !has_key(n1, "cells"@) || !(get_key(n1, "cells"@) is Arr) {
                Result::Ok(JsonV::Obj(n1))
            } else {
                let cells0 = get_key(n1, "cells"@)->Arr_0;
                match (if drop_empty {
                    drop_cells_s(cells0)
                } else {
                    Result::Ok(cells0)
                }) {
                    Result::Err(e) => Result::Err(e),
                    Result::Ok(cells1) => match process_cells_s(
                        cells1,
                        eff,
                        keep_count,
                        cell_keys,
                        pat,
                    ) {
                        Result::Err(e) => Result::Err(e),
                        Result::Ok(cells2) => Result::Ok(
                            JsonV::Obj(set_key(n1, "cells"@, JsonV::Arr(cells2))),
                        ),
                    },
                }
            }
        }
    }
}

/// Relies on `char::is_whitespace`: the Unicode `White_Space` property, a
/// function of the character alone.
#[verifier::external_body]
fn char_is_ws(c: char) -> (r: bool)
    ensures
        r == is_ws(c),
{
    c.is_whitespace()
}

/// Whether every character of the text is whitespace, so that trimming
/// would leave it empty.
fn str_blank(s: &String) -> (r: bool)
    ensures
        r == blank_chars(s@),
{
    let st = s.as_str();
    let n = st.unicode_len();
    let mut i: usize = 0;
    while i < n
        invariant
            st@ == s@,
            n == s@.len(),
            i <= n,
            forall|l: int| 0 <= l < i ==> is_ws(s@[l]),
        decreases n - i,
    {
        if !char_is_ws(st.get_char(i)) {
            return false;
        }
        i += 1;
    }
    true
}

/// Whether a source line is blank, per [`blank_line`].
fn line_blank(v: &Json) -> (r: bool)
    ensures
        r == blank_line(v@),
{
    match v {
        Json::Str(s) => str_blank(s),
        _ => true,
    }
}

/// The drop verdict for one cell, per [`drop_verdict_s`]: whether, when
/// empty cells are being dropped, this cell goes.
#[verifier::loop_isolation(false)]
pub fn drop_verdict(cell: &Json) -> (r: Result<bool, StripError>)
    ensures
        match drop_verdict_s(cell@) {
            Result::Ok(d) => r matches Ok(b) && b == d,
            Result::Err(e) => r matches Err(er) && er@ == e,
        },
{
    let c = match cell {
        Json::Obj(c) => c,
        _ => {
            return Ok(false);
        },
    };
    let k_source: String = "source".to_owned();
    let sv = match obj_get(c, &k_source) {
        Some(sv) => sv,
        None => {
            return Err(StripError::MalformedDocument);
        },
    };
    match sv {
        Json::Str(s) => Ok(str_blank(s)),
        Json::Arr(a) => {
            proof {
                lemma_jv_elems(a@);
            }
            let ghost lines = jv_elems(a@);
            let n = a.len();
            let mut i: usize = 0;
            while i < n
                invariant
                    i <= n,
                    forall|l: int| 0 <= l < i ==> blank_line(#[trigger] lines[l]),
                decreases n - i,
            {
                if !line_blank(&a[i]) {
                    proof {
                        let s = get_key(cell@->Obj_0, "source"@);
                        assert(s == sv@);
                        assert(s->Arr_0 == lines);
                        assert(!blank_line(lines[i as int]));
                        assert(drop_verdict_s(cell@) == Result::<bool, ErrV>::Ok(false));
                    }
                    return Ok(false);
                }
                i += 1;
            }
            proof {
                let s = get_key(cell@->Obj_0, "source"@);
                assert(s->Arr_0 == lines);
                assert(drop_verdict_s(cell@) == Result::<bool, ErrV>::Ok(true));
            }
            Ok(true)
        },
        _ => Err(StripError::MalformedDocument),
    }
}

/// Prunes the node with every key path, in order.
#[verifier::loop_isolation(false)]
fn prune_all(j: Json, ks: &Vec<String>) -> (r: Json)
    ensures
        r@ == prune_all_s(j@, views_of(ks@)),
{
    let ghost full = views_of(ks@);
    let ghost orig = j@;
    let mut cur = j;
    let n = ks.len();
    let mut i: usize = 0;
    proof {
        assert(full.skip(0) =~= full);
    }
    while i < n
        invariant
            i <= n,
            prune_all_s(orig, full) == prune_all_s(cur@, full.skip(i as int)),
        decreases n - i,
    {
        let ghost tail = full.skip(i as int);
        proof {
            assert(tail[0] == ks@[i as int]@);
            assert(tail.drop_first() =~= full.skip(i as int + 1));
        }
        pop_recursive(&mut cur, &ks[i]);
        i += 1;
    }
    proof {
        assert(full.skip(n as int) =~= Seq::<Seq<char>>::empty());
    }
    cur
}

/// The model of an optional borrowed retention mask.
pub open spec fn opt_mask(r: Option<&Vec<bool>>) -> Option<Seq<bool>> {
    match r {
        Some(v) => Some(v@),
        None => None,
    }
}

/// The outputs whose positional decision is true, per [`filter_mask_s`].
#[verifier::loop_isolation(false)]
#[verifier::rlimit(60)]
fn filter_by_mask(outs: Vec<Json>, retention: Option<&Vec<bool>>) -> (r: Vec<Json>)
    ensures
        jv_elems(r@) == filter_mask_s(jv_elems(outs@), mask_of(opt_mask(retention))),
{
    let ghost orig = jv_elems(outs@);
    let ghost mask = mask_of(opt_mask(retention));
    proof {
        lemma_jv_elems(outs@);
    }
    let mut rem = outs;
    let mut res: Vec<Json> = Vec::new();
    let mut mi: usize = 0;
    let total = rem.len();
    proof {
        assert(orig.len() == total);
    }
    let ghost mut mrem = mask;
    proof {
        assert(jv_elems(res@) =~= Seq::<JsonV>::empty());
        assert(Seq::<JsonV>::empty() + filter_mask_s(jv_elems(rem@), mrem) =~= filter_mask_s(
            orig,
            mask,
        ));
    }
    while rem.len() > 0
        invariant
            orig.len() <= usize::MAX,
            mi + jv_elems(rem@).len() == orig.len(),
            (match opt_mask(retention) {
                Some(mv) => {
                    if mi <= mv.len() {
                        mrem == mv.skip(mi as int)
                    } else {
                        mrem.len() == 0
                    }
                },
                None => mrem.len() == 0,
            }),
            filter_mask_s(orig, mask) == jv_elems(res@) + filter_mask_s(jv_elems(rem@), mrem),
        decreases rem@.len(),
    {
        let ghost rv = jv_elems(rem@);
        proof {
            lemma_jv_elems(rem@);
        }
        let o = rem.remove(0);
        proof {
            lemma_jv_elems(rem@);
            assert(jv_elems(rem@) =~= rv.drop_first());
            assert(rv[0] == jv(o));
        }
        let keep_it = match retention {
            Some(mv) => {
                if mi < mv.len() {
                    mv[mi]
                } else {
                    false
                }
            },
            None => false,
        };
        proof {
            assert(keep_it == (mrem.len() > 0 && mrem[0]));
        }
        if keep_it {
            let ghost res0 = res@;
            res.push(o);
            proof {
                lemma_jv_elems(res0);
                lemma_jv_elems(res@);
                assert(jv_elems(res@) =~= jv_elems(res0).push(jv(o)));
                assert(jv_elems(res0).push(jv(o)) + filter_mask_s(
                    rv.drop_first(),
                    mrem.drop_first(),
                ) =~= jv_elems(res0) + (seq![jv(o)] + filter_mask_s(
                    rv.drop_first(),
                    mrem.drop_first(),
                )));
            }
        }
        proof {
            if mrem.len() > 0 {
                match opt_mask(retention) {
                    Some(mseq) => {
                        if mi + 1 <= mseq.len() {
                            assert(mrem.drop_first() =~= mseq.skip(mi as int + 1));
                        }
                    },
                    None => {},
                }
                mrem = mrem.drop_first();
            }
        }
        mi += 1;
    }
    proof {
        assert(jv_elems(rem@).len() == 0);
        assert(jv_elems(res@) + Seq::<JsonV>::empty() =~= jv_elems(res@));
    }
    res
}

/// Removes `execution_count` from every output, per [`strip_counts_s`].
#[verifier::loop_isolation(false)]
fn strip_counts(outs: Vec<Json>) -> (r: Result<Vec<Json>, StripError>)
    ensures
        match strip_counts_s(jv_elems(outs@)) {
            Result::Ok(s) => r matches Ok(v) && jv_elems(v@) == s,
            Result::Err(e) => r matches Err(er) && er@ == e,
        },
{
    let ghost orig = jv_elems(outs@);
    proof {
        lemma_jv_elems(outs@);
    }
    let k_exec: String = "execution_count".to_owned();
    let mut rem = outs;
    let mut res: Vec<Json> = Vec::new();
    proof {
        assert(jv_elems(res@) =~= Seq::<JsonV>::empty());
        if strip_counts_s(orig) is Ok {
            assert(Seq::<JsonV>::empty() + strip_counts_s(orig)->Ok_0 =~= strip_counts_s(
                orig,
            )->Ok_0);
        }
    }
    while rem.len() > 0
        invariant
            strip_counts_s(orig) == (match strip_counts_s(jv_elems(rem@)) {
                Result::Ok(rest) => Result::<Seq<JsonV>, ErrV>::Ok(jv_elems(res@) + rest),
                Result::Err(e) => Result::<Seq<JsonV>, ErrV>::Err(e),
            }),
        decreases rem@.len(),
    {
        let ghost rv = jv_elems(rem@);
        proof {
            lemma_jv_elems(rem@);
        }
        let o = rem.remove(0);
        proof {
            lemma_jv_elems(rem@);
            assert(jv_elems(rem@) =~= rv.drop_first());
            assert(rv[0] == jv(o));
        }
        let mut op = match o {
            Json::Obj(op) => op,
            _ => {
                return Err(StripError::MalformedDocument);
            },
        };
        obj_remove(&mut op, &k_exec);
        let ghost res0 = res@;
        res.push(Json::Obj(op));
        proof {
            lemma_jv_elems(res0);
            lemma_jv_elems(res@);
            let o2 = JsonV::Obj(remove_key(rv[0]->Obj_0, "execution_count"@));
            assert(jv_elems(res@) =~= jv_elems(res0).push(o2));
            if strip_counts_s(rv.drop_first()) is Ok {
                assert(jv_elems(res0).push(o2) + strip_counts_s(rv.drop_first())->Ok_0
                    =~= jv_elems(res0) + (seq![o2] + strip_counts_s(rv.drop_first())->Ok_0));
            }
        }
    }
    proof {
        assert(jv_elems(rem@).len() == 0);
        assert(jv_elems(res@) + Seq::<JsonV>::empty() =~= jv_elems(res@));
    }
    Ok(res)
}

/// Applies the cell-level mutations in place: filters outputs by the
/// retention decisions (an absent retention strips them all), clears
/// execution counters unless counts are kept, prunes every cell key path.
/// Surviving outputs keep their relative order. See [`transform_s`].
pub fn transform(
    cell: &mut Json,
    keep_count: bool,
    cell_key_paths: &Vec<String>,
    retention: Option<&Vec<bool>>,
) -> (r: Result<(), StripError>)
    ensures
        match transform_s(old(cell)@, keep_count, views_of(cell_key_paths@), opt_mask(retention)) {
            Result::Ok(m) => r is Ok && final(cell)@ == m,
            Result::Err(e) => r matches Err(er) && er@ == e,
        },
{
    let mut cur = Json::Null;
    core::mem::swap(cell, &mut cur);
    match transform_owned(cur, keep_count, cell_key_paths, retention) {
        Ok(c) => {
            *cell = c;
            Ok(())
        },
        Err(e) => Err(e),
    }
}

fn transform_owned(
    cell: Json,
    keep_count: bool,
    cell_key_paths: &Vec<String>,
    retention: Option<&Vec<bool>>,
) -> (r: Result<Json, StripError>)
    ensures
        match transform_s(cell@, keep_count, views_of(cell_key_paths@), opt_mask(retention)) {
            Result::Ok(m) => r matches Ok(c) && c@ == m,
            Result::Err(e) => r matches Err(er) && er@ == e,
        },
{
    let mut pairs = match cell {
        Json::Obj(p) => p,
        other => {
            return Ok(other);
        },
    };
    let k_outputs: String = "outputs".to_owned();
    match key_index(&pairs, &k_outputs) {
        None => {
            proof {
                lemma_key_idx(jv_pairs(pairs@), k_outputs@);
            }
        },
        Some(oi) => {
            proof {
                lemma_jv_pairs(pairs@);
                lemma_key_idx(jv_pairs(pairs@), k_outputs@);
            }
            let ghost before = jv_pairs(pairs@);
            let (ok_key, ov) = pairs.remove(oi);
            let outs = match ov {
                Json::Arr(o) => o,
                _ => {
                    return Err(StripError::MalformedDocument);
                },
            };
            let kept = filter_by_mask(outs, retention);
            let kept2 = if !keep_count {
                match strip_counts(kept) {
                    Ok(v) => v,
                    Err(e) => {
                        return Err(e);
                    },
                }
            } else {
                kept
            };
            pairs.insert(oi, (ok_key, Json::Arr(kept2)));
            proof {
                lemma_jv_pairs(pairs@);
                assert(jv_pairs(pairs@) =~= set_key(
                    before,
                    "outputs"@,
                    JsonV::Arr(jv_elems(kept2@)),
                ));
            }
        },
    }
    if !keep_count {
        let k_prompt: String = "prompt_number".to_owned();
        obj_set(&mut pairs, &k_prompt, Json::Null);
        let k_exec: String = "execution_count".to_owned();
        obj_set(&mut pairs, &k_exec, Json::Null);
    }
    Ok(prune_all(Json::Obj(pairs), cell_key_paths))
}

/// One cell through the pipeline, per [`process_cell_s`].
fn process_cell(
    cell: Json,
    eff_keep: bool,
    keep_count: bool,
    cell_key_paths: &Vec<String>,
    matcher: Option<&Matcher>,
) -> (r: Result<Json, StripError>)
    ensures
        match process_cell_s(
            cell@,
            eff_keep,
            keep_count,
            views_of(cell_key_paths@),
            opt_src(matcher),
        ) {
            Result::Ok(m) => r matches Ok(c) && c@ == m,
            Result::Err(e) => r matches Err(er) && er@ == e,
        },
{
    let retention: Option<Vec<bool>> = match &cell {
        Json::Obj(pairs) => {
            let k_outputs: String = "outputs".to_owned();
            match obj_get(pairs, &k_outputs) {
                Some(ov) => match ov {
                    Json::Arr(outs) => {
                        let k_metadata: String = "metadata".to_owned();
                        let meta = obj_get(pairs, &k_metadata);
                        match determine_keep_output(meta, outs, eff_keep, matcher) {
                            Ok(k) => Some(k),
                            Err(e) => {
                                return Err(e);
                            },
                        }
                    },
                    _ => {
                        return Err(StripError::MalformedDocument);
                    },
                },
                None => None,
            }
        },
        _ => {
            return Ok(cell);
        },
    };
    let mut c = cell;
    match transform(&mut c, keep_count, cell_key_paths, retention.as_ref()) {
        Ok(_) => Ok(c),
        Err(e) => Err(e),
    }
}

/// The model of an optional borrowed pattern text.
pub open spec fn opt_ref_text(o: Option<&String>) -> Option<Seq<char>> {
    match o {
        Some(s) => Some(s@),
        None => None,
    }
}

/// The surviving cells when empty cells are dropped, per [`drop_cells_s`].
#[verifier::loop_isolation(false)]
fn drop_cells(cells: Vec<Json>) -> (r: Result<Vec<Json>, StripError>)
    ensures
        match drop_cells_s(jv_elems(cells@)) {
            Result::Ok(s) => r matches Ok(v) && jv_elems(v@) == s,
            Result::Err(e) => r matches Err(er) && er@ == e,
        },
{
    let ghost orig = jv_elems(cells@);
    proof {
        lemma_jv_elems(cells@);
    }
    let mut rem = cells;
    let mut res: Vec<Json> = Vec::new();
    proof {
        assert(jv_elems(res@) =~= Seq::<JsonV>::empty());
        if drop_cells_s(orig) is Ok {
            assert(Seq::<JsonV>::empty() + drop_cells_s(orig)->Ok_0 =~= drop_cells_s(
                orig,
            )->Ok_0);
        }
    }
    while rem.len() > 0
        invariant
            drop_cells_s(orig) == (match drop_cells_s(jv_elems(rem@)) {
                Result::Ok(rest) => Result::<Seq<JsonV>, ErrV>::Ok(jv_elems(res@) + rest),
                Result::Err(e) => Result::<Seq<JsonV>, ErrV>::Err(e),
            }),
        decreases rem@.len(),
    {
        let ghost rv = jv_elems(rem@);
        proof {
            lemma_jv_elems(rem@);
        }
        let c = rem.remove(0);
        proof {
            lemma_jv_elems(rem@);
            assert(jv_elems(rem@) =~= rv.drop_first());
            assert(rv[0] == jv(c));
        }
        let d = match drop_verdict(&c) {
            Ok(d) => d,
            Err(e) => {
                return Err(e);
            },
        };
        if !d {
            let ghost res0 = res@;
            res.push(c);
            proof {
                lemma_jv_elems(res0);
                lemma_jv_elems(res@);
                assert(jv_elems(res@) =~= jv_elems(res0).push(jv(c)));
                if drop_cells_s(rv.drop_first()) is Ok {
                    assert(jv_elems(res0).push(jv(c)) + drop_cells_s(rv.drop_first())->Ok_0
                        =~= jv_elems(res0) + (seq![jv(c)] + drop_cells_s(
                        rv.drop_first(),
                    )->Ok_0));
                }
            }
        }
    }
    proof {
        assert(jv_elems(rem@).len() == 0);
        assert(jv_elems(res@) + Seq::<JsonV>::empty() =~= jv_elems(res@));
    }
    Ok(res)
}

/// Every cell through the pipeline, per [`process_cells_s`].
#[verifier::loop_isolation(false)]
fn process_cells(
    cells: Vec<Json>,
    eff_keep: bool,
    keep_count: bool,
    cell_key_paths: &Vec<String>,
    matcher: Option<&Matcher>,
) -> (r: Result<Vec<Json>, StripError>)
    ensures
        match process_cells_s(
            jv_elems(cells@),
            eff_keep,
            keep_count,
            views_of(cell_key_paths@),
            opt_src(matcher),
        ) {
            Result::Ok(s) => r matches Ok(v) && jv_elems(v@) == s,
            Result::Err(e) => r matches Err(er) && er@ == e,
        },
{
    let ghost orig = jv_elems(cells@);
    let ghost ck = views_of(cell_key_paths@);
    let ghost p = opt_src(matcher);
    proof {
        lemma_jv_elems(cells@);
    }
    let mut rem = cells;
    let mut res: Vec<Json> = Vec::new();
    proof {
        assert(jv_elems(res@) =~= Seq::<JsonV>::empty());
        if process_cells_s(orig, eff_keep, keep_count, ck, p) is Ok {
            assert(Seq::<JsonV>::empty() + process_cells_s(orig, eff_keep, keep_count, ck, p)->Ok_0
                =~= process_cells_s(orig, eff_keep, keep_count, ck, p)->Ok_0);
        }
    }
    while rem.len() > 0
        invariant
            process_cells_s(orig, eff_keep, keep_count, ck, p) == (match process_cells_s(
                jv_elems(rem@),
                eff_keep,
                keep_count,
                ck,
                p,
            ) {
                Result::Ok(rest) => Result::<Seq<JsonV>, ErrV>::Ok(jv_elems(res@) + rest),
                Result::Err(e) => Result::<Seq<JsonV>, ErrV>::Err(e),
            }),
        decreases rem@.len(),
    {
        let ghost rv = jv_elems(rem@);
        proof {
            lemma_jv_elems(rem@);
        }
        let c = rem.remove(0);
        proof {
            lemma_jv_elems(rem@);
            assert(jv_elems(rem@) =~= rv.drop_first());
            assert(rv[0] == jv(c));
        }
        let c2 = match process_cell(c, eff_keep, keep_count, cell_key_paths, matcher) {
            Ok(c2) => c2,
            Err(e) => {
                return Err(e);
            },
        };
        let ghost res0 = res@;
        res.push(c2);
        proof {
            lemma_jv_elems(res0);
            lemma_jv_elems(res@);
            assert(jv_elems(res@) =~= jv_elems(res0).push(jv(c2)));
            if process_cells_s(rv.drop_first(), eff_keep, keep_count, ck, p) is Ok {
                assert(jv_elems(res0).push(jv(c2)) + process_cells_s(
                    rv.drop_first(),
                    eff_keep,
                    keep_count,
                    ck,
                    p,
                )->Ok_0 =~= jv_elems(res0) + (seq![jv(c2)] + process_cells_s(
                    rv.drop_first(),
                    eff_keep,
                    keep_count,
                    ck,
                    p,
                )->Ok_0));
            }
        }
    }
    proof {
        assert(jv_elems(rem@).len() == 0);
        assert(jv_elems(res@) + Seq::<JsonV>::empty() =~= jv_elems(res@));
    }
    Ok(res)
}

/// The transformation after validation, on an owned tree. On an error the
/// tree handed back may be partially transformed; the caller sees the
/// error and decides what the tree is still good for.
fn strip_body(
    nb: Json,
    keep_output: bool,
    keep_count: bool,
    meta_key_paths: &Vec<String>,
    cell_key_paths: &Vec<String>,
    drop_empty: bool,
    matcher: Option<&Matcher>,
) -> (r: (Json, Option<StripError>))
    ensures
        match strip_tail_s(
            nb@,
            keep_output,
            keep_count,
            views_of(meta_key_paths@),
            views_of(cell_key_paths@),
            drop_empty,
            opt_src(matcher),
        ) {
            Result::Ok(m) => r.1 is None && r.0@ == m,
            Result::Err(e) => r.1 matches Some(er) && er@ == e,
        },
{
    let mut pairs = match nb {
        Json::Obj(p) => p,
        other => {
            return (other, None);
        },
    };
    let k_metadata: String = "metadata".to_owned();
    let mut eff = keep_output;
    match obj_get(&pairs, &k_metadata) {
        Some(mjson) => match mjson {
            Json::Obj(mp) => {
                let k_keep: String = "keep_output".to_owned();
                let f = match obj_get(mp, &k_keep) {
                    Some(v) => match v {
                        Json::Bool(b) => *b,
                        _ => false,
                    },
                    None => false,
                };
                if f {
                    eff = true;
                }
            },
            _ => {
                return (Json::Obj(pairs), Some(StripError::MalformedDocument));
            },
        },
        None => {},
    }
    let ghost n0 = jv_pairs(pairs@);
    match key_index(&pairs, &k_metadata) {
        None => {
            proof {
                lemma_key_idx(n0, k_metadata@);
            }
        },
        Some(mi) => {
            proof {
                lemma_jv_pairs(pairs@);
                lemma_key_idx(n0, k_metadata@);
            }
            let (mk, mv) = pairs.remove(mi);
            let mv2 = prune_all(mv, meta_key_paths);
            pairs.insert(mi, (mk, mv2));
            proof {
                lemma_jv_pairs(pairs@);
                assert(jv_pairs(pairs@) =~= set_key(n0, "metadata"@, mv2@));
            }
        },
    }
    let ghost n1 = jv_pairs(pairs@);
    let k_cells: String = "cells".to_owned();
    match key_index(&pairs, &k_cells) {
        None => {
            proof {
                lemma_key_idx(n1, k_cells@);
            }
            (Json::Obj(pairs), None)
        },
        Some(ci) => {
            proof {
                lemma_jv_pairs(pairs@);
                lemma_key_idx(n1, k_cells@);
            }
            let ghost before = jv_pairs(pairs@);
            let (ck_key, cv) = pairs.remove(ci);
            match cv {
                Json::Arr(cells0) => {
                    let cells1 = if drop_empty {
                        match drop_cells(cells0) {
                            Ok(v) => v,
                            Err(e) => {
                                return (Json::Obj(pairs), Some(e));
                            },
                        }
                    } else {
                        cells0
                    };
                    match process_cells(cells1, eff, keep_count, cell_key_paths, matcher) {
                        Ok(cells2) => {
                            pairs.insert(ci, (ck_key, Json::Arr(cells2)));
                            proof {
                                lemma_jv_pairs(pairs@);
                                assert(jv_pairs(pairs@) =~= set_key(
                                    n1,
                                    "cells"@,
                                    JsonV::Arr(jv_elems(cells2@)),
                                ));
                            }
                            (Json::Obj(pairs), None)
                        },
                        Err(e) => (Json::Obj(pairs), Some(e)),
                    }
                },
                other => {
                    pairs.insert(ci, (ck_key, other));
                    proof {
                        lemma_jv_pairs(pairs@);
                        assert(jv_pairs(pairs@) =~= n1);
                    }
                    (Json::Obj(pairs), None)
                },
            }
        },
    }
}

/// One dotted extra key classified as a metadata or a cell key, or refused
/// with the offending entry, per [`classify_key_s`].
fn classify_key(k: &String) -> (r: Result<(bool, String), StripError>)
    ensures
        match classify_key_s(k@) {
            Result::Ok(c) => r matches Ok(p) && p.0 == c.0 && p.1@ == c.1,
            Result::Err(e) => r matches Err(er) && er@ == e,
        },
{
    match split_first_dot(k) {
        None => Err(StripError::Configuration(k.clone())),
        Some((ns, sub)) => {
            let ns_meta: String = "metadata".to_owned();
            let ns_cell: String = "cell".to_owned();
            if ns == ns_meta {
                Ok((true, sub))
            } else if ns == ns_cell {
                Ok((false, sub))
            } else {
                Err(StripError::Configuration(k.clone()))
            }
        },
    }
}

/// Strips the notebook in place: validates and splits the extra keys,
/// compiles the optional pattern, reads the effective keep-output default
/// from the notebook's own metadata, prunes notebook metadata keys, drops
/// all-blank cells on request, and rewrites every cell. Returns `Ok(true)`
/// on success; on an error the tree may be partially transformed. See
/// [`strip_s`] for the exact outcome.
#[verifier::loop_isolation(false)]
pub fn strip_output(
    nb: &mut Json,
    keep_output: bool,
    keep_count: bool,
    extra_keys: &Vec<String>,
    drop_empty_cells: bool,
    strip_regex: Option<&String>,
) -> (r: Result<bool, StripError>)
    ensures
        match strip_s(
            old(nb)@,
            keep_output,
            keep_count,
            views_of(extra_keys@),
            drop_empty_cells,
            opt_ref_text(strip_regex),
        ) {
            Result::Ok(m) => r matches Ok(b) && b && final(nb)@ == m,
            Result::Err(e) => r matches Err(er) && er@ == e,
        },
{
    let ghost full = views_of(extra_keys@);
    let mut meta_keys: Vec<String> = Vec::new();
    let mut cell_keys: Vec<String> = Vec::new();
    let n = extra_keys.len();
    let mut i: usize = 0;
    proof {
        assert(full.skip(0) =~= full);
        if partition_keys_s(full.skip(0)) is Ok {
            let rest = partition_keys_s(full.skip(0))->Ok_0;
            assert(views_of(meta_keys@) + rest.0 =~= rest.0);
            assert(views_of(cell_keys@) + rest.1 =~= rest.1);
        }
    }
    while i < n
        invariant
            i <= n,
            n == extra_keys.len(),
            partition_keys_s(full) == (match partition_keys_s(full.skip(i as int)) {
                Result::Ok(rest) => Result::<(Seq<Seq<char>>, Seq<Seq<char>>), ErrV>::Ok(
                    (views_of(meta_keys@) + rest.0, views_of(cell_keys@) + rest.1),
                ),
                Result::Err(e) => Result::<(Seq<Seq<char>>, Seq<Seq<char>>), ErrV>::Err(e),
            }),
        decreases n - i,
    {
        proof {
            assert(full.skip(i as int)[0] == extra_keys@[i as int]@);
            assert(full.skip(i as int).drop_first() =~= full.skip(i as int + 1));
        }
        let c = match classify_key(&extra_keys[i]) {
            Ok(c) => c,
            Err(e) => {
                return Err(e);
            },
        };
        if c.0 {
            let ghost mk0 = meta_keys@;
            meta_keys.push(c.1);
            proof {
                if partition_keys_s(full.skip(i as int + 1)) is Ok {
                    let rest = partition_keys_s(full.skip(i as int + 1))->Ok_0;
                    assert(views_of(meta_keys@) =~= views_of(mk0).push(
                        meta_keys@[mk0.len() as int]@,
                    ));
                    assert(views_of(mk0).push(meta_keys@[mk0.len() as int]@) + rest.0
                        =~= views_of(mk0) + (seq![meta_keys@[mk0.len() as int]@] + rest.0));
                }
            }
        } else {
            let ghost ck0 = cell_keys@;
            cell_keys.push(c.1);
            proof {
                if partition_keys_s(full.skip(i as int + 1)) is Ok {
                    let rest = partition_keys_s(full.skip(i as int + 1))->Ok_0;
                    assert(views_of(cell_keys@) =~= views_of(ck0).push(
                        cell_keys@[ck0.len() as int]@,
                    ));
                    assert(views_of(ck0).push(cell_keys@[ck0.len() as int]@) + rest.1
                        =~= views_of(ck0) + (seq![cell_keys@[ck0.len() as int]@] + rest.1));
                }
            }
        }
        i += 1;
    }
    proof {
        assert(full.skip(n as int) =~= Seq::<Seq<char>>::empty());
        if partition_keys_s(full) is Ok {
            assert(views_of(meta_keys@) + Seq::<Seq<char>>::empty() =~= views_of(meta_keys@));
            assert(views_of(cell_keys@) + Seq::<Seq<char>>::empty() =~= views_of(cell_keys@));
        }
    }
    let matcher: Option<Matcher> = match strip_regex {
        Some(p) => match Matcher::compile(p) {
            Some(m) => Some(m),
            None => {
                return Err(StripError::Configuration(p.clone()));
            },
        },
        None => None,
    };
    let mut cur = Json::Null;
    core::mem::swap(nb, &mut cur);
    let (out, err) = strip_body(
        cur,
        keep_output,
        keep_count,
        &meta_keys,
        &cell_keys,
        drop_empty_cells,
        matcher.as_ref(),
    );
    *nb = out;
    match err {
        None => Ok(true),
        Some(e) => Err(e),
    }
}

/// The whole transformation: extra keys validated and split, the pattern
/// compiled, then [`strip_tail_s`]. A pattern that does not compile and a
/// malformed extra key are configuration errors.
pub open spec fn strip_s(
    nb: JsonV,
    keep_output: bool,
    keep_count: bool,
    extra_keys: Seq<Seq<char>>,
    drop_empty: bool,
    pat: Option<Seq<char>>,
) -> Result<JsonV, ErrV> {
    match partition_keys_s(extra_keys) {
        Result::Err(e) => Result::Err(e),
        Result::Ok(split) => {
            if pat matches Some(p) && !pattern_compiles(p) {
                Result::Err(ErrV::Configuration(pat->Some_0))
            } else {
                strip_tail_s(nb, keep_output, keep_count, split.0, split.1, drop_empty, pat)
            }
        },
    }
}

} // verus!
