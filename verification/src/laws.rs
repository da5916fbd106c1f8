//! Laws of the whole transformation, chief among them: on a well-formed
//! tree, stripping with no extra keys is idempotent — a second run with the
//! same options returns the first run's result unchanged.

use vstd::prelude::*;

use crate::error::ErrV;
use crate::json::{
    get_key, has_key, key_idx, lemma_key_idx, lemma_remove_other, lemma_remove_unique,
    lemma_set_get, lemma_set_keys, lemma_set_other, lemma_set_same_value, lemma_wf_get,
    remove_key, set_key, wf_json, JsonV,
};
use crate::retain::{decision_s, decisions_s, evaluate_s, rendered_s, tag_present, flag_present, flag_true};
use crate::prune::{dot_idx, head_of, lemma_dot_idx, prune_s, tail_of};
use crate::strip::{
    drop_cells_s, drop_verdict_s, filter_mask_s, mask_of, meta_of, outputs_step_s,
    partition_keys_s, process_cell_s, process_cells_s, prune_all_s, strip_counts_s, strip_s,
    strip_tail_s, transform_s,
};

verus! {

/// The field names the engine distinguishes are distinct texts.
proof fn lemma_lit()
    ensures
        "execution_count"@ != "output_type"@,
        "execution_count"@ != "text"@,
        "execution_count"@ != "data"@,
        "execution_count"@ != "outputs"@,
        "execution_count"@ != "prompt_number"@,
        "execution_count"@ != "metadata"@,
        "execution_count"@ != "source"@,
        "prompt_number"@ != "outputs"@,
        "prompt_number"@ != "metadata"@,
        "prompt_number"@ != "source"@,
        "outputs"@ != "metadata"@,
        "outputs"@ != "source"@,
        "cells"@ != "metadata"@,
{
    reveal_strlit("execution_count");
    reveal_strlit("output_type");
    reveal_strlit("text");
    reveal_strlit("data");
    reveal_strlit("outputs");
    reveal_strlit("prompt_number");
    reveal_strlit("metadata");
    reveal_strlit("source");
    reveal_strlit("cells");
    assert("execution_count"@.len() == 15);
    assert("output_type"@.len() == 11);
    assert("text"@.len() == 4);
    assert("data"@.len() == 4);
    assert("outputs"@.len() == 7);
    assert("prompt_number"@.len() == 13);
    assert("metadata"@.len() == 8);
    assert("source"@.len() == 6);
    assert("cells"@.len() == 5);
}

/// Filtering with an all-true mask of equal length keeps everything.
proof fn lemma_filter_all_true(outs: Seq<JsonV>, keep: Seq<bool>)
    requires
        keep.len() == outs.len(),
        forall|i: int| 0 <= i < keep.len() ==> keep[i],
    ensures
        filter_mask_s(outs, keep) == outs,
    decreases outs.len(),
{
    if outs.len() > 0 {
        lemma_filter_all_true(outs.drop_first(), keep.drop_first());
        assert(keep[0]);
        assert(seq![outs[0]] + outs.drop_first() =~= outs);
    }
}

/// Filtering with an all-false mask keeps nothing.
proof fn lemma_filter_all_false(outs: Seq<JsonV>, keep: Seq<bool>)
    requires
        forall|i: int| 0 <= i < keep.len() ==> !keep[i],
    ensures
        filter_mask_s(outs, keep) == Seq::<JsonV>::empty(),
    decreases outs.len(),
{
    if outs.len() > 0 && keep.len() > 0 {
        lemma_filter_all_false(outs.drop_first(), keep.drop_first());
        assert(!keep[0]);
    }
}

/// Every kept output is well-formed and decided true, when the originals
/// kept by the mask were.
proof fn lemma_filter_kept_props(
    outs: Seq<JsonV>,
    keep: Seq<bool>,
    hf: bool,
    ht: bool,
    dflt: bool,
    p: Seq<char>,
)
    requires
        keep.len() == outs.len(),
        forall|j: int| 0 <= j < outs.len() ==> wf_json(#[trigger] outs[j]),
        forall|j: int|
            0 <= j < outs.len() && keep[j] ==> decision_s(#[trigger] outs[j], hf, ht, dflt, p)
                == Result::<bool, ErrV>::Ok(true),
    ensures
        forall|i: int|
            0 <= i < filter_mask_s(outs, keep).len() ==> wf_json(
                #[trigger] filter_mask_s(outs, keep)[i],
            ) && decision_s(filter_mask_s(outs, keep)[i], hf, ht, dflt, p) == Result::<
                bool,
                ErrV,
            >::Ok(true),
    decreases outs.len(),
{
    if outs.len() > 0 {
        let ot = outs.drop_first();
        let kt = keep.drop_first();
        assert forall|j: int| 0 <= j < ot.len() implies wf_json(#[trigger] ot[j]) && (kt[j]
            ==> decision_s(ot[j], hf, ht, dflt, p) == Result::<bool, ErrV>::Ok(true)) by {
            assert(ot[j] == outs[j + 1]);
            assert(kt[j] == keep[j + 1]);
        }
        lemma_filter_kept_props(ot, kt, hf, ht, dflt, p);
        let rest = filter_mask_s(ot, kt);
        assert forall|i: int| 0 <= i < filter_mask_s(outs, keep).len() implies wf_json(
            #[trigger] filter_mask_s(outs, keep)[i],
        ) && decision_s(filter_mask_s(outs, keep)[i], hf, ht, dflt, p) == Result::<
            bool,
            ErrV,
        >::Ok(true) by {
            if keep[0] {
                if i == 0 {
                    assert(filter_mask_s(outs, keep)[0] == outs[0]);
                } else {
                    assert(filter_mask_s(outs, keep)[i] == rest[i - 1]);
                }
            } else {
                assert(filter_mask_s(outs, keep)[i] == rest[i]);
            }
        }
    }
}

/// What count-stripping makes of each output, position by position.
proof fn lemma_strip_counts_ok(outs: Seq<JsonV>)
    requires
        strip_counts_s(outs) is Ok,
    ensures
        strip_counts_s(outs)->Ok_0.len() == outs.len(),
        forall|i: int|
            0 <= i < outs.len() ==> #[trigger] outs[i] is Obj && strip_counts_s(outs)->Ok_0[i]
                == JsonV::Obj(remove_key(outs[i]->Obj_0, "execution_count"@)),
    decreases outs.len(),
{
    if outs.len() > 0 {
        let tail = outs.drop_first();
        lemma_strip_counts_ok(tail);
        let r = strip_counts_s(outs)->Ok_0;
        let rt = strip_counts_s(tail)->Ok_0;
        assert(r == seq![JsonV::Obj(remove_key(outs[0]->Obj_0, "execution_count"@))] + rt);
        assert forall|i: int| 0 <= i < outs.len() implies #[trigger] outs[i] is Obj && r[i]
            == JsonV::Obj(remove_key(outs[i]->Obj_0, "execution_count"@)) by {
            if i >= 1 {
                assert(outs[i] == tail[i - 1]);
                assert(tail[i - 1] is Obj && rt[i - 1] == JsonV::Obj(
                    remove_key(tail[i - 1]->Obj_0, "execution_count"@),
                ));
                assert(r[i] == rt[i - 1]);
            }
        }
    }
}

/// Count-stripping outputs that are mappings without an `execution_count`
/// key is a no-op.
proof fn lemma_strip_counts_noop(outs: Seq<JsonV>)
    requires
        forall|i: int|
            0 <= i < outs.len() ==> #[trigger] outs[i] is Obj && !has_key(
                outs[i]->Obj_0,
                "execution_count"@,
            ),
    ensures
        strip_counts_s(outs) == Result::<Seq<JsonV>, ErrV>::Ok(outs),
    decreases outs.len(),
{
    if outs.len() > 0 {
        let tail = outs.drop_first();
        assert forall|i: int| 0 <= i < tail.len() implies #[trigger] tail[i] is Obj && !has_key(
            tail[i]->Obj_0,
            "execution_count"@,
        ) by {
            assert(tail[i] == outs[i + 1]);
        }
        lemma_strip_counts_noop(tail);
        assert(outs[0] is Obj && !has_key(outs[0]->Obj_0, "execution_count"@));
        assert(remove_key(outs[0]->Obj_0, "execution_count"@) == outs[0]->Obj_0);
        assert(JsonV::Obj(remove_key(outs[0]->Obj_0, "execution_count"@)) == outs[0]);
        assert(strip_counts_s(tail) == Result::<Seq<JsonV>, ErrV>::Ok(tail));
        assert(strip_counts_s(outs) == Result::<Seq<JsonV>, ErrV>::Ok(seq![outs[0]] + tail));
        assert(seq![outs[0]] + tail =~= outs);
    } else {
        assert(outs =~= Seq::<JsonV>::empty());
    }
}

/// What the decisions are, position by position.
proof fn lemma_decisions_ok(outs: Seq<JsonV>, hf: bool, ht: bool, dflt: bool, p: Seq<char>)
    requires
        decisions_s(outs, hf, ht, dflt, p) is Ok,
    ensures
        decisions_s(outs, hf, ht, dflt, p)->Ok_0.len() == outs.len(),
        forall|i: int|
            0 <= i < outs.len() ==> decision_s(#[trigger] outs[i], hf, ht, dflt, p)
                == Result::<bool, ErrV>::Ok(decisions_s(outs, hf, ht, dflt, p)->Ok_0[i]),
    decreases outs.len(),
{
    if outs.len() > 0 {
        let tail = outs.drop_first();
        lemma_decisions_ok(tail, hf, ht, dflt, p);
        let r = decisions_s(outs, hf, ht, dflt, p)->Ok_0;
        let rt = decisions_s(tail, hf, ht, dflt, p)->Ok_0;
        assert(r == seq![decision_s(outs[0], hf, ht, dflt, p)->Ok_0] + rt);
        assert forall|i: int| 0 <= i < outs.len() implies decision_s(
            #[trigger] outs[i],
            hf,
            ht,
            dflt,
            p,
        ) == Result::<bool, ErrV>::Ok(r[i]) by {
            if i >= 1 {
                assert(outs[i] == tail[i - 1]);
                assert(decision_s(tail[i - 1], hf, ht, dflt, p) == Result::<bool, ErrV>::Ok(
                    rt[i - 1],
                ));
                assert(r[i] == rt[i - 1]);
            }
        }
    }
}

/// Outputs whose decisions are each true decide to an all-true sequence.
proof fn lemma_decisions_all_true(outs: Seq<JsonV>, hf: bool, ht: bool, dflt: bool, p: Seq<char>)
    requires
        forall|i: int|
            0 <= i < outs.len() ==> decision_s(#[trigger] outs[i], hf, ht, dflt, p)
                == Result::<bool, ErrV>::Ok(true),
    ensures
        decisions_s(outs, hf, ht, dflt, p) is Ok,
        decisions_s(outs, hf, ht, dflt, p)->Ok_0.len() == outs.len(),
        forall|i: int|
            0 <= i < outs.len() ==> #[trigger] decisions_s(outs, hf, ht, dflt, p)->Ok_0[i],
    decreases outs.len(),
{
    if outs.len() > 0 {
        let tail = outs.drop_first();
        assert forall|i: int| 0 <= i < tail.len() implies decision_s(
            #[trigger] tail[i],
            hf,
            ht,
            dflt,
            p,
        ) == Result::<bool, ErrV>::Ok(true) by {
            assert(tail[i] == outs[i + 1]);
        }
        lemma_decisions_all_true(tail, hf, ht, dflt, p);
        assert(decision_s(outs[0], hf, ht, dflt, p) == Result::<bool, ErrV>::Ok(true));
        let r = decisions_s(outs, hf, ht, dflt, p)->Ok_0;
        let rt = decisions_s(tail, hf, ht, dflt, p)->Ok_0;
        assert(r == seq![true] + rt);
        assert forall|i: int| 0 <= i < outs.len() implies #[trigger] r[i] by {
            if i >= 1 {
                assert(r[i] == rt[i - 1]);
            }
        }
    }
}

/// Removing `execution_count` from an output does not change its rendered
/// text, hence not its decision either.
proof fn lemma_decision_after_remove(
    op: Seq<(Seq<char>, JsonV)>,
    hf: bool,
    ht: bool,
    dflt: bool,
    p: Seq<char>,
)
    ensures
        rendered_s(remove_key(op, "execution_count"@)) == rendered_s(op),
        decision_s(JsonV::Obj(remove_key(op, "execution_count"@)), hf, ht, dflt, p) == decision_s(
            JsonV::Obj(op),
            hf,
            ht,
            dflt,
            p,
        ),
{
    lemma_lit();
    lemma_remove_other(op, "execution_count"@, "output_type"@);
    lemma_remove_other(op, "execution_count"@, "text"@);
    lemma_remove_other(op, "execution_count"@, "data"@);
}

/// The outputs kept by a first run are stable: stripping their counts a
/// second time changes nothing.
proof fn lemma_kept2_stable(kept: Seq<JsonV>, kc: bool)
    requires
        forall|i: int| 0 <= i < kept.len() ==> wf_json(#[trigger] kept[i]),
        !kc ==> strip_counts_s(kept) is Ok,
    ensures
        !kc ==> strip_counts_s(kept)->Ok_0.len() == kept.len(),
        !kc ==> strip_counts_s(strip_counts_s(kept)->Ok_0) == Result::<Seq<JsonV>, ErrV>::Ok(
            strip_counts_s(kept)->Ok_0,
        ),
{
    if !kc {
        lemma_strip_counts_ok(kept);
        let kept2 = strip_counts_s(kept)->Ok_0;
        assert forall|i: int| 0 <= i < kept2.len() implies #[trigger] kept2[i] is Obj && !has_key(
            kept2[i]->Obj_0,
            "execution_count"@,
        ) by {
            assert(kept[i] is Obj);
            assert(wf_json(kept[i]));
            lemma_remove_unique(kept[i]->Obj_0, "execution_count"@);
        }
        lemma_strip_counts_noop(kept2);
    }
}

/// The decisions for the kept outputs stay all-true after their counts are
/// stripped.
proof fn lemma_kept2_decisions(
    kept: Seq<JsonV>,
    kc: bool,
    hf: bool,
    ht: bool,
    dflt: bool,
    p: Seq<char>,
)
    requires
        forall|i: int| 0 <= i < kept.len() ==> wf_json(#[trigger] kept[i]),
        forall|i: int|
            0 <= i < kept.len() ==> decision_s(#[trigger] kept[i], hf, ht, dflt, p) == Result::<
                bool,
                ErrV,
            >::Ok(true),
        !kc ==> strip_counts_s(kept) is Ok,
    ensures
        kc ==> ({
            &&& decisions_s(kept, hf, ht, dflt, p) is Ok
            &&& decisions_s(kept, hf, ht, dflt, p)->Ok_0.len() == kept.len()
            &&& (forall|i: int|
                0 <= i < kept.len() ==> #[trigger] decisions_s(kept, hf, ht, dflt, p)->Ok_0[i])
        }),
        !kc ==> ({
            let kept2 = strip_counts_s(kept)->Ok_0;
            &&& decisions_s(kept2, hf, ht, dflt, p) is Ok
            &&& decisions_s(kept2, hf, ht, dflt, p)->Ok_0.len() == kept2.len()
            &&& (forall|i: int|
                0 <= i < kept2.len() ==> #[trigger] decisions_s(kept2, hf, ht, dflt, p)->Ok_0[i])
        }),
{
    if kc {
        lemma_decisions_all_true(kept, hf, ht, dflt, p);
    } else {
        lemma_strip_counts_ok(kept);
        let kept2 = strip_counts_s(kept)->Ok_0;
        assert forall|i: int| 0 <= i < kept2.len() implies decision_s(
            #[trigger] kept2[i],
            hf,
            ht,
            dflt,
            p,
        ) == Result::<bool, ErrV>::Ok(true) by {
            assert(kept[i] is Obj);
            lemma_decision_after_remove(kept[i]->Obj_0, hf, ht, dflt, p);
            assert(JsonV::Obj(kept[i]->Obj_0) == kept[i]);
        }
        lemma_decisions_all_true(kept2, hf, ht, dflt, p);
    }
}

/// Clearing the two counter fields a second time changes nothing.
proof fn lemma_counts_set_stable(c1: Seq<(Seq<char>, JsonV)>, kc: bool)
    ensures
        ({
            let c2o = if !kc {
                set_key(
                    set_key(c1, "prompt_number"@, JsonV::Null),
                    "execution_count"@,
                    JsonV::Null,
                )
            } else {
                c1
            };
            (if !kc {
                set_key(
                    set_key(c2o, "prompt_number"@, JsonV::Null),
                    "execution_count"@,
                    JsonV::Null,
                )
            } else {
                c2o
            }) == c2o
        }),
{
    if !kc {
        lemma_lit();
        let a = set_key(c1, "prompt_number"@, JsonV::Null);
        let c2o = set_key(a, "execution_count"@, JsonV::Null);
        lemma_set_get(c1, "prompt_number"@, JsonV::Null);
        lemma_set_other(a, "execution_count"@, JsonV::Null, "prompt_number"@);
        if has_key(c2o, "prompt_number"@) {
            assert(get_key(c2o, "prompt_number"@) == JsonV::Null);
            lemma_set_same_value(c2o, "prompt_number"@);
        }
        let aa = set_key(c2o, "prompt_number"@, JsonV::Null);
        assert(aa == c2o);
        lemma_set_get(a, "execution_count"@, JsonV::Null);
        if has_key(c2o, "execution_count"@) {
            assert(get_key(c2o, "execution_count"@) == JsonV::Null);
            lemma_set_same_value(c2o, "execution_count"@);
        }
        assert(set_key(aa, "execution_count"@, JsonV::Null) == c2o);
    }
}

/// One cell through the pipeline a second time: the result of a first run
/// (with no cell key paths) passes through unchanged, and its drop verdict
/// is the verdict of the original cell.
proof fn lemma_process_cell_again(c: JsonV, eff: bool, kc: bool, pat: Option<Seq<char>>)
    requires
        wf_json(c),
        process_cell_s(c, eff, kc, Seq::empty(), pat) is Ok,
    ensures
        drop_verdict_s(process_cell_s(c, eff, kc, Seq::empty(), pat)->Ok_0) == drop_verdict_s(c),
        process_cell_s(
            process_cell_s(c, eff, kc, Seq::empty(), pat)->Ok_0,
            eff,
            kc,
            Seq::empty(),
            pat,
        ) == process_cell_s(c, eff, kc, Seq::empty(), pat),
{
    lemma_lit();
    let ek: Seq<Seq<char>> = Seq::empty();
    let r = process_cell_s(c, eff, kc, ek, pat);
    if c is Obj {
        let co = c->Obj_0;
        if has_key(co, "outputs"@) {
            let ov = get_key(co, "outputs"@);
            let outs = ov->Arr_0;
            let keep = evaluate_s(meta_of(co), outs, eff, pat)->Ok_0;
            let kept = filter_mask_s(outs, keep);
            let kept2 = if kc {
                kept
            } else {
                strip_counts_s(kept)->Ok_0
            };
            let c1 = set_key(co, "outputs"@, JsonV::Arr(kept2));
            let c2o = if !kc {
                set_key(
                    set_key(c1, "prompt_number"@, JsonV::Null),
                    "execution_count"@,
                    JsonV::Null,
                )
            } else {
                c1
            };
            assert(r == Result::<JsonV, ErrV>::Ok(JsonV::Obj(c2o)));
            // well-formedness of each output
            lemma_wf_get(c, "outputs"@);
            assert(wf_json(ov));
            assert(forall|j: int| 0 <= j < outs.len() ==> wf_json(#[trigger] outs[j]));
            // the structure of the transformed cell
            lemma_set_keys(co, "outputs"@, JsonV::Arr(kept2));
            lemma_set_other(co, "outputs"@, JsonV::Arr(kept2), "source"@);
            lemma_set_other(co, "outputs"@, JsonV::Arr(kept2), "metadata"@);
            lemma_set_get(co, "outputs"@, JsonV::Arr(kept2));
            if !kc {
                let a = set_key(c1, "prompt_number"@, JsonV::Null);
                lemma_set_keys(c1, "prompt_number"@, JsonV::Null);
                lemma_set_keys(a, "execution_count"@, JsonV::Null);
                lemma_set_other(c1, "prompt_number"@, JsonV::Null, "source"@);
                lemma_set_other(a, "execution_count"@, JsonV::Null, "source"@);
                lemma_set_other(c1, "prompt_number"@, JsonV::Null, "metadata"@);
                lemma_set_other(a, "execution_count"@, JsonV::Null, "metadata"@);
                lemma_set_other(c1, "prompt_number"@, JsonV::Null, "outputs"@);
                lemma_set_other(a, "execution_count"@, JsonV::Null, "outputs"@);
            }
            assert(has_key(c2o, "source"@) == has_key(co, "source"@));
            assert(has_key(co, "source"@) ==> get_key(c2o, "source"@) == get_key(co, "source"@));
            assert(drop_verdict_s(JsonV::Obj(c2o)) == drop_verdict_s(c));
            assert(meta_of(c2o) == meta_of(co));
            assert(has_key(c2o, "outputs"@));
            assert(get_key(c2o, "outputs"@) == JsonV::Arr(kept2));
            // what the second evaluation decides
            if !(meta_of(co) matches Some(mv) && mv is Obj) {
                // uniform default decisions
                assert(keep == Seq::new(outs.len(), |i: int| eff));
                if eff {
                    lemma_filter_all_true(outs, keep);
                    assert(kept == outs);
                } else {
                    lemma_filter_all_false(outs, keep);
                    assert(kept == Seq::<JsonV>::empty());
                }
                lemma_kept2_stable(kept, kc);
                let keep_b = evaluate_s(meta_of(c2o), kept2, eff, pat)->Ok_0;
                assert(keep_b == Seq::new(kept2.len(), |i: int| eff));
                if eff {
                    lemma_filter_all_true(kept2, keep_b);
                } else {
                    assert(kept2.len() == 0);
                    assert(filter_mask_s(kept2, keep_b) =~= kept2);
                }
                assert(filter_mask_s(kept2, keep_b) == kept2);
                if !kc {
                    assert(strip_counts_s(kept2) == Result::<Seq<JsonV>, ErrV>::Ok(kept2));
                }
            } else {
                let m = meta_of(co)->Some_0->Obj_0;
                let hf = flag_present(m);
                let ht = tag_present(m);
                match pat {
                    None => {
                        let b: bool = hf || ht || eff;
                        assert(forall|i: int| 0 <= i < keep.len() ==> #[trigger] keep[i] == b);
                        assert(keep.len() == outs.len());
                        if b {
                            lemma_filter_all_true(outs, keep);
                            assert(kept == outs);
                        } else {
                            lemma_filter_all_false(outs, keep);
                            assert(kept == Seq::<JsonV>::empty());
                        }
                        lemma_kept2_stable(kept, kc);
                        let keep_b = evaluate_s(meta_of(c2o), kept2, eff, pat)->Ok_0;
                        assert(forall|i: int|
                            0 <= i < keep_b.len() ==> #[trigger] keep_b[i] == b);
                        assert(keep_b.len() == kept2.len());
                        if b {
                            lemma_filter_all_true(kept2, keep_b);
                        } else {
                            assert(kept2.len() == 0);
                            assert(filter_mask_s(kept2, keep_b) =~= kept2);
                        }
                        assert(filter_mask_s(kept2, keep_b) == kept2);
                        if !kc {
                            assert(strip_counts_s(kept2) == Result::<Seq<JsonV>, ErrV>::Ok(
                                kept2,
                            ));
                        }
                    },
                    Some(p) => {
                        lemma_decisions_ok(outs, hf, ht, eff, p);
                        assert(keep.len() == outs.len());
                        lemma_filter_kept_props(outs, keep, hf, ht, eff, p);
                        assert(forall|i: int|
                            0 <= i < kept.len() ==> wf_json(#[trigger] kept[i]));
                        lemma_kept2_stable(kept, kc);
                        lemma_kept2_decisions(kept, kc, hf, ht, eff, p);
                        let keep_b = evaluate_s(meta_of(c2o), kept2, eff, pat)->Ok_0;
                        assert(keep_b == decisions_s(kept2, hf, ht, eff, p)->Ok_0);
                        assert(keep_b.len() == kept2.len());
                        assert forall|i: int| 0 <= i < keep_b.len() implies #[trigger] keep_b[i] by {
                            if kc {
                                assert(decisions_s(kept, hf, ht, eff, p)->Ok_0[i]);
                            } else {
                                assert(decisions_s(
                                    strip_counts_s(kept)->Ok_0,
                                    hf,
                                    ht,
                                    eff,
                                    p,
                                )->Ok_0[i]);
                            }
                        }
                        lemma_filter_all_true(kept2, keep_b);
                        assert(filter_mask_s(kept2, keep_b) == kept2);
                        if !kc {
                            assert(strip_counts_s(kept2) == Result::<Seq<JsonV>, ErrV>::Ok(
                                kept2,
                            ));
                        }
                    },
                }
            }
            // reassembly: writing back the same outputs and clearing the
            // counters again changes nothing
            lemma_set_same_value(c2o, "outputs"@);
            assert(set_key(c2o, "outputs"@, JsonV::Arr(kept2)) == c2o);
            lemma_counts_set_stable(c1, kc);
            assert(process_cell_s(JsonV::Obj(c2o), eff, kc, ek, pat) == Result::<
                JsonV,
                ErrV,
            >::Ok(JsonV::Obj(c2o)));
        } else {
            // no outputs: only the counters are cleared
            let c2o = if !kc {
                set_key(
                    set_key(co, "prompt_number"@, JsonV::Null),
                    "execution_count"@,
                    JsonV::Null,
                )
            } else {
                co
            };
            assert(r == Result::<JsonV, ErrV>::Ok(JsonV::Obj(c2o)));
            if !kc {
                let a = set_key(co, "prompt_number"@, JsonV::Null);
                lemma_set_keys(co, "prompt_number"@, JsonV::Null);
                lemma_set_keys(a, "execution_count"@, JsonV::Null);
                lemma_set_other(co, "prompt_number"@, JsonV::Null, "source"@);
                lemma_set_other(a, "execution_count"@, JsonV::Null, "source"@);
                lemma_set_other(co, "prompt_number"@, JsonV::Null, "outputs"@);
                lemma_set_other(a, "execution_count"@, JsonV::Null, "outputs"@);
            }
            assert(has_key(c2o, "source"@) == has_key(co, "source"@));
            assert(has_key(co, "source"@) ==> get_key(c2o, "source"@) == get_key(co, "source"@));
            assert(drop_verdict_s(JsonV::Obj(c2o)) == drop_verdict_s(c));
            assert(!has_key(c2o, "outputs"@));
            lemma_counts_set_stable(co, kc);
            assert(process_cell_s(JsonV::Obj(c2o), eff, kc, ek, pat) == Result::<
                JsonV,
                ErrV,
            >::Ok(JsonV::Obj(c2o)));
        }
    }
}

/// Surviving cells are well-formed (when the originals were) and each has
/// a false drop verdict.
proof fn lemma_drop_survivors(cs: Seq<JsonV>)
    requires
        drop_cells_s(cs) is Ok,
        forall|j: int| 0 <= j < cs.len() ==> wf_json(#[trigger] cs[j]),
    ensures
        forall|i: int|
            0 <= i < drop_cells_s(cs)->Ok_0.len() ==> wf_json(#[trigger] drop_cells_s(cs)->Ok_0[i])
                && drop_verdict_s(drop_cells_s(cs)->Ok_0[i]) == Result::<bool, ErrV>::Ok(false),
    decreases cs.len(),
{
    if cs.len() > 0 {
        let tail = cs.drop_first();
        assert forall|j: int| 0 <= j < tail.len() implies wf_json(#[trigger] tail[j]) by {
            assert(tail[j] == cs[j + 1]);
        }
        lemma_drop_survivors(tail);
        let r = drop_cells_s(cs)->Ok_0;
        let rt = drop_cells_s(tail)->Ok_0;
        let d = drop_verdict_s(cs[0])->Ok_0;
        assert forall|i: int| 0 <= i < r.len() implies wf_json(#[trigger] r[i]) && drop_verdict_s(
            r[i],
        ) == Result::<bool, ErrV>::Ok(false) by {
            if d {
                assert(r[i] == rt[i]);
            } else {
                if i == 0 {
                    assert(r[0] == cs[0]);
                } else {
                    assert(r[i] == rt[i - 1]);
                }
            }
        }
    }
}

/// Dropping cells none of which is droppable keeps them all.
proof fn lemma_drop_noop(cs: Seq<JsonV>)
    requires
        forall|i: int|
            0 <= i < cs.len() ==> drop_verdict_s(#[trigger] cs[i]) == Result::<bool, ErrV>::Ok(
                false,
            ),
    ensures
        drop_cells_s(cs) == Result::<Seq<JsonV>, ErrV>::Ok(cs),
    decreases cs.len(),
{
    if cs.len() == 0 {
        assert(cs =~= Seq::<JsonV>::empty());
    } else {
        let tail = cs.drop_first();
        assert forall|i: int| 0 <= i < tail.len() implies drop_verdict_s(#[trigger] tail[i])
            == Result::<bool, ErrV>::Ok(false) by {
            assert(tail[i] == cs[i + 1]);
        }
        lemma_drop_noop(tail);
        assert(drop_verdict_s(cs[0]) == Result::<bool, ErrV>::Ok(false));
        assert(seq![cs[0]] + tail =~= cs);
    }
}

/// What processing makes of each cell, position by position.
proof fn lemma_process_cells_ok(
    cs: Seq<JsonV>,
    eff: bool,
    kc: bool,
    ck: Seq<Seq<char>>,
    pat: Option<Seq<char>>,
)
    requires
        process_cells_s(cs, eff, kc, ck, pat) is Ok,
    ensures
        process_cells_s(cs, eff, kc, ck, pat)->Ok_0.len() == cs.len(),
        forall|i: int|
            0 <= i < cs.len() ==> process_cell_s(#[trigger] cs[i], eff, kc, ck, pat) == Result::<
                JsonV,
                ErrV,
            >::Ok(process_cells_s(cs, eff, kc, ck, pat)->Ok_0[i]),
    decreases cs.len(),
{
    if cs.len() > 0 {
        let tail = cs.drop_first();
        lemma_process_cells_ok(tail, eff, kc, ck, pat);
        let r = process_cells_s(cs, eff, kc, ck, pat)->Ok_0;
        let rt = process_cells_s(tail, eff, kc, ck, pat)->Ok_0;
        assert(r == seq![process_cell_s(cs[0], eff, kc, ck, pat)->Ok_0] + rt);
        assert forall|i: int| 0 <= i < cs.len() implies process_cell_s(
            #[trigger] cs[i],
            eff,
            kc,
            ck,
            pat,
        ) == Result::<JsonV, ErrV>::Ok(r[i]) by {
            if i >= 1 {
                assert(cs[i] == tail[i - 1]);
                assert(process_cell_s(tail[i - 1], eff, kc, ck, pat) == Result::<
                    JsonV,
                    ErrV,
                >::Ok(rt[i - 1]));
                assert(r[i] == rt[i - 1]);
            }
        }
    }
}

/// Processing cells that each pass through unchanged keeps them all
/// unchanged.
proof fn lemma_process_cells_noop(
    cs: Seq<JsonV>,
    eff: bool,
    kc: bool,
    ck: Seq<Seq<char>>,
    pat: Option<Seq<char>>,
)
    requires
        forall|i: int|
            0 <= i < cs.len() ==> process_cell_s(#[trigger] cs[i], eff, kc, ck, pat) == Result::<
                JsonV,
                ErrV,
            >::Ok(cs[i]),
    ensures
        process_cells_s(cs, eff, kc, ck, pat) == Result::<Seq<JsonV>, ErrV>::Ok(cs),
    decreases cs.len(),
{
    if cs.len() == 0 {
        assert(cs =~= Seq::<JsonV>::empty());
    } else {
        let tail = cs.drop_first();
        assert forall|i: int| 0 <= i < tail.len() implies process_cell_s(
            #[trigger] tail[i],
            eff,
            kc,
            ck,
            pat,
        ) == Result::<JsonV, ErrV>::Ok(tail[i]) by {
            assert(tail[i] == cs[i + 1]);
        }
        lemma_process_cells_noop(tail, eff, kc, ck, pat);
        assert(process_cell_s(cs[0], eff, kc, ck, pat) == Result::<JsonV, ErrV>::Ok(cs[0]));
        assert(seq![cs[0]] + tail =~= cs);
    }
}

/// Pruning a mapping, with however many paths, leaves a mapping.
proof fn lemma_prune_all_obj(j: JsonV, ks: Seq<Seq<char>>)
    requires
        j is Obj,
    ensures
        prune_all_s(j, ks) is Obj,
    decreases ks.len(),
{
    if ks.len() > 0 {
        lemma_prune_all_obj(prune_s(j, ks[0]).0, ks.drop_first());
    }
}

/// Pruning with a path other than `k` keeps an entry `k` whose value is
/// not itself a mapping, value and all.
proof fn lemma_prune_keeps_nonobj(m: Seq<(Seq<char>, JsonV)>, p: Seq<char>, k: Seq<char>)
    requires
        p != k,
        has_key(m, k),
        !(get_key(m, k) is Obj),
    ensures
        prune_s(JsonV::Obj(m), p).0 is Obj,
        has_key(prune_s(JsonV::Obj(m), p).0->Obj_0, k),
        get_key(prune_s(JsonV::Obj(m), p).0->Obj_0, k) == get_key(m, k),
{
    lemma_dot_idx(p);
    if has_key(m, p) {
        lemma_remove_other(m, p, k);
    } else if dot_idx(p) != -1 && has_key(m, head_of(p)) {
        let h = head_of(p);
        let child = prune_s(get_key(m, h), tail_of(p)).0;
        if h == k {
            assert(child == get_key(m, k));
            lemma_set_get(m, k, child);
            lemma_key_idx(m, k);
            lemma_set_same_value(m, k);
        } else {
            lemma_set_other(m, h, child, k);
        }
    }
}

/// Pruning with any number of paths, none of them `k`, keeps an entry `k`
/// whose value is not itself a mapping.
proof fn lemma_prune_all_keeps_nonobj(j: JsonV, ks: Seq<Seq<char>>, k: Seq<char>)
    requires
        j is Obj,
        has_key(j->Obj_0, k),
        !(get_key(j->Obj_0, k) is Obj),
        !ks.contains(k),
    ensures
        prune_all_s(j, ks) is Obj,
        has_key(prune_all_s(j, ks)->Obj_0, k),
        get_key(prune_all_s(j, ks)->Obj_0, k) == get_key(j->Obj_0, k),
    decreases ks.len(),
{
    if ks.len() > 0 {
        assert(ks[0] != k);
        lemma_prune_keeps_nonobj(j->Obj_0, ks[0], k);
        let j1 = prune_s(j, ks[0]).0;
        assert(!ks.drop_first().contains(k)) by {
            if ks.drop_first().contains(k) {
                let i = choose|i: int|
                    0 <= i < ks.drop_first().len() && ks.drop_first()[i] == k;
                assert(ks[i + 1] == k);
            }
        }
        lemma_prune_all_keeps_nonobj(j1, ks.drop_first(), k);
    }
}

/// Filtering keeps only well-formed outputs when the originals were.
proof fn lemma_filter_wf(outs: Seq<JsonV>, keep: Seq<bool>)
    requires
        forall|j: int| 0 <= j < outs.len() ==> wf_json(#[trigger] outs[j]),
    ensures
        forall|i: int|
            0 <= i < filter_mask_s(outs, keep).len() ==> wf_json(
                #[trigger] filter_mask_s(outs, keep)[i],
            ),
    decreases outs.len(),
{
    if outs.len() > 0 && keep.len() > 0 {
        let ot = outs.drop_first();
        let kt = keep.drop_first();
        assert forall|j: int| 0 <= j < ot.len() implies wf_json(#[trigger] ot[j]) by {
            assert(ot[j] == outs[j + 1]);
        }
        lemma_filter_wf(ot, kt);
        let rest = filter_mask_s(ot, kt);
        assert forall|i: int| 0 <= i < filter_mask_s(outs, keep).len() implies wf_json(
            #[trigger] filter_mask_s(outs, keep)[i],
        ) by {
            if keep[0] {
                if i == 0 {
                    assert(filter_mask_s(outs, keep)[0] == outs[0]);
                } else {
                    assert(filter_mask_s(outs, keep)[i] == rest[i - 1]);
                }
            } else {
                assert(filter_mask_s(outs, keep)[i] == rest[i]);
            }
        }
    }
}

/// Law: with counts not kept, the transformed cell's `prompt_number` and
/// `execution_count` fields are set to null where the cell has them, and
/// every retained output carries no `execution_count` key. (The paths to
/// prune may not name those fields themselves: pruning removes a field
/// rather than nulling it.)
pub proof fn lemma_counts_cleared(
    cell: JsonV,
    cell_keys: Seq<Seq<char>>,
    retention: Option<Seq<bool>>,
)
    requires
        wf_json(cell),
        cell is Obj,
        transform_s(cell, false, cell_keys, retention) is Ok,
        !cell_keys.contains("execution_count"@),
        !cell_keys.contains("prompt_number"@),
        !cell_keys.contains("outputs"@),
    ensures
        ({
            let r = transform_s(cell, false, cell_keys, retention)->Ok_0;
            &&& r is Obj
            &&& (has_key(cell->Obj_0, "execution_count"@) ==> has_key(
                r->Obj_0,
                "execution_count"@,
            ) && get_key(r->Obj_0, "execution_count"@) == JsonV::Null)
            &&& (has_key(cell->Obj_0, "prompt_number"@) ==> has_key(r->Obj_0, "prompt_number"@)
                && get_key(r->Obj_0, "prompt_number"@) == JsonV::Null)
            &&& (has_key(cell->Obj_0, "outputs"@) ==> has_key(r->Obj_0, "outputs"@)
                && get_key(r->Obj_0, "outputs"@) is Arr && (forall|i: int|
                0 <= i < get_key(r->Obj_0, "outputs"@)->Arr_0.len() ==> {
                    &&& #[trigger] get_key(r->Obj_0, "outputs"@)->Arr_0[i] is Obj
                    &&& !has_key(
                        get_key(r->Obj_0, "outputs"@)->Arr_0[i]->Obj_0,
                        "execution_count"@,
                    )
                }))
        }),
{
    lemma_lit();
    let co = cell->Obj_0;
    let step = outputs_step_s(co, false, retention);
    let c1 = step->Ok_0;
    let a = set_key(c1, "prompt_number"@, JsonV::Null);
    let c2o = set_key(a, "execution_count"@, JsonV::Null);
    assert(transform_s(cell, false, cell_keys, retention) == Result::<JsonV, ErrV>::Ok(
        prune_all_s(JsonV::Obj(c2o), cell_keys),
    ));
    // the outputs step leaves the two counter fields alone
    if has_key(co, "outputs"@) {
        let outs = get_key(co, "outputs"@)->Arr_0;
        let kept = filter_mask_s(outs, mask_of(retention));
        let kept2 = strip_counts_s(kept)->Ok_0;
        assert(c1 == set_key(co, "outputs"@, JsonV::Arr(kept2)));
        lemma_set_other(co, "outputs"@, JsonV::Arr(kept2), "execution_count"@);
        lemma_set_other(co, "outputs"@, JsonV::Arr(kept2), "prompt_number"@);
        lemma_set_get(co, "outputs"@, JsonV::Arr(kept2));
        // every retained output is a mapping without the count
        lemma_wf_get(cell, "outputs"@);
        assert(forall|j: int| 0 <= j < outs.len() ==> wf_json(#[trigger] outs[j]));
        lemma_filter_wf(outs, mask_of(retention));
        assert(forall|j: int| 0 <= j < kept.len() ==> wf_json(#[trigger] kept[j]));
        lemma_kept2_stable(kept, false);
        lemma_strip_counts_ok(kept);
        assert forall|i: int| 0 <= i < kept2.len() implies #[trigger] kept2[i] is Obj && !has_key(
            kept2[i]->Obj_0,
            "execution_count"@,
        ) by {
            assert(wf_json(kept[i]));
            lemma_remove_unique(kept[i]->Obj_0, "execution_count"@);
        }
    } else {
        assert(c1 == co);
    }
    // the counter fields read null after the clearing step
    lemma_set_get(c1, "prompt_number"@, JsonV::Null);
    lemma_set_other(a, "execution_count"@, JsonV::Null, "prompt_number"@);
    lemma_set_get(a, "execution_count"@, JsonV::Null);
    lemma_set_other(c1, "prompt_number"@, JsonV::Null, "execution_count"@);
    lemma_set_other(c1, "prompt_number"@, JsonV::Null, "outputs"@);
    lemma_set_other(a, "execution_count"@, JsonV::Null, "outputs"@);
    // pruning with other paths keeps all three entries as they are
    if has_key(co, "execution_count"@) {
        assert(has_key(c2o, "execution_count"@) && get_key(c2o, "execution_count"@)
            == JsonV::Null);
        lemma_prune_all_keeps_nonobj(JsonV::Obj(c2o), cell_keys, "execution_count"@);
    }
    if has_key(co, "prompt_number"@) {
        assert(has_key(c2o, "prompt_number"@) && get_key(c2o, "prompt_number"@) == JsonV::Null);
        lemma_prune_all_keeps_nonobj(JsonV::Obj(c2o), cell_keys, "prompt_number"@);
    }
    lemma_prune_all_obj(JsonV::Obj(c2o), cell_keys);
    if has_key(co, "outputs"@) {
        lemma_prune_all_keeps_nonobj(JsonV::Obj(c2o), cell_keys, "outputs"@);
        let outs = get_key(co, "outputs"@)->Arr_0;
        let kept = filter_mask_s(outs, mask_of(retention));
        let kept2 = strip_counts_s(kept)->Ok_0;
        let r = prune_all_s(JsonV::Obj(c2o), cell_keys);
        assert(get_key(r->Obj_0, "outputs"@) == JsonV::Arr(kept2));
        assert forall|i: int|
            0 <= i < get_key(r->Obj_0, "outputs"@)->Arr_0.len() implies {
            &&& #[trigger] get_key(r->Obj_0, "outputs"@)->Arr_0[i] is Obj
            &&& !has_key(get_key(r->Obj_0, "outputs"@)->Arr_0[i]->Obj_0, "execution_count"@)
        } by {
            assert(get_key(r->Obj_0, "outputs"@)->Arr_0[i] == kept2[i]);
            assert(kept2[i] is Obj && !has_key(kept2[i]->Obj_0, "execution_count"@));
        }
    }
}

/// Law: on a well-formed tree, stripping with no extra keys is idempotent —
/// when a strip succeeds, stripping its result again with the same options
/// succeeds and returns that result unchanged. (With extra keys the law
/// does not hold: pruning a dotted path can expose a second, nested target
/// for the next run, and pruning `metadata.keep_output` changes what the
/// next run takes for the effective keep-output default.)
pub proof fn lemma_strip_idempotent(
    nb: JsonV,
    keep_output: bool,
    keep_count: bool,
    drop_empty: bool,
    pat: Option<Seq<char>>,
)
    requires
        wf_json(nb),
        strip_s(nb, keep_output, keep_count, Seq::empty(), drop_empty, pat) is Ok,
    ensures
        strip_s(
            strip_s(nb, keep_output, keep_count, Seq::empty(), drop_empty, pat)->Ok_0,
            keep_output,
            keep_count,
            Seq::empty(),
            drop_empty,
            pat,
        ) == strip_s(nb, keep_output, keep_count, Seq::empty(), drop_empty, pat),
{
    lemma_lit();
    let ek: Seq<Seq<char>> = Seq::empty();
    let kc = keep_count;
    let rv = strip_s(nb, keep_output, kc, ek, drop_empty, pat)->Ok_0;
    if nb is Obj {
        let n = nb->Obj_0;
        if has_key(n, "metadata"@) {
            assert(prune_all_s(get_key(n, "metadata"@), ek) == get_key(n, "metadata"@));
            lemma_set_same_value(n, "metadata"@);
        }
        let eff = keep_output || (has_key(n, "metadata"@) && flag_true(
            get_key(n, "metadata"@)->Obj_0,
        ));
        if !has_key(n, "cells"@) || !(get_key(n, "cells"@) is Arr) {
            assert(rv == nb);
        } else {
            let cells0 = get_key(n, "cells"@)->Arr_0;
            lemma_wf_get(nb, "cells"@);
            assert(wf_json(JsonV::Arr(cells0)));
            assert(forall|j: int| 0 <= j < cells0.len() ==> wf_json(#[trigger] cells0[j]));
            let cells1 = if drop_empty {
                drop_cells_s(cells0)->Ok_0
            } else {
                cells0
            };
            if drop_empty {
                lemma_drop_survivors(cells0);
            }
            assert(forall|j: int| 0 <= j < cells1.len() ==> wf_json(#[trigger] cells1[j]));
            let cells2 = process_cells_s(cells1, eff, kc, ek, pat)->Ok_0;
            lemma_process_cells_ok(cells1, eff, kc, ek, pat);
            assert forall|i: int| 0 <= i < cells2.len() implies process_cell_s(
                #[trigger] cells2[i],
                eff,
                kc,
                ek,
                pat,
            ) == Result::<JsonV, ErrV>::Ok(cells2[i]) && (drop_empty ==> drop_verdict_s(
                cells2[i],
            ) == Result::<bool, ErrV>::Ok(false)) by {
                assert(process_cell_s(cells1[i], eff, kc, ek, pat) == Result::<JsonV, ErrV>::Ok(
                    cells2[i],
                ));
                lemma_process_cell_again(cells1[i], eff, kc, pat);
            }
            let n2 = set_key(n, "cells"@, JsonV::Arr(cells2));
            assert(rv == JsonV::Obj(n2));
            // the second run sees the same metadata and the same cells
            lemma_set_other(n, "cells"@, JsonV::Arr(cells2), "metadata"@);
            lemma_set_get(n, "cells"@, JsonV::Arr(cells2));
            if has_key(n2, "metadata"@) {
                assert(prune_all_s(get_key(n2, "metadata"@), ek) == get_key(n2, "metadata"@));
                lemma_set_same_value(n2, "metadata"@);
            }
            assert((keep_output || (has_key(n2, "metadata"@) && flag_true(
                get_key(n2, "metadata"@)->Obj_0,
            ))) == eff);
            assert(has_key(n2, "cells"@));
            assert(get_key(n2, "cells"@) == JsonV::Arr(cells2));
            if drop_empty {
                lemma_drop_noop(cells2);
            }
            lemma_process_cells_noop(cells2, eff, kc, ek, pat);
            lemma_set_same_value(n2, "cells"@);
            assert(set_key(n2, "cells"@, JsonV::Arr(cells2)) == n2);
            assert(strip_s(rv, keep_output, kc, ek, drop_empty, pat) == Result::<
                JsonV,
                ErrV,
            >::Ok(rv));
        }
    }
}

} // verus!
