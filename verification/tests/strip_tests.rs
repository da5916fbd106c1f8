use nbstripout_fast::error::StripError;
use nbstripout_fast::json::Json;
use nbstripout_fast::strip::{drop_verdict, strip_output, transform};

fn obj(pairs: Vec<(&str, Json)>) -> Json {
    Json::Obj(pairs.into_iter().map(|(k, v)| (k.to_string(), v)).collect())
}

fn st(x: &str) -> Json {
    Json::Str(x.to_string())
}

fn num(n: &str) -> Json {
    Json::Num(n.to_string())
}

fn lines(xs: Vec<&str>) -> Json {
    Json::Arr(xs.into_iter().map(st).collect())
}

fn keys(xs: Vec<&str>) -> Vec<String> {
    xs.into_iter().map(|x| x.to_string()).collect()
}

fn execute_result(text: &str, count: Option<&str>) -> Json {
    let mut pairs: Vec<(&str, Json)> = vec![("output_type", st("execute_result"))];
    if let Some(c) = count {
        pairs.push(("execution_count", num(c)));
    }
    pairs.push(("data", obj(vec![("text/plain", lines(vec![text]))])));
    obj(pairs)
}

fn notebook(cells: Vec<Json>) -> Json {
    obj(vec![
        ("metadata", obj(vec![])),
        ("cells", Json::Arr(cells)),
    ])
}

fn get<'a>(node: &'a Json, key: &str) -> &'a Json {
    match node {
        Json::Obj(pairs) => &pairs.iter().find(|p| p.0 == key).expect("key").1,
        _ => panic!("not a mapping"),
    }
}

fn has(node: &Json, key: &str) -> bool {
    match node {
        Json::Obj(pairs) => pairs.iter().any(|p| p.0 == key),
        _ => false,
    }
}

fn cells(nb: &Json) -> &Vec<Json> {
    match get(nb, "cells") {
        Json::Arr(cs) => cs,
        _ => panic!("cells not an array"),
    }
}

#[test]
fn end_to_end_strips_outputs_and_count() {
    // one executed cell, default options: outputs cleared, count nulled
    let mut nb = notebook(vec![obj(vec![
        ("source", lines(vec!["print(1)"])),
        ("outputs", Json::Arr(vec![execute_result("1", Some("1"))])),
        ("execution_count", num("1")),
        ("metadata", obj(vec![])),
    ])]);
    strip_output(&mut nb, false, false, &keys(vec![]), false, None).unwrap();
    let cell = &cells(&nb)[0];
    assert_eq!(get(cell, "outputs"), &Json::Arr(vec![]));
    assert_eq!(get(cell, "execution_count"), &Json::Null);
    assert_eq!(get(cell, "source"), &lines(vec!["print(1)"]));
}

#[test]
fn strip_twice_gives_same_result() {
    let mut nb = notebook(vec![
        obj(vec![
            ("source", lines(vec!["print(1)"])),
            ("outputs", Json::Arr(vec![execute_result("1", Some("1"))])),
            ("execution_count", num("1")),
            ("metadata", obj(vec![("keep_output", Json::Bool(true))])),
            ("prompt_number", num("1")),
        ]),
        obj(vec![("source", lines(vec!["   "])), ("cell_type", st("code"))]),
    ]);
    strip_output(&mut nb, false, false, &keys(vec![]), true, None).unwrap();
    let once = format!("{:?}", nb);
    strip_output(&mut nb, false, false, &keys(vec![]), true, None).unwrap();
    assert_eq!(format!("{:?}", nb), once);
}

#[test]
fn pattern_discards_despite_keep_tag() {
    // the rendered text "Output();" matches; the other output stays kept
    let mut nb = notebook(vec![obj(vec![
        ("source", lines(vec!["display()"])),
        (
            "metadata",
            obj(vec![(
                "tags",
                Json::Arr(vec![Json::Str("keep_output".to_string())]),
            )]),
        ),
        (
            "outputs",
            Json::Arr(vec![
                execute_result("Output();", None),
                execute_result("hello", None),
            ]),
        ),
    ])]);
    let pat = "^Output\\(\\);?$".to_string();
    strip_output(&mut nb, false, false, &keys(vec![]), false, Some(&pat)).unwrap();
    let outs = match get(&cells(&nb)[0], "outputs") {
        Json::Arr(os) => os,
        _ => panic!("outputs not an array"),
    };
    assert_eq!(outs.len(), 1);
    assert_eq!(get(&outs[0], "data"), &obj(vec![("text/plain", lines(vec!["hello"]))]));
}

#[test]
fn stream_text_is_joined_for_matching() {
    // lines concatenate to "Output();" and the pattern anchors still match
    let mut nb = notebook(vec![obj(vec![
        ("source", lines(vec!["x"])),
        ("metadata", obj(vec![("keep_output", Json::Bool(true))])),
        (
            "outputs",
            Json::Arr(vec![obj(vec![
                ("output_type", st("stream")),
                ("text", lines(vec!["Out", "put();"])),
            ])]),
        ),
    ])]);
    let pat = "^Output\\(\\);?$".to_string();
    strip_output(&mut nb, false, false, &keys(vec![]), false, Some(&pat)).unwrap();
    assert_eq!(get(&cells(&nb)[0], "outputs"), &Json::Arr(vec![]));
}

#[test]
fn error_outputs_never_match() {
    let mut nb = notebook(vec![obj(vec![
        ("source", lines(vec!["x"])),
        ("metadata", obj(vec![("keep_output", Json::Bool(true))])),
        (
            "outputs",
            Json::Arr(vec![obj(vec![("output_type", st("error"))])]),
        ),
    ])]);
    let pat = ".*".to_string();
    strip_output(&mut nb, false, false, &keys(vec![]), false, Some(&pat)).unwrap();
    let outs = match get(&cells(&nb)[0], "outputs") {
        Json::Arr(os) => os,
        _ => panic!("outputs not an array"),
    };
    assert_eq!(outs.len(), 1);
}

#[test]
fn drop_empty_cells_drops_blank_sources() {
    let mut nb = notebook(vec![
        obj(vec![("source", lines(vec!["   ", "\n"]))]),
        obj(vec![("source", lines(vec!["x"]))]),
    ]);
    strip_output(&mut nb, false, false, &keys(vec![]), true, None).unwrap();
    let cs = cells(&nb);
    assert_eq!(cs.len(), 1);
    assert_eq!(get(&cs[0], "source"), &lines(vec!["x"]));
}

#[test]
fn drop_empty_cells_handles_string_source_and_unicode_space() {
    let mut nb = notebook(vec![
        obj(vec![("source", st("  \u{a0} "))]),
        obj(vec![("source", st(" x "))]),
    ]);
    strip_output(&mut nb, false, false, &keys(vec![]), true, None).unwrap();
    let cs = cells(&nb);
    assert_eq!(cs.len(), 1);
    assert_eq!(get(&cs[0], "source"), &st(" x "));
}

#[test]
fn drop_empty_cells_missing_source_is_malformed() {
    let mut nb = notebook(vec![obj(vec![("cell_type", st("code"))])]);
    let r = strip_output(&mut nb, false, false, &keys(vec![]), true, None);
    assert!(matches!(r, Err(StripError::MalformedDocument)));
}

#[test]
fn keep_count_false_nulls_counters_and_strips_output_counts() {
    let mut nb = notebook(vec![obj(vec![
        ("source", lines(vec!["x"])),
        ("metadata", obj(vec![("keep_output", Json::Bool(true))])),
        ("outputs", Json::Arr(vec![execute_result("1", Some("3"))])),
        ("execution_count", num("7")),
        ("prompt_number", num("7")),
    ])]);
    strip_output(&mut nb, false, false, &keys(vec![]), false, None).unwrap();
    let cell = &cells(&nb)[0];
    assert_eq!(get(cell, "execution_count"), &Json::Null);
    assert_eq!(get(cell, "prompt_number"), &Json::Null);
    let outs = match get(cell, "outputs") {
        Json::Arr(os) => os,
        _ => panic!("outputs not an array"),
    };
    assert_eq!(outs.len(), 1);
    assert!(!has(&outs[0], "execution_count"));
    assert!(has(&outs[0], "data"));
}

#[test]
fn keep_count_true_keeps_counters() {
    let mut nb = notebook(vec![obj(vec![
        ("source", lines(vec!["x"])),
        ("metadata", obj(vec![("keep_output", Json::Bool(true))])),
        ("outputs", Json::Arr(vec![execute_result("1", Some("3"))])),
        ("execution_count", num("7")),
    ])]);
    strip_output(&mut nb, false, true, &keys(vec![]), false, None).unwrap();
    let cell = &cells(&nb)[0];
    assert_eq!(get(cell, "execution_count"), &num("7"));
    let outs = match get(cell, "outputs") {
        Json::Arr(os) => os,
        _ => panic!("outputs not an array"),
    };
    assert_eq!(get(&outs[0], "execution_count"), &num("3"));
}

#[test]
fn extra_keys_prune_notebook_and_cell_metadata() {
    let mut nb = obj(vec![
        (
            "metadata",
            obj(vec![("signature", st("sig")), ("kernel", st("k"))]),
        ),
        (
            "cells",
            Json::Arr(vec![obj(vec![
                ("source", lines(vec!["x"])),
                (
                    "metadata",
                    obj(vec![("scrolled", Json::Bool(true)), ("kept", num("1"))]),
                ),
            ])]),
        ),
    ]);
    let ks = keys(vec!["metadata.signature", "cell.metadata.scrolled"]);
    strip_output(&mut nb, false, false, &ks, false, None).unwrap();
    let meta = get(&nb, "metadata");
    assert!(!has(meta, "signature"));
    assert!(has(meta, "kernel"));
    let cell_meta = get(&cells(&nb)[0], "metadata");
    assert!(!has(cell_meta, "scrolled"));
    assert!(has(cell_meta, "kept"));
}

#[test]
fn notebook_keep_output_flag_keeps_outputs() {
    let mut nb = obj(vec![
        ("metadata", obj(vec![("keep_output", Json::Bool(true))])),
        (
            "cells",
            Json::Arr(vec![obj(vec![
                ("source", lines(vec!["x"])),
                ("outputs", Json::Arr(vec![execute_result("1", None)])),
            ])]),
        ),
    ]);
    strip_output(&mut nb, false, false, &keys(vec![]), false, None).unwrap();
    let outs = match get(&cells(&nb)[0], "outputs") {
        Json::Arr(os) => os,
        _ => panic!("outputs not an array"),
    };
    assert_eq!(outs.len(), 1);
}

#[test]
fn extra_key_without_namespace_is_refused() {
    let mut nb = notebook(vec![]);
    let r = strip_output(&mut nb, false, false, &keys(vec!["foo"]), false, None);
    match r {
        Err(StripError::Configuration(k)) => assert_eq!(k, "foo"),
        other => panic!("unexpected: {:?}", other),
    }
}

#[test]
fn extra_key_with_unknown_namespace_is_refused() {
    let mut nb = notebook(vec![]);
    let r = strip_output(&mut nb, false, false, &keys(vec!["bogus.x"]), false, None);
    match r {
        Err(StripError::Configuration(k)) => assert_eq!(k, "bogus.x"),
        other => panic!("unexpected: {:?}", other),
    }
}

#[test]
fn invalid_pattern_is_refused() {
    let mut nb = notebook(vec![]);
    let pat = "(".to_string();
    let r = strip_output(&mut nb, false, false, &keys(vec![]), false, Some(&pat));
    match r {
        Err(StripError::Configuration(k)) => assert_eq!(k, "("),
        other => panic!("unexpected: {:?}", other),
    }
}

#[test]
fn non_mapping_notebook_metadata_is_malformed() {
    let mut nb = obj(vec![("metadata", num("5"))]);
    let r = strip_output(&mut nb, false, false, &keys(vec![]), false, None);
    assert!(matches!(r, Err(StripError::MalformedDocument)));
}

#[test]
fn non_array_outputs_are_malformed() {
    let mut nb = notebook(vec![obj(vec![
        ("source", lines(vec!["x"])),
        ("outputs", num("5")),
    ])]);
    let r = strip_output(&mut nb, false, false, &keys(vec![]), false, None);
    assert!(matches!(r, Err(StripError::MalformedDocument)));
}

#[test]
fn stream_without_text_is_malformed_under_pattern() {
    let mut nb = notebook(vec![obj(vec![
        ("source", lines(vec!["x"])),
        ("metadata", obj(vec![("keep_output", Json::Bool(true))])),
        (
            "outputs",
            Json::Arr(vec![obj(vec![("output_type", st("stream"))])]),
        ),
    ])]);
    let pat = "y".to_string();
    let r = strip_output(&mut nb, false, false, &keys(vec![]), false, Some(&pat));
    assert!(matches!(r, Err(StripError::MalformedDocument)));
}

#[test]
fn non_mapping_root_is_left_alone() {
    let mut nb = Json::Arr(vec![num("1")]);
    strip_output(&mut nb, false, false, &keys(vec![]), false, None).unwrap();
    assert_eq!(nb, Json::Arr(vec![num("1")]));
}

#[test]
fn non_array_cells_are_left_alone() {
    let mut nb = obj(vec![("cells", num("5"))]);
    strip_output(&mut nb, false, false, &keys(vec![]), false, None).unwrap();
    assert_eq!(nb, obj(vec![("cells", num("5"))]));
}

#[test]
fn non_mapping_cell_is_skipped() {
    let mut nb = notebook(vec![num("5")]);
    strip_output(&mut nb, false, false, &keys(vec![]), false, None).unwrap();
    assert_eq!(cells(&nb)[0], num("5"));
}

#[test]
fn transform_with_absent_retention_strips_all_outputs() {
    let mut cell = obj(vec![
        ("source", lines(vec!["x"])),
        ("outputs", Json::Arr(vec![execute_result("1", None)])),
    ]);
    transform(&mut cell, true, &keys(vec![]), None).unwrap();
    assert_eq!(get(&cell, "outputs"), &Json::Arr(vec![]));
}

#[test]
fn transform_keeps_by_positional_mask() {
    let mut cell = obj(vec![(
        "outputs",
        Json::Arr(vec![
            execute_result("a", None),
            execute_result("b", None),
            execute_result("c", None),
        ]),
    )]);
    let mask = vec![true, false, true];
    transform(&mut cell, true, &keys(vec![]), Some(&mask)).unwrap();
    let outs = match get(&cell, "outputs") {
        Json::Arr(os) => os,
        _ => panic!("outputs not an array"),
    };
    assert_eq!(outs.len(), 2);
    assert_eq!(get(&outs[0], "data"), &obj(vec![("text/plain", lines(vec!["a"]))]));
    assert_eq!(get(&outs[1], "data"), &obj(vec![("text/plain", lines(vec!["c"]))]));
}

#[test]
fn drop_verdict_reads_source_forms() {
    assert!(drop_verdict(&obj(vec![("source", lines(vec!["   ", "\n"]))])).unwrap());
    assert!(!drop_verdict(&obj(vec![("source", lines(vec!["x"]))])).unwrap());
    assert!(drop_verdict(&obj(vec![("source", st(""))])).unwrap());
    assert!(!drop_verdict(&num("5")).unwrap());
    assert!(matches!(
        drop_verdict(&obj(vec![("source", num("5"))])),
        Err(StripError::MalformedDocument)
    ));
}
