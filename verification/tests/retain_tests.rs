use nbstripout_fast::error::StripError;
use nbstripout_fast::json::Json;
use nbstripout_fast::retain::determine_keep_output;

fn meta_obj(pairs: Vec<(&str, Json)>) -> Json {
    Json::Obj(pairs.into_iter().map(|(k, v)| (k.to_string(), v)).collect())
}

fn three_outputs() -> Vec<Json> {
    vec![Json::Null, Json::Null, Json::Null]
}

#[test]
fn absent_metadata_uses_default() {
    let outs = three_outputs();
    assert_eq!(
        determine_keep_output(None, &outs, false, None).unwrap(),
        vec![false, false, false]
    );
    assert_eq!(
        determine_keep_output(None, &outs, true, None).unwrap(),
        vec![true, true, true]
    );
}

#[test]
fn non_mapping_metadata_uses_default() {
    let outs = three_outputs();
    let m = Json::Str("odd".to_string());
    assert_eq!(
        determine_keep_output(Some(&m), &outs, false, None).unwrap(),
        vec![false, false, false]
    );
}

#[test]
fn flag_presence_keeps_even_when_false() {
    let outs = three_outputs();
    let m = meta_obj(vec![("keep_output", Json::Bool(false))]);
    assert_eq!(
        determine_keep_output(Some(&m), &outs, false, None).unwrap(),
        vec![true, true, true]
    );
}

#[test]
fn tag_keeps() {
    let outs = three_outputs();
    let m = meta_obj(vec![(
        "tags",
        Json::Arr(vec![Json::Str("keep_output".to_string())]),
    )]);
    assert_eq!(
        determine_keep_output(Some(&m), &outs, false, None).unwrap(),
        vec![true, true, true]
    );
}

#[test]
fn contradictory_metadata_is_refused() {
    let outs = three_outputs();
    let m = meta_obj(vec![
        ("keep_output", Json::Bool(false)),
        ("tags", Json::Arr(vec![Json::Str("keep_output".to_string())])),
    ]);
    let r = determine_keep_output(Some(&m), &outs, true, None);
    assert!(matches!(r, Err(StripError::ContradictoryMetadata)));
}

#[test]
fn non_array_tags_carry_no_tag() {
    let outs = three_outputs();
    let m = meta_obj(vec![("tags", Json::Num("5".to_string()))]);
    assert_eq!(
        determine_keep_output(Some(&m), &outs, false, None).unwrap(),
        vec![false, false, false]
    );
}

#[test]
fn non_boolean_flag_still_counts_as_present() {
    let outs = three_outputs();
    let m = meta_obj(vec![("keep_output", Json::Str("yes".to_string()))]);
    assert_eq!(
        determine_keep_output(Some(&m), &outs, false, None).unwrap(),
        vec![true, true, true]
    );
}

#[test]
fn empty_outputs_give_empty_decisions() {
    let outs: Vec<Json> = vec![];
    let m = meta_obj(vec![("keep_output", Json::Bool(true))]);
    assert_eq!(
        determine_keep_output(Some(&m), &outs, false, None).unwrap(),
        Vec::<bool>::new()
    );
}
