use meilidump::convert::{convert_streaming, convert_structured};

fn texts(v: Vec<&str>) -> Vec<String> {
    v.into_iter().map(String::from).collect()
}

#[test]
fn streaming_keeps_comma_terminated_object_lines() {
    let out = convert_streaming(&texts(vec!["{\"id\":1},"]));
    assert_eq!(out, "{\"id\":1}\n");
}

#[test]
fn streaming_drops_line_without_trailing_comma() {
    let out = convert_streaming(&texts(vec!["{\"id\":1}"]));
    assert_eq!(out, "");
}

#[test]
fn streaming_on_pretty_printed_array() {
    let src = "[\n{\"id\":1},\n{\"id\":2},\n{\"id\":3}\n]";
    let out = convert_streaming(&texts(vec![src]));
    // the last element has no trailing comma: the documented lossy edge
    assert_eq!(out, "{\"id\":1}\n{\"id\":2}\n");
}

#[test]
fn streaming_ignores_trailing_whitespace() {
    let out = convert_streaming(&texts(vec!["{\"id\":1}, \r"]));
    assert_eq!(out, "{\"id\":1}\n");
}

#[test]
fn streaming_concatenates_sources_in_order() {
    let out = convert_streaming(&texts(vec!["{\"a\":1},", "{\"b\":2},"]));
    assert_eq!(out, "{\"a\":1}\n{\"b\":2}\n");
}

#[test]
fn streaming_drops_multi_line_records() {
    let src = "[\n{\n  \"id\": 1\n},\n]";
    let out = convert_streaming(&texts(vec![src]));
    assert_eq!(out, "");
}

#[test]
fn structured_round_trip_two_records() {
    let out = convert_structured(&texts(vec!["[ {\"id\":1}, {\"id\":2} ]"])).unwrap();
    assert_eq!(out, "{\"id\":1}\n{\"id\":2}\n");
    let lines: Vec<&str> = out.lines().collect();
    assert_eq!(lines.len(), 2);
    let v0: serde_json::Value = serde_json::from_str(lines[0]).unwrap();
    let v1: serde_json::Value = serde_json::from_str(lines[1]).unwrap();
    assert_eq!(v0["id"], serde_json::Value::from(1));
    assert_eq!(v1["id"], serde_json::Value::from(2));
}

#[test]
fn structured_handles_pretty_printed_input() {
    let src = "[\n  {\n    \"id\": 1,\n    \"tags\": [\n      \"x\"\n    ]\n  }\n]";
    let out = convert_structured(&texts(vec![src])).unwrap();
    assert_eq!(out, "{\"id\":1,\"tags\":[\"x\"]}\n");
}

#[test]
fn structured_rejects_non_array() {
    assert_eq!(convert_structured(&texts(vec!["{\"id\":1}"])).unwrap_err(), 0);
    assert_eq!(convert_structured(&texts(vec!["not json"])).unwrap_err(), 0);
}

#[test]
fn structured_names_first_bad_source() {
    let r = convert_structured(&texts(vec!["[]", "{}", "[]"]));
    assert_eq!(r.unwrap_err(), 1);
}

#[test]
fn structured_concatenates_sources_in_order() {
    let out = convert_structured(&texts(vec!["[{\"a\":1}]", "[{\"b\":2}]"])).unwrap();
    assert_eq!(out, "{\"a\":1}\n{\"b\":2}\n");
}

#[test]
fn empty_array_yields_empty_output() {
    assert_eq!(convert_structured(&texts(vec!["[]"])).unwrap(), "");
    assert_eq!(convert_streaming(&texts(vec!["[]"])), "");
}

#[test]
fn converters_are_deterministic() {
    let src = texts(vec!["[{\"id\":1},{\"id\":2}]"]);
    assert_eq!(convert_structured(&src).unwrap(), convert_structured(&src).unwrap());
    let src2 = texts(vec!["{\"id\":1},"]);
    assert_eq!(convert_streaming(&src2), convert_streaming(&src2));
}
