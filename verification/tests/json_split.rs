use workbench::json_split::{split_elements, split_json_array};

#[test]
fn json_array_is_split_into_compact_pieces() {
    let text = r#"[1, "a,b", {"k": [2, 3]}, null, 4.5]"#;
    let pieces = split_json_array(text, None, Some(2)).expect("an array");
    assert_eq!(pieces, vec![r#"[1,"a,b"]"#, r#"[{"k":[2,3]},null]"#, "[4.5]"]);
}

#[test]
fn pieces_match_serde_json_serialisation_of_chunks() {
    let text = r#"[true, "x\ny", [], {"a": 1, "b": "c"}, -7, 1e3, "é"]"#;
    let value: serde_json::Value = serde_json::from_str(text).unwrap();
    let array = value.as_array().unwrap();
    for size in 1..9 {
        let pieces = split_json_array(text, None, Some(size)).unwrap();
        let expected: Vec<String> = array.chunks(size).map(|c| serde_json::to_string(c).unwrap()).collect();
        assert_eq!(pieces, expected);
    }
    let by_amount = split_json_array(text, Some(3), None).unwrap();
    let expected: Vec<String> = array.chunks(7 / 3).map(|c| serde_json::to_string(c).unwrap()).collect();
    assert_eq!(by_amount, expected);
}

#[test]
fn non_arrays_and_zero_sizes_give_none() {
    assert_eq!(split_json_array("{\"a\": 1}", None, None), None);
    assert_eq!(split_json_array("[1, 2", None, None), None);
    assert_eq!(split_json_array("[1, 2]", None, Some(0)), None);
    assert_eq!(split_json_array("[1, 2]", Some(3), None), None);
    assert_eq!(split_json_array("[]", None, None), Some(vec![]));
    assert_eq!(split_json_array("[1, 2]", None, None), Some(vec!["[1]".to_string(), "[2]".to_string()]));
}

#[test]
fn elements_are_joined_with_commas() {
    let elems = vec!["1".to_string(), "\"s\"".to_string(), "[]".to_string()];
    assert_eq!(split_elements(&elems, 2), vec!["[1,\"s\"]".to_string(), "[[]]".to_string()]);
    assert_eq!(split_elements(&elems, 5), vec!["[1,\"s\",[]]".to_string()]);
    assert!(split_elements(&vec![], 3).is_empty());
}
