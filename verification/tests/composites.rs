use static_prebuild::composite::{
    mapping_to_code_text, option_to_code_text, result_to_code_text, sequence_to_code_text,
};
use static_prebuild::TextBuildable;
use std::collections::HashMap;

#[test]
fn optional_values() {
    assert_eq!(Some(5u8).to_code_text(), "Some(5_u8)");
    assert_eq!(None::<u8>.to_code_text(), "None");
    assert_eq!(Some("x".to_string()).to_code_text(), "Some(\"x\".to_string())");
    assert_eq!(Some(Some(false)).to_code_text(), "Some(Some(false))");
    assert_eq!(Some(None::<i32>).to_code_text(), "Some(None)");
    assert_eq!(option_to_code_text(Some("inner")), "Some(inner)");
    assert_eq!(option_to_code_text(Some("")), "Some()");
    assert_eq!(option_to_code_text(None), "None");
}

#[test]
fn fallible_results() {
    let success: Result<i32, String> = Ok(123);
    let failure: Result<i32, String> = Err("error".to_string());
    assert_eq!(success.to_code_text(), "Ok(123_i32)");
    assert_eq!(failure.to_code_text(), "Err(\"error\".to_string())");
    assert_eq!(result_to_code_text(Ok("a")), "Ok(a)");
    assert_eq!(result_to_code_text(Err("b")), "Err(b)");
    let nested: Result<Option<u8>, Result<bool, i8>> = Err(Ok(true));
    assert_eq!(nested.to_code_text(), "Err(Ok(true))");
}

#[test]
fn sequences_keep_their_order() {
    assert_eq!(vec![1i32, 2, 3].to_code_text(), "vec![\n1_i32,\n2_i32,\n3_i32,\n]");
    assert_eq!(vec![3i32, 2, 1].to_code_text(), "vec![\n3_i32,\n2_i32,\n1_i32,\n]");
    assert_eq!(vec![7u64].to_code_text(), "vec![\n7_u64,\n]");
    assert_eq!(
        vec![Some(1u8), None].to_code_text(),
        "vec![\nSome(1_u8),\nNone,\n]"
    );
    assert_eq!(
        vec![vec![true], vec![]].to_code_text(),
        "vec![\nvec![\ntrue,\n],\nvec![\n],\n]"
    );
    assert_eq!(
        sequence_to_code_text(&vec!["a".to_string(), "b".to_string()]),
        "vec![\na,\nb,\n]"
    );
}

#[test]
fn empty_sequence() {
    assert_eq!(Vec::<i32>::new().to_code_text(), "vec![\n]");
    assert_eq!(sequence_to_code_text(&Vec::new()), "vec![\n]");
    let rebuilt: Vec<i32> = vec![
    ];
    assert_eq!(rebuilt, Vec::<i32>::new());
}

#[test]
fn sequence_round_trip() {
    let written = vec![1i32, 2, 3];
    let text = written.to_code_text();
    let body = text.strip_prefix("vec![\n").unwrap().strip_suffix("]").unwrap();
    let mut rebuilt = Vec::new();
    for line in body.lines() {
        let digits = line.strip_suffix(",").unwrap().strip_suffix("_i32").unwrap();
        rebuilt.push(digits.parse::<i32>().unwrap());
    }
    assert_eq!(rebuilt, written);
}

#[test]
fn empty_mapping() {
    let map: HashMap<u8, u8> = HashMap::new();
    assert_eq!(
        map.to_code_text(),
        "{\nlet mut hm = std::collections::HashMap::new();\nhm\n}"
    );
    assert_eq!(
        mapping_to_code_text(&Vec::new()),
        "{\nlet mut hm = std::collections::HashMap::new();\nhm\n}"
    );
}

#[test]
fn mapping_of_one_entry() {
    let mut map = HashMap::new();
    map.insert("one".to_string(), 1i32);
    assert_eq!(
        map.to_code_text(),
        "{\nlet mut hm = std::collections::HashMap::new();\nhm.insert(\"one\".to_string(), 1_i32);\nhm\n}"
    );
}

#[test]
fn mapping_statements_in_given_order() {
    let entries = vec![
        ("k1".to_string(), "v1".to_string()),
        ("k2".to_string(), "v2".to_string()),
    ];
    assert_eq!(
        mapping_to_code_text(&entries),
        "{\nlet mut hm = std::collections::HashMap::new();\nhm.insert(k1, v1);\nhm.insert(k2, v2);\nhm\n}"
    );
}

/// Carries out the insertions of a mapping block whose keys are `u32` and
/// whose values are `i64` literals.
fn evaluate(text: &str) -> HashMap<u32, i64> {
    let body = text
        .strip_prefix("{\nlet mut hm = std::collections::HashMap::new();\n")
        .unwrap()
        .strip_suffix("hm\n}")
        .unwrap();
    let mut hm = HashMap::new();
    for line in body.lines() {
        let arguments = line.strip_prefix("hm.insert(").unwrap().strip_suffix(");").unwrap();
        let (key, value) = arguments.split_once(", ").unwrap();
        let key = key.strip_suffix("_u32").unwrap().parse::<u32>().unwrap();
        let value = value.strip_suffix("_i64").unwrap().parse::<i64>().unwrap();
        assert_eq!(hm.insert(key, value), None);
    }
    hm
}

#[test]
fn mapping_round_trip_whatever_the_order() {
    let mut map: HashMap<u32, i64> = HashMap::new();
    for key in 0..200u32 {
        map.insert(key * 7919 % 1009, -(key as i64) * 3);
    }
    let text = map.to_code_text();
    assert_eq!(text.lines().count(), map.len() + 4);
    assert_eq!(evaluate(&text), map);

    let forwards = "{\nlet mut hm = std::collections::HashMap::new();\nhm.insert(1_u32, 10_i64);\nhm.insert(2_u32, 20_i64);\nhm\n}";
    let backwards = "{\nlet mut hm = std::collections::HashMap::new();\nhm.insert(2_u32, 20_i64);\nhm.insert(1_u32, 10_i64);\nhm\n}";
    assert_eq!(evaluate(forwards), evaluate(backwards));
}

#[test]
fn mapping_inside_containers() {
    let mut inner = HashMap::new();
    inner.insert(1u8, vec![true]);
    let value = Some(inner);
    assert_eq!(
        value.to_code_text(),
        "Some({\nlet mut hm = std::collections::HashMap::new();\nhm.insert(1_u8, vec![\ntrue,\n]);\nhm\n})"
    );
}
