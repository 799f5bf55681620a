use static_prebuild::embed::{asset_path, embed_block, include_json, EmbedError};

#[derive(Debug, PartialEq)]
struct TestStruct {
    test_string: String,
    test_number: f32,
}

/// What evaluating the generated block comes to: the embedded constant is
/// decoded and its fields are moved into the target type.
fn decode(data: &str) -> TestStruct {
    let document: serde_json::Value = serde_json::from_str(data).unwrap();
    TestStruct {
        test_string: document["testString"].as_str().unwrap().to_string(),
        test_number: document["testNumber"].as_f64().unwrap() as f32,
    }
}

#[test]
fn deserialize_with_macro() {
    let path = asset_path("\"static-prebuild-macros/res/test.json\"");
    assert_eq!(path, "static-prebuild-macros/res/test.json");

    let asset = "{\n    \"testString\": \"test\",\n    \"testNumber\": 35.5\n}\n";
    let block = include_json(asset, "TestStruct").unwrap();
    assert_eq!(
        block,
        "{\nconst DATA: &str = \"{\\n    \\\"testString\\\": \\\"test\\\",\\n    \\\"testNumber\\\": 35.5\\n}\\n\";\nlet deserialized: TestStruct = serde_json::from_str(DATA).unwrap();\ndeserialized\n}"
    );
    const DATA: &str = "{\n    \"testString\": \"test\",\n    \"testNumber\": 35.5\n}\n";
    assert_eq!(DATA, asset);

    let test_json_deserialized = decode(DATA);

    let test_struct = TestStruct {
        test_string: "test".to_string(),
        test_number: 35.5,
    };

    assert_eq!(test_json_deserialized, test_struct);
}

#[test]
fn embedded_block_text() {
    assert_eq!(
        embed_block("{\"a\":1}", "Settings"),
        "{\nconst DATA: &str = \"{\\\"a\\\":1}\";\nlet deserialized: Settings = serde_json::from_str(DATA).unwrap();\ndeserialized\n}"
    );
    assert_eq!(
        embed_block("", "T"),
        "{\nconst DATA: &str = \"\";\nlet deserialized: T = serde_json::from_str(DATA).unwrap();\ndeserialized\n}"
    );
}

#[test]
fn asset_is_embedded_as_it_is() {
    let asset = " [ 1 ,\n 2 , { \"k\" : null } ] ";
    let block = include_json(asset, "Items").unwrap();
    assert_eq!(block, embed_block(asset, "Items"));
    assert_eq!(
        block,
        "{\nconst DATA: &str = \" [ 1 ,\\n 2 , { \\\"k\\\" : null } ] \";\nlet deserialized: Items = serde_json::from_str(DATA).unwrap();\ndeserialized\n}"
    );
    assert_eq!(include_json("null", "T"), Ok(embed_block("null", "T")));
}

#[test]
fn refusal_says_why() {
    let message = include_json("{", "T").unwrap_err().message();
    assert_eq!(message, "Failed to deserialize: the asset is not a JSON document");
    assert!(!message.is_empty());
}

#[test]
fn asset_that_is_not_json_is_refused() {
    assert_eq!(include_json("{\"a\": ", "T"), Err(EmbedError::Malformed));
    assert_eq!(include_json("", "T"), Err(EmbedError::Malformed));
    assert_eq!(include_json("{} trailing", "T"), Err(EmbedError::Malformed));
}

#[test]
fn asset_path_drops_surrounding_quotes() {
    assert_eq!(asset_path("\"res/test.json\""), "res/test.json");
    assert_eq!(asset_path("res/test.json"), "res/test.json");
    assert_eq!(asset_path("\"\"\"a\"b\"\""), "a\"b");
    assert_eq!(asset_path("\"\""), "");
    assert_eq!(asset_path(""), "");
    assert_eq!(asset_path("\""), "");
}
