use static_prebuild::record::{derive_text_buildable, record_to_code_text, FieldDescriptor, RecordDescriptor, RecordShape};
use static_prebuild::TextBuildable;

pub struct TestType {
    pub hm: std::collections::HashMap<String, i32>,
}

// The implementation that `derive_text_buildable` generates for `TestType`.
impl TextBuildable for TestType {
    fn to_code_text(&self) -> String {
        let inner = format!("hm: {}, ", self.hm.to_code_text(), );
        format!("{} {{ {} }}", "TestType", inner)
    }
}

fn describe_testtype() -> RecordDescriptor {
    RecordDescriptor {
        record_name: "TestType".to_string(),
        shape: RecordShape::Named(vec![
            FieldDescriptor { name: "hm".to_string(), declared_type: "std::collections::HashMap<String, i32>".to_string() },
        ]),
    }
}

fn without_whitespace(s: &str) -> String {
    s.chars().filter(|c| !c.is_whitespace()).collect()
}

#[test]
fn test_hashmap() {
    assert_eq!(
        derive_text_buildable(&describe_testtype()).unwrap(),
        "impl TextBuildable for TestType {\n    fn to_code_text(&self) -> String {\n        let inner = format!(\"hm: {}, \", self.hm.to_code_text(), );\n        format!(\"{} {{ {} }}\", \"TestType\", inner)\n    }\n}\n"
    );

    let text_type = TestType {
        hm: {
            let mut hm = std::collections::HashMap::new();
            // One entry to avoid ordering issues
            hm.insert("one".to_string(), 1);
            hm
        },
    };

    assert_eq!(
        without_whitespace(&text_type.to_code_text()),
        without_whitespace(
            r#"
TestType {
    hm: {
        let mut hm = std::collections::HashMap::new();
        hm.insert("one".to_string(), 1_i32);
        hm
    },
}"#
        )
    );

    let value = &text_type;
    let entries = vec![
        ("hm".to_string(), value.hm.to_code_text()),
    ];
    assert_eq!(record_to_code_text("TestType", &entries), text_type.to_code_text());
}
