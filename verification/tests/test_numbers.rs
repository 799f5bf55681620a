use static_prebuild::record::{derive_text_buildable, record_to_code_text, FieldDescriptor, RecordDescriptor, RecordShape};
use static_prebuild::TextBuildable;
use static_prebuild::fractional::{fractional_to_code_text, Fractional, NonFinitePolicy, Precision};

/// A single-precision number as a field of a record.
pub struct Single(pub f32);

/// A double-precision number as a field of a record.
pub struct Double(pub f64);

fn fractional_of(rendering: String) -> Fractional {
    Fractional::Finite(rendering)
}

impl TextBuildable for Single {
    fn to_code_text(&self) -> String {
        let value = fractional_of(format!("{}", self.0));
        fractional_to_code_text(&value, Precision::Single, NonFinitePolicy::Reject).unwrap()
    }
}

impl TextBuildable for Double {
    fn to_code_text(&self) -> String {
        let value = fractional_of(format!("{}", self.0));
        fractional_to_code_text(&value, Precision::Double, NonFinitePolicy::Reject).unwrap()
    }
}

pub struct TestType {
    pub integer_32: i32,
    pub integer_64: i64,
    pub integer_16: i16,
    pub integer_8: i8,
    pub unsigned_integer_32: u32,
    pub unsigned_integer_64: u64,
    pub unsigned_integer_16: u16,
    pub unsigned_integer_8: u8,
    pub float_32: Single,
    pub float_64: Double,
    pub boolean: bool,
}

// The implementation that `derive_text_buildable` generates for `TestType`.
impl TextBuildable for TestType {
    fn to_code_text(&self) -> String {
        let inner = format!("integer_32: {}, integer_64: {}, integer_16: {}, integer_8: {}, unsigned_integer_32: {}, unsigned_integer_64: {}, unsigned_integer_16: {}, unsigned_integer_8: {}, float_32: {}, float_64: {}, boolean: {}, ", self.integer_32.to_code_text(), self.integer_64.to_code_text(), self.integer_16.to_code_text(), self.integer_8.to_code_text(), self.unsigned_integer_32.to_code_text(), self.unsigned_integer_64.to_code_text(), self.unsigned_integer_16.to_code_text(), self.unsigned_integer_8.to_code_text(), self.float_32.to_code_text(), self.float_64.to_code_text(), self.boolean.to_code_text(), );
        format!("{} {{ {} }}", "TestType", inner)
    }
}

fn describe_testtype() -> RecordDescriptor {
    RecordDescriptor {
        record_name: "TestType".to_string(),
        shape: RecordShape::Named(vec![
            FieldDescriptor { name: "integer_32".to_string(), declared_type: "i32".to_string() },
            FieldDescriptor { name: "integer_64".to_string(), declared_type: "i64".to_string() },
            FieldDescriptor { name: "integer_16".to_string(), declared_type: "i16".to_string() },
            FieldDescriptor { name: "integer_8".to_string(), declared_type: "i8".to_string() },
            FieldDescriptor { name: "unsigned_integer_32".to_string(), declared_type: "u32".to_string() },
            FieldDescriptor { name: "unsigned_integer_64".to_string(), declared_type: "u64".to_string() },
            FieldDescriptor { name: "unsigned_integer_16".to_string(), declared_type: "u16".to_string() },
            FieldDescriptor { name: "unsigned_integer_8".to_string(), declared_type: "u8".to_string() },
            FieldDescriptor { name: "float_32".to_string(), declared_type: "Single".to_string() },
            FieldDescriptor { name: "float_64".to_string(), declared_type: "Double".to_string() },
            FieldDescriptor { name: "boolean".to_string(), declared_type: "bool".to_string() },
        ]),
    }
}

fn without_whitespace(s: &str) -> String {
    s.chars().filter(|c| !c.is_whitespace()).collect()
}

#[test]
fn test_numbers() {
    assert_eq!(
        derive_text_buildable(&describe_testtype()).unwrap(),
        "impl TextBuildable for TestType {\n    fn to_code_text(&self) -> String {\n        let inner = format!(\"integer_32: {}, integer_64: {}, integer_16: {}, integer_8: {}, unsigned_integer_32: {}, unsigned_integer_64: {}, unsigned_integer_16: {}, unsigned_integer_8: {}, float_32: {}, float_64: {}, boolean: {}, \", self.integer_32.to_code_text(), self.integer_64.to_code_text(), self.integer_16.to_code_text(), self.integer_8.to_code_text(), self.unsigned_integer_32.to_code_text(), self.unsigned_integer_64.to_code_text(), self.unsigned_integer_16.to_code_text(), self.unsigned_integer_8.to_code_text(), self.float_32.to_code_text(), self.float_64.to_code_text(), self.boolean.to_code_text(), );\n        format!(\"{} {{ {} }}\", \"TestType\", inner)\n    }\n}\n"
    );

    let text_type = TestType {
        integer_32: 59942211,
        integer_64: 618943,
        integer_16: 123,
        integer_8: 12,
        unsigned_integer_32: 68942211,
        unsigned_integer_64: 718943,
        unsigned_integer_16: 223,
        unsigned_integer_8: 32,
        float_32: Single(35.5),
        float_64: Double(38.5),
        boolean: true,
    };

    assert_eq!(
        without_whitespace(&text_type.to_code_text()),
        without_whitespace(
            r#"
TestType {
    integer_32: 59942211_i32,
    integer_64: 618943_i64,
    integer_16: 123_i16,
    integer_8: 12_i8,
    unsigned_integer_32: 68942211_u32,
    unsigned_integer_64: 718943_u64,
    unsigned_integer_16: 223_u16,
    unsigned_integer_8: 32_u8,
    float_32: 35.5_f32,
    float_64: 38.5_f64,
    boolean: true,
}"#
        )
    );

    let value = &text_type;
    let entries = vec![
        ("integer_32".to_string(), value.integer_32.to_code_text()),
        ("integer_64".to_string(), value.integer_64.to_code_text()),
        ("integer_16".to_string(), value.integer_16.to_code_text()),
        ("integer_8".to_string(), value.integer_8.to_code_text()),
        ("unsigned_integer_32".to_string(), value.unsigned_integer_32.to_code_text()),
        ("unsigned_integer_64".to_string(), value.unsigned_integer_64.to_code_text()),
        ("unsigned_integer_16".to_string(), value.unsigned_integer_16.to_code_text()),
        ("unsigned_integer_8".to_string(), value.unsigned_integer_8.to_code_text()),
        ("float_32".to_string(), value.float_32.to_code_text()),
        ("float_64".to_string(), value.float_64.to_code_text()),
        ("boolean".to_string(), value.boolean.to_code_text()),
    ];
    assert_eq!(record_to_code_text("TestType", &entries), text_type.to_code_text());
}
