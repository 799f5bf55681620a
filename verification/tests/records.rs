use static_prebuild::record::{
    derive_text_buildable, field_labels_of, implementation_for, record_to_code_text,
    FieldDescriptor, GenerationError, RecordDescriptor, RecordShape,
};
use static_prebuild::TextBuildable;

fn field(name: &str, declared_type: &str) -> FieldDescriptor {
    FieldDescriptor { name: name.to_string(), declared_type: declared_type.to_string() }
}

pub struct Point(pub i32, pub i32);

// The implementation that `derive_text_buildable` generates for `Point`.
impl TextBuildable for Point {
    fn to_code_text(&self) -> String {
        let inner = format!("0: {}, 1: {}, ", self.0.to_code_text(), self.1.to_code_text(), );
        format!("{} {{ {} }}", "Point", inner)
    }
}

pub struct Marker;

// The implementation that `derive_text_buildable` generates for `Marker`.
impl TextBuildable for Marker {
    fn to_code_text(&self) -> String {
        let inner = format!("", );
        format!("{} {{ {} }}", "Marker", inner)
    }
}

#[test]
fn enumerated_shape_is_rejected() {
    let descriptor = RecordDescriptor {
        record_name: "Colour".to_string(),
        shape: RecordShape::Enumerated,
    };
    assert_eq!(derive_text_buildable(&descriptor), Err(GenerationError::UnsupportedShape));
    let unnamed = RecordDescriptor { record_name: String::new(), shape: RecordShape::Enumerated };
    assert_eq!(derive_text_buildable(&unnamed), Err(GenerationError::UnsupportedShape));
}

#[test]
fn rejection_says_which_shapes_are_supported() {
    let descriptor = RecordDescriptor {
        record_name: "Colour".to_string(),
        shape: RecordShape::Enumerated,
    };
    let message = derive_text_buildable(&descriptor).unwrap_err().message();
    assert_eq!(
        message,
        "TextBuildable can only be derived for a plain record: a struct with named fields, with positional fields or without fields"
    );
    assert!(!message.is_empty());
}

#[test]
fn positional_fields_are_labelled_by_place() {
    let fields: Vec<FieldDescriptor> = (0..12).map(|_| field("", "u8")).collect();
    let labels = field_labels_of(&RecordShape::Positional(fields));
    let expected: Vec<String> = (0..12).map(|place| format!("{}", place)).collect();
    assert_eq!(labels, expected);
}

#[test]
fn positional_record() {
    let descriptor = RecordDescriptor {
        record_name: "Point".to_string(),
        shape: RecordShape::Positional(vec![field("", "i32"), field("", "i32")]),
    };
    assert_eq!(
        derive_text_buildable(&descriptor).unwrap(),
        "impl TextBuildable for Point {\n    fn to_code_text(&self) -> String {\n        let inner = format!(\"0: {}, 1: {}, \", self.0.to_code_text(), self.1.to_code_text(), );\n        format!(\"{} {{ {} }}\", \"Point\", inner)\n    }\n}\n"
    );
    let point = Point(3, -4);
    assert_eq!(point.to_code_text(), "Point { 0: 3_i32, 1: -4_i32,  }");
    let rebuilt = Point { 0: 3_i32, 1: -4_i32, };
    assert_eq!((rebuilt.0, rebuilt.1), (point.0, point.1));
}

#[test]
fn empty_record() {
    let descriptor = RecordDescriptor { record_name: "Marker".to_string(), shape: RecordShape::Empty };
    assert_eq!(
        derive_text_buildable(&descriptor).unwrap(),
        "impl TextBuildable for Marker {\n    fn to_code_text(&self) -> String {\n        let inner = format!(\"\", );\n        format!(\"{} {{ {} }}\", \"Marker\", inner)\n    }\n}\n"
    );
    assert_eq!(Marker.to_code_text(), "Marker {  }");
    assert_eq!(record_to_code_text("Marker", &Vec::new()), "Marker {  }");
    let _rebuilt = Marker {  };
}

#[test]
fn named_record_without_fields() {
    let descriptor = RecordDescriptor {
        record_name: "Nothing".to_string(),
        shape: RecordShape::Named(Vec::new()),
    };
    assert_eq!(
        derive_text_buildable(&descriptor).unwrap(),
        implementation_for("Nothing", &Vec::new())
    );
}

#[test]
fn labels_follow_the_shape() {
    let fields = || vec![field("first", "u8"), field("second", "String"), field("third", "bool")];
    assert_eq!(field_labels_of(&RecordShape::Named(fields())), vec!["first", "second", "third"]);
    assert_eq!(field_labels_of(&RecordShape::Positional(fields())), vec!["0", "1", "2"]);
    assert_eq!(field_labels_of(&RecordShape::Empty), Vec::<String>::new());
    assert_eq!(field_labels_of(&RecordShape::Enumerated), Vec::<String>::new());
}

#[test]
fn every_field_once_and_in_order() {
    let labels: Vec<String> = vec!["b".to_string(), "a".to_string(), "c".to_string()];
    let text = implementation_for("Triple", &labels);
    assert_eq!(
        text,
        "impl TextBuildable for Triple {\n    fn to_code_text(&self) -> String {\n        let inner = format!(\"b: {}, a: {}, c: {}, \", self.b.to_code_text(), self.a.to_code_text(), self.c.to_code_text(), );\n        format!(\"{} {{ {} }}\", \"Triple\", inner)\n    }\n}\n"
    );
    for label in ["a", "b", "c"] {
        assert_eq!(text.matches(&format!("self.{}.to_code_text()", label)).count(), 1);
        assert_eq!(text.matches(&format!("{}: {{}}, ", label)).count(), 1);
    }
}

#[test]
fn record_literal_text() {
    let entries = vec![
        ("s".to_string(), "\"test\".to_string()".to_string()),
        ("n".to_string(), "5_u8".to_string()),
    ];
    assert_eq!(
        record_to_code_text("TestType", &entries),
        "TestType { s: \"test\".to_string(), n: 5_u8,  }"
    );
}

#[test]
fn generation_is_independent_of_earlier_calls() {
    let first = RecordDescriptor {
        record_name: "A".to_string(),
        shape: RecordShape::Named(vec![field("x", "u8")]),
    };
    let second = RecordDescriptor {
        record_name: "B".to_string(),
        shape: RecordShape::Named(vec![field("y", "u8")]),
    };
    let alone = derive_text_buildable(&second).unwrap();
    let _ = derive_text_buildable(&first).unwrap();
    assert_eq!(derive_text_buildable(&RecordDescriptor { record_name: "E".to_string(), shape: RecordShape::Enumerated }), Err(GenerationError::UnsupportedShape));
    assert_eq!(derive_text_buildable(&second).unwrap(), alone);
}
