use extended_search::search_file::export::{
    export_records, import_records, Document, Element, Field, FieldName, FieldValue,
    SerializationError,
};
use extended_search::search_file::SingleFileInformations;
use serde_json::{Number, Value};

fn record(path: &str, name: &str, size: u64, time: u64, hash: &str) -> SingleFileInformations {
    SingleFileInformations {
        path: path.to_string(),
        name: name.to_string(),
        size,
        time,
        hash: hash.to_string(),
    }
}

fn sample() -> Vec<SingleFileInformations> {
    vec![
        record("/a/x/y.txt", "y.txt", 10, 1700000000, ""),
        record("/c/\"quoted\"\\\n\t é𐀀.txt", "\"quoted\"\\\n\t é𐀀.txt", u64::MAX, 0, "ab01"),
        record("", "", 0, u64::MAX, "e3b0c44298fc1c149afbf4c8996fb92427ae41e4649b934ca495991b7852b855"),
    ]
}

fn text(key: &str, value: &str) -> Field {
    Field { key: key.to_string(), value: FieldValue::Text(value.to_string()) }
}

fn number(key: &str, value: u64) -> Field {
    Field { key: key.to_string(), value: FieldValue::Number(value) }
}

fn full_record() -> Vec<Field> {
    vec![
        text("path", "/p"),
        text("name", "p"),
        number("size", 1),
        number("time", 2),
        text("hash", "h"),
    ]
}

fn to_value(document: &Document) -> Value {
    match document {
        Document::Other => Value::Null,
        Document::List(elements) => Value::Array(
            elements
                .iter()
                .map(|element| match element {
                    Element::Other => Value::Null,
                    Element::Record(fields) => {
                        let mut members = serde_json::Map::new();
                        for field in fields {
                            let value = match &field.value {
                                FieldValue::Number(n) => Value::Number(Number::from(*n)),
                                FieldValue::Text(t) => Value::String(t.clone()),
                                FieldValue::Other => Value::Null,
                            };
                            members.insert(field.key.clone(), value);
                        }
                        Value::Object(members)
                    }
                })
                .collect(),
        ),
    }
}

fn to_document(value: &Value) -> Document {
    match value {
        Value::Array(items) => Document::List(
            items
                .iter()
                .map(|item| match item {
                    Value::Object(members) => Element::Record(
                        members
                            .iter()
                            .map(|(key, value)| Field {
                                key: key.clone(),
                                value: match value {
                                    Value::String(t) => FieldValue::Text(t.clone()),
                                    Value::Number(n) => match n.as_u64() {
                                        Some(n) => FieldValue::Number(n),
                                        None => FieldValue::Other,
                                    },
                                    _ => FieldValue::Other,
                                },
                            })
                            .collect(),
                    ),
                    _ => Element::Other,
                })
                .collect(),
        ),
        _ => Document::Other,
    }
}

fn import_text(text: &str) -> Result<Vec<SingleFileInformations>, SerializationError> {
    let value: Value = serde_json::from_str(text).unwrap();
    import_records(&to_document(&value))
}

#[test]
fn export_writes_the_five_members_in_their_order() {
    let document = export_records(&vec![record("/p", "p", 1, 2, "h")]);
    assert_eq!(document, Document::List(vec![Element::Record(full_record())]));
}

#[test]
fn export_of_nothing_is_the_empty_list() {
    assert_eq!(export_records(&Vec::new()), Document::List(Vec::new()));
    assert_eq!(import_records(&Document::List(Vec::new())), Ok(Vec::new()));
}

#[test]
fn import_of_an_export_is_the_collection() {
    assert_eq!(import_records(&export_records(&sample())), Ok(sample()));
}

#[test]
fn import_of_an_export_through_text_is_the_collection() {
    let text = serde_json::to_string(&to_value(&export_records(&sample()))).unwrap();
    assert_eq!(import_text(&text), Ok(sample()));
}

#[test]
fn export_as_text_has_the_members_by_name() {
    let text = serde_json::to_string(&to_value(&export_records(&vec![record(
        "/a/b", "b", 7, 9, "",
    )])))
    .unwrap();
    let value: Value = serde_json::from_str(&text).unwrap();
    assert_eq!(value[0]["path"], Value::String("/a/b".to_string()));
    assert_eq!(value[0]["name"], Value::String("b".to_string()));
    assert_eq!(value[0]["size"].as_u64(), Some(7));
    assert_eq!(value[0]["time"].as_u64(), Some(9));
    assert_eq!(value[0]["hash"], Value::String(String::new()));
}

#[test]
fn import_reads_members_in_any_order_and_passes_over_others() {
    let text = r#"[{"hash":"","extra":[1,2],"time":2,"size":1,"name":"n","path":"/n","selected":true}]"#;
    assert_eq!(import_text(text), Ok(vec![record("/n", "n", 1, 2, "")]));
}

#[test]
fn import_of_what_is_no_list_fails() {
    assert_eq!(import_records(&Document::Other), Err(SerializationError::NotAList));
    assert_eq!(import_text(r#"{"path":"/n"}"#), Err(SerializationError::NotAList));
    assert_eq!(import_text("null"), Err(SerializationError::NotAList));
    assert_eq!(import_text("3"), Err(SerializationError::NotAList));
}

#[test]
fn import_of_an_element_that_is_no_record_fails() {
    let document =
        Document::List(vec![Element::Record(full_record()), Element::Other, Element::Other]);
    assert_eq!(import_records(&document), Err(SerializationError::NotARecord { index: 1 }));
    assert_eq!(import_text("[[]]"), Err(SerializationError::NotARecord { index: 0 }));
    assert_eq!(import_text(r#"["/a/b"]"#), Err(SerializationError::NotARecord { index: 0 }));
}

#[test]
fn import_of_a_record_that_lacks_a_member_fails() {
    let names = [
        FieldName::Path,
        FieldName::Name,
        FieldName::Size,
        FieldName::Time,
        FieldName::Hash,
    ];
    for (position, field) in names.iter().enumerate() {
        let mut fields = full_record();
        fields.remove(position);
        let document = Document::List(vec![Element::Record(full_record()), Element::Record(fields)]);
        assert_eq!(
            import_records(&document),
            Err(SerializationError::MissingField { index: 1, field: *field })
        );
    }
    assert_eq!(
        import_text("[{}]"),
        Err(SerializationError::MissingField { index: 0, field: FieldName::Path })
    );
}

#[test]
fn import_of_a_member_of_the_wrong_type_fails() {
    let wrong = [
        (0usize, number("path", 1), FieldName::Path),
        (1, number("name", 1), FieldName::Name),
        (2, text("size", "1"), FieldName::Size),
        (3, text("time", "2"), FieldName::Time),
        (4, Field { key: "hash".to_string(), value: FieldValue::Other }, FieldName::Hash),
    ];
    for (position, field, name) in wrong {
        let mut fields = full_record();
        fields[position] = field;
        assert_eq!(
            import_records(&Document::List(vec![Element::Record(fields)])),
            Err(SerializationError::WrongType { index: 0, field: name })
        );
    }
    assert_eq!(
        import_text(r#"[{"path":"/n","name":"n","size":-1,"time":2,"hash":""}]"#),
        Err(SerializationError::WrongType { index: 0, field: FieldName::Size })
    );
    assert_eq!(
        import_text(r#"[{"path":"/n","name":"n","size":1,"time":2.5,"hash":""}]"#),
        Err(SerializationError::WrongType { index: 0, field: FieldName::Time })
    );
    assert_eq!(
        import_text(r#"[{"path":"/n","name":null,"size":1,"time":2,"hash":""}]"#),
        Err(SerializationError::WrongType { index: 0, field: FieldName::Name })
    );
}

#[test]
fn import_reports_the_first_thing_that_is_wrong() {
    let mut fields = full_record();
    fields[1] = number("name", 1);
    fields.remove(4);
    let document = Document::List(vec![
        Element::Record(full_record()),
        Element::Record(fields),
        Element::Other,
    ]);
    assert_eq!(
        import_records(&document),
        Err(SerializationError::WrongType { index: 1, field: FieldName::Name })
    );
}

#[test]
fn import_takes_the_first_of_two_members_with_one_key() {
    let mut fields = full_record();
    fields.push(text("path", "/other"));
    fields.insert(0, number("time", 99));
    assert_eq!(
        import_records(&Document::List(vec![Element::Record(fields)])),
        Ok(vec![record("/p", "p", 1, 99, "h")])
    );
}

#[test]
fn field_names_are_the_keys() {
    assert_eq!(FieldName::Path.as_str(), "path");
    assert_eq!(FieldName::Name.as_str(), "name");
    assert_eq!(FieldName::Size.as_str(), "size");
    assert_eq!(FieldName::Time.as_str(), "time");
    assert_eq!(FieldName::Hash.as_str(), "hash");
}
