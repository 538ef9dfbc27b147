use couchbase_lite::Document;

#[test]
fn new_document() {
    let doc_id = String::from("foo");
    let doc = Document::new(doc_id.clone());
    assert_eq!(doc_id, doc.id());
    assert_eq!(0, doc.sequence());
    assert_eq!("{}", doc.jsonify());
}

#[test]
fn add_new_property_in_document() {
    let doc_id = String::from("foo");
    let mut doc = Document::new(doc_id);
    doc.set_value(String::from("val1"), String::from("prop1"));
    assert_eq!("{\"prop1\":\"val1\"}", doc.jsonify());

    // Add new property
    doc.set_value(String::from("val2"), String::from("prop2"));
    assert_eq!("{\"prop1\":\"val1\",\"prop2\":\"val2\"}", doc.jsonify());
}

#[test]
fn fill_document_from_json_string() {
    let doc_id = String::from("foo");
    let mut doc = Document::new(doc_id);
    let status = doc.fill(String::from("{\"prop1\":\"val1\",\"prop2\":\"val2\"}"));
    assert_eq!(true, status.is_ok());
    let status = status.unwrap();
    assert_eq!(true, status);
    assert_eq!("{\"prop1\":\"val1\",\"prop2\":\"val2\"}", doc.jsonify());
}

#[test]
fn fill_document_from_json_struct() {
    let mut person = serde_json::Map::new();
    person.insert(
        "first_name".to_string(),
        serde_json::Value::String("James".to_string()),
    );
    person.insert(
        "last_name".to_string(),
        serde_json::Value::String("Bomb".to_string()),
    );
    let person = serde_json::Value::Object(person);

    let doc_id = String::from("foo");
    let mut doc = Document::new(doc_id);
    let status = doc.fill(serde_json::to_string_pretty(&person).unwrap());
    assert_eq!(true, status.is_ok());
    let status = status.unwrap();
    assert_eq!(true, status);
    assert_eq!("{\"first_name\":\"James\",\"last_name\":\"Bomb\"}", doc.jsonify());
}

#[test]
fn fill_rejects_malformed_form() {
    let mut doc = Document::new(String::from("foo"));
    doc.set_value(String::from("kept"), String::from("prop"));
    assert!(doc.fill(String::from("not json")).is_err());
    assert!(doc.fill(String::from("{\"a\":\"b\"")).is_err());
    assert!(doc.fill(String::from("{\"a\":\"b\"} trailing")).is_err());
    assert!(doc.fill(String::from("\"just a string\"")).is_err());
    // A non-string value lies outside the library's serialized dialect.
    assert!(doc.fill(String::from("{\"a\":1}")).is_err());
    // The failed replacements left the bag untouched.
    assert_eq!("{\"prop\":\"kept\"}", doc.jsonify());
}

#[test]
fn fill_resolves_repeated_keys_last_wins() {
    let mut doc = Document::new(String::from("foo"));
    assert_eq!(Ok(true), doc.fill(String::from("{\"a\":\"b\",\"a\":\"c\"}")));
    assert_eq!("{\"a\":\"c\"}", doc.jsonify());
    assert_eq!(
        Ok(true),
        doc.fill(String::from("{\"a\":\"1\",\"b\":\"2\",\"a\":\"3\"}"))
    );
    assert_eq!("{\"a\":\"3\",\"b\":\"2\"}", doc.jsonify());
}

#[test]
fn serialization_escapes_quotes_and_backslashes() {
    let mut doc = Document::new(String::from("foo"));
    doc.set_value(String::from("say \"hi\""), String::from("quote"));
    doc.set_value(String::from("a\\b"), String::from("slash"));
    assert_eq!("{\"quote\":\"say \\\"hi\\\"\",\"slash\":\"a\\\\b\"}", doc.jsonify());

    // The canonical form parses back to the same bag.
    let text = doc.jsonify();
    let mut other = Document::new(String::from("bar"));
    assert_eq!(Ok(true), other.fill(text));
    assert_eq!(doc.jsonify(), other.jsonify());
}

#[test]
fn set_value_overwrites_in_place() {
    let mut doc = Document::new(String::from("foo"));
    doc.set_value(String::from("1"), String::from("a"));
    doc.set_value(String::from("2"), String::from("b"));
    doc.set_value(String::from("3"), String::from("a"));
    assert_eq!("{\"a\":\"3\",\"b\":\"2\"}", doc.jsonify());
}

#[test]
fn fill_accepts_empty_object() {
    let mut doc = Document::new(String::from("foo"));
    doc.set_value(String::from("v"), String::from("k"));
    assert_eq!(Ok(true), doc.fill(String::from("  { }  ")));
    assert_eq!("{}", doc.jsonify());
}
