use couchbase_lite::BatchOp;
use couchbase_lite::BatchOutcome;
use couchbase_lite::Database;
use couchbase_lite::Document;

fn test_dir() -> String {
    String::from("/tmp/testdb/session")
}

#[test]
fn test_open_database() {
    let database_name = String::from("testdb");
    let test_dir = test_dir();
    let database = Database::open(test_dir.clone(), &database_name.clone());
    assert_eq!(true, database.is_ok());
    let database = database.unwrap();
    assert_eq!(database_name, database.get_name());
    assert_eq!(format!("{}/{}.cblite2/", test_dir, database_name), database.get_path());
    assert_eq!(0, database.count());
}

fn open_database() -> Database {
    let database_name = String::from("testdb");
    let database = Database::open(test_dir(), &database_name);
    assert_eq!(true, database.is_ok());
    database.unwrap()
}

#[test]
fn save_empty_document() {
    let mut database = open_database();
    let doc_id = String::from("foo");
    let doc = Document::new(doc_id);
    let saved = database.save_document(doc);
    assert_eq!(true, saved.is_err());
}

#[test]
fn save_document_with_property() {
    let mut database = open_database();
    let doc_id = String::from("foo");
    {
        let mut doc = Document::new(doc_id.clone());
        doc.set_value(String::from("Howdy!"), String::from("greeting"));
        assert_eq!("{\"greeting\":\"Howdy!\"}", doc.jsonify());

        let saved = database.save_document(doc);
        assert_eq!(true, saved.is_ok());
        let saved = saved.unwrap();
        assert_eq!(doc_id, saved.id());
        assert_eq!(1, saved.sequence());
        assert_eq!("{\"greeting\":\"Howdy!\"}", saved.jsonify());
    }
    {
        let doc = database.get_document(doc_id.clone());
        assert_eq!(true, doc.is_some());
        let doc = doc.unwrap();
        assert_eq!(doc_id, doc.id());
        assert_eq!(1, doc.sequence());
        assert_eq!("{\"greeting\":\"Howdy!\"}", doc.jsonify());
    }
}

#[test]
fn test_index() {
    let mut database = open_database();
    for i in 0..10000 {
        let mut doc = Document::new(format!("id_{}", i));
        doc.set_value(format!("Howdy{}!", i), String::from("greeting"));
        let saved = database.save_document(doc);
        assert!(saved.is_ok());
    }

    let query = database
        .new_query("SELECT _id AS id, _rev as rev, * AS patient WHERE greeting='Howdy1!'".to_string())
        .unwrap();
    let mut rs = query.execute(&database).unwrap();
    assert!(rs.has_next());

    let created = database.create_index("greeting_index", "[[\".greeting\"]]");
    assert!(created.is_ok());

    let mut rs = query.execute(&database).unwrap();
    assert!(rs.has_next());
}

#[test]
fn save_document_from_json() {
    let mut person = serde_json::Map::new();
    person.insert(
        "first_name".to_string(),
        serde_json::Value::String("James".to_string()),
    );
    person.insert(
        "last_name".to_string(),
        serde_json::Value::String("Bomb".to_string()),
    );
    let person = serde_json::Value::Object(person);

    let mut database = open_database();
    let doc_id = String::from("foo");
    let mut doc = Document::new(doc_id.clone());
    doc.fill(serde_json::to_string_pretty(&person).unwrap()).unwrap();
    assert_eq!("{\"first_name\":\"James\",\"last_name\":\"Bomb\"}", doc.jsonify());

    let saved = database.save_document(doc);
    assert_eq!(true, saved.is_ok());
    let saved = saved.unwrap();
    assert_eq!(doc_id, saved.id());
    assert_eq!(1, saved.sequence());
    assert_eq!("{\"first_name\":\"James\",\"last_name\":\"Bomb\"}", saved.jsonify());
}

#[test]
fn update_existing_document_with_existing_property() {
    let mut database = open_database();
    let doc_id = String::from("foo");
    {
        let mut doc = Document::new(doc_id.clone());
        doc.set_value(String::from("val1"), String::from("prop1"));
        assert_eq!("{\"prop1\":\"val1\"}", doc.jsonify());

        let saved = database.save_document(doc);
        assert_eq!(true, saved.is_ok());
        let mut saved = saved.unwrap();
        assert_eq!(doc_id, saved.id());
        assert_eq!(1, saved.sequence());
        assert_eq!("{\"prop1\":\"val1\"}", saved.jsonify());

        saved.set_value(String::from("val2"), String::from("prop1"));
        database.save_document(saved).unwrap();
    }
    {
        let doc = database.get_document(doc_id.clone());
        assert_eq!(true, doc.is_some());
        let doc = doc.unwrap();
        assert_eq!(doc_id, doc.id());
        assert_eq!(2, doc.sequence());
        assert_eq!("{\"prop1\":\"val2\"}", doc.jsonify());
    }
}

#[test]
fn update_existing_document_with_new_property() {
    let mut database = open_database();
    let doc_id = String::from("foo");
    {
        // Create document, saved as one batch
        let mut doc = Document::new(doc_id.clone());
        doc.set_value(String::from("val1"), String::from("prop1"));
        assert_eq!("{\"prop1\":\"val1\"}", doc.jsonify());
        let outcomes = database.in_batch_with_result(vec![BatchOp::Save(doc)]);
        assert_eq!(true, outcomes.is_ok());
        let outcomes = outcomes.unwrap();
        assert_eq!(1, outcomes.len());
        match &outcomes[0] {
            BatchOutcome::Saved(saved) => {
                assert_eq!(doc_id, saved.id());
                assert_eq!(1, saved.sequence());
                assert_eq!("{\"prop1\":\"val1\"}", saved.jsonify());
            }
            BatchOutcome::Deleted(_) => panic!("expected a saved document"),
        }
    }
    {
        // Update document: add new property
        let doc = database.get_document(doc_id.clone());
        assert_eq!(true, doc.is_some());
        let mut doc = doc.unwrap();
        doc.set_value(String::from("val2"), String::from("prop2"));
        database.in_batch(vec![BatchOp::Save(doc)]).unwrap();
    }
    {
        // Verify document
        let doc = database.get_document(doc_id.clone());
        assert_eq!(true, doc.is_some());
        let doc = doc.unwrap();
        assert_eq!(doc_id, doc.id());
        assert_eq!(2, doc.sequence());
        assert_eq!("{\"prop1\":\"val1\",\"prop2\":\"val2\"}", doc.jsonify());
    }
}

fn pretty(pairs: &[(&str, &str)]) -> String {
    let mut map = serde_json::Map::new();
    for (k, v) in pairs {
        map.insert(k.to_string(), serde_json::Value::String(v.to_string()));
    }
    serde_json::to_string_pretty(&serde_json::Value::Object(map)).unwrap()
}

#[test]
fn multiple_update_document() {
    let doc_id = String::from("foo");
    let mut database = open_database();
    {
        // Create document
        let mut doc = Document::new(doc_id.clone());
        doc.fill(pretty(&[("prop1", "val1")])).unwrap();
        assert_eq!("{\"prop1\":\"val1\"}", doc.jsonify());
        let saved = database.save_document(doc);
        assert_eq!(true, saved.is_ok());
        let saved = saved.unwrap();
        assert_eq!(doc_id, saved.id());
        assert_eq!(1, saved.sequence());
        assert_eq!("{\"prop1\":\"val1\"}", saved.jsonify());
    }
    {
        // First update
        let mut doc = database.get_document(doc_id.clone()).unwrap();
        doc.fill(pretty(&[("prop1", "val1"), ("prop2", "val2")])).unwrap();
        let saved = database.in_batch_with_result(vec![BatchOp::Save(doc)]);
        assert_eq!(true, saved.is_ok());
        let doc = database.get_document(doc_id.clone());
        assert_eq!(true, doc.is_some());
        let doc = doc.unwrap();
        assert_eq!(doc_id, doc.id());
        assert_eq!(2, doc.sequence());
        assert_eq!("{\"prop1\":\"val1\",\"prop2\":\"val2\"}", doc.jsonify());
    }
    {
        // Second update
        let mut doc = database.get_document(doc_id.clone()).unwrap();
        doc.fill(pretty(&[("prop1", "val1"), ("prop2", "val2"), ("prop3", "val3")])).unwrap();
        assert_eq!("{\"prop1\":\"val1\",\"prop2\":\"val2\",\"prop3\":\"val3\"}", doc.jsonify());
        let saved = database.in_batch_with_result(vec![BatchOp::Save(doc)]);
        assert_eq!(true, saved.is_ok());
        let doc = database.get_document(doc_id.clone());
        assert_eq!(true, doc.is_some());
        let doc = doc.unwrap();
        assert_eq!(doc_id, doc.id());
        assert_eq!(3, doc.sequence());
        assert_eq!("{\"prop1\":\"val1\",\"prop2\":\"val2\",\"prop3\":\"val3\"}", doc.jsonify());
    }
    {
        // Third update
        let mut doc = database.get_document(doc_id.clone()).unwrap();
        doc.fill(pretty(&[("prop1", "val1"), ("prop2", "val2"), ("prop3", "val3"), ("prop4", "val4")]))
            .unwrap();
        assert_eq!(
            "{\"prop1\":\"val1\",\"prop2\":\"val2\",\"prop3\":\"val3\",\"prop4\":\"val4\"}",
            doc.jsonify()
        );
        let saved = database.in_batch_with_result(vec![BatchOp::Save(doc)]);
        assert_eq!(true, saved.is_ok());
        let doc = database.get_document(doc_id.clone());
        assert_eq!(true, doc.is_some());
        let doc = doc.unwrap();
        assert_eq!(doc_id, doc.id());
        assert_eq!(4, doc.sequence());
        assert_eq!(
            "{\"prop1\":\"val1\",\"prop2\":\"val2\",\"prop3\":\"val3\",\"prop4\":\"val4\"}",
            doc.jsonify()
        );
    }
}

fn compact(pairs: &[(&str, &str)]) -> String {
    let mut map = serde_json::Map::new();
    for (k, v) in pairs {
        map.insert(k.to_string(), serde_json::Value::String(v.to_string()));
    }
    serde_json::Value::Object(map).to_string()
}

#[test]
fn delete_document() {
    let mut database = open_database();
    let doc_id = String::from("foo");
    {
        let mut doc = Document::new(doc_id.clone());
        doc.fill(compact(&[("prop1", "val1")])).unwrap();
        let saved = database.save_document(doc);
        assert_eq!(true, saved.is_ok());
        let saved = saved.unwrap();
        assert_eq!(doc_id, saved.id());
        assert_eq!(1, saved.sequence());
        assert_eq!(compact(&[("prop1", "val1")]), saved.jsonify());
    }
    {
        let document = database.get_document(doc_id.clone()).unwrap();
        let deleted = database.delete_document(document);
        assert!(deleted.is_ok());
        assert!(deleted.unwrap());
    }
    {
        let document = database.get_document(doc_id);
        assert!(document.is_none());
    }
}

#[test]
fn get_existing_document() {
    let mut database = open_database();
    let doc_id = String::from("foo");
    {
        let mut doc = Document::new(doc_id.clone());
        doc.fill(compact(&[("prop1", "val1")])).unwrap();
        let saved = database.save_document(doc);
        assert_eq!(true, saved.is_ok());
        let saved = saved.unwrap();
        assert_eq!(doc_id, saved.id());
        assert_eq!(1, saved.sequence());
        assert_eq!(compact(&[("prop1", "val1")]), saved.jsonify());
    }
    {
        let document = database.get_document(doc_id.clone()).unwrap();
        assert_eq!(doc_id, document.id());
    }
}

#[test]
fn get_inexisting_document() {
    let database = open_database();
    let doc_id = String::from("inexisting");
    let document = database.get_document(doc_id);
    assert!(document.is_none());
}
