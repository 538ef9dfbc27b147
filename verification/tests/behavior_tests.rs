use couchbase_lite::Authenticator;
use couchbase_lite::BatchOp;
use couchbase_lite::CouchbaseLiteError;
use couchbase_lite::Database;
use couchbase_lite::Document;
use couchbase_lite::Person;
use couchbase_lite::Replicator;

fn open_database() -> Database {
    Database::open(String::from("/tmp/testdb/session"), "testdb").unwrap()
}

#[test]
fn save_rejects_empty_document_whatever_came_before() {
    let mut database = open_database();
    // A fresh, never-filled document is rejected.
    let empty = Document::new(String::from("a"));
    assert!(matches!(
        database.save_document(empty),
        Err(CouchbaseLiteError::CannotSaveEmptyDocument)
    ));
    // A document that once had properties and was emptied again is rejected too.
    let mut doc = Document::new(String::from("b"));
    doc.set_value(String::from("v"), String::from("k"));
    let saved = database.save_document(doc).unwrap();
    let mut fetched = database.get_document(String::from("b")).unwrap();
    assert_eq!(saved.sequence(), fetched.sequence());
    fetched.fill(String::from("{}")).unwrap();
    assert!(matches!(
        database.save_document(fetched),
        Err(CouchbaseLiteError::CannotSaveEmptyDocument)
    ));
}

#[test]
fn sequences_grow_strictly_and_round_trip() {
    let mut database = open_database();
    let mut doc = Document::new(String::from("foo"));
    doc.set_value(String::from("Howdy!"), String::from("greeting"));
    let first = database.save_document(doc).unwrap();
    assert_eq!(1, first.sequence());
    assert_eq!("{\"greeting\":\"Howdy!\"}", first.jsonify());

    // Reload: identical serialized form.
    let reloaded = database.get_document(String::from("foo")).unwrap();
    assert_eq!(first.jsonify(), reloaded.jsonify());

    // Saving the persisted document again strictly increases the sequence.
    let second = database.save_document(reloaded).unwrap();
    assert!(second.sequence() > first.sequence());
    assert_eq!(2, second.sequence());
}

#[test]
fn deleted_and_never_created_ids_fetch_alike() {
    let mut database = open_database();
    let mut doc = Document::new(String::from("foo"));
    doc.set_value(String::from("v"), String::from("k"));
    database.save_document(doc).unwrap();
    let fetched = database.get_document(String::from("foo")).unwrap();
    assert!(database.delete_document(fetched).unwrap());
    // Both fetches return None; nothing tells the two ids apart.
    assert!(database.get_document(String::from("foo")).is_none());
    assert!(database.get_document(String::from("never-created")).is_none());
}

#[test]
fn three_record_batch_rolls_back_as_a_whole() {
    let mut database = open_database();
    let before = database.count();

    let mut a = Document::new(String::from("a"));
    a.set_value(String::from("1"), String::from("v"));
    let b = Document::new(String::from("b"));  // empty: its save fails
    let mut c = Document::new(String::from("c"));
    c.set_value(String::from("3"), String::from("v"));

    let outcome = database.in_batch(vec![BatchOp::Save(a), BatchOp::Save(b), BatchOp::Save(c)]);
    assert!(matches!(outcome, Err(CouchbaseLiteError::ErrorInBatch(_))));

    // All-or-nothing: the count is as before and the first save is gone too.
    assert_eq!(before, database.count());
    assert!(database.get_document(String::from("a")).is_none());
}

#[test]
fn error_values_start_zeroed() {
    let e = couchbase_lite::init_error();
    assert_eq!(0, e.domain);
    assert_eq!(0, e.code);
    assert_eq!(0, e.internal_info);
}

#[test]
fn close_is_idempotent() {
    let mut database = open_database();
    assert!(database.close().is_ok());
    assert!(database.close().is_ok());
}

#[test]
fn closed_session_fails_fast() {
    let mut database = open_database();
    let mut doc = Document::new(String::from("foo"));
    doc.set_value(String::from("v"), String::from("k"));
    database.save_document(doc).unwrap();
    database.close().unwrap();

    let mut late = Document::new(String::from("bar"));
    late.set_value(String::from("v"), String::from("k"));
    assert!(matches!(
        database.save_document(late),
        Err(CouchbaseLiteError::CannotSaveDocument(_))
    ));
    assert!(matches!(
        database.new_query("SELECT _id".to_string()),
        Err(CouchbaseLiteError::CannotCreateNewQuery(_))
    ));
    assert!(matches!(
        database.create_index("i", "[[\".k\"]]"),
        Err(CouchbaseLiteError::CannotCreateIndex(_))
    ));
    assert!(matches!(
        database.in_batch(vec![]),
        Err(CouchbaseLiteError::ErrorInBatch(_))
    ));
    assert!(database.get_document(String::from("foo")).is_none());
}

#[test]
fn open_rejects_invalid_names() {
    assert!(matches!(
        Database::open(String::from("/tmp"), ""),
        Err(CouchbaseLiteError::CannotOpenDatabase(_))
    ));
    assert!(matches!(
        Database::open(String::from("/tmp"), "bad/name"),
        Err(CouchbaseLiteError::CannotOpenDatabase(_))
    ));
    assert!(Database::open(String::from("/tmp"), "good_name-7").is_ok());
}

#[test]
fn delete_database_clears_and_closes() {
    let mut database = open_database();
    let mut doc = Document::new(String::from("foo"));
    doc.set_value(String::from("v"), String::from("k"));
    database.save_document(doc).unwrap();
    assert_eq!(1, database.count());
    assert!(database.delete().is_ok());
    assert_eq!(0, database.count());
    // A second delete fails: the session is already closed.
    assert!(matches!(
        database.delete(),
        Err(CouchbaseLiteError::CannotDeleteDatabase(_))
    ));
}

#[test]
fn delete_unknown_document_fails() {
    let mut database = open_database();
    let doc = Document::new(String::from("ghost"));
    assert!(matches!(
        database.delete_document(doc),
        Err(CouchbaseLiteError::CannotDeleteDocument(_))
    ));
}

#[test]
fn create_index_checks_the_key_expression() {
    let mut database = open_database();
    assert!(database.create_index("good", "[[\".greeting\"]]").is_ok());
    assert!(database.create_index("two_paths", "[[\".a\", \".b\"], [\".c\"]]").is_ok());
    assert!(matches!(
        database.create_index("bad", "not json"),
        Err(CouchbaseLiteError::CannotCreateIndex(_))
    ));
    assert!(matches!(
        database.create_index("bad", "[\".greeting\"]"),
        Err(CouchbaseLiteError::CannotCreateIndex(_))
    ));
    assert!(matches!(
        database.create_index("bad", "[[]]"),
        Err(CouchbaseLiteError::CannotCreateIndex(_))
    ));
}

#[test]
fn query_compile_errors() {
    let database = open_database();
    assert!(matches!(
        database.new_query("SELEC _id".to_string()),
        Err(CouchbaseLiteError::CannotCreateNewQuery(_))
    ));
    assert!(matches!(
        database.new_query("SELECT".to_string()),
        Err(CouchbaseLiteError::CannotCreateNewQuery(_))
    ));
    assert!(matches!(
        database.new_query("SELECT _id WHERE k=unquoted".to_string()),
        Err(CouchbaseLiteError::CannotCreateNewQuery(_))
    ));
    assert!(database.new_query("select _id as id".to_string()).is_ok());
}

#[test]
fn query_compile_errors_report_a_position() {
    let database = open_database();
    // The keyword itself is wrong: the parse stops where it should start.
    match database.new_query("SELEC _id".to_string()) {
        Err(CouchbaseLiteError::CannotCreateNewQuery(e)) => assert_eq!(0, e.internal_info),
        _ => panic!("expected a compile error"),
    }
    // The filter value is unquoted: the parse stops at the bare word.
    match database.new_query("SELECT _id WHERE k=unquoted".to_string()) {
        Err(CouchbaseLiteError::CannotCreateNewQuery(e)) => assert_eq!(19, e.internal_info),
        _ => panic!("expected a compile error"),
    }
    // The literal is unterminated: the parse stops at the end of the string.
    match database.new_query("SELECT _id WHERE k='abc".to_string()) {
        Err(CouchbaseLiteError::CannotCreateNewQuery(e)) => assert_eq!(23, e.internal_info),
        _ => panic!("expected a compile error"),
    }
}

#[test]
fn query_execute_on_closed_session_fails() {
    let mut database = open_database();
    let query = database.new_query("SELECT _id AS id".to_string()).unwrap();
    database.close().unwrap();
    assert!(matches!(
        query.execute(&database),
        Err(CouchbaseLiteError::CannotExecuteQuery(_))
    ));
}

#[test]
fn query_rows_expose_scalars_and_compounds() {
    let mut database = open_database();
    let mut doc = Document::new(String::from("foo"));
    doc.set_value(String::from("Howdy!"), String::from("greeting"));
    database.save_document(doc).unwrap();

    let query = database
        .new_query("SELECT _id AS id, _rev AS rev, * AS patient, greeting".to_string())
        .unwrap();
    let mut rs = query.execute(&database).unwrap();
    assert!(rs.has_next());
    assert_eq!("foo", rs.value("id".to_string()));
    assert_eq!("1", rs.value("rev".to_string()));
    assert_eq!("{\"greeting\":\"Howdy!\"}", rs.value("patient".to_string()));
    assert_eq!("Howdy!", rs.value("greeting".to_string()));
    assert!(!rs.has_next());
    assert!(!rs.has_next());
}

#[test]
fn index_changes_no_query_results() {
    let mut database = open_database();
    for i in 0..10 {
        let mut doc = Document::new(format!("id_{}", i));
        doc.set_value(format!("Howdy{}!", i), String::from("greeting"));
        database.save_document(doc).unwrap();
    }
    let query = database
        .new_query("SELECT _id AS id WHERE greeting='Howdy1!'".to_string())
        .unwrap();

    let mut before = Vec::new();
    let mut rs = query.execute(&database).unwrap();
    while rs.has_next() {
        before.push(rs.value("id".to_string()));
    }

    database.create_index("greeting_index", "[[\".greeting\"]]").unwrap();

    let mut after = Vec::new();
    let mut rs = query.execute(&database).unwrap();
    while rs.has_next() {
        after.push(rs.value("id".to_string()));
    }

    assert_eq!(before, after);
    assert_eq!(vec!["id_1".to_string()], after);
}

#[test]
fn full_document_lifecycle() {
    let mut database = open_database();

    // Create "foo" with one greeting and save: first sequence.
    let mut doc = database.create_document(String::from("foo"));
    doc.set_value(String::from("Howdy!"), String::from("greeting"));
    let saved = database.save_document(doc).unwrap();
    assert_eq!(1, saved.sequence());
    assert_eq!("{\"greeting\":\"Howdy!\"}", saved.jsonify());

    // Fetch, replace the whole property set, save again: second sequence.
    let mut fetched = database.get_document(String::from("foo")).unwrap();
    fetched.fill(String::from("{\"prop1\":\"val2\"}")).unwrap();
    let saved = database.save_document(fetched).unwrap();
    assert_eq!(2, saved.sequence());

    // Delete and fetch: gone.
    let fetched = database.get_document(String::from("foo")).unwrap();
    assert_eq!(true, database.delete_document(fetched).unwrap());
    assert!(database.get_document(String::from("foo")).is_none());
}

#[test]
fn replicator_configuration() {
    let database = open_database();
    let replicator = Replicator::new(&database, "ws://127.0.0.1:4984/mydb".to_string());
    assert!(replicator.is_ok());
    let mut replicator = replicator.unwrap();
    replicator.start();
    replicator.stop();

    let auth = Authenticator::new_basic("user".to_string(), "pw".to_string());
    assert!(Replicator::new_with_auth(&database, "wss://example.net/db".to_string(), auth).is_ok());

    assert!(matches!(
        Replicator::new(&database, "http://example.net/db".to_string()),
        Err(CouchbaseLiteError::CannotCreateNewReplicator(_))
    ));

    let mut closed = open_database();
    closed.close().unwrap();
    assert!(matches!(
        Replicator::new(&closed, "ws://example.net/db".to_string()),
        Err(CouchbaseLiteError::CannotCreateNewReplicator(_))
    ));
}

#[test]
fn person_updates_fill_props_in_order() {
    let mut person = Person::new("Scott".to_string(), "Tiger".to_string());
    person.update_next_free("mydba");
    assert_eq!(Some("mydba_val1".to_string()), person.prop1);
    person.update_next_free("mydba");
    assert_eq!(Some("mydba_val2".to_string()), person.prop2);
    person.update_next_free("mydba");
    person.update_next_free("mydba");
    assert_eq!(Some("mydba_val3".to_string()), person.prop3);
    assert_eq!(Some("mydba_val4".to_string()), person.prop4);
    // A full record stays as it is.
    person.update_next_free("other");
    assert_eq!(Some("mydba_val1".to_string()), person.prop1);
    assert_eq!(Some("mydba_val4".to_string()), person.prop4);
}

#[test]
fn batch_outcomes_report_each_write() {
    let mut database = open_database();
    let mut a = Document::new(String::from("a"));
    a.set_value(String::from("1"), String::from("v"));
    let outs = database
        .in_batch_with_result(vec![BatchOp::Save(a)])
        .unwrap();
    assert_eq!(1, outs.len());

    let fetched = database.get_document(String::from("a")).unwrap();
    let outs = database
        .in_batch_with_result(vec![BatchOp::Delete(fetched)])
        .unwrap();
    assert_eq!(1, outs.len());
    assert!(database.get_document(String::from("a")).is_none());
}
