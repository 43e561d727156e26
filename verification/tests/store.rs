use projector_rs::config::{Config, Operation};
use projector_rs::document::Document;
use projector_rs::error::Error;
use projector_rs::projector::{Projector, Reply};
use projector_rs::scope::Scope;
use projector_rs::table::Table;

fn pairs(items: &[(&str, &str)]) -> Vec<(String, String)> {
    items.iter().map(|(key, value)| (key.to_string(), value.to_string())).collect()
}

fn directories(items: &[(&str, &[(&str, &str)])]) -> Vec<(String, Vec<(String, String)>)> {
    items.iter().map(|(dir, inner)| (dir.to_string(), pairs(inner))).collect()
}

fn config(operation: Operation, pwd: &str) -> Config {
    Config { operation, pwd: pwd.to_string(), config: "/tmp/projector.json".to_string() }
}

fn run(operation: Operation, pwd: &str, contents: Option<&str>) -> (Reply, Projector) {
    let mut projector = Projector::FromConfig(config(operation, pwd), contents);
    let reply = projector.apply();
    (reply, projector)
}

fn value_of(reply: Reply) -> Option<String> {
    match reply {
        Reply::Value(found) => found,
        _ => panic!("not a value"),
    }
}

fn pairs_of(reply: Reply) -> Vec<(String, String)> {
    match reply {
        Reply::Pairs(scope) => scope.entries(),
        _ => panic!("not pairs"),
    }
}

#[test]
fn table_keeps_first_place_and_last_value() {
    let mut table: Table<u32> = Table::new();
    assert_eq!(table.len(), 0);
    assert_eq!(table.insert("b".to_string(), 1), None);
    assert_eq!(table.insert("a".to_string(), 2), None);
    assert_eq!(table.insert("b".to_string(), 3), Some(1));
    assert_eq!(table.len(), 2);
    assert_eq!(table.position("b"), Some(0));
    assert_eq!(table.position("a"), Some(1));
    assert_eq!(table.position("c"), None);
    assert_eq!(table.entry(0), Some((&"b".to_string(), &3)));
    assert_eq!(table.entry(1), Some((&"a".to_string(), &2)));
    assert_eq!(table.entry(2), None);
    assert_eq!(table.get("a"), Some(&2));
    assert_eq!(table.get("c"), None);
    assert_eq!(table.remove("b"), Some(3));
    assert_eq!(table.remove("b"), None);
    assert_eq!(table.len(), 1);
    assert_eq!(table.entry(0), Some((&"a".to_string(), &2)));
}

#[test]
fn scope_insert_get_remove() {
    let mut scope = Scope::new();
    assert_eq!(scope.len(), 0);
    assert_eq!(scope.get("a"), None);
    scope.insert("a".to_string(), "1".to_string());
    scope.insert("b".to_string(), "2".to_string());
    assert_eq!(scope.get("a"), Some(&"1".to_string()));
    scope.insert("a".to_string(), "3".to_string());
    assert_eq!(scope.len(), 2);
    assert_eq!(scope.get("a"), Some(&"3".to_string()));
    assert_eq!(scope.entries(), pairs(&[("a", "3"), ("b", "2")]));
    assert!(scope.remove("a"));
    assert!(!scope.remove("a"));
    assert_eq!(scope.get("a"), None);
    assert_eq!(scope.entries(), pairs(&[("b", "2")]));
}

#[test]
fn scope_remove_twice_is_remove_once() {
    let mut once = Scope::from_entries(&pairs(&[("a", "1"), ("b", "2"), ("c", "3")]));
    let mut twice = once.clone();
    assert!(once.remove("b"));
    assert!(twice.remove("b"));
    assert!(!twice.remove("b"));
    assert_eq!(once.entries(), twice.entries());
    assert_eq!(twice.entries(), pairs(&[("a", "1"), ("c", "3")]));
}

#[test]
fn scope_from_entries_keeps_last_value() {
    let scope = Scope::from_entries(&pairs(&[("a", "1"), ("b", "2"), ("a", "3")]));
    assert_eq!(scope.entries(), pairs(&[("a", "3"), ("b", "2")]));
    assert_eq!(Scope::from_entries(&Vec::new()).len(), 0);
}

#[test]
fn scope_clone_is_independent() {
    let mut scope = Scope::from_entries(&pairs(&[("a", "1")]));
    let copy = scope.clone();
    scope.insert("b".to_string(), "2".to_string());
    assert_eq!(copy.entries(), pairs(&[("a", "1")]));
    assert_eq!(scope.entries(), pairs(&[("a", "1"), ("b", "2")]));
}

#[test]
fn document_set_and_unset() {
    let mut document = Document::new();
    assert_eq!(document.len(), 0);
    assert!(document.scope("/a").is_none());
    document.set("/a", "k".to_string(), "v".to_string());
    document.set("/b", "k".to_string(), "w".to_string());
    document.set("/a", "l".to_string(), "x".to_string());
    document.set("/a", "k".to_string(), "y".to_string());
    assert_eq!(document.len(), 2);
    assert_eq!(
        document.entries(),
        directories(&[("/a", &[("k", "y"), ("l", "x")]), ("/b", &[("k", "w")])])
    );
    assert_eq!(document.scope("/a").unwrap().get("l"), Some(&"x".to_string()));
    assert!(!document.unset("/c", "k"));
    assert!(!document.unset("/a", "zz"));
    assert_eq!(
        document.entries(),
        directories(&[("/a", &[("k", "y"), ("l", "x")]), ("/b", &[("k", "w")])])
    );
    assert!(document.unset("/b", "k"));
    assert!(!document.unset("/b", "k"));
    assert_eq!(document.entries(), directories(&[("/a", &[("k", "y"), ("l", "x")]), ("/b", &[])]));
    assert!(document.scope("/b").is_some());
    assert!(document.scope("/c").is_none());
}

#[test]
fn document_paths_are_exact_strings() {
    let mut document = Document::new();
    document.set("/a", "k".to_string(), "1".to_string());
    document.set("/a/", "k".to_string(), "2".to_string());
    document.set("/a/b", "k".to_string(), "3".to_string());
    assert_eq!(document.len(), 3);
    assert_eq!(document.scope("/a").unwrap().get("k"), Some(&"1".to_string()));
    assert_eq!(document.scope("/a/b").unwrap().get("k"), Some(&"3".to_string()));
    assert!(document.scope("/a/b/c").is_none());
}

#[test]
fn document_from_entries_keeps_later_directory() {
    let document = Document::from_entries(&directories(&[
        ("/a", &[("k", "1"), ("k", "2")]),
        ("/b", &[("x", "y")]),
        ("/a", &[("z", "3")]),
    ]));
    assert_eq!(document.entries(), directories(&[("/a", &[("z", "3")]), ("/b", &[("x", "y")])]));
}

#[test]
fn document_from_fields() {
    assert_eq!(Document::from_fields(None).len(), 0);
    assert_eq!(Document::from_fields(Some(Vec::new())).len(), 0);
    let other = vec![("other".to_string(), directories(&[("/a", &[("k", "v")])]))];
    assert_eq!(Document::from_fields(Some(other)).len(), 0);
    let fields = vec![
        ("before".to_string(), directories(&[("/x", &[("k", "v")])])),
        ("projector".to_string(), directories(&[("/a", &[("k", "v")])])),
        ("z".to_string(), Vec::new()),
    ];
    assert_eq!(Document::from_fields(Some(fields)).entries(), directories(&[("/a", &[("k", "v")])]));
    let twice = vec![
        ("projector".to_string(), directories(&[("/a", &[("k", "v")])])),
        ("projector".to_string(), directories(&[("/b", &[("l", "w")])])),
    ];
    assert_eq!(Document::from_fields(Some(twice)).entries(), directories(&[("/b", &[("l", "w")])]));
}

#[test]
fn document_fields_hold_one_field() {
    let mut document = Document::new();
    document.set("/a", "k".to_string(), "v".to_string());
    assert_eq!(
        document.fields(),
        vec![("projector".to_string(), directories(&[("/a", &[("k", "v")])]))]
    );
    assert_eq!(Document::new().fields(), vec![("projector".to_string(), Vec::new())]);
}

#[test]
fn document_written_maps_the_encoder_outcome() {
    assert_eq!(Document::written(Some("{}".to_string())), Ok("{}".to_string()));
    assert_eq!(Document::written(None), Err(Error::Persistence));
}

#[test]
fn document_parse_reads_json() {
    let document = Document::parse(
        "{\"projector\": {\"/home/u/proj\": {\"key\": \"value\"}, \"/b\": {}}}",
    );
    assert_eq!(
        document.entries(),
        directories(&[("/b", &[]), ("/home/u/proj", &[("key", "value")])])
    );
    let spaced = Document::parse(" {\n \"projector\" : { \"/a\" : { \"k\" : \"v\\n\\u00e9\" } }\n}\n");
    assert_eq!(spaced.entries(), directories(&[("/a", &[("k", "v\n\u{e9}")])]));
}

#[test]
fn document_parse_of_other_text_is_empty() {
    for text in [
        "",
        "{",
        "not json",
        "{\"projector\": {\"/a\": {\"k\": \"v\"}}",
        "{\"projector\": {\"/a\": {\"k\": 1}}}",
        "{\"projector\": [1, 2]}",
        "{\"projector\": {\"/a\": \"v\"}}",
        "[]",
        "null",
        "{\"projector\": {\"/a\": {\"k\": \"v\"}}} trailing",
    ] {
        assert_eq!(Document::parse(text).len(), 0, "{}", text);
    }
}

#[test]
fn document_parse_without_the_field_is_empty() {
    assert_eq!(Document::parse("{}").len(), 0);
    assert_eq!(Document::parse("{\"other\": {\"/a\": {\"k\": \"v\"}}}").len(), 0);
}

#[test]
fn document_serialize_writes_json() {
    assert_eq!(Document::new().serialize(), Ok("{\"projector\":{}}".to_string()));
    let mut document = Document::new();
    document.set("/x", "a".to_string(), "1".to_string());
    assert_eq!(document.serialize(), Ok("{\"projector\":{\"/x\":{\"a\":\"1\"}}}".to_string()));
    document.set("/b", "q\"uote".to_string(), "line\nbreak".to_string());
    document.set("/x", "0".to_string(), "\u{e9}".to_string());
    assert_eq!(
        document.serialize(),
        Ok("{\"projector\":{\"/b\":{\"q\\\"uote\":\"line\\nbreak\"},\"/x\":{\"0\":\"\u{e9}\",\"a\":\"1\"}}}"
            .to_string())
    );
}

#[test]
fn document_round_trip() {
    let mut document = Document::new();
    document.set("/home/u/proj", "key".to_string(), "value".to_string());
    document.set("/home/u/proj", "other".to_string(), "".to_string());
    document.set("/", "".to_string(), "empty key".to_string());
    document.set("/tab\there", "q\"uote\\".to_string(), "line\nbreak \u{1f600} \u{0}".to_string());
    document.set("/gone", "k".to_string(), "v".to_string());
    document.unset("/gone", "k");
    let text = document.serialize().unwrap();
    let back = Document::parse(&text);
    let mut expected = document.entries();
    expected.sort();
    for (_, inner) in expected.iter_mut() {
        inner.sort();
    }
    assert_eq!(back.entries(), expected);
    assert_eq!(back.serialize().unwrap(), text);
    assert_eq!(Document::parse(&Document::new().serialize().unwrap()).len(), 0);
}

#[test]
fn document_round_trip_through_fields() {
    let mut document = Document::new();
    document.set("/b", "k".to_string(), "v".to_string());
    document.set("/a", "z".to_string(), "1".to_string());
    document.set("/a", "y".to_string(), "2".to_string());
    let back = Document::from_fields(Some(document.fields()));
    assert_eq!(back.entries(), document.entries());
}

#[test]
fn load_without_a_file_is_empty() {
    let projector = Projector::FromConfig(config(Operation::Print(None), "/x"), None);
    assert_eq!(projector.document().len(), 0);
    assert_eq!(projector.get_value_all().len(), 0);
    assert_eq!(projector.config().pwd, "/x");
    assert_eq!(projector.config().config, "/tmp/projector.json");
}

#[test]
fn load_of_a_corrupt_file_is_empty() {
    for text in ["{\"projector\": {", "\u{0}\u{1}", "{\"projector\": 7}", "[1,2,3]"] {
        let projector = Projector::FromConfig(config(Operation::Print(None), "/x"), Some(text));
        assert_eq!(projector.document().len(), 0);
    }
}

#[test]
fn load_reads_the_file() {
    let text = "{\"projector\": {\"/x\": {\"a\": \"1\", \"b\": \"2\"}, \"/y\": {\"a\": \"3\"}}}";
    let projector = Projector::FromConfig(config(Operation::Print(None), "/x"), Some(text));
    assert_eq!(projector.document().len(), 2);
    assert_eq!(projector.get_value_all().entries(), pairs(&[("a", "1"), ("b", "2")]));
    assert_eq!(projector.get_value("b"), Some("2".to_string()));
    assert_eq!(projector.get_value("c"), None);
}

#[test]
fn add_then_print() {
    let (reply, projector) = run(Operation::Add("a".to_string(), "1".to_string()), "/x", None);
    assert!(matches!(reply, Reply::Added));
    assert!(reply.mutated());
    let text = projector.serialize().unwrap();
    assert_eq!(text, "{\"projector\":{\"/x\":{\"a\":\"1\"}}}");
    let (reply, projector) = run(Operation::Print(Some("a".to_string())), "/x", Some(&text));
    assert!(!reply.mutated());
    assert_eq!(value_of(reply), Some("1".to_string()));
    assert_eq!(projector.serialize().unwrap(), text);
}

#[test]
fn add_overwrites() {
    let text = "{\"projector\":{\"/x\":{\"a\":\"1\",\"b\":\"2\"}}}";
    let (reply, projector) = run(Operation::Add("a".to_string(), "9".to_string()), "/x", Some(text));
    assert!(reply.mutated());
    assert_eq!(projector.get_value("a"), Some("9".to_string()));
    assert_eq!(projector.get_value("b"), Some("2".to_string()));
    assert_eq!(projector.serialize().unwrap(), "{\"projector\":{\"/x\":{\"a\":\"9\",\"b\":\"2\"}}}");
}

#[test]
fn print_all_and_print_key() {
    let text = "{\"projector\":{\"/x\":{\"a\":\"1\",\"b\":\"2\"},\"/x/y\":{\"c\":\"3\"}}}";
    let (reply, _) = run(Operation::Print(None), "/x", Some(text));
    assert!(!reply.mutated());
    assert_eq!(pairs_of(reply), pairs(&[("a", "1"), ("b", "2")]));
    let (reply, _) = run(Operation::Print(None), "/x/y", Some(text));
    assert_eq!(pairs_of(reply), pairs(&[("c", "3")]));
    let (reply, _) = run(Operation::Print(None), "/nowhere", Some(text));
    assert_eq!(pairs_of(reply), pairs(&[]));
    let (reply, _) = run(Operation::Print(Some("c".to_string())), "/x", Some(text));
    assert_eq!(value_of(reply), None);
    let (reply, _) = run(Operation::Print(Some("c".to_string())), "/x/y", Some(text));
    assert_eq!(value_of(reply), Some("3".to_string()));
    let (reply, projector) = run(Operation::Print(Some("a".to_string())), "/nowhere", Some(text));
    assert_eq!(value_of(reply), None);
    assert_eq!(projector.serialize().unwrap(), text);
}

#[test]
fn remove_deletes_once() {
    let text = "{\"projector\":{\"/x\":{\"a\":\"1\",\"b\":\"2\"}}}";
    let (reply, projector) = run(Operation::Remove("a".to_string()), "/x", Some(text));
    assert!(matches!(reply, Reply::Removed(true)));
    assert!(reply.mutated());
    let once = projector.serialize().unwrap();
    assert_eq!(once, "{\"projector\":{\"/x\":{\"b\":\"2\"}}}");
    let (reply, projector) = run(Operation::Remove("a".to_string()), "/x", Some(&once));
    assert!(matches!(reply, Reply::Removed(false)));
    assert!(!reply.mutated());
    assert_eq!(projector.serialize().unwrap(), once);
}

#[test]
fn remove_of_nothing_changes_nothing() {
    let text = "{\"projector\":{\"/x\":{\"a\":\"1\"}}}";
    let (reply, projector) = run(Operation::Remove("a".to_string()), "/y", Some(text));
    assert!(matches!(reply, Reply::Removed(false)));
    assert_eq!(projector.serialize().unwrap(), text);
    let (reply, projector) = run(Operation::Remove("a".to_string()), "/y", None);
    assert!(!reply.mutated());
    assert_eq!(projector.document().len(), 0);
}

#[test]
fn directories_do_not_touch_each_other() {
    let (_, mut projector) = run(Operation::Add("k".to_string(), "v".to_string()), "/a", None);
    assert!(projector.document().scope("/b").is_none());
    assert_eq!(projector.document().scope("/a").unwrap().entries(), pairs(&[("k", "v")]));
    let text = "{\"projector\":{\"/b\":{\"k\":\"old\",\"l\":\"m\"}}}";
    let (_, other) = run(Operation::Add("k".to_string(), "v".to_string()), "/a", Some(text));
    assert_eq!(other.document().scope("/b").unwrap().entries(), pairs(&[("k", "old"), ("l", "m")]));
    assert_eq!(other.document().scope("/a").unwrap().entries(), pairs(&[("k", "v")]));
    let (_, removed) = run(Operation::Remove("k".to_string()), "/a", Some(text));
    assert_eq!(removed.document().scope("/b").unwrap().entries(), pairs(&[("k", "old"), ("l", "m")]));
    projector.set_value("x".to_string(), "y".to_string());
    assert!(projector.remove_value("k"));
    assert!(!projector.remove_value("k"));
    assert_eq!(projector.get_value_all().entries(), pairs(&[("x", "y")]));
}

#[test]
fn run_asks_for_a_write_only_after_a_change() {
    let text = "{\"projector\":{\"/x\":{\"a\":\"1\"}}}";
    let mut projector =
        Projector::FromConfig(config(Operation::Add("b".to_string(), "2".to_string()), "/x"), Some(text));
    let done = projector.run().unwrap();
    assert!(matches!(done.reply, Reply::Added));
    assert_eq!(done.save, Some("{\"projector\":{\"/x\":{\"a\":\"1\",\"b\":\"2\"}}}".to_string()));

    let mut projector = Projector::FromConfig(config(Operation::Remove("a".to_string()), "/x"), Some(text));
    let done = projector.run().unwrap();
    assert!(matches!(done.reply, Reply::Removed(true)));
    assert_eq!(done.save, Some("{\"projector\":{\"/x\":{}}}".to_string()));

    let mut projector = Projector::FromConfig(config(Operation::Remove("zz".to_string()), "/x"), Some(text));
    let done = projector.run().unwrap();
    assert!(matches!(done.reply, Reply::Removed(false)));
    assert_eq!(done.save, None);

    let mut projector = Projector::FromConfig(config(Operation::Print(None), "/x"), Some(text));
    let done = projector.run().unwrap();
    assert_eq!(pairs_of(done.reply), pairs(&[("a", "1")]));
    assert_eq!(done.save, None);

    let mut projector =
        Projector::FromConfig(config(Operation::Print(Some("a".to_string())), "/x"), Some(text));
    let done = projector.run().unwrap();
    assert_eq!(value_of(done.reply), Some("1".to_string()));
    assert_eq!(done.save, None);
}

#[test]
fn add_heals_a_corrupt_file() {
    let mut projector = Projector::FromConfig(
        config(Operation::Add("a".to_string(), "1".to_string()), "/x"),
        Some("{\"projector\": oops"),
    );
    let done = projector.run().unwrap();
    assert_eq!(done.save, Some("{\"projector\":{\"/x\":{\"a\":\"1\"}}}".to_string()));
}
