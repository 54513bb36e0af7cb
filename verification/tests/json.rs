use term_chat::json;
use term_chat::json::Json;
use term_chat::tokens::{load, texts_in, TokenMap};

fn pairs(m: &TokenMap) -> Vec<(String, String)> {
    m.entries.clone()
}

#[test]
fn documents_are_read_and_looked_into() {
    let doc = json::parse(
        br#"{"login":"ann","n":3,"ok":true,"no":"x","scopes":["a",1,"chat:edit"],"data":[{"id":"77"}],"o":{"0":{"id":"8"}}}"#,
    )
    .unwrap();
    assert_eq!(doc.text_or_empty("login"), "ann");
    assert_eq!(doc.text_at("n"), None);
    assert_eq!(doc.text_or_empty("missing"), "");
    assert!(doc.flag_at("ok"));
    assert!(!doc.flag_at("no"));
    assert!(!doc.flag_at("missing"));
    assert_eq!(doc.text_list_at("scopes"), vec!["a".to_string(), "chat:edit".to_string()]);
    assert!(doc.text_list_at("login").is_empty());
    assert_eq!(doc.first_of("data").unwrap().text_or_empty("id"), "77");
    assert_eq!(doc.first_of("o").unwrap().text_or_empty("id"), "8");
    assert!(doc.first_of("login").is_none());
    assert!(doc.get("missing").is_none());
}

#[test]
fn unreadable_documents_give_the_parsers_words() {
    let want = serde_json::from_str::<serde_json::Value>("{\"a\":").unwrap_err().to_string();
    match json::parse(b"{\"a\":") {
        Err(e) => assert_eq!(e, want),
        Ok(_) => panic!("read"),
    }
    let want = serde_json::from_str::<Vec<serde_json::Value>>("{}").unwrap_err().to_string();
    match json::parse_list(b"{}") {
        Err(e) => assert_eq!(e, want),
        Ok(_) => panic!("read"),
    }
    assert_eq!(json::parse_list(b"[1,{\"name\":\"x\"}]").unwrap()[1].text_or_empty("name"), "x");
}

#[test]
fn documents_are_written_as_the_parser_writes_them() {
    let source = r#"{"b":[1,2.5,null,false],"a":{"x":"q\"uote"}}"#;
    let value: serde_json::Value = serde_json::from_str(source).unwrap();
    assert_eq!(json::to_text(json::parse(source.as_bytes()).unwrap()), value.to_string());
    assert_eq!(json::to_debug_text(json::from_value(value.clone())), format!("{:?}", value));
    assert_eq!(json::to_text(json::int_value(-5)), "-5");
    assert_eq!(json::to_text(json::text_value("a\nb")), "\"a\\nb\"");
    assert_eq!(json::to_text(Json::Null), "null");
}

#[test]
fn maps_load_only_from_objects_of_texts() {
    let m = load(Some(r#"{"b":"2","a":"1"}"#));
    assert_eq!(m.get("a").as_deref(), Some("1"));
    assert_eq!(m.get("b").as_deref(), Some("2"));
    assert_eq!(m.get("c"), None);
    assert_eq!(m.get_or_empty("c"), "");
    assert_eq!(pairs(&load(Some(r#"{"a":"1","a":"2"}"#))), vec![("a".to_string(), "2".to_string())]);
    // A value that is no text spoils the map even where a later one takes its place.
    assert!(pairs(&load(Some(r#"{"a":1,"a":"x"}"#))).is_empty());
    assert!(pairs(&load(Some(r#"{"a":1}"#))).is_empty());
    assert!(pairs(&load(Some("[]"))).is_empty());
    assert!(pairs(&load(Some("not json"))).is_empty());
    assert!(pairs(&load(None)).is_empty());
}

#[test]
fn inserted_entries_are_found_and_replace_older_ones() {
    let mut m = TokenMap::new();
    m.insert("k".to_string(), "1".to_string());
    m.insert("l".to_string(), "2".to_string());
    m.insert("k".to_string(), "3".to_string());
    assert_eq!(m.get("k").as_deref(), Some("3"));
    assert_eq!(m.get("l").as_deref(), Some("2"));
    assert_eq!(m.entries.len(), 2);
}

#[test]
fn texts_of_an_object_leave_out_other_values() {
    let doc = json::parse(br#"{"client_id":"x","n":1,"channel":"y"}"#).unwrap();
    let m = texts_in(&doc);
    assert_eq!(m.get("client_id").as_deref(), Some("x"));
    assert_eq!(m.get("channel").as_deref(), Some("y"));
    assert_eq!(m.get("n"), None);
    assert!(texts_in(&Json::Bool(true)).entries.is_empty());
}
