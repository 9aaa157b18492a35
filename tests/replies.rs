use duplex_router::reply::{
    ack_reply, count_reply, create_user, decimal_text, header_reply, list_reply, parse_id, Album,
    Write,
};
use duplex_router::store::AlbumStore;

#[test]
fn header_echo() {
    assert_eq!(header_reply(None), "no_data");
    assert_eq!(header_reply(Some("Bearer x")), "Bearer x");
}

#[test]
fn decimal_rendering() {
    assert_eq!(decimal_text(0), "0");
    assert_eq!(decimal_text(1337), "1337");
    assert_eq!(decimal_text(-42), "-42");
    assert_eq!(decimal_text(i64::MIN), "-9223372036854775808");
    assert_eq!(decimal_text(i64::MAX), "9223372036854775807");
}

#[test]
fn count_and_ack_bodies() {
    assert_eq!(count_reply(Ok(3)), "3");
    assert_eq!(count_reply(Err("db down".to_string())), "db down");
    assert_eq!(ack_reply(Write::Insert, Ok(())), "insert-ok");
    assert_eq!(ack_reply(Write::Update, Ok(())), "update-ok");
    assert_eq!(ack_reply(Write::Delete, Ok(())), "delete-ok");
    assert_eq!(ack_reply(Write::Delete, Err("gone".to_string())), "gone");
}

#[test]
fn created_user_json() {
    let r = create_user("alice");
    assert_eq!(r.status, 201);
    assert_eq!(r.body, "{\"id\":1337,\"username\":\"alice\"}");
    let r = create_user("a\"b");
    assert_eq!(r.body, "{\"id\":1337,\"username\":\"a\\\"b\"}");
    let r = create_user("\u{1}\n\\\u{7f}\u{e9}");
    assert_eq!(r.body, "{\"id\":1337,\"username\":\"\\u0001\\n\\\\\u{7f}\u{e9}\"}");
}

#[test]
fn ids_parse_like_integers() {
    assert_eq!(parse_id("42"), Some(42));
    assert_eq!(parse_id("+7"), Some(7));
    assert_eq!(parse_id("-0"), Some(0));
    assert_eq!(parse_id("-9223372036854775808"), Some(i64::MIN));
    assert_eq!(parse_id("9223372036854775807"), Some(i64::MAX));
    assert_eq!(parse_id("9223372036854775808"), None);
    assert_eq!(parse_id("-9223372036854775809"), None);
    assert_eq!(parse_id("99999999999999999999x"), None);
    assert_eq!(parse_id(""), None);
    assert_eq!(parse_id("-"), None);
    assert_eq!(parse_id("12a"), None);
    assert_eq!(parse_id(" 1"), None);
}

#[test]
fn list_json() {
    let rows = vec![
        Album { id: 1, title: "title 123".to_string() },
        Album { id: 2, title: "q\"t".to_string() },
    ];
    assert_eq!(
        list_reply(Ok(rows)),
        Ok("[{\"id\":1,\"title\":\"title 123\"},{\"id\":2,\"title\":\"q\\\"t\"}]".to_string())
    );
    assert_eq!(list_reply(Ok(vec![])), Ok("[]".to_string()));
    assert_eq!(list_reply(Err("boom".to_string())), Err("boom".to_string()));
}

#[test]
fn insert_list_update_delete() {
    let mut s = AlbumStore::new();
    assert_eq!(s.insert("title 123"), Ok(()));
    let rows = s.list();
    assert_eq!(rows.len(), 1);
    assert_eq!(rows[0].title, "title 123");
    let id = rows[0].id;
    assert_eq!(s.count(), Ok(1));
    assert_eq!(s.update(id, "new"), Ok(()));
    assert_eq!(s.list()[0].title, "new");
    assert!(s.update(id + 100, "x").is_err());
    assert_eq!(s.delete(id), Ok(()));
    assert!(s.list().iter().all(|a| a.id != id));
    assert!(s.delete(id).is_err());
    assert_eq!(s.count(), Ok(0));
}
