use duplex_router::path::split_path;
use duplex_router::reply::{not_found, user_reply};
use duplex_router::router::{parse_segment, Method, RouteError, Router, Segment};
use duplex_router::service::{bad_id, find_param, fixed_reply, respond, service_router, Endpoint};
use duplex_router::store::AlbumStore;

fn params_of(r: &Router<Endpoint>, m: Method, p: &str) -> Option<(Endpoint, Vec<(String, String)>)> {
    r.dispatch(m, p).map(|x| (*r.handler(x.route), x.params))
}

#[test]
fn split_keeps_empty_pieces() {
    assert_eq!(split_path("/a/b"), vec!["".to_string(), "a".to_string(), "b".to_string()]);
    assert_eq!(split_path("/"), vec!["".to_string(), "".to_string()]);
    assert_eq!(split_path(""), vec!["".to_string()]);
}

#[test]
fn colon_names_a_parameter() {
    assert!(matches!(parse_segment(":id"), Segment::Param(n) if n == "id"));
    assert!(matches!(parse_segment("users"), Segment::Literal(n) if n == "users"));
    assert!(matches!(parse_segment(""), Segment::Literal(n) if n.is_empty()));
}

#[test]
fn every_route_reaches_its_handler() {
    let r = service_router().unwrap();
    let cases = [
        (Method::Get, "/", Endpoint::Root),
        (Method::Get, "/ws", Endpoint::Upgrade),
        (Method::Get, "/hello2", Endpoint::Hello),
        (Method::Post, "/foo", Endpoint::Foo),
        (Method::Get, "/info_header", Endpoint::InfoHeader),
        (Method::Post, "/users", Endpoint::CreateUser),
        (Method::Get, "/users/7", Endpoint::GetUser),
        (Method::Get, "/db/total_rows", Endpoint::TotalRows),
        (Method::Get, "/db/query_all", Endpoint::QueryAll),
        (Method::Get, "/db/insert", Endpoint::Insert),
        (Method::Post, "/db/update/3", Endpoint::Update),
        (Method::Get, "/db/delete/3", Endpoint::Delete),
        (Method::Get, "/foo/bar", Endpoint::FooBar),
    ];
    for (m, p, e) in cases {
        let (got, _) = params_of(&r, m, p).unwrap();
        assert_eq!(got, e, "{}", p);
    }
}

#[test]
fn user_id_is_bound_and_echoed() {
    let r = service_router().unwrap();
    let (e, params) = params_of(&r, Method::Get, "/users/42").unwrap();
    assert_eq!(e, Endpoint::GetUser);
    assert_eq!(params, vec![("id".to_string(), "42".to_string())]);
    let body = user_reply(&params[0].1);
    assert_eq!(body, "user_id = 42");
    assert!(body.contains("42"));
}

#[test]
fn unmatched_paths_are_not_found() {
    let r = service_router().unwrap();
    assert!(r.dispatch(Method::Get, "/nope").is_none());
    assert!(r.dispatch(Method::Post, "/nope").is_none());
    assert!(r.dispatch(Method::Post, "/").is_none());
    assert!(r.dispatch(Method::Other, "/does-not-exist").is_none());
    assert!(r.dispatch(Method::Other, "/").is_none());
    assert!(r.dispatch(Method::Other, "/users/1").is_none());
    assert!(r.dispatch(Method::Get, "/users/").is_none());
    assert!(r.dispatch(Method::Get, "/users/1/2").is_none());
    assert!(r.dispatch(Method::Get, "users/1").is_none());
    let nf = not_found();
    assert_eq!(nf.status, 404);
    assert!(nf.body.is_empty());
}

#[test]
fn literal_route_beats_parameter_route() {
    let mut r: Router<u32> = Router::new();
    assert_eq!(r.register(Method::Get, "/users/:id", 1), Ok(()));
    assert_eq!(r.register(Method::Get, "/users/static", 2), Ok(()));
    let m = r.dispatch(Method::Get, "/users/static").unwrap();
    assert_eq!(*r.handler(m.route), 2);
    assert!(m.params.is_empty());
    let m = r.dispatch(Method::Get, "/users/9").unwrap();
    assert_eq!(*r.handler(m.route), 1);

    let mut s: Router<u32> = Router::new();
    assert_eq!(s.register(Method::Get, "/users/static", 2), Ok(()));
    assert_eq!(s.register(Method::Get, "/users/:id", 1), Ok(()));
    let m = s.dispatch(Method::Get, "/users/static").unwrap();
    assert_eq!(*s.handler(m.route), 2);
}

#[test]
fn earlier_literal_decides() {
    let mut r: Router<u32> = Router::new();
    assert_eq!(r.register(Method::Get, "/:a/b", 1), Ok(()));
    assert_eq!(r.register(Method::Get, "/a/:b", 2), Ok(()));
    let m = r.dispatch(Method::Get, "/a/b").unwrap();
    assert_eq!(*r.handler(m.route), 2);
    assert_eq!(m.params, vec![("b".to_string(), "b".to_string())]);
}

#[test]
fn duplicate_route_is_refused() {
    let mut r: Router<u32> = Router::new();
    assert_eq!(r.register(Method::Get, "/users/:id", 1), Ok(()));
    assert_eq!(r.register(Method::Get, "/users/:name", 2), Err(RouteError::Duplicate));
    assert_eq!(r.register(Method::Get, "/users/:id", 3), Err(RouteError::Duplicate));
    assert_eq!(r.register(Method::Post, "/users/:id", 4), Ok(()));
    assert_eq!(r.len(), 2);
}

#[test]
fn fixed_texts() {
    assert_eq!(fixed_reply(Endpoint::Root).unwrap().body, "Hello, World!");
    assert_eq!(fixed_reply(Endpoint::Hello).unwrap().body, "Hello, World! 2");
    assert_eq!(fixed_reply(Endpoint::Foo).unwrap().body, "Hi from `POST /foo`");
    let fb = fixed_reply(Endpoint::FooBar).unwrap();
    assert_eq!(fb.status, 200);
    assert!(fb.body.is_empty());
    assert!(fixed_reply(Endpoint::GetUser).is_none());
}

fn pairs(v: &[(&str, &str)]) -> Vec<(String, String)> {
    v.iter().map(|(a, b)| (a.to_string(), b.to_string())).collect()
}

#[test]
fn parameters_are_found_by_name() {
    let ps = pairs(&[("a", "1"), ("id", "42"), ("id", "43")]);
    assert_eq!(find_param(&ps, "id"), Some("42".to_string()));
    assert_eq!(find_param(&ps, "a"), Some("1".to_string()));
    assert_eq!(find_param(&ps, "b"), None);
}

#[test]
fn service_replies_through_the_table() {
    let r = service_router().unwrap();
    let mut store = AlbumStore::new();
    let call = |store: &mut AlbumStore, m: Method, p: &str, title: &str| {
        let found = r.dispatch(m, p).unwrap();
        respond(store, *r.handler(found.route), &found.params, title)
    };
    let fb = call(&mut store, Method::Get, "/foo/bar", "").unwrap();
    assert_eq!((fb.status, fb.body.as_str()), (200, ""));
    let u = call(&mut store, Method::Get, "/users/42", "").unwrap();
    assert_eq!(u.body, "user_id = 42");
    assert_eq!(call(&mut store, Method::Get, "/db/insert", "").unwrap().body, "insert-ok");
    assert_eq!(call(&mut store, Method::Get, "/db/total_rows", "").unwrap().body, "1");
    assert_eq!(
        call(&mut store, Method::Get, "/db/query_all", "").unwrap().body,
        "[{\"id\":1,\"title\":\"title 123\"}]"
    );
    assert_eq!(call(&mut store, Method::Post, "/db/update/1", "new").unwrap().body, "update-ok");
    assert_eq!(
        call(&mut store, Method::Get, "/db/query_all", "").unwrap().body,
        "[{\"id\":1,\"title\":\"new\"}]"
    );
    let bad = call(&mut store, Method::Post, "/db/update/x", "new").unwrap();
    assert_eq!(bad.status, 400);
    assert_eq!(bad.body, bad_id("x").body);
    assert_eq!(bad.body, "Invalid URL: Cannot parse `x` to a `i64`");
    assert_eq!(call(&mut store, Method::Get, "/db/delete/1", "").unwrap().body, "delete-ok");
    assert_eq!(call(&mut store, Method::Get, "/db/query_all", "").unwrap().body, "[]");
    let gone = call(&mut store, Method::Get, "/db/delete/1", "").unwrap();
    assert_eq!(gone.status, 200);
    assert_ne!(gone.body, "delete-ok");
    assert!(call(&mut store, Method::Get, "/ws", "").is_none());
    assert!(call(&mut store, Method::Get, "/info_header", "").is_none());
    assert!(call(&mut store, Method::Post, "/users", "").is_none());
}
