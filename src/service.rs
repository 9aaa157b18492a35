use vstd::prelude::*;
use crate::router::{binding_views, text_eq, Method, PatSeg, Router, RouteError, entry_handlers, entry_views, no_conflicts, pattern_of};
use crate::reply::{
    Reply, Write, ack_reply, ack_token, albums_json, count_reply, decimal, list_reply, parse_i64,
    parse_id, user_line, user_reply,
};
use crate::store::{AlbumStore, after_update, has_id};

verus! {

/// The handlers of the service.
#[derive(Clone, Copy, Debug, PartialEq, Eq, Structural)]
pub enum Endpoint {
    Root,
    Hello,
    Foo,
    Upgrade,
    InfoHeader,
    CreateUser,
    GetUser,
    TotalRows,
    QueryAll,
    Insert,
    Update,
    Delete,
    FooBar,
}

/// The routes of the service: method, pattern and handler.
pub open spec fn service_table() -> Seq<(Method, Seq<char>, Endpoint)> {
    seq![
        (Method::Get, "/"@, Endpoint::Root),
        (Method::Get, "/ws"@, Endpoint::Upgrade),
        (Method::Get, "/hello2"@, Endpoint::Hello),
        (Method::Post, "/foo"@, Endpoint::Foo),
        (Method::Get, "/info_header"@, Endpoint::InfoHeader),
        (Method::Post, "/users"@, Endpoint::CreateUser),
        (Method::Get, "/users/:id"@, Endpoint::GetUser),
        (Method::Get, "/db/total_rows"@, Endpoint::TotalRows),
        (Method::Get, "/db/query_all"@, Endpoint::QueryAll),
        (Method::Get, "/db/insert"@, Endpoint::Insert),
        (Method::Post, "/db/update/:id"@, Endpoint::Update),
        (Method::Get, "/db/delete/:id"@, Endpoint::Delete),
        (Method::Get, "/foo/bar"@, Endpoint::FooBar),
    ]
}

pub open spec fn table_views(t: Seq<(Method, Seq<char>, Endpoint)>) -> Seq<(Method, Seq<PatSeg>)> {
    t.map_values(|e: (Method, Seq<char>, Endpoint)| (e.0, pattern_of(e.1)))
}

pub open spec fn table_handlers(t: Seq<(Method, Seq<char>, Endpoint)>) -> Seq<Endpoint> {
    t.map_values(|e: (Method, Seq<char>, Endpoint)| e.2)
}

pub open spec fn entry_text(es: Seq<(Method, String, Endpoint)>) -> Seq<(Method, Seq<char>, Endpoint)> {
    es.map_values(|e: (Method, String, Endpoint)| (e.0, e.1@, e.2))
}

fn push_entry(v: &mut Vec<(Method, String, Endpoint)>, m: Method, p: &str, e: Endpoint)
    ensures
        entry_text(final(v)@) == entry_text(old(v)@).push((m, p@, e)),
{
    let ghost before = v@;
    v.push((m, String::from_str(p), e));
    assert(entry_text(v@) =~= entry_text(before).push((m, p@, e)));
}

/// The entries of the route table, in the order in which they are registered.
pub fn service_entries() -> (r: Vec<(Method, String, Endpoint)>)
    ensures
        entry_text(r@) == service_table(),
{
    let mut v: Vec<(Method, String, Endpoint)> = Vec::new();
    assert(entry_text(v@) =~= Seq::<(Method, Seq<char>, Endpoint)>::empty());
    push_entry(&mut v, Method::Get, "/", Endpoint::Root);
    push_entry(&mut v, Method::Get, "/ws", Endpoint::Upgrade);
    push_entry(&mut v, Method::Get, "/hello2", Endpoint::Hello);
    push_entry(&mut v, Method::Post, "/foo", Endpoint::Foo);
    push_entry(&mut v, Method::Get, "/info_header", Endpoint::InfoHeader);
    push_entry(&mut v, Method::Post, "/users", Endpoint::CreateUser);
    push_entry(&mut v, Method::Get, "/users/:id", Endpoint::GetUser);
    push_entry(&mut v, Method::Get, "/db/total_rows", Endpoint::TotalRows);
    push_entry(&mut v, Method::Get, "/db/query_all", Endpoint::QueryAll);
    push_entry(&mut v, Method::Get, "/db/insert", Endpoint::Insert);
    push_entry(&mut v, Method::Post, "/db/update/:id", Endpoint::Update);
    push_entry(&mut v, Method::Get, "/db/delete/:id", Endpoint::Delete);
    push_entry(&mut v, Method::Get, "/foo/bar", Endpoint::FooBar);
    assert(entry_text(v@) =~= service_table());
    v
}

/// The router of the service; fails only where the table holds a conflict.
pub fn service_router() -> (r: Result<Router<Endpoint>, RouteError>)
    ensures
        r matches Ok(t) ==> t.wf() && t@ == table_views(service_table()) && t.handlers()
            == table_handlers(service_table()),
        r is Err <==> !no_conflicts(table_views(service_table())),
{
    let entries = service_entries();
    proof {
        assert(entry_views(entries@) =~= table_views(service_table()));
        assert(entry_handlers(entries@) =~= table_handlers(service_table()));
    }
    Router::from_entries(entries)
}

/// The handlers whose reply does not depend on the request.
pub open spec fn is_fixed(e: Endpoint) -> bool {
    e == Endpoint::Root || e == Endpoint::Hello || e == Endpoint::Foo || e == Endpoint::FooBar
}

/// The body of a handler whose reply is fixed.
pub open spec fn fixed_text(e: Endpoint) -> Seq<char> {
    if e == Endpoint::Root {
        "Hello, World!"@
    } else if e == Endpoint::Hello {
        "Hello, World! 2"@
    } else if e == Endpoint::Foo {
        "Hi from `POST /foo`"@
    } else {
        Seq::empty()
    }
}

/// The replies of the handlers whose reply is fixed; `None` for the others.
pub fn fixed_reply(e: Endpoint) -> (r: Option<Reply>)
    ensures
        r is Some <==> is_fixed(e),
        r matches Some(x) ==> x.status == 200 && x.body@ == fixed_text(e),
{
    match e {
        Endpoint::Root => Some(Reply { status: 200, body: String::from_str("Hello, World!") }),
        Endpoint::Hello => Some(Reply { status: 200, body: String::from_str("Hello, World! 2") }),
        Endpoint::Foo => Some(Reply { status: 200, body: String::from_str("Hi from `POST /foo`") }),
        Endpoint::FooBar => Some(Reply { status: 200, body: String::new() }),
        _ => None,
    }
}

/// The value of the first parameter named `name`.
pub open spec fn first_param(ps: Seq<(Seq<char>, Seq<char>)>, name: Seq<char>) -> Option<Seq<char>>
    decreases ps.len(),
{
    if ps.len() == 0 {
        None
    } else if ps[0].0 == name {
        Some(ps[0].1)
    } else {
        first_param(ps.drop_first(), name)
    }
}

/// The value of the parameter named `name`, empty where there is none.
pub open spec fn param_text(ps: Seq<(Seq<char>, Seq<char>)>, name: Seq<char>) -> Seq<char> {
    match first_param(ps, name) {
        Some(v) => v,
        None => Seq::empty(),
    }
}

/// Finds the value bound to the parameter `name`.
pub fn find_param(params: &Vec<(String, String)>, name: &str) -> (r: Option<String>)
    ensures
        r is Some <==> first_param(binding_views(params@), name@) is Some,
        r matches Some(v) ==> first_param(binding_views(params@), name@) == Some(v@),
{
    let ghost bv = binding_views(params@);
    let mut i: usize = 0;
    proof {
        assert(bv.skip(0) =~= bv);
    }
    while i < params.len()
        invariant
            bv == binding_views(params@),
            i <= params@.len(),
            first_param(bv, name@) == first_param(bv.skip(i as int), name@),
        decreases params@.len() - i,
    {
        proof {
            assert(bv.skip(i as int)[0] == bv[i as int]);
            assert(bv.skip(i as int).drop_first() =~= bv.skip(i as int + 1));
        }
        if text_eq(params[i].0.as_str(), name) {
            return Some(params[i].1.clone());
        }
        i = i + 1;
    }
    None
}

/// The reply of a handler that needs no more of the request than its bound
/// parameters and, for an update, the new title: the fixed texts, the user
/// echo and the record store's operations. `None` for the upgrade, the
/// header echo and user creation, which need more of the request.
pub fn respond(store: &mut AlbumStore, e: Endpoint, params: &Vec<(String, String)>, title: &str) -> (r: Option<Reply>)
    requires
        old(store).wf(),
    ensures
        final(store).wf(),
        final(store).next() >= old(store).next(),
        r is None <==> (e == Endpoint::Upgrade || e == Endpoint::InfoHeader || e == Endpoint::CreateUser),
        !(e == Endpoint::Insert || e == Endpoint::Update || e == Endpoint::Delete) ==> final(store)@
            == old(store)@,
        is_fixed(e) ==> (r matches Some(x) && x.status == 200 && x.body@ == fixed_text(e)),
        e == Endpoint::GetUser ==> (r matches Some(x) && x.status == 200 && x.body@ == user_line(
            param_text(binding_views(params@), "id"@),
        )),
        e == Endpoint::TotalRows ==> (r matches Some(x) && x.status == 200 && (old(store)@.len()
            <= i64::MAX ==> x.body@ == decimal(old(store)@.len() as int))),
        e == Endpoint::QueryAll ==> (r matches Some(x) && x.status == 200 && x.body@ == albums_json(
            old(store)@,
        )),
        e == Endpoint::Insert ==> (r matches Some(x) && x.status == 200 && (old(store).next()
            < i64::MAX ==> final(store)@ == old(store)@.push((old(store).next(), "title 123"@))
            && x.body@ == ack_token(Write::Insert)) && (old(store).next() == i64::MAX
            ==> final(store)@ == old(store)@)),
        e == Endpoint::Update ==> (r matches Some(x) && match parse_i64(param_text(binding_views(params@), "id"@)) {
            None => x.status == 400 && final(store)@ == old(store)@,
            Some(id) => x.status == 200 && (has_id(old(store)@, id) ==> final(store)@ == after_update(
                old(store)@,
                id,
                title@,
            ) && x.body@ == ack_token(Write::Update)) && (!has_id(old(store)@, id) ==> final(store)@
                == old(store)@),
        }),
        e == Endpoint::Delete ==> (r matches Some(x) && match parse_i64(param_text(binding_views(params@), "id"@)) {
            None => x.status == 400 && final(store)@ == old(store)@,
            Some(id) => x.status == 200 && (has_id(old(store)@, id) ==> x.body@ == ack_token(Write::Delete)
                && exists|p: int| 0 <= p < old(store)@.len() && #[trigger] old(store)@[p].0 == id
                && final(store)@ == old(store)@.remove(p)) && (!has_id(old(store)@, id) ==> final(store)@
                == old(store)@),
        }),
{
    match e {
        Endpoint::Upgrade | Endpoint::InfoHeader | Endpoint::CreateUser => None,
        Endpoint::Root | Endpoint::Hello | Endpoint::Foo | Endpoint::FooBar => fixed_reply(e),
        Endpoint::GetUser => {
            let id = id_text(params);
            Some(Reply { status: 200, body: user_reply(id.as_str()) })
        },
        Endpoint::TotalRows => Some(Reply { status: 200, body: count_reply(store.count()) }),
        Endpoint::QueryAll => {
            let rows = store.list();
            let body = match list_reply(Ok(rows)) {
                Ok(t) => t,
                Err(t) => t,
            };
            Some(Reply { status: 200, body })
        },
        Endpoint::Insert => {
            let r = store.insert("title 123");
            Some(Reply { status: 200, body: ack_reply(Write::Insert, r) })
        },
        Endpoint::Update => {
            let raw = id_text(params);
            match parse_id(raw.as_str()) {
                None => Some(bad_id(raw.as_str())),
                Some(id) => {
                    let r = store.update(id, title);
                    Some(Reply { status: 200, body: ack_reply(Write::Update, r) })
                },
            }
        },
        Endpoint::Delete => {
            let raw = id_text(params);
            match parse_id(raw.as_str()) {
                None => Some(bad_id(raw.as_str())),
                Some(id) => {
                    let r = store.delete(id);
                    Some(Reply { status: 200, body: ack_reply(Write::Delete, r) })
                },
            }
        },
    }
}

fn id_text(params: &Vec<(String, String)>) -> (r: String)
    ensures
        r@ == param_text(binding_views(params@), "id"@),
{
    match find_param(params, "id") {
        Some(v) => v,
        None => String::new(),
    }
}

/// The reply to an id that is not an integer.
pub fn bad_id(raw: &str) -> (r: Reply)
    ensures
        r.status == 400,
        r.body@ == "Invalid URL: Cannot parse `"@ + raw@ + "` to a `i64`"@,
{
    let mut body = String::from_str("Invalid URL: Cannot parse `");
    body.append(raw);
    body.append("` to a `i64`");
    Reply { status: 400, body }
}

} // verus!
