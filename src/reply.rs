use vstd::prelude::*;

verus! {

/// The character of a decimal digit.
pub open spec fn digit_char(d: nat) -> char {
    if d == 0 { '0' } else if d == 1 { '1' } else if d == 2 { '2' } else if d == 3 { '3' }
    else if d == 4 { '4' } else if d == 5 { '5' } else if d == 6 { '6' } else if d == 7 { '7' }
    else if d == 8 { '8' } else { '9' }
}

/// The decimal digits of `n`, without leading zeros.
pub open spec fn digits(n: nat) -> Seq<char>
    decreases n,
{
    if n < 10 {
        seq![digit_char(n)]
    } else {
        digits(n / 10).push(digit_char(n % 10))
    }
}

/// `n` written in decimal, with a `-` before a negative number.
pub open spec fn decimal(n: int) -> Seq<char> {
    if n < 0 {
        seq!['-'] + digits((-n) as nat)
    } else {
        digits(n as nat)
    }
}

fn digit_text(d: u64) -> (r: &'static str)
    requires
        d < 10,
    ensures
        r@ == seq![digit_char(d as nat)],
{
    proof {
        reveal_strlit("0");
        reveal_strlit("1");
        reveal_strlit("2");
        reveal_strlit("3");
        reveal_strlit("4");
        reveal_strlit("5");
        reveal_strlit("6");
        reveal_strlit("7");
        reveal_strlit("8");
        reveal_strlit("9");
    }
    if d == 0 { "0" } else if d == 1 { "1" } else if d == 2 { "2" } else if d == 3 { "3" }
    else if d == 4 { "4" } else if d == 5 { "5" } else if d == 6 { "6" } else if d == 7 { "7" }
    else if d == 8 { "8" } else { "9" }
}

fn digits_of(n: u64) -> (r: String)
    ensures
        r@ == digits(n as nat),
    decreases n,
{
    if n < 10 {
        String::from_str(digit_text(n))
    } else {
        let mut s = digits_of(n / 10);
        s.append(digit_text(n % 10));
        s
    }
}

/// Writes an integer in decimal.
pub fn decimal_text(n: i64) -> (r: String)
    ensures
        r@ == decimal(n as int),
{
    if n < 0 {
        let mag: u64 = (0 - (n as i128)) as u64;
        let mut s = String::from_str("-");
        proof {
            reveal_strlit("-");
        }
        s.append(digits_of(mag).as_str());
        s
    } else {
        digits_of(n as u64)
    }
}

pub open spec fn is_digit(c: char) -> bool {
    '0' <= c && c <= '9'
}

/// The number that a run of decimal digits writes.
pub open spec fn digits_value(s: Seq<char>) -> int
    decreases s.len(),
{
    if s.len() == 0 {
        0
    } else {
        digits_value(s.drop_last()) * 10 + ((s.last() as u32) as int - 48)
    }
}

pub open spec fn all_digits(s: Seq<char>) -> bool {
    forall|i: int| 0 <= i < s.len() ==> #[trigger] is_digit(s[i])
}

/// An integer written as an optional `+` or `-` and at least one decimal
/// digit, where it fits in an `i64`; `None` for anything else.
pub open spec fn parse_i64(s: Seq<char>) -> Option<int> {
    let neg = s.len() > 0 && s[0] == '-';
    let body = if s.len() > 0 && (s[0] == '-' || s[0] == '+') { s.drop_first() } else { s };
    let v = if neg { -digits_value(body) } else { digits_value(body) };
    if body.len() > 0 && all_digits(body) && i64::MIN <= v <= i64::MAX {
        Some(v)
    } else {
        None
    }
}

proof fn lemma_prefix_value(s: Seq<char>, k: int)
    requires
        all_digits(s),
        0 <= k <= s.len(),
    ensures
        0 <= digits_value(s.subrange(0, k)) <= digits_value(s),
    decreases s.len(),
{
    if s.len() > 0 {
        let d = s.drop_last();
        assert(is_digit(s[s.len() - 1]));
        assert(all_digits(d)) by {
            assert forall|i: int| 0 <= i < d.len() implies #[trigger] is_digit(d[i]) by {
                assert(d[i] == s[i]);
            }
        }
        if k == s.len() {
            assert(s.subrange(0, k) =~= s);
            lemma_prefix_value(d, d.len() as int);
            assert(d.subrange(0, d.len() as int) =~= d);
        } else {
            lemma_prefix_value(d, k);
            assert(d.subrange(0, k) =~= s.subrange(0, k));
            lemma_prefix_value(d, d.len() as int);
            assert(d.subrange(0, d.len() as int) =~= d);
        }
    }
}

/// Reads a record id from a path segment.
pub fn parse_id(s: &str) -> (r: Option<i64>)
    ensures
        r matches Some(n) ==> parse_i64(s@) == Some(n as int),
        r is None ==> parse_i64(s@) is None,
{
    let n = s.unicode_len();
    let mut i: usize = 0;
    let mut neg = false;
    if n > 0 && s.get_char(0) == '-' {
        neg = true;
        i = 1;
    } else if n > 0 && s.get_char(0) == '+' {
        i = 1;
    }
    let ghost body = s@.subrange(i as int, n as int);
    proof {
        if i == 1 {
            assert(body =~= s@.drop_first());
        } else {
            assert(body =~= s@);
        }
    }
    if i == n {
        return None;
    }
    let limit: u64 = if neg { 9223372036854775808u64 } else { 9223372036854775807u64 };
    let start = i;
    let mut mag: u64 = 0;
    proof {
        assert(s@.subrange(start as int, start as int) =~= Seq::<char>::empty());
    }
    while i < n
        invariant
            n == s@.len(),
            start <= i <= n,
            body == s@.subrange(start as int, n as int),
            body == (if s@.len() > 0 && (s@[0] == '-' || s@[0] == '+') { s@.drop_first() } else { s@ }),
            neg == (s@.len() > 0 && s@[0] == '-'),
            body.len() > 0,
            forall|j: int| start <= j < i ==> #[trigger] is_digit(s@[j]),
            mag == digits_value(s@.subrange(start as int, i as int)),
            mag <= limit,
            limit == if neg { 9223372036854775808u64 } else { 9223372036854775807u64 },
        decreases n - i,
    {
        let c = s.get_char(i);
        if !('0' <= c && c <= '9') {
            proof {
                assert(body[i - start] == c);
                assert(!is_digit(body[i - start]));
            }
            return None;
        }
        let d: u64 = (c as u32 - 48) as u64;
        let ghost pre = s@.subrange(start as int, i as int + 1);
        proof {
            assert(pre.drop_last() =~= s@.subrange(start as int, i as int));
            assert(pre.last() == c);
        }
        if mag > (limit - d) / 10 {
            proof {
                assert(mag * 10 + d > limit) by (nonlinear_arith)
                    requires
                        mag > (limit - d) / 10,
                        d <= 9,
                        d <= limit,
                ;
                if all_digits(body) {
                    assert(pre =~= body.subrange(0, i - start + 1));
                    lemma_prefix_value(body, i - start + 1);
                }
            }
            return None;
        }
        proof {
            assert(mag * 10 + d <= limit) by (nonlinear_arith)
                requires
                    mag <= (limit - d) / 10,
                    d <= 9,
                    d <= limit,
            ;
        }
        mag = mag * 10 + d;
        i = i + 1;
    }
    proof {
        assert(s@.subrange(start as int, i as int) =~= body);
        assert(all_digits(body)) by {
            assert forall|j: int| 0 <= j < body.len() implies #[trigger] is_digit(body[j]) by {
                assert(body[j] == s@[start + j]);
            }
        }
    }
    if neg {
        if mag == 9223372036854775808u64 {
            Some(i64::MIN)
        } else {
            Some(0 - (mag as i64))
        }
    } else {
        Some(mag as i64)
    }
}

/// A lowercase hexadecimal digit.
pub open spec fn hex_lower(d: nat) -> char {
    if d < 10 { digit_char(d) } else if d == 10 { 'a' } else if d == 11 { 'b' } else if d == 12 { 'c' }
    else if d == 13 { 'd' } else if d == 14 { 'e' } else { 'f' }
}

/// How one character is written inside a JSON string: quote and backslash
/// escaped, the usual short escapes, other control characters as `\u00xx`,
/// everything else as it is.
pub open spec fn json_escape_char(c: char) -> Seq<char> {
    if c == '"' {
        seq!['\\', '"']
    } else if c == '\\' {
        seq!['\\', '\\']
    } else if c == '\u{8}' {
        seq!['\\', 'b']
    } else if c == '\t' {
        seq!['\\', 't']
    } else if c == '\n' {
        seq!['\\', 'n']
    } else if c == '\u{c}' {
        seq!['\\', 'f']
    } else if c == '\r' {
        seq!['\\', 'r']
    } else if (c as u32) < 0x20 {
        seq!['\\', 'u', '0', '0', hex_lower((c as u32 / 16) as nat), hex_lower((c as u32 % 16) as nat)]
    } else {
        seq![c]
    }
}

pub open spec fn json_escape(s: Seq<char>) -> Seq<char>
    decreases s.len(),
{
    if s.len() == 0 {
        Seq::empty()
    } else {
        json_escape(s.drop_last()) + json_escape_char(s.last())
    }
}

/// A text written as a JSON string literal.
pub open spec fn json_str(s: Seq<char>) -> Seq<char> {
    seq!['"'] + json_escape(s) + seq!['"']
}

/// Relies on serde_json::to_string on a `str`: it writes the quoted, escaped
/// string into a fresh `Vec`, which cannot fail.
#[verifier::external_body]
fn json_string(s: &str) -> (r: Result<String, String>)
    ensures
        r is Ok,
        r matches Ok(t) ==> t@ == json_str(s@),
{
    match serde_json::to_string(s) {
        Ok(t) => Ok(t),
        Err(e) => Err(e.to_string()),
    }
}

/// A response: a status code and a text body, empty where there is none.
pub struct Reply {
    pub status: u16,
    pub body: String,
}

/// The response to a request that no route matches.
pub fn not_found() -> (r: Reply)
    ensures
        r.status == 404,
        r.body@ == Seq::<char>::empty(),
{
    let body = String::new();
    Reply { status: 404, body }
}

/// The body of the header echo: the `authorization` value, or `no_data`.
pub fn header_reply(auth: Option<&str>) -> (r: String)
    ensures
        auth matches Some(a) ==> r@ == a@,
        auth is None ==> r@ == "no_data"@,
{
    match auth {
        Some(a) => String::from_str(a),
        None => String::from_str("no_data"),
    }
}

pub open spec fn user_line(id: Seq<char>) -> Seq<char> {
    "user_id = "@ + id
}

/// The body of `GET /users/:id`.
pub fn user_reply(id: &str) -> (r: String)
    ensures
        r@ == user_line(id@),
{
    let mut r = String::from_str("user_id = ");
    r.append(id);
    r
}

/// The JSON object of a created user, given its name as a JSON string.
pub open spec fn user_json(quoted_name: Seq<char>) -> Seq<char> {
    "{\"id\":1337,\"username\":"@ + quoted_name + "}"@
}

/// The body for a created user, from the name already written as JSON.
pub fn user_json_from(quoted_name: &str) -> (r: String)
    ensures
        r@ == user_json(quoted_name@),
{
    let mut r = String::from_str("{\"id\":1337,\"username\":");
    r.append(quoted_name);
    r.append("}");
    r
}

/// The response to `POST /users`: status 201 and the user as JSON, id 1337.
pub fn create_user(username: &str) -> (r: Reply)
    ensures
        r.status == 201,
        r.body@ == user_json(json_str(username@)),
{
    let q = match json_string(username) {
        Ok(q) => q,
        Err(e) => {
            proof {
                assert(false);
            }
            e
        },
    };
    Reply { status: 201, body: user_json_from(q.as_str()) }
}

/// The body of the row count: the count in decimal, or the error text.
pub fn count_reply(r: Result<i64, String>) -> (out: String)
    ensures
        r matches Ok(n) ==> out@ == decimal(n as int),
        r matches Err(e) ==> out@ == e@,
{
    match r {
        Ok(n) => decimal_text(n),
        Err(e) => e,
    }
}

/// The writes of the record store.
#[derive(Clone, Copy, Debug, PartialEq, Eq, Structural)]
pub enum Write {
    Insert,
    Update,
    Delete,
}

pub open spec fn ack_token(w: Write) -> Seq<char> {
    match w {
        Write::Insert => "insert-ok"@,
        Write::Update => "update-ok"@,
        Write::Delete => "delete-ok"@,
    }
}

/// The body after a write: its confirmation token, or the error text.
pub fn ack_reply(w: Write, r: Result<(), String>) -> (out: String)
    ensures
        r is Ok ==> out@ == ack_token(w),
        r matches Err(e) ==> out@ == e@,
{
    match r {
        Ok(()) => match w {
            Write::Insert => String::from_str("insert-ok"),
            Write::Update => String::from_str("update-ok"),
            Write::Delete => String::from_str("delete-ok"),
        },
        Err(e) => e,
    }
}

/// A record of the store.
#[derive(Clone, Debug)]
pub struct Album {
    pub id: i64,
    pub title: String,
}

/// The JSON object of a record, given its title as a JSON string.
pub open spec fn album_json(id: int, quoted_title: Seq<char>) -> Seq<char> {
    "{\"id\":"@ + decimal(id) + ",\"title\":"@ + quoted_title + "}"@
}

pub open spec fn album_views(a: Seq<Album>) -> Seq<(int, Seq<char>)> {
    a.map_values(|x: Album| (x.id as int, x.title@))
}

/// The JSON list of records, given as (id, title): objects joined by commas.
pub open spec fn albums_items(a: Seq<(int, Seq<char>)>) -> Seq<char>
    decreases a.len(),
{
    if a.len() == 0 {
        Seq::empty()
    } else {
        let last = album_json(a.last().0, json_str(a.last().1));
        if a.len() == 1 {
            last
        } else {
            albums_items(a.drop_last()) + ","@ + last
        }
    }
}

pub open spec fn albums_json(a: Seq<(int, Seq<char>)>) -> Seq<char> {
    "["@ + albums_items(a) + "]"@
}

/// The JSON object of a record, from its title already written as JSON.
pub fn album_json_from(id: i64, quoted_title: &str) -> (r: String)
    ensures
        r@ == album_json(id as int, quoted_title@),
{
    let mut r = String::from_str("{\"id\":");
    r.append(decimal_text(id).as_str());
    r.append(",\"title\":");
    r.append(quoted_title);
    r.append("}");
    r
}

/// The body of the record list: the records as JSON where the store
/// succeeded, else the store's error text.
pub fn list_reply(r: Result<Vec<Album>, String>) -> (out: Result<String, String>)
    ensures
        r matches Err(e) ==> out matches Err(x) && x@ == e@,
        r matches Ok(a) ==> (out matches Ok(t) && t@ == albums_json(album_views(a@))),
{
    let ghost r0 = r;
    match r {
        Err(e) => Err(e),
        Ok(a) => {
            let mut out = String::from_str("[");
            let mut i: usize = 0;
            proof {
                assert(a@.subrange(0, 0) =~= Seq::<Album>::empty());
                assert(album_views(a@.subrange(0, 0)) =~= Seq::<(int, Seq<char>)>::empty());
                assert(out@ =~= "["@ + albums_items(album_views(a@.subrange(0, 0))));
            }
            while i < a.len()
                invariant
                    r0 == Ok::<Vec<Album>, String>(a),
                    r0 == r,
                    i <= a@.len(),
                    out@ == "["@ + albums_items(album_views(a@.subrange(0, i as int))),
                decreases a@.len() - i,
            {
                let q = match json_string(a[i].title.as_str()) {
                    Ok(q) => q,
                    Err(e) => {
                        proof {
                            assert(false);
                        }
                        e
                    },
                };
                if i > 0 {
                    out.append(",");
                }
                out.append(album_json_from(a[i].id, q.as_str()).as_str());
                proof {
                    let sub = a@.subrange(0, i as int + 1);
                    assert(sub.drop_last() =~= a@.subrange(0, i as int));
                    assert(sub.last() == a@[i as int]);
                    let sv = album_views(sub);
                    assert(sv.drop_last() =~= album_views(sub.drop_last()));
                    assert(sv.last() == (a@[i as int].id as int, a@[i as int].title@));
                    if i == 0 {
                        assert(albums_items(sv.drop_last()) =~= Seq::<char>::empty());
                        assert(out@ =~= "["@ + albums_items(sv));
                    } else {
                        assert(out@ =~= "["@ + albums_items(sv));
                    }
                }
                i = i + 1;
            }
            out.append("]");
            proof {
                assert(a@.subrange(0, i as int) =~= a@);
                assert(out@ =~= albums_json(album_views(a@)));
            }
            Ok(out)
        },
    }
}

} // verus!
