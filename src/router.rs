use vstd::prelude::*;
use crate::path::{split_slash, split_path, views};

verus! {

/// HTTP request methods that routes are registered under.
#[derive(Clone, Copy, Debug, PartialEq, Eq, Structural)]
pub enum Method {
    Get,
    Post,
    /// Any other method; the service registers no route under it.
    Other,
}

/// One segment of a route pattern, as a mathematical value.
pub ghost enum PatSeg {
    Lit(Seq<char>),
    Param(Seq<char>),
}

/// One segment of a route pattern: a literal, or a named parameter (`:id`).
#[derive(Clone, Debug)]
pub enum Segment {
    Literal(String),
    Param(String),
}

impl View for Segment {
    type V = PatSeg;

    open spec fn view(&self) -> PatSeg {
        match self {
            Segment::Literal(s) => PatSeg::Lit(s@),
            Segment::Param(s) => PatSeg::Param(s@),
        }
    }
}

pub open spec fn seg_views(v: Seq<Segment>) -> Seq<PatSeg> {
    v.map_values(|x: Segment| x@)
}

/// A pattern piece that starts with `:` names a parameter; any other is literal.
pub open spec fn parse_segment_spec(s: Seq<char>) -> PatSeg {
    if s.len() > 0 && s[0] == ':' {
        PatSeg::Param(s.drop_first())
    } else {
        PatSeg::Lit(s)
    }
}

/// The segments of a route pattern written as text (`"/users/:id"`).
pub open spec fn pattern_of(p: Seq<char>) -> Seq<PatSeg> {
    split_slash(p).map_values(|s: Seq<char>| parse_segment_spec(s))
}

pub open spec fn is_lit(ps: PatSeg) -> bool {
    ps is Lit
}

/// A literal matches itself only; a parameter matches any non-empty segment.
pub open spec fn seg_matches(ps: PatSeg, s: Seq<char>) -> bool {
    match ps {
        PatSeg::Lit(l) => l == s,
        PatSeg::Param(_) => s.len() > 0,
    }
}

pub open spec fn pattern_matches(pat: Seq<PatSeg>, segs: Seq<Seq<char>>) -> bool {
    &&& pat.len() == segs.len()
    &&& forall|i: int| 0 <= i < pat.len() ==> #[trigger] seg_matches(pat[i], segs[i])
}

/// Two patterns have the same shape when they have literals and parameters at
/// the same places and the same literals; the names of parameters do not count.
pub open spec fn same_shape(a: Seq<PatSeg>, b: Seq<PatSeg>) -> bool {
    &&& a.len() == b.len()
    &&& forall|i: int|
        0 <= i < a.len() ==> #[trigger] is_lit(a[i]) == is_lit(b[i]) && (is_lit(a[i]) ==> a[i]
            == b[i])
}

/// `a` is more specific than `b`: at the first position where one has a literal
/// and the other a parameter, `a` has the literal.
pub open spec fn outranks(a: Seq<PatSeg>, b: Seq<PatSeg>) -> bool
    decreases a.len(),
{
    if a.len() == 0 || b.len() == 0 {
        false
    } else if is_lit(a[0]) != is_lit(b[0]) {
        is_lit(a[0])
    } else {
        outranks(a.drop_first(), b.drop_first())
    }
}

/// The parameters that a matching pattern binds, in order: (name, value).
pub open spec fn bindings(pat: Seq<PatSeg>, segs: Seq<Seq<char>>) -> Seq<(Seq<char>, Seq<char>)>
    decreases pat.len(),
{
    if pat.len() == 0 || segs.len() == 0 {
        Seq::empty()
    } else {
        let rest = bindings(pat.drop_last(), segs.drop_last());
        match pat.last() {
            PatSeg::Param(n) => rest.push((n, segs.last())),
            PatSeg::Lit(_) => rest,
        }
    }
}

pub open spec fn binding_views(v: Seq<(String, String)>) -> Seq<(Seq<char>, Seq<char>)> {
    v.map_values(|x: (String, String)| (x.0@, x.1@))
}

/// Whether two strings hold the same characters.
pub fn text_eq(a: &str, b: &str) -> (r: bool)
    ensures
        r == (a@ == b@),
{
    let n = a.unicode_len();
    if n != b.unicode_len() {
        return false;
    }
    let mut i: usize = 0;
    while i < n
        invariant
            n == a@.len() == b@.len(),
            i <= n,
            forall|j: int| 0 <= j < i ==> a@[j] == b@[j],
        decreases n - i,
    {
        if a.get_char(i) != b.get_char(i) {
            return false;
        }
        i = i + 1;
    }
    assert(a@ =~= b@);
    true
}

/// Reads one pattern piece: `:name` is a parameter, anything else a literal.
pub fn parse_segment(s: &str) -> (r: Segment)
    ensures
        r@ == parse_segment_spec(s@),
{
    let n = s.unicode_len();
    if n > 0 && s.get_char(0) == ':' {
        let name = s.substring_char(1, n);
        proof {
            assert(name@ =~= s@.drop_first());
        }
        Segment::Param(String::from_str(name))
    } else {
        Segment::Literal(String::from_str(s))
    }
}

/// Reads a route pattern such as `"/users/:id"`.
pub fn parse_pattern(p: &str) -> (r: Vec<Segment>)
    ensures
        seg_views(r@) == pattern_of(p@),
{
    let pieces = split_path(p);
    let mut out: Vec<Segment> = Vec::new();
    let mut i: usize = 0;
    while i < pieces.len()
        invariant
            i <= pieces@.len(),
            views(pieces@) == split_slash(p@),
            seg_views(out@) =~= views(pieces@).subrange(0, i as int).map_values(
                |s: Seq<char>| parse_segment_spec(s),
            ),
        decreases pieces@.len() - i,
    {
        let seg = parse_segment(pieces[i].as_str());
        let ghost before = out@;
        out.push(seg);
        proof {
            assert(seg_views(out@) =~= seg_views(before).push(seg@));
        }
        i = i + 1;
    }
    proof {
        assert(views(pieces@).subrange(0, i as int) =~= views(pieces@));
    }
    out
}

/// Whether every segment of `segs` matches the pattern at the same place.
pub fn pattern_matches_exec(pat: &Vec<Segment>, segs: &Vec<String>) -> (r: bool)
    ensures
        r == pattern_matches(seg_views(pat@), views(segs@)),
{
    if pat.len() != segs.len() {
        return false;
    }
    let mut i: usize = 0;
    while i < pat.len()
        invariant
            pat@.len() == segs@.len(),
            i <= pat@.len(),
            forall|j: int| 0 <= j < i ==> #[trigger] seg_matches(pat@[j]@, segs@[j]@),
        decreases pat@.len() - i,
    {
        let ok = match &pat[i] {
            Segment::Literal(l) => text_eq(l.as_str(), segs[i].as_str()),
            Segment::Param(_) => segs[i].as_str().unicode_len() > 0,
        };
        if !ok {
            assert(!seg_matches(seg_views(pat@)[i as int], views(segs@)[i as int]));
            return false;
        }
        i = i + 1;
    }
    assert forall|j: int| 0 <= j < pat@.len() implies #[trigger] seg_matches(
        seg_views(pat@)[j],
        views(segs@)[j],
    ) by {
        assert(seg_matches(pat@[j]@, segs@[j]@));
    }
    true
}

/// Whether two patterns have the same shape.
pub fn same_shape_exec(a: &Vec<Segment>, b: &Vec<Segment>) -> (r: bool)
    ensures
        r == same_shape(seg_views(a@), seg_views(b@)),
{
    if a.len() != b.len() {
        return false;
    }
    let mut i: usize = 0;
    while i < a.len()
        invariant
            a@.len() == b@.len(),
            i <= a@.len(),
            forall|j: int|
                0 <= j < i ==> #[trigger] is_lit(a@[j]@) == is_lit(b@[j]@) && (is_lit(a@[j]@)
                    ==> a@[j]@ == b@[j]@),
        decreases a@.len() - i,
    {
        let ok = match (&a[i], &b[i]) {
            (Segment::Literal(x), Segment::Literal(y)) => text_eq(x.as_str(), y.as_str()),
            (Segment::Param(_), Segment::Param(_)) => true,
            _ => false,
        };
        if !ok {
            assert(!(is_lit(seg_views(a@)[i as int]) == is_lit(seg_views(b@)[i as int]) && (is_lit(
                seg_views(a@)[i as int],
            ) ==> seg_views(a@)[i as int] == seg_views(b@)[i as int])));
            return false;
        }
        i = i + 1;
    }
    assert forall|j: int| 0 <= j < a@.len() implies #[trigger] is_lit(seg_views(a@)[j]) == is_lit(
        seg_views(b@)[j],
    ) && (is_lit(seg_views(a@)[j]) ==> seg_views(a@)[j] == seg_views(b@)[j]) by {
        assert(is_lit(a@[j]@) == is_lit(b@[j]@));
    }
    true
}

proof fn lemma_outranks_skip(a: Seq<PatSeg>, b: Seq<PatSeg>, i: int)
    requires
        0 <= i < a.len(),
        i < b.len(),
        is_lit(a[i]) == is_lit(b[i]),
    ensures
        outranks(a.skip(i), b.skip(i)) == outranks(a.skip(i + 1), b.skip(i + 1)),
{
    assert(a.skip(i).drop_first() =~= a.skip(i + 1));
    assert(b.skip(i).drop_first() =~= b.skip(i + 1));
}

/// Whether `a` is more specific than `b`.
pub fn outranks_exec(a: &Vec<Segment>, b: &Vec<Segment>) -> (r: bool)
    ensures
        r == outranks(seg_views(a@), seg_views(b@)),
{
    let ghost av = seg_views(a@);
    let ghost bv = seg_views(b@);
    let mut i: usize = 0;
    proof {
        assert(av.skip(0) =~= av);
        assert(bv.skip(0) =~= bv);
    }
    while i < a.len() && i < b.len()
        invariant
            av == seg_views(a@),
            bv == seg_views(b@),
            i <= a@.len(),
            i <= b@.len(),
            outranks(av, bv) == outranks(av.skip(i as int), bv.skip(i as int)),
        decreases a@.len() - i,
    {
        let la = match &a[i] {
            Segment::Literal(_) => true,
            Segment::Param(_) => false,
        };
        let lb = match &b[i] {
            Segment::Literal(_) => true,
            Segment::Param(_) => false,
        };
        if la != lb {
            proof {
                assert(av.skip(i as int)[0] == av[i as int]);
                assert(bv.skip(i as int)[0] == bv[i as int]);
            }
            return la;
        }
        proof {
            lemma_outranks_skip(av, bv, i as int);
        }
        i = i + 1;
    }
    false
}

proof fn lemma_outranks_trans(a: Seq<PatSeg>, b: Seq<PatSeg>, c: Seq<PatSeg>)
    requires
        outranks(a, b),
        outranks(b, c),
    ensures
        outranks(a, c),
    decreases a.len(),
{
    if is_lit(a[0]) == is_lit(b[0]) && is_lit(b[0]) == is_lit(c[0]) {
        lemma_outranks_trans(a.drop_first(), b.drop_first(), c.drop_first());
    }
}

proof fn lemma_outranks_asym(a: Seq<PatSeg>, b: Seq<PatSeg>)
    requires
        outranks(a, b),
    ensures
        !outranks(b, a),
    decreases a.len(),
{
    if is_lit(a[0]) == is_lit(b[0]) {
        lemma_outranks_asym(a.drop_first(), b.drop_first());
    }
}

proof fn lemma_outranks_total(a: Seq<PatSeg>, b: Seq<PatSeg>, i: int)
    requires
        a.len() == b.len(),
        0 <= i < a.len(),
        is_lit(a[i]) != is_lit(b[i]),
    ensures
        outranks(a, b) || outranks(b, a),
    decreases i,
{
    if is_lit(a[0]) == is_lit(b[0]) {
        assert(a.drop_first()[i - 1] == a[i]);
        assert(b.drop_first()[i - 1] == b[i]);
        lemma_outranks_total(a.drop_first(), b.drop_first(), i - 1);
    }
}

/// Two patterns that match the same segments and differ in shape differ in
/// which places hold literals, so one of them outranks the other.
proof fn lemma_rivals_ordered(a: Seq<PatSeg>, b: Seq<PatSeg>, segs: Seq<Seq<char>>)
    requires
        pattern_matches(a, segs),
        pattern_matches(b, segs),
        !same_shape(a, b),
    ensures
        outranks(a, b) || outranks(b, a),
{
    if forall|i: int| 0 <= i < a.len() ==> is_lit(a[i]) == is_lit(b[i]) {
        assert forall|i: int| 0 <= i < a.len() implies #[trigger] is_lit(a[i]) == is_lit(b[i]) && (
        is_lit(a[i]) ==> a[i] == b[i]) by {
            assert(seg_matches(a[i], segs[i]));
            assert(seg_matches(b[i], segs[i]));
        }
        assert(false);
    } else {
        let i = choose|i: int| 0 <= i < a.len() && is_lit(a[i]) != is_lit(b[i]);
        lemma_outranks_total(a, b, i);
    }
}

/// Why a route could not be registered.
#[derive(Clone, Copy, Debug, PartialEq, Eq, Structural)]
pub enum RouteError {
    /// A route with the same method and the same pattern is already there.
    Duplicate,
}

/// A route: a method and a pattern, bound to a handler.
pub struct Route<H> {
    pub method: Method,
    pub pattern: Vec<Segment>,
    pub handler: H,
}

/// The outcome of a successful dispatch: the route chosen and the parameters
/// that its pattern bound, as (name, value) pairs.
pub struct Match {
    pub route: usize,
    pub params: Vec<(String, String)>,
}

/// No two routes of the table share a method and a pattern shape.
pub open spec fn no_conflicts(rs: Seq<(Method, Seq<PatSeg>)>) -> bool {
    forall|i: int, j: int|
        0 <= i < rs.len() && 0 <= j < rs.len() && i != j && #[trigger] rs[i].0 == #[trigger] rs[j].0
            ==> !same_shape(rs[i].1, rs[j].1)
}

pub open spec fn conflicts_with(rs: Seq<(Method, Seq<PatSeg>)>, m: Method, pat: Seq<PatSeg>) -> bool {
    exists|i: int| 0 <= i < rs.len() && rs[i].0 == m && #[trigger] same_shape(rs[i].1, pat)
}

pub open spec fn route_matches(
    rs: Seq<(Method, Seq<PatSeg>)>,
    m: Method,
    segs: Seq<Seq<char>>,
    k: int,
) -> bool {
    0 <= k < rs.len() && rs[k].0 == m && pattern_matches(rs[k].1, segs)
}

pub open spec fn any_match(rs: Seq<(Method, Seq<PatSeg>)>, m: Method, segs: Seq<Seq<char>>) -> bool {
    exists|k: int| #[trigger] route_matches(rs, m, segs, k)
}

/// Route `k` matches, and outranks every other route that matches.
pub open spec fn is_best(rs: Seq<(Method, Seq<PatSeg>)>, m: Method, segs: Seq<Seq<char>>, k: int) -> bool {
    &&& route_matches(rs, m, segs, k)
    &&& forall|j: int| #[trigger]
        route_matches(rs, m, segs, j) && j != k ==> outranks(rs[k].1, rs[j].1)
}

pub open spec fn entry_views<H>(es: Seq<(Method, String, H)>) -> Seq<(Method, Seq<PatSeg>)> {
    es.map_values(|e: (Method, String, H)| (e.0, pattern_of(e.1@)))
}

pub open spec fn entry_handlers<H>(es: Seq<(Method, String, H)>) -> Seq<H> {
    es.map_values(|e: (Method, String, H)| e.2)
}

/// A table of routes, fixed once the service starts.
pub struct Router<H> {
    routes: Vec<Route<H>>,
}

impl<H> View for Router<H> {
    type V = Seq<(Method, Seq<PatSeg>)>;

    closed spec fn view(&self) -> Seq<(Method, Seq<PatSeg>)> {
        self.routes@.map_values(|r: Route<H>| (r.method, seg_views(r.pattern@)))
    }
}

impl<H> Router<H> {
    /// The handlers of the routes, in the order in which they were registered.
    pub closed spec fn handlers(&self) -> Seq<H> {
        self.routes@.map_values(|r: Route<H>| r.handler)
    }

    pub open spec fn wf(&self) -> bool {
        &&& no_conflicts(self@)
        &&& self.handlers().len() == self@.len()
    }

    /// An empty table.
    pub fn new() -> (r: Self)
        ensures
            r@ == Seq::<(Method, Seq<PatSeg>)>::empty(),
            r.wf(),
    {
        let r = Router { routes: Vec::new() };
        assert(r@ =~= Seq::<(Method, Seq<PatSeg>)>::empty());
        r
    }

    /// The number of routes.
    pub fn len(&self) -> (r: usize)
        ensures
            r == self@.len(),
    {
        self.routes.len()
    }

    /// The handler of route `k`.
    pub fn handler(&self, k: usize) -> (r: &H)
        requires
            self.wf(),
            k < self@.len(),
        ensures
            *r == self.handlers()[k as int],
    {
        &self.routes[k].handler
    }

    /// Adds a route for `method` and the pattern written as `pattern`; fails
    /// where a route of that method with the same pattern shape is there.
    pub fn register(&mut self, method: Method, pattern: &str, handler: H) -> (r: Result<(), RouteError>)
        requires
            old(self).wf(),
        ensures
            final(self).wf(),
            (r is Err) == conflicts_with(old(self)@, method, pattern_of(pattern@)),
            r is Ok ==> final(self)@ == old(self)@.push((method, pattern_of(pattern@))),
            r is Ok ==> final(self).handlers() == old(self).handlers().push(handler),
            r is Err ==> final(self)@ == old(self)@ && final(self).handlers() == old(self).handlers(),
    {
        let pat = parse_pattern(pattern);
        let ghost pv = pattern_of(pattern@);
        let mut i: usize = 0;
        while i < self.routes.len()
            invariant
                *self == *old(self),
                self.wf(),
                pv == pattern_of(pattern@),
                seg_views(pat@) == pv,
                i <= self@.len(),
                forall|j: int|
                    0 <= j < i ==> !(self@[j].0 == method && #[trigger] same_shape(self@[j].1, pv)),
            decreases self@.len() - i,
        {
            if self.routes[i].method == method && same_shape_exec(&self.routes[i].pattern, &pat) {
                assert(self@[i as int].0 == method && same_shape(self@[i as int].1, pv));
                return Err(RouteError::Duplicate);
            }
            i = i + 1;
        }
        assert(forall|j: int|
            0 <= j < old(self)@.len() ==> !(old(self)@[j].0 == method && #[trigger] same_shape(
                old(self)@[j].1,
                pv,
            )));
        let ghost before = self.routes@;
        self.routes.push(Route { method, pattern: pat, handler });
        proof {
            assert(self@ =~= before.map_values(
                |r: Route<H>| (r.method, seg_views(r.pattern@)),
            ).push((method, pv)));
            assert(self.handlers() =~= before.map_values(|r: Route<H>| r.handler).push(handler));
            assert forall|a: int, b: int|
                0 <= a < self@.len() && 0 <= b < self@.len() && a != b && #[trigger] self@[a].0
                    == #[trigger] self@[b].0 implies !same_shape(self@[a].1, self@[b].1) by {
                if a < self@.len() - 1 && b < self@.len() - 1 {
                    assert(self@[a] == old(self)@[a]);
                    assert(self@[b] == old(self)@[b]);
                    assert(old(self)@[a].0 == old(self)@[b].0);
                } else {
                    if same_shape(self@[a].1, self@[b].1) {
                        let o = if a == self@.len() - 1 { b } else { a };
                        assert(self@[o] == old(self)@[o]);
                        assert(self@[self@.len() - 1] == (method, pv));
                        assert(same_shape(self@[o].1, pv)) by {
                            assert forall|x: int| 0 <= x < pv.len() implies #[trigger] is_lit(self@[o].1[x]) == is_lit(pv[x]) && (
                            is_lit(self@[o].1[x]) ==> self@[o].1[x] == pv[x]) by {
                                assert(is_lit(self@[a].1[x]) == is_lit(self@[b].1[x]));
                            }
                        }
                    }
                }
            }
        }
        Ok(())
    }

    /// Builds a table from (method, pattern, handler) entries, registered in
    /// order; fails where two entries share a method and a pattern shape.
    pub fn from_entries(entries: Vec<(Method, String, H)>) -> (r: Result<Router<H>, RouteError>)
        ensures
            r matches Ok(t) ==> t.wf() && t@ == entry_views(entries@) && t.handlers()
                == entry_handlers(entries@),
            r is Err <==> !no_conflicts(entry_views(entries@)),
    {
        let ghost all = entries@;
        let ghost mut k: int = 0;
        let mut rest = entries;
        let mut t: Router<H> = Router::new();
        proof {
            assert(all.subrange(0, 0) =~= Seq::<(Method, String, H)>::empty());
            assert(entry_views(all.subrange(0, 0)) =~= t@);
            assert(entry_handlers(all.subrange(0, 0)) =~= t.handlers());
            assert(rest@ =~= all.subrange(0, all.len() as int));
        }
        while rest.len() > 0
            invariant
                t.wf(),
                all == entries@,
                0 <= k <= all.len(),
                rest@ == all.subrange(k, all.len() as int),
                t@ == entry_views(all.subrange(0, k)),
                t.handlers() == entry_handlers(all.subrange(0, k)),
            decreases rest@.len(),
        {
            let (m, p, h) = rest.remove(0);
            let ghost tv = t@;
            proof {
                assert(all[k] == (m, p, h));
            }
            match t.register(m, p.as_str(), h) {
                Ok(()) => {},
                Err(e) => {
                    proof {
                        let rs = entry_views(all);
                        let i = choose|i: int|
                            0 <= i < tv.len() && tv[i].0 == m && #[trigger] same_shape(
                                tv[i].1,
                                pattern_of(p@),
                            );
                        assert(tv[i] == rs[i]);
                        assert(rs[k] == (m, pattern_of(p@)));
                        assert(rs[i].0 == rs[k].0);
                        assert(!no_conflicts(rs));
                    }
                    return Err(e);
                },
            }
            proof {
                assert(all.subrange(0, k + 1) =~= all.subrange(0, k).push(all[k]));
                assert(t@ =~= entry_views(all.subrange(0, k + 1)));
                assert(t.handlers() =~= entry_handlers(all.subrange(0, k + 1)));
                k = k + 1;
                assert(rest@ =~= all.subrange(k, all.len() as int));
            }
        }
        proof {
            assert(all.subrange(0, k) =~= all);
        }
        Ok(t)
    }

    /// Finds the route for a request: the one whose method is `method` and
    /// whose pattern matches the segments of `path`, the most specific one
    /// where several do; binds the parameters of its pattern.
    pub fn dispatch(&self, method: Method, path: &str) -> (r: Option<Match>)
        requires
            self.wf(),
        ensures
            r is None <==> !any_match(self@, method, split_slash(path@)),
            r matches Some(m) ==> is_best(self@, method, split_slash(path@), m.route as int)
                && binding_views(m.params@) == bindings(self@[m.route as int].1, split_slash(path@)),
    {
        let segs = split_path(path);
        let ghost sv = split_slash(path@);
        let ghost rs = self@;
        let mut best: Option<usize> = None;
        let mut k: usize = 0;
        while k < self.routes.len()
            invariant
                rs == self@,
                no_conflicts(rs),
                views(segs@) == sv,
                k <= rs.len(),
                best is None ==> forall|j: int| 0 <= j < k ==> !#[trigger] route_matches(rs, method, sv, j),
                best matches Some(b) ==> b < k && route_matches(rs, method, sv, b as int) && forall|j: int|
                    0 <= j < k && j != b && #[trigger] route_matches(rs, method, sv, j) ==> outranks(
                        rs[b as int].1,
                        rs[j].1,
                    ),
            decreases rs.len() - k,
        {
            assert(rs[k as int].1 == seg_views(self.routes@[k as int].pattern@));
            if self.routes[k].method == method && pattern_matches_exec(&self.routes[k].pattern, &segs) {
                assert(route_matches(rs, method, sv, k as int));
                match best {
                    None => {
                        best = Some(k);
                    },
                    Some(b) => {
                        assert(rs[b as int].1 == seg_views(self.routes@[b as int].pattern@));
                        if outranks_exec(&self.routes[k].pattern, &self.routes[b].pattern) {
                            proof {
                                assert forall|j: int|
                                    0 <= j < k + 1 && j != k && #[trigger] route_matches(rs, method, sv, j)
                                        implies outranks(rs[k as int].1, rs[j].1) by {
                                    if j != b {
                                        lemma_outranks_trans(rs[k as int].1, rs[b as int].1, rs[j].1);
                                    }
                                }
                            }
                            best = Some(k);
                        } else {
                            proof {
                                assert(rs[b as int].0 == rs[k as int].0);
                                lemma_rivals_ordered(rs[k as int].1, rs[b as int].1, sv);
                            }
                        }
                    },
                }
            }
            k = k + 1;
        }
        match best {
            None => None,
            Some(b) => {
                let params = bind(&self.routes[b].pattern, &segs);
                assert(rs[b as int].1 == seg_views(self.routes@[b as int].pattern@));
                Some(Match { route: b, params })
            },
        }
    }
}

/// Binds the parameters of a pattern to the segments that it matched.
pub fn bind(pat: &Vec<Segment>, segs: &Vec<String>) -> (r: Vec<(String, String)>)
    requires
        pat@.len() == segs@.len(),
    ensures
        binding_views(r@) == bindings(seg_views(pat@), views(segs@)),
{
    let mut out: Vec<(String, String)> = Vec::new();
    let mut i: usize = 0;
    proof {
        assert(seg_views(pat@).subrange(0, 0) =~= Seq::<PatSeg>::empty());
        assert(binding_views(out@) =~= Seq::<(Seq<char>, Seq<char>)>::empty());
    }
    while i < pat.len()
        invariant
            pat@.len() == segs@.len(),
            i <= pat@.len(),
            binding_views(out@) == bindings(
                seg_views(pat@).subrange(0, i as int),
                views(segs@).subrange(0, i as int),
            ),
        decreases pat@.len() - i,
    {
        let ghost before = out@;
        proof {
            assert(seg_views(pat@).subrange(0, i as int + 1).drop_last() =~= seg_views(pat@).subrange(0, i as int));
            assert(views(segs@).subrange(0, i as int + 1).drop_last() =~= views(segs@).subrange(0, i as int));
        }
        match &pat[i] {
            Segment::Param(name) => {
                out.push((name.clone(), segs[i].clone()));
                proof {
                    assert(binding_views(out@) =~= binding_views(before).push((name@, segs@[i as int]@)));
                }
            },
            Segment::Literal(_) => {},
        }
        i = i + 1;
    }
    proof {
        assert(seg_views(pat@).subrange(0, i as int) =~= seg_views(pat@));
        assert(views(segs@).subrange(0, i as int) =~= views(segs@));
    }
    out
}

/// At most one route is the best for a request: dispatch hands a matching
/// request to exactly one handler.
pub proof fn lemma_best_route_unique(
    rs: Seq<(Method, Seq<PatSeg>)>,
    m: Method,
    segs: Seq<Seq<char>>,
    a: int,
    b: int,
)
    requires
        no_conflicts(rs),
        is_best(rs, m, segs, a),
        is_best(rs, m, segs, b),
    ensures
        a == b,
{
    if a != b {
        assert(route_matches(rs, m, segs, b));
        assert(route_matches(rs, m, segs, a));
        lemma_outranks_asym(rs[a].1, rs[b].1);
    }
}

/// Where two routes match a request and the first has a literal at the first
/// place where one has a literal and the other a parameter, the second is
/// never the one chosen.
pub proof fn lemma_literal_route_wins(
    rs: Seq<(Method, Seq<PatSeg>)>,
    m: Method,
    segs: Seq<Seq<char>>,
    a: int,
    b: int,
)
    requires
        no_conflicts(rs),
        route_matches(rs, m, segs, a),
        route_matches(rs, m, segs, b),
        outranks(rs[a].1, rs[b].1),
    ensures
        !is_best(rs, m, segs, b),
{
    lemma_outranks_asym(rs[a].1, rs[b].1);
    if a == b {
        lemma_outranks_asym(rs[a].1, rs[a].1);
    }
}

} // verus!
