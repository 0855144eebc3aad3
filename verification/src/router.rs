//! The router: method and path-template tables for one mount point,
//! with parameter capture.
//!
//! Templates are `/`-delimited; a segment beginning with `:` captures
//! exactly one path segment under the name after the colon, and every
//! other segment must match literally. A template matches only a path
//! with the same number of segments. Routes are scanned in registration
//! order, so the earliest matching registration wins; registering the
//! same method and template again replaces the earlier session in
//! place.

use vstd::prelude::*;
use vstd::string::StrSliceExecFns;

use crate::errors::HttpError;
use crate::kvmap::{map_of, StrMap};
use crate::session::Session;
use crate::text::{split_at_seps, split_str, str_eq, str_eq_upper, upper_of};

verus! {

/// The closed set of HTTP methods routes can be registered under.
/// `ALL` is for wildcard registration only: a route registered under it
/// covers every incoming method, and no incoming request carries it.
#[derive(PartialEq, Eq, Structural, Clone, Copy, Debug, Hash)]
pub enum Methods {
    GET,
    POST,
    PUT,
    DELETE,
    PATCH,
    ALL,
}

/// The method a name spells, read with ASCII letters folded to upper
/// case, if any.
pub open spec fn spec_method_of(s: Seq<char>) -> Option<Methods> {
    if upper_of(s) == ("GET")@ {
        Some(Methods::GET)
    } else if upper_of(s) == ("POST")@ {
        Some(Methods::POST)
    } else if upper_of(s) == ("PUT")@ {
        Some(Methods::PUT)
    } else if upper_of(s) == ("DELETE")@ {
        Some(Methods::DELETE)
    } else if upper_of(s) == ("PATCH")@ {
        Some(Methods::PATCH)
    } else if upper_of(s) == ("*")@ {
        Some(Methods::ALL)
    } else {
        None
    }
}

/// Folding a name already in upper case changes nothing.
proof fn lemma_upper_fixed(s: Seq<char>)
    requires
        forall|i: int| 0 <= i < s.len() ==> !('a' <= s[i] && s[i] <= 'z'),
    ensures
        upper_of(s) == s,
{
    assert(upper_of(s) =~= s);
}

impl Methods {
    /// Reads a method from its spelling on the wire, upper or lower
    /// case; a name outside the closed set is nothing rather than a
    /// method.
    pub fn from_name(name: &str) -> (r: Option<Methods>)
        ensures
            r == spec_method_of(name@),
    {
        proof {
            reveal_strlit("GET");
            reveal_strlit("POST");
            reveal_strlit("PUT");
            reveal_strlit("DELETE");
            reveal_strlit("PATCH");
            reveal_strlit("*");
            lemma_upper_fixed(("GET")@);
            lemma_upper_fixed(("POST")@);
            lemma_upper_fixed(("PUT")@);
            lemma_upper_fixed(("DELETE")@);
            lemma_upper_fixed(("PATCH")@);
            lemma_upper_fixed(("*")@);
        }
        if str_eq_upper(name, "GET") {
            Some(Methods::GET)
        } else if str_eq_upper(name, "POST") {
            Some(Methods::POST)
        } else if str_eq_upper(name, "PUT") {
            Some(Methods::PUT)
        } else if str_eq_upper(name, "DELETE") {
            Some(Methods::DELETE)
        } else if str_eq_upper(name, "PATCH") {
            Some(Methods::PATCH)
        } else if str_eq_upper(name, "*") {
            Some(Methods::ALL)
        } else {
            None
        }
    }
}

/// What can stand for a method at a registration call.
pub trait RouterMethod {
    fn parse(&self) -> Methods;
}

impl RouterMethod for Methods {
    fn parse(&self) -> Methods {
        *self
    }
}

/// The `/`-delimited segments of a path or template.
pub open spec fn path_segments(p: Seq<char>) -> Seq<Seq<char>> {
    split_at_seps(p, '/', '/')
}

/// A template segment beginning with `:` captures one path segment.
pub open spec fn is_capture(seg: Seq<char>) -> bool {
    seg.len() > 0 && seg[0] == ':'
}

/// The name a capture segment binds: everything after the colon.
pub open spec fn capture_name(seg: Seq<char>) -> Seq<char> {
    seg.skip(1)
}

/// Segment lists match when they have the same length and every
/// template segment either captures or equals the path segment.
pub open spec fn segs_match(ts: Seq<Seq<char>>, ps: Seq<Seq<char>>) -> bool {
    &&& ts.len() == ps.len()
    &&& forall|i: int| 0 <= i < ts.len() ==> is_capture(ts[i]) || ts[i] == ps[i]
}

/// Whether template `t` matches path `p`.
pub open spec fn template_matches(t: Seq<char>, p: Seq<char>) -> bool {
    segs_match(path_segments(t), path_segments(p))
}

/// The captured pairs of matching segment lists, in segment order.
pub open spec fn captures(ts: Seq<Seq<char>>, ps: Seq<Seq<char>>) -> Seq<(Seq<char>, Seq<char>)>
    decreases ts.len(),
{
    if ts.len() == 0 || ts.len() != ps.len() {
        seq![]
    } else if is_capture(ts.last()) {
        captures(ts.drop_last(), ps.drop_last()).push((capture_name(ts.last()), ps.last()))
    } else {
        captures(ts.drop_last(), ps.drop_last())
    }
}

/// The parameter map a match of `t` against `p` yields; a later capture
/// of the same name wins.
pub open spec fn template_params(t: Seq<char>, p: Seq<char>) -> Map<Seq<char>, Seq<char>> {
    map_of(captures(path_segments(t), path_segments(p)))
}

/// Path matching, characterized: for a template and a path with equally
/// many segments, the match succeeds exactly when every non-capture
/// segment of the template equals the corresponding path segment — a
/// capture segment binds whatever stands there.
pub proof fn lemma_path_match_characterization(t: Seq<char>, p: Seq<char>)
    requires
        path_segments(t).len() == path_segments(p).len(),
    ensures
        template_matches(t, p) <==> (forall|i: int|
            0 <= i < path_segments(t).len() ==> is_capture(path_segments(t)[i])
                || path_segments(t)[i] == path_segments(p)[i]),
{
}

/// Every capture of a matching template binds its name to the path
/// segment standing where it stands, as long as no later capture in the
/// template reuses the name.
pub proof fn lemma_capture_binds(ts: Seq<Seq<char>>, ps: Seq<Seq<char>>, i: int)
    requires
        ts.len() == ps.len(),
        0 <= i < ts.len(),
        is_capture(ts[i]),
        forall|j: int|
            i < j < ts.len() ==> !(is_capture(ts[j]) && capture_name(ts[j]) == capture_name(
                ts[i],
            )),
    ensures
        map_of(captures(ts, ps)).dom().contains(capture_name(ts[i])),
        map_of(captures(ts, ps))[capture_name(ts[i])] == ps[i],
    decreases ts.len(),
{
    if i == ts.len() - 1 {
        assert(captures(ts, ps) == captures(ts.drop_last(), ps.drop_last()).push(
            (capture_name(ts.last()), ps.last()),
        ));
        let c = captures(ts, ps);
        assert(c.drop_last() =~= captures(ts.drop_last(), ps.drop_last()));
        assert(map_of(c) == map_of(c.drop_last()).insert(capture_name(ts[i]), ps[i]));
    } else {
        assert(ts.drop_last()[i] == ts[i] && ps.drop_last()[i] == ps[i]);
        assert forall|j: int|
            i < j < ts.drop_last().len() implies !(is_capture(ts.drop_last()[j]) && capture_name(
            ts.drop_last()[j],
        ) == capture_name(ts.drop_last()[i])) by {
            assert(ts.drop_last()[j] == ts[j]);
        }
        lemma_capture_binds(ts.drop_last(), ps.drop_last(), i);
        let c = captures(ts, ps);
        if is_capture(ts.last()) {
            assert(c == captures(ts.drop_last(), ps.drop_last()).push(
                (capture_name(ts.last()), ps.last()),
            ));
            assert(c.drop_last() =~= captures(ts.drop_last(), ps.drop_last()));
            assert(capture_name(ts.last()) != capture_name(ts[i]));
            assert(map_of(c) == map_of(c.drop_last()).insert(capture_name(ts.last()), ps.last()));
        } else {
            assert(c == captures(ts.drop_last(), ps.drop_last()));
        }
    }
}

/// Matches one template against one path: the captured parameters when
/// they match, nothing when they do not.
pub fn match_template(template: &str, path: &str) -> (r: Option<StrMap>)
    ensures
        r is Some <==> template_matches(template@, path@),
        r matches Some(m) ==> m.wf() && m@ == template_params(template@, path@),
{
    let ts = split_str(template, '/', '/');
    let ps = split_str(path, '/', '/');
    let ghost tsv = ts.deep_view();
    let ghost psv = ps.deep_view();
    let n = ts.len();
    if ps.len() != n {
        return None;
    }
    let mut m = StrMap::new();
    let mut k: usize = 0;
    proof {
        assert(captures(tsv.take(0), psv.take(0)) =~= Seq::<(Seq<char>, Seq<char>)>::empty());
    }
    while k < n
        invariant
            k <= n,
            n == tsv.len(),
            n == psv.len(),
            tsv == ts.deep_view(),
            psv == ps.deep_view(),
            tsv == path_segments(template@),
            psv == path_segments(path@),
            m.wf(),
            m@ == map_of(captures(tsv.take(k as int), psv.take(k as int))),
            forall|j: int| 0 <= j < k ==> is_capture(tsv[j]) || tsv[j] == psv[j],
        decreases n - k,
    {
        let seg: &String = &ts[k];
        let pseg: &String = &ps[k];
        proof {
            assert(seg@ == tsv[k as int]);
            assert(pseg@ == psv[k as int]);
            assert(tsv.take(k + 1).drop_last() =~= tsv.take(k as int));
            assert(psv.take(k + 1).drop_last() =~= psv.take(k as int));
            assert(tsv.take(k + 1).last() == tsv[k as int]);
            assert(psv.take(k + 1).last() == psv[k as int]);
        }
        let sl = seg.as_str().unicode_len();
        if sl > 0 && seg.as_str().get_char(0) == ':' {
            let name = seg.as_str().substring_char(1, sl).to_owned();
            proof {
                assert(is_capture(tsv[k as int]));
                assert(name@ == capture_name(tsv[k as int]));
                let prev = captures(tsv.take(k as int), psv.take(k as int));
                let cur = captures(tsv.take(k + 1), psv.take(k + 1));
                assert(cur == prev.push((capture_name(tsv[k as int]), psv[k as int])));
                assert(cur.drop_last() =~= prev);
                assert(map_of(cur) == map_of(prev).insert(capture_name(tsv[k as int]), psv[k as int]));
            }
            m.insert(name, pseg.clone());
        } else {
            if !str_eq(seg.as_str(), pseg.as_str()) {
                proof {
                    assert(!is_capture(tsv[k as int])) by {
                        if tsv[k as int].len() > 0 && tsv[k as int][0] == ':' {
                            assert(seg@.len() > 0 && seg@[0] == ':');
                        }
                    }
                    assert(!template_matches(template@, path@));
                }
                return None;
            }
            proof {
                assert(captures(tsv.take(k + 1), psv.take(k + 1)) == captures(
                    tsv.take(k as int),
                    psv.take(k as int),
                ));
            }
        }
        k += 1;
    }
    proof {
        assert(tsv.take(n as int) =~= tsv);
        assert(psv.take(n as int) =~= psv);
        assert(template_matches(template@, path@));
    }
    Some(m)
}

/// One registered route: a method, a path template and its session.
pub struct RouteEntry<T> {
    /// The method the route was registered under.
    pub method: Methods,
    /// The path template the route answers.
    pub template: String,
    /// The pipeline run when the route matches.
    pub session: Session<T>,
}

/// The route table of one mount point.
pub struct Router<T> {
    /// The registered routes, in registration order.
    pub routes: Vec<RouteEntry<T>>,
}

/// Whether a route registered under `registered` answers an incoming
/// method `m`: exactly its own method, or every method for `ALL`.
pub open spec fn method_covers(registered: Methods, m: Methods) -> bool {
    registered == m || registered is ALL
}

/// Whether entry `e` answers method `m` and path `p`.
pub open spec fn entry_matches<T>(e: RouteEntry<T>, m: Methods, p: Seq<char>) -> bool {
    method_covers(e.method, m) && template_matches(e.template@, p)
}

/// The first index at or after `i` whose entry answers, if any.
pub open spec fn first_match_from<T>(
    es: Seq<RouteEntry<T>>,
    m: Methods,
    p: Seq<char>,
    i: int,
) -> Option<int>
    decreases es.len() - i,
{
    if i < 0 || i >= es.len() {
        None
    } else if entry_matches(es[i], m, p) {
        Some(i)
    } else {
        first_match_from(es, m, p, i + 1)
    }
}

/// The earliest registered entry that answers, if any.
pub open spec fn first_match<T>(es: Seq<RouteEntry<T>>, m: Methods, p: Seq<char>) -> Option<int> {
    first_match_from(es, m, p, 0)
}

/// `first_match_from` is pinned down by the pointwise facts a forward
/// scan gathers.
pub proof fn lemma_first_match_characterize<T>(
    es: Seq<RouteEntry<T>>,
    m: Methods,
    p: Seq<char>,
    from: int,
    r: Option<int>,
)
    requires
        0 <= from,
        r matches Some(i) ==> from <= i < es.len() && entry_matches(es[i], m, p) && (forall|j: int|
            from <= j < i ==> !entry_matches(es[j], m, p)),
        r is None ==> forall|j: int| from <= j < es.len() ==> !entry_matches(es[j], m, p),
    ensures
        first_match_from(es, m, p, from) == r,
    decreases es.len() - from,
{
    if from >= es.len() {
    } else if entry_matches(es[from], m, p) {
    } else {
        lemma_first_match_characterize(es, m, p, from + 1, r);
    }
}

/// The entry list after registering `e`: the first entry under `e`'s
/// method and template is replaced in place, or `e` is appended.
pub open spec fn spec_route_insert<T>(es: Seq<RouteEntry<T>>, e: RouteEntry<T>) -> Seq<
    RouteEntry<T>,
>
    decreases es.len(),
{
    if es.len() == 0 {
        seq![e]
    } else if es[0].method == e.method && es[0].template@ == e.template@ {
        seq![e] + es.skip(1)
    } else {
        seq![es[0]] + spec_route_insert(es.skip(1), e)
    }
}

/// Registration overwrite: registering under one method and template
/// twice leaves only the second session reachable — the table after
/// both registrations is the table after the second alone.
pub proof fn lemma_register_overwrite<T>(
    es: Seq<RouteEntry<T>>,
    e1: RouteEntry<T>,
    e2: RouteEntry<T>,
)
    requires
        e1.method == e2.method,
        e1.template@ == e2.template@,
    ensures
        spec_route_insert(spec_route_insert(es, e1), e2) == spec_route_insert(es, e2),
    decreases es.len(),
{
    if es.len() == 0 {
        assert(spec_route_insert(es, e1) == seq![e1]);
        assert(spec_route_insert(seq![e1], e2) =~= seq![e2]) by {
            assert(seq![e1][0] == e1);
            assert(seq![e2] + seq![e1].skip(1) =~= seq![e2]);
        }
    } else if es[0].method == e1.method && es[0].template@ == e1.template@ {
        let mid = seq![e1] + es.skip(1);
        assert(mid[0] == e1);
        assert(spec_route_insert(mid, e2) == seq![e2] + mid.skip(1));
        assert(mid.skip(1) =~= es.skip(1));
    } else {
        let mid = seq![es[0]] + spec_route_insert(es.skip(1), e1);
        assert(mid[0] == es[0]);
        assert(spec_route_insert(es.skip(1), e1).len() >= 1) by {
            lemma_route_insert_len(es.skip(1), e1);
        }
        assert(mid.len() >= 2);
        assert(spec_route_insert(mid, e2) == seq![mid[0]] + spec_route_insert(mid.skip(1), e2));
        assert(mid.skip(1) =~= spec_route_insert(es.skip(1), e1));
        lemma_register_overwrite(es.skip(1), e1, e2);
        assert(spec_route_insert(spec_route_insert(es, e1), e2) == seq![es[0]] + spec_route_insert(
            es.skip(1),
            e2,
        ));
    }
}

/// Registering never empties the table.
pub proof fn lemma_route_insert_len<T>(es: Seq<RouteEntry<T>>, e: RouteEntry<T>)
    ensures
        spec_route_insert(es, e).len() >= 1,
    decreases es.len(),
{
    if es.len() == 0 {
    } else if es[0].method == e.method && es[0].template@ == e.template@ {
    } else {
        lemma_route_insert_len(es.skip(1), e);
    }
}

/// Registering in place: when the first entry under `e`'s method and
/// template stands at `i`, the registration is an update there.
pub proof fn lemma_route_insert_update<T>(es: Seq<RouteEntry<T>>, e: RouteEntry<T>, i: int)
    requires
        0 <= i < es.len(),
        es[i].method == e.method,
        es[i].template@ == e.template@,
        forall|j: int|
            0 <= j < i ==> !((#[trigger] es[j]).method == e.method && es[j].template@
                == e.template@),
    ensures
        spec_route_insert(es, e) == es.update(i, e),
    decreases es.len(),
{
    if i == 0 {
        assert(seq![e] + es.skip(1) =~= es.update(0, e));
    } else {
        assert(es.skip(1)[i - 1] == es[i]);
        assert forall|j: int|
            0 <= j < i - 1 implies !((#[trigger] es.skip(1)[j]).method == e.method && es.skip(
            1,
        )[j].template@ == e.template@) by {
            assert(es.skip(1)[j] == es[j + 1]);
        }
        lemma_route_insert_update(es.skip(1), e, i - 1);
        assert(seq![es[0]] + es.skip(1).update(i - 1, e) =~= es.update(i, e));
    }
}

/// Registering a new pair appends it.
pub proof fn lemma_route_insert_append<T>(es: Seq<RouteEntry<T>>, e: RouteEntry<T>)
    requires
        forall|j: int|
            0 <= j < es.len() ==> !((#[trigger] es[j]).method == e.method && es[j].template@
                == e.template@),
    ensures
        spec_route_insert(es, e) == es.push(e),
    decreases es.len(),
{
    if es.len() == 0 {
        assert(spec_route_insert(es, e) =~= es.push(e));
    } else {
        assert forall|j: int|
            0 <= j < es.skip(1).len() implies !((#[trigger] es.skip(1)[j]).method == e.method
            && es.skip(1)[j].template@ == e.template@) by {
            assert(es.skip(1)[j] == es[j + 1]);
        }
        lemma_route_insert_append(es.skip(1), e);
        assert(seq![es[0]] + es.skip(1).push(e) =~= es.push(e));
    }
}

impl<T> Router<T> {
    /// Every stored session's stage count fits the machine.
    pub open spec fn wf(&self) -> bool {
        forall|i: int| 0 <= i < self.routes@.len() ==> (#[trigger] self.routes@[i]).session.wf()
    }

    /// A router with no routes yet.
    pub fn new() -> (r: Router<T>)
        ensures
            r.wf(),
            r.routes@ == Seq::<RouteEntry<T>>::empty(),
    {
        Router { routes: Vec::new() }
    }

    /// Registers `action` under a method and a path template, replacing
    /// in place whatever was registered under the same pair: the last
    /// registration wins.
    pub fn route(&mut self, method: Methods, path: String, action: Session<T>)
        requires
            old(self).wf(),
            action.wf(),
        ensures
            final(self).wf(),
            final(self).routes@ == spec_route_insert(
                old(self).routes@,
                (RouteEntry { method, template: path, session: action }),
            ),
    {
        let ghost entry_spec = (RouteEntry { method, template: path, session: action });
        let ghost es = self.routes@;
        let n = self.routes.len();
        let mut i: usize = 0;
        while i < n
            invariant
                i <= n,
                n == es.len(),
                es == self.routes@,
                self == old(self),
                old(self).wf(),
                entry_spec == (RouteEntry { method, template: path, session: action }),
                action.wf(),
                forall|j: int|
                    0 <= j < i ==> !((#[trigger] es[j]).method == entry_spec.method
                        && es[j].template@ == entry_spec.template@),
            decreases n - i,
        {
            let hit = {
                let e = vstd::std_specs::vec::vec_index(&self.routes, i);
                let same_method = e.method == method;
                let same_template = str_eq(e.template.as_str(), path.as_str());
                same_method && same_template
            };
            proof {
                assert(entry_spec.method == method);
                assert(entry_spec.template == path);
                assert(hit == (es[i as int].method == entry_spec.method && es[i as int].template@
                    == entry_spec.template@));
            }
            if hit {
                proof {
                    lemma_route_insert_update(es, entry_spec, i as int);
                }
                let slot = vstd::std_specs::vec::vec_index_mut(&mut self.routes, i);
                *slot = RouteEntry { method, template: path, session: action };
                return ;
            }
            i += 1;
        }
        proof {
            lemma_route_insert_append(es, entry_spec);
        }
        self.routes.push(RouteEntry { method, template: path, session: action });
    }

    /// Searches the routes for the earliest registration answering the
    /// method and path, returning its session and the parameters its
    /// template captures from the path.
    pub fn find_route(&self, method: Methods, path: &str) -> (r: Result<
        (&Session<T>, StrMap),
        HttpError,
    >)
        requires
            self.wf(),
        ensures
            match first_match(self.routes@, method, path@) {
                Some(i) => r matches Ok(pair) && *pair.0 == self.routes@[i].session
                    && pair.0.wf() && pair.1.wf() && pair.1@ == template_params(
                    self.routes@[i].template@,
                    path@,
                ),
                None => r matches Err(e) && e == HttpError::NotFound,
            },
    {
        let ghost es = self.routes@;
        let n = self.routes.len();
        let mut i: usize = 0;
        while i < n
            invariant
                i <= n,
                n == es.len(),
                es == self.routes@,
                self.wf(),
                forall|j: int| 0 <= j < i ==> !entry_matches(#[trigger] es[j], method, path@),
            decreases n - i,
        {
            let e = vstd::std_specs::vec::vec_index(&self.routes, i);
            let covers = e.method == method || e.method == Methods::ALL;
            if covers {
                match match_template(e.template.as_str(), path) {
                    Some(params) => {
                        proof {
                            assert(entry_matches(es[i as int], method, path@));
                            lemma_first_match_characterize(es, method, path@, 0, Some(i as int));
                        }
                        return Ok((&e.session, params));
                    },
                    None => {
                        proof {
                            assert(!entry_matches(es[i as int], method, path@));
                        }
                    },
                }
            } else {
                proof {
                    assert(!method_covers(es[i as int].method, method));
                }
            }
            i += 1;
        }
        proof {
            lemma_first_match_characterize(es, method, path@, 0, None);
        }
        Err(HttpError::NotFound)
    }

    /// Registers `action` for GET requests on `path`.
    pub fn get(&mut self, path: String, action: Session<T>)
        requires
            old(self).wf(),
            action.wf(),
        ensures
            final(self).wf(),
            final(self).routes@ == spec_route_insert(
                old(self).routes@,
                (RouteEntry { method: Methods::GET, template: path, session: action }),
            ),
    {
        self.route(Methods::GET, path, action);
    }

    /// Registers `action` for POST requests on `path`.
    pub fn post(&mut self, path: String, action: Session<T>)
        requires
            old(self).wf(),
            action.wf(),
        ensures
            final(self).wf(),
            final(self).routes@ == spec_route_insert(
                old(self).routes@,
                (RouteEntry { method: Methods::POST, template: path, session: action }),
            ),
    {
        self.route(Methods::POST, path, action);
    }

    /// Registers `action` for PUT requests on `path`.
    pub fn put(&mut self, path: String, action: Session<T>)
        requires
            old(self).wf(),
            action.wf(),
        ensures
            final(self).wf(),
            final(self).routes@ == spec_route_insert(
                old(self).routes@,
                (RouteEntry { method: Methods::PUT, template: path, session: action }),
            ),
    {
        self.route(Methods::PUT, path, action);
    }

    /// Registers `action` for PATCH requests on `path`.
    pub fn patch(&mut self, path: String, action: Session<T>)
        requires
            old(self).wf(),
            action.wf(),
        ensures
            final(self).wf(),
            final(self).routes@ == spec_route_insert(
                old(self).routes@,
                (RouteEntry { method: Methods::PATCH, template: path, session: action }),
            ),
    {
        self.route(Methods::PATCH, path, action);
    }

    /// Registers `action` for DELETE requests on `path`.
    pub fn delete(&mut self, path: String, action: Session<T>)
        requires
            old(self).wf(),
            action.wf(),
        ensures
            final(self).wf(),
            final(self).routes@ == spec_route_insert(
                old(self).routes@,
                (RouteEntry { method: Methods::DELETE, template: path, session: action }),
            ),
    {
        self.route(Methods::DELETE, path, action);
    }
}

} // verus!
