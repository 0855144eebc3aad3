//! The server: a mount table from URL-path prefixes to routers, and the
//! per-connection pipeline decode, mount lookup, route match, session
//! run, respond.
//!
//! Mount resolution picks the registered prefix that matches the most
//! of the request path — the longest prefix the path starts with — and
//! strips it once before the router matches. A request nothing answers
//! is turned into an actual error response: status 400 when it cannot
//! be decoded, status 404 when no mount or route covers it.

use vstd::prelude::*;
use vstd::string::StrSliceExecFns;

use crate::errors::HttpError;
use crate::kvmap::StrMap;
use crate::middleware::MiddlewareMethod;
use crate::request::{decodes, first_line, spec_method, spec_route, Request};
use crate::response::{render, Response};
use crate::router::{
    first_match, spec_method_of, template_params, Methods, RouteEntry, Router,
};
use crate::session::{report_valid, DispatchReport, Session};
use crate::text::{is_prefix, str_eq, str_starts_with};

verus! {

/// The method an incoming request names: one of the closed set, and
/// never the wildcard, which is for registration only.
pub open spec fn request_method(s: Seq<char>) -> Option<Methods> {
    match spec_method_of(s) {
        None => None,
        Some(m) => if m is ALL {
            None
        } else {
            Some(m)
        },
    }
}

/// The mount entries as prefix abstraction and router.
pub open spec fn mview<T>(es: Seq<(String, Router<T>)>) -> Seq<(Seq<char>, Router<T>)> {
    es.map_values(|e: (String, Router<T>)| (e.0@, e.1))
}

/// A registered prefix, `/` standing for the empty one.
pub open spec fn normalize_prefix(p: Seq<char>) -> Seq<char> {
    if p == ("/")@ {
        Seq::empty()
    } else {
        p
    }
}

/// The mount entries after registering `(k, r)`: the first entry under
/// prefix `k` is replaced in place, or the pair is appended.
pub open spec fn mounts_insert<T>(
    ms: Seq<(Seq<char>, Router<T>)>,
    k: Seq<char>,
    r: Router<T>,
) -> Seq<(Seq<char>, Router<T>)>
    decreases ms.len(),
{
    if ms.len() == 0 {
        seq![(k, r)]
    } else if ms[0].0 == k {
        seq![(k, r)] + ms.skip(1)
    } else {
        seq![ms[0]] + mounts_insert(ms.skip(1), k, r)
    }
}

/// The scan for the serving mount: walks the entries from `i` keeping
/// the earliest entry whose prefix matches the path and is longer than
/// every match before it — so the first longest matching prefix wins.
pub open spec fn best_mount_loop<T>(
    ms: Seq<(Seq<char>, Router<T>)>,
    p: Seq<char>,
    i: int,
    best: Option<int>,
) -> Option<int>
    decreases ms.len() - i,
{
    if i < 0 || i >= ms.len() {
        best
    } else {
        let better = is_prefix(ms[i].0, p) && (match best {
            None => true,
            Some(b) => ms[i].0.len() > ms[b].0.len(),
        });
        best_mount_loop(ms, p, i + 1, if better {
            Some(i)
        } else {
            best
        })
    }
}

/// The mount that serves path `p`: the one with the longest matching
/// prefix, the earliest registered among equals; nothing when no
/// prefix matches.
pub open spec fn best_mount<T>(ms: Seq<(Seq<char>, Router<T>)>, p: Seq<char>) -> Option<int> {
    best_mount_loop(ms, p, 0, None)
}

proof fn lemma_best_mount_loop_props<T>(
    ms: Seq<(Seq<char>, Router<T>)>,
    p: Seq<char>,
    i: int,
    best: Option<int>,
)
    requires
        0 <= i <= ms.len(),
        best matches Some(b) ==> 0 <= b < i && is_prefix(ms[b].0, p) && (forall|j: int|
            0 <= j < i && is_prefix(#[trigger] ms[j].0, p) ==> ms[j].0.len() <= ms[b].0.len()) && (
        forall|j: int| 0 <= j < b && is_prefix(#[trigger] ms[j].0, p) ==> ms[j].0.len() < ms[b].0.len()),
        best is None ==> forall|j: int| 0 <= j < i ==> !is_prefix(#[trigger] ms[j].0, p),
    ensures
        best_mount_loop(ms, p, i, best) matches Some(w) ==> 0 <= w < ms.len() && is_prefix(
            ms[w].0,
            p,
        ) && (forall|j: int|
            0 <= j < ms.len() && is_prefix(#[trigger] ms[j].0, p) ==> ms[j].0.len()
                <= ms[w].0.len()) && (forall|j: int|
            0 <= j < w && is_prefix(#[trigger] ms[j].0, p) ==> ms[j].0.len() < ms[w].0.len()),
        best_mount_loop(ms, p, i, best) is None ==> forall|j: int|
            0 <= j < ms.len() ==> !is_prefix(#[trigger] ms[j].0, p),
    decreases ms.len() - i,
{
    if i < ms.len() {
        let better = is_prefix(ms[i].0, p) && (match best {
            None => true,
            Some(b) => ms[i].0.len() > ms[b].0.len(),
        });
        let nb = if better {
            Some(i)
        } else {
            best
        };
        lemma_best_mount_loop_props(ms, p, i + 1, nb);
    }
}

/// Mount resolution, characterized: when any registered prefix matches
/// the path, the serving mount is one that matches, no other matching
/// prefix is longer, and every earlier matching prefix is strictly
/// shorter — the first longest match wins. With no matching prefix
/// there is no serving mount.
pub proof fn lemma_best_mount_longest<T>(ms: Seq<(Seq<char>, Router<T>)>, p: Seq<char>)
    ensures
        best_mount(ms, p) matches Some(w) ==> 0 <= w < ms.len() && is_prefix(ms[w].0, p) && (
        forall|j: int|
            0 <= j < ms.len() && is_prefix(#[trigger] ms[j].0, p) ==> ms[j].0.len()
                <= ms[w].0.len()) && (forall|j: int|
            0 <= j < w && is_prefix(#[trigger] ms[j].0, p) ==> ms[j].0.len() < ms[w].0.len()),
        best_mount(ms, p) is None ==> forall|j: int|
            0 <= j < ms.len() ==> !is_prefix(#[trigger] ms[j].0, p),
{
    lemma_best_mount_loop_props(ms, p, 0, None);
}

/// What one lookup through the mount table finds for a method name and
/// a path: the serving router's earliest matching route, if any step
/// finds anything at all.
pub open spec fn spec_find<T>(
    ms: Seq<(Seq<char>, Router<T>)>,
    method: Seq<char>,
    path: Seq<char>,
) -> Option<(int, int)> {
    match request_method(method) {
        None => None,
        Some(m) => match best_mount(ms, path) {
            None => None,
            Some(bi) => match first_match(
                ms[bi].1.routes@,
                m,
                path.skip(ms[bi].0.len() as int),
            ) {
                None => None,
                Some(j) => Some((bi, j)),
            },
        },
    }
}

/// How the pipeline answered one connection's text.
pub enum ServeOutcome {
    /// A route answered: the request as the stages received it — the
    /// decode of the text, the captured parameters attached — and the
    /// report of the session walk.
    Served(Request, DispatchReport),
    /// The text did not decode; a status 400 response was written.
    BadRequest,
    /// No mount or route covered the request; a status 404 response
    /// was written.
    RouteMiss,
}

/// The mount table: URL-path prefixes to routers, built at startup
/// before serving begins.
pub struct Server<T> {
    /// The registered mounts, in registration order.
    pub routers: Vec<(String, Router<T>)>,
}

impl<T> Server<T> {
    /// Mount prefixes are pairwise distinct and every router is
    /// well-formed.
    pub open spec fn wf(&self) -> bool {
        &&& (forall|i: int, j: int|
            0 <= i < j < self.routers@.len() ==> (#[trigger] self.routers@[i].0@) != (
            #[trigger] self.routers@[j].0@))
        &&& (forall|i: int|
            0 <= i < self.routers@.len() ==> (#[trigger] self.routers@[i].1).wf())
    }

    /// A server with no mounts yet.
    pub fn new() -> (r: Server<T>)
        ensures
            r.wf(),
            r.routers@ == Seq::<(String, Router<T>)>::empty(),
    {
        Server { routers: Vec::new() }
    }

    /// Registers a router under a path prefix, `/` standing for the
    /// empty prefix; registering a prefix again replaces its router in
    /// place.
    pub fn register(&mut self, path: String, router: Router<T>)
        requires
            old(self).wf(),
            router.wf(),
        ensures
            final(self).wf(),
            mview(final(self).routers@) == mounts_insert(
                mview(old(self).routers@),
                normalize_prefix(path@),
                router,
            ),
    {
        let prefix: String = if str_eq(path.as_str(), "/") {
            let empty = String::new();
            proof {
                assert(empty@ =~= normalize_prefix(path@));
            }
            empty
        } else {
            path
        };
        let ghost k = prefix@;
        let ghost ms = mview(self.routers@);
        let n = self.routers.len();
        let mut i: usize = 0;
        while i < n
            invariant
                i <= n,
                n == ms.len(),
                n == self.routers@.len(),
                ms == mview(self.routers@),
                self == old(self),
                old(self).wf(),
                router.wf(),
                k == prefix@,
                k == normalize_prefix(path@),
                forall|j: int| 0 <= j < i ==> (#[trigger] ms[j]).0 != k,
            decreases n - i,
        {
            let hit = {
                let e = vstd::std_specs::vec::vec_index(&self.routers, i);
                str_eq(e.0.as_str(), prefix.as_str())
            };
            proof {
                assert(ms[i as int].0 == self.routers@[i as int].0@);
            }
            if hit {
                proof {
                    lemma_mounts_insert_update(ms, k, router, i as int);
                }
                let slot = vstd::std_specs::vec::vec_index_mut(&mut self.routers, i);
                *slot = (prefix, router);
                proof {
                    assert(mview(self.routers@) =~= ms.update(i as int, (k, router)));
                }
                return ;
            }
            i += 1;
        }
        proof {
            lemma_mounts_insert_append(ms, k, router);
        }
        let ghost old_entries = self.routers@;
        self.routers.push((prefix, router));
        proof {
            assert(mview(self.routers@) =~= ms.push((k, router)));
            assert(self.routers@ == old_entries.push((prefix, router)));
            assert forall|a: int, b: int|
                0 <= a < b < self.routers@.len() implies (#[trigger] self.routers@[a].0@) != (
            #[trigger] self.routers@[b].0@) by {
                if b < old_entries.len() {
                    assert(self.routers@[a] == old_entries[a]);
                    assert(self.routers@[b] == old_entries[b]);
                } else {
                    assert(self.routers@[a] == old_entries[a]);
                    assert(self.routers@[b].0@ == k);
                    assert(ms[a].0 == old_entries[a].0@);
                }
            }
            assert forall|a: int| 0 <= a < self.routers@.len() implies (
            #[trigger] self.routers@[a].1).wf() by {
                if a < old_entries.len() {
                    assert(self.routers@[a] == old_entries[a]);
                } else {
                    assert(self.routers@[a].1 == router);
                }
            }
        }
    }

    /// Finds the route serving a method name and a path: the mount with
    /// the longest matching prefix is picked, the prefix stripped once,
    /// and its router searched. A method outside the closed set — the
    /// wildcard included — finds nothing.
    pub fn find_route(&self, method: &str, path: &str) -> (r: Result<
        (&Session<T>, StrMap),
        HttpError,
    >)
        requires
            self.wf(),
        ensures
            match spec_find(mview(self.routers@), method@, path@) {
                Some(ij) => r matches Ok(pair) && {
                    let ms = mview(self.routers@);
                    let entry = ms[ij.0].1.routes@[ij.1];
                    &&& *pair.0 == entry.session
                    &&& pair.0.wf()
                    &&& pair.1.wf()
                    &&& pair.1@ == template_params(
                        entry.template@,
                        path@.skip(ms[ij.0].0.len() as int),
                    )
                },
                None => r matches Err(e) && e == HttpError::NotFound,
            },
    {
        let ghost ms = mview(self.routers@);
        let m = match Methods::from_name(method) {
            None => {
                return Err(HttpError::NotFound);
            },
            Some(mm) => {
                if mm == Methods::ALL {
                    return Err(HttpError::NotFound);
                }
                mm
            },
        };
        let n = self.routers.len();
        let mut i: usize = 0;
        let mut best: Option<usize> = None;
        let mut best_len: usize = 0;
        while i < n
            invariant
                i <= n,
                n == ms.len(),
                n == self.routers@.len(),
                ms == mview(self.routers@),
                self.wf(),
                best_mount(ms, path@) == best_mount_loop(
                    ms,
                    path@,
                    i as int,
                    match best {
                        None => None::<int>,
                        Some(b) => Some(b as int),
                    },
                ),
                best matches Some(b) ==> b < i && is_prefix(ms[b as int].0, path@) && best_len
                    == ms[b as int].0.len(),
                best is None ==> best_len == 0,
            decreases n - i,
        {
            let e = vstd::std_specs::vec::vec_index(&self.routers, i);
            proof {
                assert(ms[i as int].0 == self.routers@[i as int].0@);
            }
            let matches_here = str_starts_with(path, e.0.as_str());
            let plen = e.0.as_str().unicode_len();
            let better = matches_here && (match best {
                None => true,
                Some(_) => plen > best_len,
            });
            if better {
                best = Some(i);
                best_len = plen;
            }
            i += 1;
        }
        let bi = match best {
            None => {
                return Err(HttpError::NotFound);
            },
            Some(b) => b,
        };
        let e = vstd::std_specs::vec::vec_index(&self.routers, bi);
        proof {
            assert(ms[bi as int].0 == self.routers@[bi as int].0@);
        }
        let plen = e.0.as_str().unicode_len();
        let pn = path.unicode_len();
        let rest = path.substring_char(plen, pn);
        proof {
            assert(rest@ =~= path@.skip(ms[bi as int].0.len() as int));
        }
        e.1.find_route(m, rest)
    }
}

/// Registering a mount in place: when the first entry under prefix `k`
/// stands at `i`, the registration is an update there.
pub proof fn lemma_mounts_insert_update<T>(
    ms: Seq<(Seq<char>, Router<T>)>,
    k: Seq<char>,
    r: Router<T>,
    i: int,
)
    requires
        0 <= i < ms.len(),
        ms[i].0 == k,
        forall|j: int| 0 <= j < i ==> (#[trigger] ms[j]).0 != k,
    ensures
        mounts_insert(ms, k, r) == ms.update(i, (k, r)),
    decreases ms.len(),
{
    if i == 0 {
        assert(seq![(k, r)] + ms.skip(1) =~= ms.update(0, (k, r)));
    } else {
        assert(ms.skip(1)[i - 1] == ms[i]);
        assert forall|j: int| 0 <= j < i - 1 implies (#[trigger] ms.skip(1)[j]).0 != k by {
            assert(ms.skip(1)[j] == ms[j + 1]);
        }
        lemma_mounts_insert_update(ms.skip(1), k, r, i - 1);
        assert(seq![ms[0]] + ms.skip(1).update(i - 1, (k, r)) =~= ms.update(i, (k, r)));
    }
}

/// Registering a new prefix appends it.
pub proof fn lemma_mounts_insert_append<T>(ms: Seq<(Seq<char>, Router<T>)>, k: Seq<char>, r: Router<T>)
    requires
        forall|j: int| 0 <= j < ms.len() ==> (#[trigger] ms[j]).0 != k,
    ensures
        mounts_insert(ms, k, r) == ms.push((k, r)),
    decreases ms.len(),
{
    if ms.len() == 0 {
        assert(mounts_insert(ms, k, r) =~= ms.push((k, r)));
    } else {
        assert forall|j: int| 0 <= j < ms.skip(1).len() implies (#[trigger] ms.skip(1)[j]).0
            != k by {
            assert(ms.skip(1)[j] == ms[j + 1]);
        }
        lemma_mounts_insert_append(ms.skip(1), k, r);
        assert(seq![ms[0]] + ms.skip(1).push((k, r)) =~= ms.push((k, r)));
    }
}

impl<T: MiddlewareMethod> Server<T> {
    /// Serves one connection's text: decodes it, resolves the mount and
    /// the route, fills the request's captured parameters when there
    /// are any, and runs the matched session against a fresh response.
    /// A text that does not decode is answered with status 400, a
    /// request nothing covers with status 404, each with an empty body.
    pub fn parse_incoming(&self, input: &str) -> (r: (Response, ServeOutcome))
        requires
            self.wf(),
        ensures
            !decodes(input@) ==> r.1 is BadRequest && r.0.status == 400 && r.0.output@ == render(
                400,
                Seq::empty(),
                ("")@,
            ),
            decodes(input@) ==> (match spec_find(
                mview(self.routers@),
                spec_method(first_line(input@)),
                spec_route(first_line(input@)),
            ) {
                Some(ij) => r.1 matches ServeOutcome::Served(req, rep) && {
                    let ms = mview(self.routers@);
                    let entry = ms[ij.0].1.routes@[ij.1];
                    let pm = template_params(
                        entry.template@,
                        spec_route(first_line(input@)).skip(ms[ij.0].0.len() as int),
                    );
                    &&& report_valid(rep, entry.session.total_stages())
                    &&& req.wf()
                    &&& req.decoded_fields(input@)
                    &&& ((pm =~= Map::<Seq<char>, Seq<char>>::empty()) ==> req.params is None)
                    &&& (!(pm =~= Map::<Seq<char>, Seq<char>>::empty()) ==> (req.params
                        matches Some(p) && p.wf() && p@ == pm))
                },
                None => r.1 is RouteMiss && r.0.status == 404 && r.0.output@ == render(
                    404,
                    Seq::empty(),
                    ("")@,
                ),
            }),
    {
        let mut res = Response::new();
        let mut req = match Request::new(input) {
            Ok(rq) => rq,
            Err(_) => {
                res.status(400);
                let sent = res.send("");
                proof {
                    assert(sent is Ok);
                }
                return (res, ServeOutcome::BadRequest);
            },
        };
        let found = self.find_route(req.method.as_str(), req.route.as_str());
        match found {
            Err(_) => {
                res.status(404);
                let sent = res.send("");
                proof {
                    assert(sent is Ok);
                }
                (res, ServeOutcome::RouteMiss)
            },
            Ok((session, params)) => {
                proof {
                    params.lemma_empty_view();
                }
                if params.len() > 0 {
                    req.params = Some(params);
                }
                let report = session.dispatch(&req, &mut res);
                (res, ServeOutcome::Served(req, report))
            },
        }
    }
}

} // verus!
