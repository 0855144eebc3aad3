//! The request decoder: turns the text read from one connection into a
//! structured request.
//!
//! The start line is split at spaces and tabs into `METHOD PATH[?QUERY]
//! VERSION`; the path is cut at the first `?` only, so later `?`
//! characters stay in the raw query string. Header lines follow until a
//! line shorter than three characters; each is cut at its first `:`.
//! The query string splits at `&` or `;`; a token without `=` carries no
//! value. The body is whatever follows the first blank line, if one
//! occurs.

use vstd::prelude::*;
use vstd::string::StrSliceExecFns;
use vstd::string::StringExecFns;

use crate::errors::HttpError;
use crate::kvmap::{map_of, QueryMap, StrMap};
use crate::text::{
    find_blank, find_from, lines_of, seek, seek_blank, split_at_seps, split_lines, split_str,
    split_tokens, nonempty_pieces,
};

verus! {

/// The whitespace-separated tokens of a start line.
pub open spec fn start_tokens(l: Seq<char>) -> Seq<Seq<char>> {
    nonempty_pieces(split_at_seps(l, ' ', '\t'))
}

/// A start line splits into a method and a path.
pub open spec fn start_line_ok(l: Seq<char>) -> bool {
    start_tokens(l).len() >= 2
}

pub open spec fn spec_method(l: Seq<char>) -> Seq<char> {
    start_tokens(l)[0]
}

/// The request target: path and query still joined.
pub open spec fn spec_target(l: Seq<char>) -> Seq<char> {
    start_tokens(l)[1]
}

/// The path part of the target, cut at the first `?`.
pub open spec fn spec_route(l: Seq<char>) -> Seq<char> {
    match seek(spec_target(l), 0, '?', '?') {
        None => spec_target(l),
        Some(i) => spec_target(l).take(i),
    }
}

/// The raw query string: everything after the first `?`, if one occurs.
pub open spec fn spec_query(l: Seq<char>) -> Option<Seq<char>> {
    match seek(spec_target(l), 0, '?', '?') {
        None => None,
        Some(i) => Some(spec_target(l).skip(i + 1)),
    }
}

/// The key of one query token: everything before its first `=`.
pub open spec fn token_key(t: Seq<char>) -> Seq<char> {
    match seek(t, 0, '=', '=') {
        None => t,
        Some(i) => t.take(i),
    }
}

/// The value of one query token: everything after its first `=`, absent
/// when the token has none.
pub open spec fn token_val(t: Seq<char>) -> Option<Seq<char>> {
    match seek(t, 0, '=', '=') {
        None => None,
        Some(i) => Some(t.skip(i + 1)),
    }
}

/// The key-value pairs of a query string, one per `&`- or `;`-separated
/// token, in order.
pub open spec fn query_pairs(q: Seq<char>) -> Seq<(Seq<char>, Option<Seq<char>>)> {
    split_at_seps(q, '&', ';').map_values(|t: Seq<char>| (token_key(t), token_val(t)))
}

/// The mapping a query string stands for; a later token for the same
/// key wins.
pub open spec fn query_map_of(q: Seq<char>) -> Map<Seq<char>, Option<Seq<char>>> {
    map_of(query_pairs(q))
}

/// A line this short ends the header block.
pub open spec fn header_stop(l: Seq<char>) -> bool {
    l.len() < 3
}

/// The header pairs read from the lines at and after `i`, up to the
/// first short line; `None` when a header line has no colon.
pub open spec fn headers_from(ls: Seq<Seq<char>>, i: int) -> Option<Seq<(Seq<char>, Seq<char>)>>
    decreases ls.len() - i,
{
    if i < 0 || i >= ls.len() {
        Some(seq![])
    } else if header_stop(ls[i]) {
        Some(seq![])
    } else {
        match seek(ls[i], 0, ':', ':') {
            None => None,
            Some(j) => match headers_from(ls, i + 1) {
                None => None,
                Some(rest) => Some(seq![(ls[i].take(j), ls[i].skip(j + 1))] + rest),
            },
        }
    }
}

/// The header mapping of a whole request text: pairs from line two
/// onwards, a later line for the same name winning.
pub open spec fn spec_headers(s: Seq<char>) -> Option<Map<Seq<char>, Seq<char>>> {
    match headers_from(lines_of(s), 1) {
        None => None,
        Some(ps) => Some(map_of(ps)),
    }
}

/// Where the header block of the raw text ends.
pub open spec fn spec_raw_headers(s: Seq<char>) -> Seq<char> {
    match seek_blank(s, 0) {
        None => s,
        Some(i) => s.take(i),
    }
}

/// The body: everything after the first blank line, if one occurs.
pub open spec fn spec_body(s: Seq<char>) -> Option<Seq<char>> {
    match seek_blank(s, 0) {
        None => None,
        Some(i) => Some(s.skip(i + 4)),
    }
}

/// The first line of the raw text.
pub open spec fn first_line(s: Seq<char>) -> Seq<char> {
    lines_of(s)[0]
}

/// The whole text decodes when its start line and header block do.
pub open spec fn decodes(s: Seq<char>) -> bool {
    start_line_ok(first_line(s)) && spec_headers(s) is Some
}

/// The header block of a request description: one `name: value` line
/// per entry, in entry order.
pub open spec fn describe_headers(hs: Seq<(Seq<char>, Seq<char>)>) -> Seq<char>
    decreases hs.len(),
{
    if hs.len() == 0 {
        Seq::empty()
    } else {
        describe_headers(hs.drop_last()) + hs.last().0 + (": ")@ + hs.last().1 + ("\n")@
    }
}

/// The query block of a request description: one `key: value` line per
/// entry, an absent value written as `none`.
pub open spec fn describe_query(qs: Seq<(Seq<char>, Option<Seq<char>>)>) -> Seq<char>
    decreases qs.len(),
{
    if qs.len() == 0 {
        Seq::empty()
    } else {
        describe_query(qs.drop_last()) + qs.last().0 + (": ")@ + (match qs.last().1 {
            Some(v) => v,
            None => ("none")@,
        }) + ("\n")@
    }
}

/// One decoded request.
pub struct Request {
    /// The route without the query parameters.
    pub route: String,
    /// The HTTP method it was requested with: GET, POST, PATCH and so on.
    pub method: String,
    /// The HTTP headers, a later line for the same name winning.
    pub headers: StrMap,
    /// The URI query; a key without a value maps to `None`.
    pub query: Option<QueryMap>,
    /// The URI parameters captured by the router:
    /// `/dog/:id` against `/dog/10` gives `id` bound to `10`.
    /// `None` until the router has matched the request.
    pub params: Option<StrMap>,
    /// The entire request text.
    pub raw_full: String,
    /// Just the header block, up to the first blank line.
    pub raw_headers: String,
    /// The body of the request, after the first blank line.
    pub body: Option<String>,
}

impl Request {
    /// The contained maps carry distinct keys.
    pub open spec fn wf(&self) -> bool {
        &&& self.headers.wf()
        &&& (self.query matches Some(q) ==> q.wf())
        &&& (self.params matches Some(p) ==> p.wf())
    }

    /// The fields a decode of `s` must hold, the parameter map aside,
    /// which the router fills after a match.
    pub open spec fn decoded_fields(&self, s: Seq<char>) -> bool {
        &&& self.method@ == spec_method(first_line(s))
        &&& self.route@ == spec_route(first_line(s))
        &&& Some(self.headers@) == spec_headers(s)
        &&& (match spec_query(first_line(s)) {
            None => self.query is None,
            Some(q) => self.query matches Some(qm) && qm@ == query_map_of(q),
        })
        &&& self.raw_full@ == s
        &&& self.raw_headers@ == spec_raw_headers(s)
        &&& (match spec_body(s) {
            None => self.body is None,
            Some(b) => self.body matches Some(t) && t@ == b,
        })
    }

    /// The fields a decode of `s` must hold, the parameter map still unset.
    pub open spec fn decoded_from(&self, s: Seq<char>) -> bool {
        self.decoded_fields(s) && self.params is None
    }

    /// Decodes one connection's text into a request, or reports it
    /// malformed: a start line with fewer than two tokens, or a header
    /// line with no colon.
    pub fn new(input: &str) -> (r: Result<Request, HttpError>)
        ensures
            decodes(input@) ==> (r matches Ok(req) && req.wf() && req.decoded_from(input@)),
            !decodes(input@) ==> r == Err::<Request, HttpError>(HttpError::MalformedInput),
    {
        let lines = split_lines(input);
        let first: &String = &lines[0];
        proof {
            assert(first@ == lines.deep_view()[0]);
        }
        let parsed = Request::parse_route(first.as_str());
        let (method, route, maybe_query) = match parsed {
            Ok(t) => t,
            Err(e) => {
                return Err(e);
            },
        };
        let headers = match Request::parse_headers(input) {
            Ok(h) => h,
            Err(e) => {
                return Err(e);
            },
        };
        let query: Option<QueryMap> = match maybe_query {
            Some(q) => Request::parse_query(q.as_str()),
            None => None,
        };
        let n = input.unicode_len();
        let (raw_headers, body) = match find_blank(input) {
            None => (input.to_owned(), None),
            Some(i) => (
                input.substring_char(0, i).to_owned(),
                Some(input.substring_char(i + 4, n).to_owned()),
            ),
        };
        Ok(
            Request {
                route,
                method,
                headers,
                query,
                params: None,
                body,
                raw_headers,
                raw_full: input.to_owned(),
            },
        )
    }

    /// Reads the first line of a request and returns its method, its
    /// path and, when a `?` occurs, the raw query string after it.
    /// A line with fewer than two whitespace-separated tokens is
    /// malformed.
    pub fn parse_route(query: &str) -> (r: Result<(String, String, Option<String>), HttpError>)
        ensures
            start_line_ok(query@) ==> (r matches Ok(t) && t.0@ == spec_method(query@) && t.1@
                == spec_route(query@) && (match spec_query(query@) {
                None => t.2 is None,
                Some(q) => t.2 matches Some(s) && s@ == q,
            })),
            !start_line_ok(query@) ==> r == Err::<(String, String, Option<String>), HttpError>(
                HttpError::MalformedInput,
            ),
    {
        let toks = split_tokens(query);
        if toks.len() < 2 {
            return Err(HttpError::MalformedInput);
        }
        let method: String = toks[0].clone();
        let target: &String = &toks[1];
        proof {
            assert(method@ == spec_method(query@));
            assert(target@ == spec_target(query@));
        }
        let m = target.as_str().unicode_len();
        match find_from(target.as_str(), 0, '?', '?') {
            None => Ok((method, target.clone(), None)),
            Some(i) => {
                let route = target.as_str().substring_char(0, i).to_owned();
                let raw_query = target.as_str().substring_char(i + 1, m).to_owned();
                Ok((method, route, Some(raw_query)))
            },
        }
    }

    /// Reads the header lines of a request text into a map from name to
    /// value, cutting each line at its first colon. A header line with
    /// no colon is malformed.
    pub fn parse_headers(query: &str) -> (r: Result<StrMap, HttpError>)
        ensures
            match spec_headers(query@) {
                Some(hm) => r matches Ok(m) && m.wf() && m@ == hm,
                None => r == Err::<StrMap, HttpError>(HttpError::MalformedInput),
            },
    {
        let lines = split_lines(query);
        let ghost ls = lines.deep_view();
        let mut m = StrMap::new();
        let mut k: usize = 1;
        let n = lines.len();
        let ghost mut done: Seq<(Seq<char>, Seq<char>)> = seq![];
        proof {
            match headers_from(ls, 1) {
                Some(rest) => {
                    assert(done + rest =~= rest);
                },
                None => {},
            }
        }
        loop
            invariant_except_break
                1 <= k,
                k <= n || n < 1,
                n == ls.len(),
                ls == lines.deep_view(),
                ls == lines_of(query@),
                m.wf(),
                m@ == map_of(done),
                headers_from(ls, 1) == (match headers_from(ls, k as int) {
                    None => None::<Seq<(Seq<char>, Seq<char>)>>,
                    Some(rest) => Some(done + rest),
                }),
            ensures
                m.wf(),
                headers_from(ls, 1) matches Some(ps) && m@ == map_of(ps),
            decreases n - k,
        {
            if k >= n {
                proof {
                    assert(headers_from(ls, k as int) == Some(Seq::<(Seq<char>, Seq<char>)>::empty()));
                    assert(done + Seq::<(Seq<char>, Seq<char>)>::empty() =~= done);
                }
                break ;
            }
            let line: &String = &lines[k];
            proof {
                assert(line@ == ls[k as int]);
            }
            let ll = line.as_str().unicode_len();
            if ll < 3 {
                proof {
                    assert(header_stop(ls[k as int]));
                    assert(headers_from(ls, k as int) == Some(Seq::<(Seq<char>, Seq<char>)>::empty()));
                    assert(done + Seq::<(Seq<char>, Seq<char>)>::empty() =~= done);
                }
                break ;
            }
            match find_from(line.as_str(), 0, ':', ':') {
                None => {
                    proof {
                        assert(headers_from(ls, k as int) is None);
                        assert(spec_headers(query@) is None);
                    }
                    return Err(HttpError::MalformedInput);
                },
                Some(j) => {
                    let key = line.as_str().substring_char(0, j).to_owned();
                    let value = line.as_str().substring_char(j + 1, ll).to_owned();
                    let ghost pair = (ls[k as int].take(j as int), ls[k as int].skip(j + 1));
                    proof {
                        assert(key@ == pair.0 && value@ == pair.1);
                        assert(headers_from(ls, k as int) == match headers_from(ls, k + 1) {
                            None => None::<Seq<(Seq<char>, Seq<char>)>>,
                            Some(rest) => Some(seq![pair] + rest),
                        });
                        match headers_from(ls, k + 1) {
                            Some(rest) => {
                                assert(done + (seq![pair] + rest) =~= done.push(pair) + rest);
                            },
                            None => {},
                        }
                    }
                    m.insert(key, value);
                    proof {
                        assert(done.push(pair).drop_last() =~= done);
                        assert(map_of(done.push(pair)) == map_of(done).insert(pair.0, pair.1));
                    }
                    proof {
                        done = done.push(pair);
                    }
                },
            }
            k += 1;
        }
        Ok(m)
    }

    /// Writes the request out for a reader: its method, its headers
    /// and query line by line, the raw text, and its route.
    pub fn describe(&self) -> (r: String)
        ensures
            r@ == ("method: ")@ + self.method@ + ("\nheaders: \"\"\"\n")@ + describe_headers(
                self.headers.entry_seq(),
            ) + ("\"\"\"\nquery: \n\"\"\"\n")@ + (match self.query {
                Some(q) => describe_query(q.entry_seq()),
                None => ("no query")@,
            }) + ("\"\"\"\nraw: \"\"\"")@ + self.raw_full@ + ("\"\"\"\n route: ")@ + self.route@,
    {
        let mut out = String::from_str("method: ");
        out.append(self.method.as_str());
        out.append("\nheaders: \"\"\"\n");
        let hn = self.headers.len();
        let mut k: usize = 0;
        let ghost hpre = out@;
        proof {
            assert(describe_headers(self.headers.entry_seq().take(0)) =~= Seq::<char>::empty());
            assert(out@ =~= hpre + describe_headers(self.headers.entry_seq().take(0)));
        }
        while k < hn
            invariant
                k <= hn,
                hn == self.headers.entry_seq().len(),
                out@ == hpre + describe_headers(self.headers.entry_seq().take(k as int)),
            decreases hn - k,
        {
            let e = self.headers.entry_at(k);
            out.append(e.0.as_str());
            out.append(": ");
            out.append(e.1.as_str());
            out.append("\n");
            proof {
                let es = self.headers.entry_seq();
                assert(es.take(k + 1).drop_last() =~= es.take(k as int));
                assert(es.take(k + 1).last() == es[k as int]);
            }
            k += 1;
        }
        proof {
            assert(self.headers.entry_seq().take(hn as int) =~= self.headers.entry_seq());
        }
        out.append("\"\"\"\nquery: \n\"\"\"\n");
        match &self.query {
            None => {
                out.append("no query");
            },
            Some(q) => {
                let qn = q.len();
                let mut j: usize = 0;
                let ghost qpre = out@;
                proof {
                    assert(describe_query(q.entry_seq().take(0)) =~= Seq::<char>::empty());
                    assert(out@ =~= qpre + describe_query(q.entry_seq().take(0)));
                }
                while j < qn
                    invariant
                        j <= qn,
                        qn == q.entry_seq().len(),
                        out@ == qpre + describe_query(q.entry_seq().take(j as int)),
                    decreases qn - j,
                {
                    let e = q.entry_at(j);
                    out.append(e.0.as_str());
                    out.append(": ");
                    match &e.1 {
                        Some(v) => {
                            out.append(v.as_str());
                        },
                        None => {
                            out.append("none");
                        },
                    }
                    out.append("\n");
                    proof {
                        let qs = q.entry_seq();
                        assert(qs.take(j + 1).drop_last() =~= qs.take(j as int));
                        assert(qs.take(j + 1).last() == qs[j as int]);
                    }
                    j += 1;
                }
                proof {
                    assert(q.entry_seq().take(qn as int) =~= q.entry_seq());
                }
            },
        }
        out.append("\"\"\"\nraw: \"\"\"");
        out.append(self.raw_full.as_str());
        out.append("\"\"\"\n route: ");
        out.append(self.route.as_str());
        out
    }

    /// Turns a query string like `foo=bar;baz` into a map; a key
    /// without `=` maps to an absent value, and a later token for the
    /// same key wins.
    pub fn parse_query(query_path: &str) -> (r: Option<QueryMap>)
        ensures
            r matches Some(q) && q.wf() && q@ == query_map_of(query_path@),
    {
        let toks = split_str(query_path, '&', ';');
        let ghost ts = toks.deep_view();
        let mut m = QueryMap::new();
        let mut k: usize = 0;
        let n = toks.len();
        proof {
            assert(query_pairs(query_path@) =~= ts.map_values(
                |t: Seq<char>| (token_key(t), token_val(t)),
            ));
            assert(ts.take(0).map_values(|t: Seq<char>| (token_key(t), token_val(t))) =~= Seq::<
                (Seq<char>, Option<Seq<char>>),
            >::empty());
        }
        while k < n
            invariant
                k <= n,
                n == ts.len(),
                ts == toks.deep_view(),
                m.wf(),
                m@ == map_of(ts.take(k as int).map_values(|t: Seq<char>| (token_key(t), token_val(t)))),
            decreases n - k,
        {
            let tok: &String = &toks[k];
            proof {
                assert(tok@ == ts[k as int]);
            }
            let tl = tok.as_str().unicode_len();
            let (key, value) = match find_from(tok.as_str(), 0, '=', '=') {
                None => (tok.clone(), None),
                Some(i) => (
                    tok.as_str().substring_char(0, i).to_owned(),
                    Some(tok.as_str().substring_char(i + 1, tl).to_owned()),
                ),
            };
            let ghost pair = (token_key(ts[k as int]), token_val(ts[k as int]));
            proof {
                assert(key@ == pair.0);
                assert(value.deep_view() == pair.1);
            }
            let ghost prev = ts.take(k as int).map_values(|t: Seq<char>| (token_key(t), token_val(t)));
            m.insert(key, value);
            proof {
                let cur = ts.take(k + 1).map_values(|t: Seq<char>| (token_key(t), token_val(t)));
                assert(cur.drop_last() =~= prev);
                assert(cur.last() == pair);
                assert(cur =~= prev.push(pair));
                assert(map_of(cur) == map_of(prev).insert(pair.0, pair.1));
            }
            k += 1;
        }
        proof {
            assert(ts.take(n as int) =~= ts);
        }
        Some(m)
    }
}

} // verus!
