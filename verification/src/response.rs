//! The response writer: accumulates a status code and headers, and
//! serializes `HTTP/1.1 {status} {reason}\r\n{headers}\r\n\r\n{body}`
//! onto an output buffer that stands for the connection.

use vstd::prelude::*;
use vstd::string::StrSliceExecFns;
use vstd::string::StringExecFns;

use crate::errors::HttpError;
use crate::kvmap::{entries_insert, KvMap, StrMap};

verus! {

/// The status codes the fixed reason-phrase table covers.
pub open spec fn known_status(status: u16) -> bool {
    ||| status == 100
    ||| status == 200
    ||| status == 301
    ||| status == 400
    ||| status == 401
    ||| status == 403
    ||| status == 404
    ||| status == 405
    ||| status == 414
    ||| status == 418
    ||| status == 500
}

/// The reason phrase of a known status code.
pub open spec fn spec_reason(status: u16) -> Seq<char> {
    if status == 100 {
        ("Continue")@
    } else if status == 200 {
        ("OK")@
    } else if status == 301 {
        ("Moved Permanently")@
    } else if status == 400 {
        ("Bad Request")@
    } else if status == 401 {
        ("Unauthorized")@
    } else if status == 403 {
        ("Forbidden")@
    } else if status == 404 {
        ("Not Found")@
    } else if status == 405 {
        ("Method Not Allowed")@
    } else if status == 414 {
        ("URI Too Long")@
    } else if status == 418 {
        ("I'm a teapot")@
    } else if status == 500 {
        ("Internal Server Error")@
    } else {
        Seq::empty()
    }
}

/// The reason phrase of a status code, or nothing for a code outside
/// the table.
pub fn status_to_named(status: u16) -> (r: Option<String>)
    ensures
        known_status(status) ==> (r matches Some(s) && s@ == spec_reason(status)),
        !known_status(status) ==> r is None,
{
    match status {
        100u16 => Some(String::from_str("Continue")),
        200u16 => Some(String::from_str("OK")),
        301u16 => Some(String::from_str("Moved Permanently")),
        400u16 => Some(String::from_str("Bad Request")),
        401u16 => Some(String::from_str("Unauthorized")),
        403u16 => Some(String::from_str("Forbidden")),
        404u16 => Some(String::from_str("Not Found")),
        405u16 => Some(String::from_str("Method Not Allowed")),
        414u16 => Some(String::from_str("URI Too Long")),
        418u16 => Some(String::from_str("I'm a teapot")),
        500u16 => Some(String::from_str("Internal Server Error")),
        _ => None,
    }
}

/// The decimal digit characters of `n`, most significant first.
pub open spec fn dec_chars(n: nat) -> Seq<char>
    decreases n,
{
    if n < 10 {
        seq![digit_char(n)]
    } else {
        dec_chars(n / 10).push(digit_char(n % 10))
    }
}

/// The character of one decimal digit.
pub open spec fn digit_char(d: nat) -> char {
    if d == 0 {
        '0'
    } else if d == 1 {
        '1'
    } else if d == 2 {
        '2'
    } else if d == 3 {
        '3'
    } else if d == 4 {
        '4'
    } else if d == 5 {
        '5'
    } else if d == 6 {
        '6'
    } else if d == 7 {
        '7'
    } else if d == 8 {
        '8'
    } else if d == 9 {
        '9'
    } else {
        ' '
    }
}

fn digit_str(d: u16) -> (s: &'static str)
    requires
        d < 10,
    ensures
        s@ == seq![digit_char(d as nat)],
{
    let s: &'static str = match d {
        0u16 => "0",
        1u16 => "1",
        2u16 => "2",
        3u16 => "3",
        4u16 => "4",
        5u16 => "5",
        6u16 => "6",
        7u16 => "7",
        8u16 => "8",
        _ => "9",
    };
    proof {
        reveal_strlit("0");
        reveal_strlit("1");
        reveal_strlit("2");
        reveal_strlit("3");
        reveal_strlit("4");
        reveal_strlit("5");
        reveal_strlit("6");
        reveal_strlit("7");
        reveal_strlit("8");
        reveal_strlit("9");
    }
    s
}

/// Writes `n` in decimal.
pub fn dec_string(n: u16) -> (s: String)
    ensures
        s@ == dec_chars(n as nat),
    decreases n,
{
    if n < 10 {
        String::from_str(digit_str(n))
    } else {
        let mut s = dec_string(n / 10);
        s.append(digit_str(n % 10));
        proof {
            assert((n / 10) as nat == n as nat / 10);
            assert((n % 10) as nat == n as nat % 10);
            assert(dec_chars(n as nat / 10) + seq![digit_char(n as nat % 10)] =~= dec_chars(
                n as nat / 10,
            ).push(digit_char(n as nat % 10)));
        }
        s
    }
}

/// The serialized header block: one `Name: value` line per entry, in
/// entry order.
pub open spec fn render_headers(hs: Seq<(Seq<char>, Seq<char>)>) -> Seq<char>
    decreases hs.len(),
{
    if hs.len() == 0 {
        Seq::empty()
    } else {
        render_headers(hs.drop_last()) + hs.last().0 + (": ")@ + hs.last().1 + ("\r\n")@
    }
}

/// The full serialized response for a known status code.
pub open spec fn render(status: u16, hs: Seq<(Seq<char>, Seq<char>)>, body: Seq<char>) -> Seq<
    char,
> {
    ("HTTP/1.1 ")@ + dec_chars(status as nat) + (" ")@ + spec_reason(status) + ("\r\n")@
        + render_headers(hs) + ("\r\n\r\n")@ + body
}

/// One connection's response in the making. What `send` serializes is
/// appended to `output`, the bytes owed to the connection.
pub struct Response {
    /// The status code of the response; 200 until changed.
    pub status: u16,
    /// The headers serialized ahead of the body, in insertion order.
    pub headers: StrMap,
    /// Everything serialized onto the connection so far.
    pub output: String,
}

impl Response {
    /// The header map carries distinct names.
    pub open spec fn wf(&self) -> bool {
        self.headers.wf()
    }

    /// A fresh response: status 200, no headers, nothing written.
    pub fn new() -> (r: Response)
        ensures
            r.wf(),
            r.status == 200,
            r.headers@ == Map::<Seq<char>, Seq<char>>::empty(),
            r.headers.entry_seq() == Seq::<(Seq<char>, Seq<char>)>::empty(),
            r.output@ == Seq::<char>::empty(),
    {
        Response { status: 200, headers: KvMap::new(), output: String::new() }
    }

    /// Sets the status code of the response.
    pub fn status(&mut self, code: u16)
        ensures
            final(self).status == code,
            final(self).headers == old(self).headers,
            final(self).output == old(self).output,
    {
        self.status = code;
    }

    /// Sets the `Content-Type` header.
    pub fn content_type(&mut self, setting: &str)
        requires
            old(self).wf(),
        ensures
            final(self).wf(),
            final(self).headers@ == old(self).headers@.insert(("Content-Type")@, setting@),
            final(self).headers.entry_seq() == entries_insert(
                old(self).headers.entry_seq(),
                ("Content-Type")@,
                setting@,
            ),
            final(self).status == old(self).status,
            final(self).output == old(self).output,
    {
        self.headers.insert(String::from_str("Content-Type"), setting.to_owned());
    }

    /// Serializes the status line, the headers and `body`, or reports a
    /// status code the reason table does not cover.
    pub fn create_response(&self, body: &str) -> (r: Result<String, HttpError>)
        requires
            self.wf(),
        ensures
            known_status(self.status) ==> (r matches Ok(s) && s@ == render(
                self.status,
                self.headers.entry_seq(),
                body@,
            )),
            !known_status(self.status) ==> r == Err::<String, HttpError>(HttpError::UnknownStatus),
    {
        let reason = match status_to_named(self.status) {
            Some(s) => s,
            None => {
                return Err(HttpError::UnknownStatus);
            },
        };
        let mut out = String::from_str("HTTP/1.1 ");
        out.append(dec_string(self.status).as_str());
        out.append(" ");
        out.append(reason.as_str());
        out.append("\r\n");
        let n = self.headers.len();
        let mut k: usize = 0;
        let ghost head = ("HTTP/1.1 ")@ + dec_chars(self.status as nat) + (" ")@ + spec_reason(
            self.status,
        ) + ("\r\n")@;
        proof {
            assert(render_headers(self.headers.entry_seq().take(0)) =~= Seq::<char>::empty());
            assert(out@ =~= head + render_headers(self.headers.entry_seq().take(0)));
        }
        while k < n
            invariant
                k <= n,
                n == self.headers.entry_seq().len(),
                self.wf(),
                out@ == head + render_headers(self.headers.entry_seq().take(k as int)),
            decreases n - k,
        {
            let e = self.headers.entry_at(k);
            out.append(e.0.as_str());
            out.append(": ");
            out.append(e.1.as_str());
            out.append("\r\n");
            proof {
                let es = self.headers.entry_seq();
                assert(es.take(k + 1).drop_last() =~= es.take(k as int));
                assert(es.take(k + 1).last() == es[k as int]);
                assert(render_headers(es.take(k + 1)) == render_headers(es.take(k as int))
                    + es[k as int].0 + (": ")@ + es[k as int].1 + ("\r\n")@);
            }
            k += 1;
        }
        out.append("\r\n\r\n");
        out.append(body);
        proof {
            assert(self.headers.entry_seq().take(n as int) =~= self.headers.entry_seq());
        }
        Ok(out)
    }

    /// Serializes the response around `body` and appends it to the
    /// output owed to the connection. A status code outside the reason
    /// table is reported instead of serialized.
    pub fn send(&mut self, body: &str) -> (r: Result<(), HttpError>)
        requires
            old(self).wf(),
        ensures
            final(self).wf(),
            final(self).status == old(self).status,
            final(self).headers == old(self).headers,
            known_status(old(self).status) ==> r is Ok && final(self).output@ == old(self).output@
                + render(old(self).status, old(self).headers.entry_seq(), body@),
            !known_status(old(self).status) ==> r == Err::<(), HttpError>(HttpError::UnknownStatus)
                && final(self).output == old(self).output,
    {
        let payload = match self.create_response(body) {
            Ok(p) => p,
            Err(e) => {
                return Err(e);
            },
        };
        self.output.append(payload.as_str());
        Ok(())
    }
}

} // verus!
