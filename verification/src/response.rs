//! The HTTP response builder: a status line, insertion-ordered headers, an
//! optional raw byte body, and the serialization to the wire format. Free
//! functions build the stock responses the servers answer with.

use vstd::prelude::*;
use vstd::utf8::{valid_utf8, decode_utf8};
use crate::params::{StrMap, SpecPair, insert_pair, find_char};
use crate::strutil::{string_to_bytes, utf8_to_string};

verus! {

/// The fixed protocol-version prefix of every status line, space included.
pub open spec fn status_prefix() -> Seq<char> {
    seq!['H', 'T', 'T', 'P', '/', '1', '.', '1', ' ']
}

/// The line terminator of the wire format.
pub open spec fn crlf() -> Seq<char> {
    seq!['\r', '\n']
}

/// The status line text for a numeric code and a reason phrase.
pub open spec fn status_code_line(code: Seq<char>, reason: Seq<char>) -> Seq<char> {
    status_prefix() + code + seq![' '] + reason
}

/// The serialized `key: value` header lines, in mapping order.
pub open spec fn header_lines(pairs: Seq<SpecPair>) -> Seq<char>
    decreases pairs.len(),
{
    if pairs.len() == 0 {
        Seq::empty()
    } else {
        header_lines(pairs.drop_last()) + pairs.last().0 + seq![':', ' '] + pairs.last().1 + crlf()
    }
}

/// The full serialized response: status line, header lines, and, only when a
/// body is present, a blank line, the body text, and a final line ending.
pub open spec fn response_text(
    code: Seq<char>,
    headers: Seq<SpecPair>,
    body: Option<Seq<u8>>,
) -> Seq<char> {
    code + crlf() + header_lines(headers) + match body {
        Some(b) => crlf() + decode_utf8(b) + crlf(),
        None => Seq::empty(),
    }
}

/// A server response under construction. A fresh one is blank; `status`,
/// `header` and `body` fill it in, and `serialize` writes the wire form.
#[derive(Debug)]
pub struct Response {
    pub code: String,
    pub headers: StrMap,
    pub body: Option<Vec<u8>>,
}

impl Response {
    /// The headers hold no duplicate key.
    pub open spec fn wf(&self) -> bool {
        self.headers.wf()
    }

    /// The body, when present, is UTF-8 text, as `serialize` expects.
    pub open spec fn body_utf8(&self) -> bool {
        self.body is Some ==> valid_utf8(self.body.unwrap()@)
    }

    pub fn new() -> (r: Response)
        ensures
            r.code@ == Seq::<char>::empty(),
            r.headers@ == Seq::<SpecPair>::empty(),
            r.body is None,
            r.wf(),
    {
        Response { code: String::new(), headers: StrMap::new(), body: None }
    }

    /// Sets the status line from a numeric code and an optional reason
    /// phrase; a missing phrase leaves the text after the final space empty.
    pub fn status(&mut self, status: &str, expl: Option<&str>)
        ensures
            final(self).code@ == status_code_line(
                status@,
                match expl {
                    Some(e) => e@,
                    None => Seq::<char>::empty(),
                },
            ),
            final(self).headers == old(self).headers,
            final(self).body == old(self).body,
    {
        proof {
            reveal_strlit("HTTP/1.1 ");
            reveal_strlit(" ");
            reveal_strlit("");
        }
        let mut line = String::from_str("HTTP/1.1 ");
        line.append(status);
        line.append(" ");
        match expl {
            Some(e) => line.append(e),
            None => (),
        }
        assert(line@ =~= status_code_line(
            status@,
            match expl {
                Some(e) => e@,
                None => Seq::<char>::empty(),
            },
        ));
        self.code = line;
    }

    /// Inserts a header, overwriting any earlier value under the same key.
    pub fn header(&mut self, key: &str, val: &str)
        requires
            old(self).wf(),
        ensures
            final(self).headers@ == insert_pair(old(self).headers@, key@, val@),
            final(self).code == old(self).code,
            final(self).body == old(self).body,
            final(self).wf(),
    {
        self.headers.insert(key.to_owned(), val.to_owned());
    }

    /// Sets the response body.
    pub fn body(&mut self, text: Vec<u8>)
        ensures
            final(self).body == Some(text),
            final(self).code == old(self).code,
            final(self).headers == old(self).headers,
    {
        self.body = Some(text);
    }

    /// The body's length in bytes, zero when there is none.
    pub fn body_len(&self) -> (n: u32)
        requires
            self.body is Some ==> self.body.unwrap()@.len() <= u32::MAX,
        ensures
            n == match self.body {
                Some(b) => b@.len() as int,
                None => 0int,
            },
    {
        match self.body.as_ref() {
            Some(b) => b.len() as u32,
            None => 0,
        }
    }

    /// Writes the response in its wire form: the status line, each header as
    /// `key: value`, and, only when a body is present, a blank line, the body,
    /// and a trailing line ending.
    #[verifier::loop_isolation(false)]
    pub fn serialize(&self) -> (r: String)
        requires
            self.body_utf8(),
        ensures
            r@ == response_text(
                self.code@,
                self.headers@,
                match self.body {
                    Some(b) => Some(b@),
                    None => None,
                },
            ),
    {
        proof {
            reveal_strlit("\r\n");
            reveal_strlit(": ");
        }
        let mut out = self.code.clone();
        out.append("\r\n");
        let n = self.headers.len();
        let mut i: usize = 0;
        while i < n
            invariant
                i <= n,
                out@ == self.code@ + crlf() + header_lines(self.headers@.take(i as int)),
            decreases n - i,
        {
            let (k, v) = self.headers.pair_at(i);
            out.append(k.as_str());
            out.append(": ");
            out.append(v.as_str());
            out.append("\r\n");
            proof {
                let t = self.headers@.take(i + 1);
                assert(t.drop_last() =~= self.headers@.take(i as int));
                assert(t.last() == self.headers@[i as int]);
                assert("\r\n"@ =~= crlf());
                assert(": "@ =~= seq![':', ' ']);
                assert(out@ =~= self.code@ + crlf() + header_lines(t));
            }
            i += 1;
        }
        assert(self.headers@.take(n as int) =~= self.headers@);
        match self.body.as_ref() {
            Some(b) => {
                out.append("\r\n");
                let text = match utf8_to_string(b) {
                    Some(t) => t,
                    None => {
                        proof {
                            assert(false);
                        }
                        String::new()
                    },
                };
                out.append(text.as_str());
                out.append("\r\n");
                assert("\r\n"@ =~= crlf());
            },
            None => (),
        }
        proof {
            let b = match &self.body {
                Some(b) => Some(b@),
                None => None,
            };
            assert(out@ =~= response_text(self.code@, self.headers@, b));
        }
        out
    }
}

/// The code and reason phrase a serialized response's status line holds: the
/// token between the first two spaces and the text from there to the first
/// carriage return.
pub open spec fn parse_status(s: Seq<char>) -> Option<(Seq<char>, Seq<char>)> {
    match find_char(s, ' ') {
        None => None,
        Some(i) => {
            let t = s.skip(i + 1);
            match find_char(t, ' ') {
                None => None,
                Some(j) => {
                    let u = t.skip(j + 1);
                    match find_char(u, '\r') {
                        None => None,
                        Some(k) => Some((t.take(j), u.take(k))),
                    }
                },
            }
        },
    }
}

/// Serializing a response and reading its status line back yields exactly the
/// code and reason that `status` was given, whatever the headers and body
/// hold; the code must be a single token and the reason a single line.
pub proof fn lemma_status_line_round_trip(
    status: Seq<char>,
    reason: Seq<char>,
    headers: Seq<SpecPair>,
    body: Option<Seq<u8>>,
)
    requires
        forall|i: int| 0 <= i < status.len() ==> status[i] != ' ',
        forall|i: int| 0 <= i < reason.len() ==> reason[i] != '\r',
    ensures
        parse_status(response_text(status_code_line(status, reason), headers, body)) == Some(
            (status, reason),
        ),
{
    let s = response_text(status_code_line(status, reason), headers, body);
    assert(s[8] == ' ');
    assert(forall|i: int| 0 <= i < 8 ==> s[i] != ' ');
    crate::params::lemma_find_char_at(s, ' ', 8);
    let t = s.skip(9);
    let tail = reason + crlf() + header_lines(headers) + match body {
        Some(b) => crlf() + decode_utf8(b) + crlf(),
        None => Seq::<char>::empty(),
    };
    assert(t =~= status + seq![' '] + tail);
    assert(t[status.len() as int] == ' ');
    crate::params::lemma_find_char_at(t, ' ', status.len() as int);
    assert(t.take(status.len() as int) =~= status);
    let u = t.skip(status.len() as int + 1);
    assert(u =~= tail);
    assert(u[reason.len() as int] == '\r');
    crate::params::lemma_find_char_at(u, '\r', reason.len() as int);
    assert(u.take(reason.len() as int) =~= reason);
}

/// Reads the code and reason phrase back out of a serialized response,
/// following [`parse_status`].
#[verifier::loop_isolation(false)]
pub fn parse_status_line(s: &str) -> (r: Option<(String, String)>)
    ensures
        match r {
            Some(p) => parse_status(s@) == Some((p.0@, p.1@)),
            None => parse_status(s@) is None,
        },
{
    let len = s.unicode_len();
    let mut i: usize = 0;
    while i < len && s.get_char(i) != ' '
        invariant
            i <= len,
            forall|t: int| 0 <= t < i ==> s@[t] != ' ',
        decreases len - i,
    {
        i += 1;
    }
    if i == len {
        proof {
            crate::params::lemma_find_char_none(s@, ' ');
        }
        return None;
    }
    proof {
        crate::params::lemma_find_char_at(s@, ' ', i as int);
    }
    let ghost t = s@.skip(i + 1);
    proof {
        assert(forall|x: int| 0 <= x < t.len() ==> t[x] == s@[i + 1 + x]);
    }
    let mut j: usize = i + 1;
    while j < len && s.get_char(j) != ' '
        invariant
            i < j <= len,
            forall|x: int| i < x < j ==> s@[x] != ' ',
        decreases len - j,
    {
        j += 1;
    }
    if j == len {
        proof {
            crate::params::lemma_find_char_none(t, ' ');
        }
        return None;
    }
    proof {
        crate::params::lemma_find_char_at(t, ' ', j - i - 1);
    }
    let ghost u = t.skip(j - i);
    proof {
        assert(u =~= s@.skip(j + 1));
        assert(forall|x: int| 0 <= x < u.len() ==> u[x] == s@[j + 1 + x]);
    }
    let mut k: usize = j + 1;
    while k < len && s.get_char(k) != '\r'
        invariant
            j < k <= len,
            forall|x: int| j < x < k ==> s@[x] != '\r',
        decreases len - k,
    {
        k += 1;
    }
    if k == len {
        proof {
            crate::params::lemma_find_char_none(u, '\r');
        }
        return None;
    }
    proof {
        crate::params::lemma_find_char_at(u, '\r', k - j - 1);
    }
    let code = s.substring_char(i + 1, j).to_owned();
    let reason = s.substring_char(j + 1, k).to_owned();
    proof {
        assert(code@ =~= t.take(j - i - 1));
        assert(reason@ =~= u.take(k - j - 1));
    }
    Some((code, reason))
}

/// The stock `422 Unprocessable Entity` response for a query that lacks a
/// required parameter, carrying the given explanation as its body.
pub fn faulty_query(text: &str) -> (r: Response)
    ensures
        r.code@ == status_code_line("422"@, "Unprocessable Entity"@),
        r.headers@ == seq![("Content-Type"@, "text/html"@)],
        r.body is Some && r.body.unwrap()@ == vstd::utf8::encode_utf8(text@),
        decode_utf8(r.body.unwrap()@) == text@,
        r.wf(),
        r.body_utf8(),
{
    let mut res = Response::new();
    res.status("422", Some("Unprocessable Entity"));
    res.header("Content-Type", "text/html");
    res.body(string_to_bytes(text));
    assert(res.headers@ =~= seq![("Content-Type"@, "text/html"@)]);
    proof {
        broadcast use vstd::utf8::encode_utf8_valid_utf8, vstd::utf8::encode_utf8_decode_utf8;
    }
    res
}

/// The stock `200 Ok` response, before its body is filled in.
pub fn ok() -> (r: Response)
    ensures
        r.code@ == status_code_line("200"@, "Ok"@),
        r.headers@ == seq![("Content-Type"@, "text/html"@)],
        r.body is None,
        r.wf(),
    {
    let mut res = Response::new();
    res.status("200", Some("Ok"));
    res.header("Content-Type", "text/html");
    assert(res.headers@ =~= seq![("Content-Type"@, "text/html"@)]);
    res
}

/// The stock `400 Bad Request` response.
pub fn bad_request() -> (r: Response)
    ensures
        r.code@ == status_code_line("400"@, "Bad Request"@),
        r.headers@ == seq![("Content-Type"@, "text/html"@)],
        r.body is None,
        r.wf(),
    {
    let mut res = Response::new();
    res.status("400", Some("Bad Request"));
    res.header("Content-Type", "text/html");
    assert(res.headers@ =~= seq![("Content-Type"@, "text/html"@)]);
    res
}

/// The stock `404 Not Found` response.
pub fn not_found() -> (r: Response)
    ensures
        r.code@ == status_code_line("404"@, "Not Found"@),
        r.headers@ == seq![("Content-Type"@, "text/html"@)],
        r.body is None,
        r.wf(),
    {
    let mut res = Response::new();
    res.status("404", Some("Not Found"));
    res.header("Content-Type", "text/html");
    assert(res.headers@ =~= seq![("Content-Type"@, "text/html"@)]);
    res
}

/// The stock `500 Internal Server Error` response.
pub fn internal_error() -> (r: Response)
    ensures
        r.code@ == status_code_line("500"@, "Internal Server Error"@),
        r.headers@ == seq![("Content-Type"@, "text/html"@)],
        r.body is None,
        r.wf(),
    {
    let mut res = Response::new();
    res.status("500", Some("Internal Server Error"));
    res.header("Content-Type", "text/html");
    assert(res.headers@ =~= seq![("Content-Type"@, "text/html"@)]);
    res
}

/// The stock `501 Request Not Implemented` response.
pub fn not_implemented() -> (r: Response)
    ensures
        r.code@ == status_code_line("501"@, "Request Not Implemented"@),
        r.headers@ == seq![("Content-Type"@, "text/html"@)],
        r.body is None,
        r.wf(),
    {
    let mut res = Response::new();
    res.status("501", Some("Request Not Implemented"));
    res.header("Content-Type", "text/html");
    assert(res.headers@ =~= seq![("Content-Type"@, "text/html"@)]);
    res
}

/// The stock `520 Unkown Error` response, the catch-all placeholder.
pub fn unkown_error() -> (r: Response)
    ensures
        r.code@ == status_code_line("520"@, "Unkown Error"@),
        r.headers@ == seq![("Content-Type"@, "text/html"@)],
        r.body is None,
        r.wf(),
    {
    let mut res = Response::new();
    res.status("520", Some("Unkown Error"));
    res.header("Content-Type", "text/html");
    assert(res.headers@ =~= seq![("Content-Type"@, "text/html"@)]);
    res
}

} // verus!
