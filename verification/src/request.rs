//! The HTTP request parser: a byte-oriented state machine that collects the
//! method line, the headers, and (for `POST` only) the body of one request
//! read into a single bounded buffer. The machine is a pure transition
//! function over an explicit state, so it can be exercised without a socket.
//! The caller owns the buffer and its size ceiling; whatever did not fit in
//! the one read is never seen here.

use vstd::prelude::*;
use vstd::utf8::decode_utf8;
use crate::params::{
    StrMap, SpecPair, decode, decoded_map, find_char, insert_pair_absent, map_get, merge_absent,
    lemma_find_char_at, lemma_find_char_none,
};
use crate::response::{Response, faulty_query, status_code_line};
use crate::strutil::{push_char, str_eq};

verus! {

/// Where in the method line the machine stands.
#[derive(Clone, Copy)]
pub enum LinePhase {
    /// Collecting the method token, up to the first space.
    Method,
    /// Collecting the URL token, up to the second space.
    Url,
    /// Skipping the protocol-version token, up to the carriage return.
    Version,
    /// Expecting the line feed that ends the method line.
    LineEnd,
}

/// Where in the header block the machine stands.
#[derive(Clone, Copy)]
pub enum HeaderPhase {
    /// Collecting a header key, up to a space.
    Key,
    /// Just after the space: drop the key's trailing colon, start the value.
    Space,
    /// Collecting the value, up to the carriage return.
    Value,
    /// Consuming the line feed that ends a header line.
    Ret,
    /// Committing the finished pair and deciding: another key, or the blank
    /// line that ends the headers.
    Insert,
    /// Consuming the final line feed: a `POST` request goes on to its body,
    /// anything else is complete.
    HeadersEnd,
}

/// The coarse parsing phase.
#[derive(Clone, Copy)]
pub enum Phase {
    /// In the method line.
    Line(LinePhase),
    /// In the header block.
    Headers(HeaderPhase),
    /// Appending the remaining input to the body.
    Body,
    /// Finished early: remaining input is ignored.
    Done,
    /// The method line was malformed; parsing failed.
    Failed,
}

/// The mathematical state of the parser: the phase together with everything
/// collected so far.
#[verifier::ext_equal]
pub struct ParseState {
    pub phase: Phase,
    pub method: Seq<char>,
    pub raw_url: Seq<char>,
    pub path: Seq<char>,
    pub params: Option<Seq<SpecPair>>,
    pub headers: Seq<SpecPair>,
    pub key: Seq<char>,
    pub val: Seq<char>,
    pub body: Seq<char>,
}

/// The state before any input.
pub open spec fn init_state() -> ParseState {
    ParseState {
        phase: Phase::Line(LinePhase::Method),
        method: Seq::empty(),
        raw_url: Seq::empty(),
        path: Seq::empty(),
        params: None,
        headers: Seq::empty(),
        key: Seq::empty(),
        val: Seq::empty(),
        body: Seq::empty(),
    }
}

/// The URL split that ends the method line: the path is the text before the
/// first `?`, and a query after it, when it decodes to at least one pair,
/// becomes the parameters.
pub open spec fn split_url(m: ParseState) -> ParseState {
    match find_char(m.raw_url, '?') {
        None => ParseState { path: m.raw_url, ..m },
        Some(i) => {
            let dm = decoded_map(m.raw_url.skip(i + 1));
            ParseState {
                path: m.raw_url.take(i),
                params: if dm.len() == 0 {
                    m.params
                } else {
                    Some(dm)
                },
                ..m
            }
        },
    }
}

/// One step of the parser: the state after consuming one character.
pub open spec fn step(m: ParseState, c: char) -> ParseState {
    match m.phase {
        Phase::Line(lp) => match lp {
            LinePhase::Method => {
                if c == ' ' {
                    ParseState { phase: Phase::Line(LinePhase::Url), ..m }
                } else {
                    ParseState { method: m.method.push(c), ..m }
                }
            },
            LinePhase::Url => {
                if c == ' ' {
                    ParseState { phase: Phase::Line(LinePhase::Version), ..m }
                } else {
                    ParseState { raw_url: m.raw_url.push(c), ..m }
                }
            },
            LinePhase::Version => {
                if c == '\r' {
                    ParseState { phase: Phase::Line(LinePhase::LineEnd), ..m }
                } else {
                    m
                }
            },
            LinePhase::LineEnd => {
                if c == '\n' {
                    ParseState {
                        phase: Phase::Headers(HeaderPhase::Key),
                        ..split_url(m)
                    }
                } else {
                    ParseState { phase: Phase::Failed, ..m }
                }
            },
        },
        Phase::Headers(hp) => match hp {
            HeaderPhase::Key => {
                if c == ' ' {
                    ParseState { phase: Phase::Headers(HeaderPhase::Space), ..m }
                } else {
                    ParseState { key: m.key.push(c), ..m }
                }
            },
            HeaderPhase::Space => {
                ParseState {
                    phase: Phase::Headers(HeaderPhase::Value),
                    key: if m.key.len() > 0 {
                        m.key.drop_last()
                    } else {
                        m.key
                    },
                    val: m.val.push(c),
                    ..m
                }
            },
            HeaderPhase::Value => {
                if c == '\r' {
                    ParseState { phase: Phase::Headers(HeaderPhase::Ret), ..m }
                } else {
                    ParseState { val: m.val.push(c), ..m }
                }
            },
            HeaderPhase::Ret => ParseState { phase: Phase::Headers(HeaderPhase::Insert), ..m },
            HeaderPhase::Insert => {
                ParseState {
                    phase: if c == '\r' {
                        Phase::Headers(HeaderPhase::HeadersEnd)
                    } else {
                        Phase::Headers(HeaderPhase::Key)
                    },
                    headers: crate::params::insert_pair(m.headers, m.key, m.val),
                    key: seq![c],
                    val: Seq::empty(),
                    ..m
                }
            },
            HeaderPhase::HeadersEnd => {
                if m.method == seq!['P', 'O', 'S', 'T'] {
                    ParseState { phase: Phase::Body, ..m }
                } else {
                    ParseState { phase: Phase::Done, ..m }
                }
            },
        },
        Phase::Body => ParseState { body: m.body.push(c), ..m },
        Phase::Done => m,
        Phase::Failed => m,
    }
}

/// The state after consuming a whole character sequence, one [`step`] at a
/// time, left to right.
pub open spec fn run(m: ParseState, s: Seq<char>) -> ParseState
    decreases s.len(),
{
    if s.len() == 0 {
        m
    } else {
        step(run(m, s.drop_last()), s.last())
    }
}

/// The parser over its exact mathematical state.
pub struct Parser {
    pub phase: Phase,
    pub method: String,
    pub raw_url: String,
    pub path: String,
    pub params: Option<StrMap>,
    pub headers: StrMap,
    pub key: String,
    pub val: String,
    pub body: String,
}

impl View for Parser {
    type V = ParseState;

    open spec fn view(&self) -> ParseState {
        ParseState {
            phase: self.phase,
            method: self.method@,
            raw_url: self.raw_url@,
            path: self.path@,
            params: match self.params {
                Some(m) => Some(m@),
                None => None,
            },
            headers: self.headers@,
            key: self.key@,
            val: self.val@,
            body: self.body@,
        }
    }
}

impl Parser {
    /// The collected mappings hold no duplicate keys.
    pub open spec fn wf(&self) -> bool {
        &&& self.headers.wf()
        &&& match self.params {
            Some(m) => m.wf(),
            None => true,
        }
    }

    pub fn new() -> (r: Parser)
        ensures
            r@ == init_state(),
            r.wf(),
    {
        let r = Parser {
            phase: Phase::Line(LinePhase::Method),
            method: String::new(),
            raw_url: String::new(),
            path: String::new(),
            params: None,
            headers: StrMap::new(),
            key: String::new(),
            val: String::new(),
            body: String::new(),
        };
        assert(r@ =~= init_state());
        r
    }

    /// Splits the collected URL on its first `?` into the path and, when the
    /// query decodes to at least one pair, the parameters.
    #[verifier::loop_isolation(false)]
    fn split_collected_url(&mut self)
        requires
            old(self).wf(),
        ensures
            final(self)@ == split_url(old(self)@),
            final(self).wf(),
    {
        let len = self.raw_url.as_str().unicode_len();
        let mut i: usize = 0;
        while i < len && self.raw_url.as_str().get_char(i) != '?'
            invariant
                i <= len,
                forall|t: int| 0 <= t < i ==> self.raw_url@[t] != '?',
                self == old(self),
            decreases len - i,
        {
            i += 1;
        }
        if i == len {
            proof {
                lemma_find_char_none(self.raw_url@, '?');
            }
            self.path = self.raw_url.clone();
        } else {
            proof {
                lemma_find_char_at(self.raw_url@, '?', i as int);
            }
            let query = self.raw_url.as_str().substring_char(i + 1, len);
            assert(query@ =~= self.raw_url@.skip(i + 1));
            let dm = decode(query);
            self.path = self.raw_url.as_str().substring_char(0, i).to_owned();
            assert(self.path@ =~= self.raw_url@.take(i as int));
            if dm.len() > 0 {
                self.params = Some(dm);
            }
        }
    }

    /// Consumes one character: the executable form of [`step`].
    pub fn advance(&mut self, c: char)
        requires
            old(self).wf(),
        ensures
            final(self)@ == step(old(self)@, c),
            final(self).wf(),
    {
        let ph = self.phase;
        match ph {
            Phase::Line(lp) => match lp {
                LinePhase::Method => {
                    if c == ' ' {
                        self.phase = Phase::Line(LinePhase::Url);
                    } else {
                        push_char(&mut self.method, c);
                    }
                },
                LinePhase::Url => {
                    if c == ' ' {
                        self.phase = Phase::Line(LinePhase::Version);
                    } else {
                        push_char(&mut self.raw_url, c);
                    }
                },
                LinePhase::Version => {
                    if c == '\r' {
                        self.phase = Phase::Line(LinePhase::LineEnd);
                    }
                },
                LinePhase::LineEnd => {
                    if c == '\n' {
                        self.split_collected_url();
                        self.phase = Phase::Headers(HeaderPhase::Key);
                    } else {
                        self.phase = Phase::Failed;
                    }
                },
            },
            Phase::Headers(hp) => match hp {
                HeaderPhase::Key => {
                    if c == ' ' {
                        self.phase = Phase::Headers(HeaderPhase::Space);
                    } else {
                        push_char(&mut self.key, c);
                    }
                },
                HeaderPhase::Space => {
                    // The space follows the key's colon: take that colon off.
                    let klen = self.key.as_str().unicode_len();
                    if klen > 0 {
                        self.key = self.key.as_str().substring_char(0, klen - 1).to_owned();
                        assert(self.key@ =~= old(self).key@.drop_last());
                    }
                    push_char(&mut self.val, c);
                    self.phase = Phase::Headers(HeaderPhase::Value);
                },
                HeaderPhase::Value => {
                    if c == '\r' {
                        self.phase = Phase::Headers(HeaderPhase::Ret);
                    } else {
                        push_char(&mut self.val, c);
                    }
                },
                HeaderPhase::Ret => {
                    self.phase = Phase::Headers(HeaderPhase::Insert);
                },
                HeaderPhase::Insert => {
                    let k = self.key.clone();
                    let v = self.val.clone();
                    self.headers.insert(k, v);
                    self.key = String::new();
                    push_char(&mut self.key, c);
                    self.val = String::new();
                    assert(self.key@ =~= seq![c]);
                    if c == '\r' {
                        self.phase = Phase::Headers(HeaderPhase::HeadersEnd);
                    } else {
                        self.phase = Phase::Headers(HeaderPhase::Key);
                    }
                },
                HeaderPhase::HeadersEnd => {
                    proof {
                        reveal_strlit("POST");
                        assert("POST"@ =~= seq!['P', 'O', 'S', 'T']);
                    }
                    if str_eq(self.method.as_str(), "POST") {
                        self.phase = Phase::Body;
                    } else {
                        self.phase = Phase::Done;
                    }
                },
            },
            Phase::Body => {
                push_char(&mut self.body, c);
            },
            Phase::Done => (),
            Phase::Failed => (),
        }
    }
}

/// The one parse failure the machine reports: the method line did not end in
/// a proper line feed.
#[derive(Debug)]
pub enum ParseError {
    MalformedRequestLine,
}

/// The mathematical shape of a parsed request.
pub struct RequestModel {
    pub method: Seq<char>,
    pub url: Seq<char>,
    pub headers: Seq<SpecPair>,
    pub body: Option<Seq<SpecPair>>,
}

/// A parsed request: the method, the path (query stripped), the headers, and
/// the parameters merged from the URL query and, for `POST`, the body.
/// Parameters are present only when at least one source supplied a pair.
pub struct Request {
    pub method: String,
    pub url: String,
    pub headers: StrMap,
    pub body: Option<StrMap>,
}

impl View for Request {
    type V = RequestModel;

    open spec fn view(&self) -> RequestModel {
        RequestModel {
            method: self.method@,
            url: self.url@,
            headers: self.headers@,
            body: match self.body {
                Some(m) => Some(m@),
                None => None,
            },
        }
    }
}

/// The end-of-input work on a final machine state: a non-empty body is
/// decoded and merged into the parameters, keys already present keeping
/// their query-string value.
pub open spec fn finalize(m: ParseState) -> RequestModel {
    let params = if m.body.len() > 0 {
        let bm = decoded_map(m.body);
        match m.params {
            Some(p) => Some(merge_absent(p, bm)),
            None => if bm.len() == 0 {
                None
            } else {
                Some(bm)
            },
        }
    } else {
        m.params
    };
    RequestModel { method: m.method, url: m.path, headers: m.headers, body: params }
}

/// The bytes of the buffer read as characters, one per byte.
pub open spec fn chars_of_bytes(b: Seq<u8>) -> Seq<char> {
    b.map_values(|x: u8| x as char)
}

/// What parsing a buffer yields: the machine is run over every byte, and the
/// collected request is handed out unless the method line failed.
pub open spec fn spec_parse(input: Seq<char>) -> Option<RequestModel> {
    let m = run(init_state(), input);
    if m.phase is Failed {
        None
    } else {
        Some(finalize(m))
    }
}

impl Request {
    /// A blank request.
    pub fn new() -> (r: Request)
        ensures
            r@.method == Seq::<char>::empty(),
            r@.url == Seq::<char>::empty(),
            r@.headers == Seq::<SpecPair>::empty(),
            r@.body is None,
            r.wf(),
    {
        Request {
            method: String::new(),
            url: String::new(),
            headers: StrMap::new(),
            body: None,
        }
    }

    /// The collected mappings hold no duplicate keys.
    pub open spec fn wf(&self) -> bool {
        &&& self.headers.wf()
        &&& match self.body {
            Some(m) => m.wf(),
            None => true,
        }
    }

    /// Parses one buffer of bytes into a request. A buffer that runs out
    /// mid-request yields whatever was collected, an empty buffer a blank
    /// request; only a malformed method line is an error.
    #[verifier::loop_isolation(false)]
    pub fn parse_request(buf: &[u8]) -> (r: Result<Request, ParseError>)
        ensures
            match r {
                Ok(req) => spec_parse(chars_of_bytes(buf@)) == Some(req@) && req.wf(),
                Err(_) => spec_parse(chars_of_bytes(buf@)) is None,
            },
    {
        let ghost input = chars_of_bytes(buf@);
        let mut p = Parser::new();
        let len = buf.len();
        let mut n: usize = 0;
        while n < len
            invariant
                n <= len,
                p.wf(),
                p@ == run(init_state(), input.take(n as int)),
            decreases len - n,
        {
            let c = buf[n] as char;
            p.advance(c);
            proof {
                assert(input.take(n + 1).drop_last() =~= input.take(n as int));
                assert(input.take(n + 1).last() == input[n as int]);
                assert(input[n as int] == buf@[n as int] as char);
            }
            n += 1;
        }
        assert(input.take(len as int) =~= input);
        if let Phase::Failed = p.phase {
            return Err(ParseError::MalformedRequestLine);
        }
        // Decode a collected body and merge it behind the query parameters.
        let blen = p.body.as_str().unicode_len();
        let params = if blen > 0 {
            let bm = decode(p.body.as_str());
            match p.params {
                Some(mut q) => {
                    q.merge_missing_from(&bm);
                    Some(q)
                },
                None => {
                    if bm.len() > 0 {
                        Some(bm)
                    } else {
                        None
                    }
                },
            }
        } else {
            p.params
        };
        let req = Request { method: p.method, url: p.path, headers: p.headers, body: params };
        Ok(req)
    }

    /// Fetches a parameter from the request's decoded parameters; a missing
    /// or empty one yields instead the `422` response that reports it.
    pub fn get_param(&self, param: &str) -> (r: Result<&String, Response>)
        ensures
            match r {
                Ok(v) => {
                    &&& self@.body is Some
                    &&& map_get(self@.body.unwrap(), param@) == Some(v@)
                    &&& v@.len() > 0
                },
                Err(e) => {
                    &&& e.code@ == status_code_line("422"@, "Unprocessable Entity"@)
                    &&& e.wf()
                    &&& e.body_utf8()
                    &&& e.body is Some
                    &&& match self@.body {
                        None => decode_utf8(e.body.unwrap()@) == "No data submitted in query"@,
                        Some(m) => match map_get(m, param@) {
                            None => decode_utf8(e.body.unwrap()@) == "No "@ + quoted(param@)
                                + " submitted in query"@,
                            Some(v) => v.len() == 0 && decode_utf8(e.body.unwrap()@) == quoted(
                                param@,
                            ) + " was empty"@,
                        },
                    }
                },
            },
    {
        match self.body.as_ref() {
            Some(map) => {
                match map.get(param) {
                    Some(p) => {
                        if p.as_str().unicode_len() == 0 {
                            let mut msg = quote_str(param);
                            msg.append(" was empty");
                            return Err(faulty_query(msg.as_str()));
                        }
                        Ok(p)
                    },
                    None => {
                        let mut msg = String::from_str("No ");
                        let q = quote_str(param);
                        msg.append(q.as_str());
                        msg.append(" submitted in query");
                        proof {
                            reveal_strlit("No ");
                        }
                        Err(faulty_query(msg.as_str()))
                    },
                }
            },
            None => Err(faulty_query("No data submitted in query")),
        }
    }
}

/// The text wrapped in double quotes, as the parameter errors report it.
pub open spec fn quoted(s: Seq<char>) -> Seq<char> {
    seq!['"'] + s + seq!['"']
}

/// The data-model invariants of a machine state: the split-off path holds no
/// query separator, and parameters, once present, hold at least one pair.
pub open spec fn state_invariants(m: ParseState) -> bool {
    &&& forall|i: int| 0 <= i < m.path.len() ==> m.path[i] != '?'
    &&& match m.params {
        Some(p) => p.len() > 0,
        None => true,
    }
}

proof fn lemma_step_keeps_invariants(m: ParseState, c: char)
    requires
        state_invariants(m),
    ensures
        state_invariants(step(m, c)),
{
    if m.phase is Line && m.phase->Line_0 is LineEnd && c == '\n' {
        crate::params::lemma_find_char_in_range(m.raw_url, '?');
        match find_char(m.raw_url, '?') {
            None => {},
            Some(i) => {
                assert(forall|j: int|
                    0 <= j < m.raw_url.take(i).len() ==> m.raw_url.take(i)[j] == m.raw_url[j]);
            },
        }
    }
}

proof fn lemma_run_keeps_invariants(m: ParseState, s: Seq<char>)
    requires
        state_invariants(m),
    ensures
        state_invariants(run(m, s)),
    decreases s.len(),
{
    if s.len() > 0 {
        lemma_run_keeps_invariants(m, s.drop_last());
        lemma_step_keeps_invariants(run(m, s.drop_last()), s.last());
    }
}

/// Growing a mapping with missing keys never shrinks it.
proof fn lemma_merge_absent_grows(dst: Seq<SpecPair>, src: Seq<SpecPair>)
    ensures
        merge_absent(dst, src).len() >= dst.len(),
    decreases src.len(),
{
    if src.len() > 0 {
        lemma_merge_absent_grows(insert_pair_absent(dst, src[0].0, src[0].1), src.skip(1));
    }
}

/// Every request the parser accepts keeps the data model's invariants: its
/// path holds no query separator, and its parameters, when present at all,
/// hold at least one pair.
pub proof fn lemma_request_invariants(input: Seq<char>)
    ensures
        match spec_parse(input) {
            Some(req) => {
                &&& forall|i: int| 0 <= i < req.url.len() ==> req.url[i] != '?'
                &&& match req.body {
                    Some(p) => p.len() > 0,
                    None => true,
                }
            },
            None => true,
        },
{
    lemma_run_keeps_invariants(init_state(), input);
    let m = run(init_state(), input);
    if !(m.phase is Failed) && m.body.len() > 0 {
        match m.params {
            Some(p) => {
                lemma_merge_absent_grows(p, decoded_map(m.body));
            },
            None => {},
        }
    }
}

/// Running over a concatenation is running over each part in turn.
pub proof fn lemma_run_append(m: ParseState, a: Seq<char>, b: Seq<char>)
    ensures
        run(m, a + b) == run(run(m, a), b),
    decreases b.len(),
{
    if b.len() == 0 {
        assert(a + b =~= a);
    } else {
        lemma_run_append(m, a, b.drop_last());
        assert((a + b).drop_last() =~= a + b.drop_last());
        assert((a + b).last() == b.last());
    }
}

/// One character runs as one step.
pub proof fn lemma_run_one(m: ParseState, c: char)
    ensures
        run(m, seq![c]) == step(m, c),
{
    let s = seq![c];
    assert(s.drop_last() =~= Seq::<char>::empty());
    assert(run(m, Seq::<char>::empty()) == m);
    assert(run(m, s) == step(run(m, s.drop_last()), s.last()));
}

/// While collecting the method, space-free text only accumulates.
proof fn lemma_run_collect_method(m: ParseState, s: Seq<char>)
    requires
        m.phase is Line && m.phase->Line_0 is Method,
        forall|i: int| 0 <= i < s.len() ==> s[i] != ' ',
    ensures
        run(m, s) =~= (ParseState { method: m.method + s, ..m }),
    decreases s.len(),
{
    if s.len() == 0 {
        assert(m.method + s =~= m.method);
    } else {
        lemma_run_collect_method(m, s.drop_last());
        assert(m.method + s.drop_last() + seq![s.last()] =~= m.method + s);
    }
}

/// While collecting the URL, space-free text only accumulates.
proof fn lemma_run_collect_url(m: ParseState, s: Seq<char>)
    requires
        m.phase is Line && m.phase->Line_0 is Url,
        forall|i: int| 0 <= i < s.len() ==> s[i] != ' ',
    ensures
        run(m, s) =~= (ParseState { raw_url: m.raw_url + s, ..m }),
    decreases s.len(),
{
    if s.len() == 0 {
        assert(m.raw_url + s =~= m.raw_url);
    } else {
        lemma_run_collect_url(m, s.drop_last());
        assert(m.raw_url + s.drop_last() + seq![s.last()] =~= m.raw_url + s);
    }
}

/// The protocol-version token is skipped: text without a carriage return
/// changes nothing.
proof fn lemma_run_skip_version(m: ParseState, s: Seq<char>)
    requires
        m.phase is Line && m.phase->Line_0 is Version,
        forall|i: int| 0 <= i < s.len() ==> s[i] != '\r',
    ensures
        run(m, s) == m,
    decreases s.len(),
{
    if s.len() > 0 {
        lemma_run_skip_version(m, s.drop_last());
    }
}

/// For every well-formed method line `METHOD SP URL SP VERSION CRLF` — the
/// method and URL tokens free of spaces, the version token free of carriage
/// returns — the parser accepts, reports exactly the given method, takes as
/// the path the URL up to its first `?`, and decodes the query after it into
/// the parameters, which stay absent when the query yields no pair.
pub proof fn lemma_request_line_parse(method: Seq<char>, url: Seq<char>, version: Seq<char>)
    requires
        forall|i: int| 0 <= i < method.len() ==> method[i] != ' ',
        forall|i: int| 0 <= i < url.len() ==> url[i] != ' ',
        forall|i: int| 0 <= i < version.len() ==> version[i] != '\r',
    ensures
        ({
            let r = spec_parse(method + seq![' '] + url + seq![' '] + version + seq!['\r', '\n']);
            &&& r is Some
            &&& r.unwrap().method == method
            &&& r.unwrap().headers == Seq::<SpecPair>::empty()
            &&& match find_char(url, '?') {
                None => r.unwrap().url == url && r.unwrap().body is None,
                Some(i) => {
                    &&& r.unwrap().url == url.take(i)
                    &&& r.unwrap().body == (if decoded_map(url.skip(i + 1)).len() == 0 {
                        None::<Seq<SpecPair>>
                    } else {
                        Some(decoded_map(url.skip(i + 1)))
                    })
                },
            }
        }),
{
    let m0 = init_state();
    let input = method + seq![' '] + url + seq![' '] + version + seq!['\r', '\n'];

    lemma_run_collect_method(m0, method);
    let m1 = run(m0, method);
    assert(m1.method =~= method);

    lemma_run_append(m0, method, seq![' ']);
    lemma_run_one(m1, ' ');
    let m2 = run(m0, method + seq![' ']);
    assert(m2 == step(m1, ' '));

    lemma_run_append(m0, method + seq![' '], url);
    lemma_run_collect_url(m2, url);
    let m3 = run(m0, method + seq![' '] + url);
    assert(m3.raw_url =~= url);

    lemma_run_append(m0, method + seq![' '] + url, seq![' ']);
    lemma_run_one(m3, ' ');
    let m4 = run(m0, method + seq![' '] + url + seq![' ']);
    assert(m4 == step(m3, ' '));

    lemma_run_append(m0, method + seq![' '] + url + seq![' '], version);
    lemma_run_skip_version(m4, version);
    let m5 = run(m0, method + seq![' '] + url + seq![' '] + version);
    assert(m5 == m4);

    lemma_run_append(m0, method + seq![' '] + url + seq![' '] + version, seq!['\r', '\n']);
    let fin = seq!['\r', '\n'];
    assert(fin =~= seq!['\r'] + seq!['\n']);
    lemma_run_append(m5, seq!['\r'], seq!['\n']);
    lemma_run_one(m5, '\r');
    lemma_run_one(step(m5, '\r'), '\n');
    assert(run(m5, fin) == step(step(m5, '\r'), '\n'));
    let m6 = step(m5, '\r');
    let m7 = step(m6, '\n');
    assert(run(m0, input) == m7) by {
        assert(method + seq![' '] + url + seq![' '] + version + fin =~= input);
    }
    assert(m7.phase is Headers);
    assert(m7.body.len() == 0);
    assert(m7.method == method);
    assert(m7.headers =~= Seq::<SpecPair>::empty());
}

fn quote_str(s: &str) -> (r: String)
    ensures
        r@ == quoted(s@),
{
    proof {
        reveal_strlit("\"");
    }
    let mut out = String::from_str("\"");
    out.append(s);
    out.append("\"");
    assert(out@ =~= quoted(s@));
    out
}

} // verus!
