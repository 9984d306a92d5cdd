//! A remote MCP server over Streamable HTTP: what is sent to it, and what is
//! made of what comes back.

use vstd::prelude::*;
#[allow(unused_imports)]
use vstd::string::*;

use super::wire::{
    handshake_doc, handshake_params, id_after, notification_doc, notification_json, read_response, request_doc,
    request_json, response_result, take_id,
};
use crate::json::{json_read, read_json, reading, Doc, Json};
use crate::name_map::{view_opt, NameMap};
use crate::numerals::{decimal, decimal_text};
use crate::text::{chars_of, contains_text, holds, lower_text, lowered, same_text, slice_chars, text_of, texts};

verus! {

// ---- headers -------------------------------------------------------------

/// The bytes that a header's name may hold.
pub open spec fn token_byte(b: u8) -> bool {
    ||| 48 <= b <= 57
    ||| 65 <= b <= 90
    ||| 97 <= b <= 122
    ||| b == 33
    ||| 35 <= b <= 39
    ||| b == 42
    ||| b == 43
    ||| b == 45
    ||| b == 46
    ||| 94 <= b <= 96
    ||| b == 124
    ||| b == 126
}

/// Whether a text can be the name of a header.
pub open spec fn header_name_ok(name: Seq<char>) -> bool {
    let bytes = vstd::utf8::encode_utf8(name);
    0 < bytes.len() <= 65535 && forall|i: int| 0 <= i < bytes.len() ==> token_byte(#[trigger] bytes[i])
}

/// Whether a text can be the value of a header.
pub open spec fn header_value_ok(value: Seq<char>) -> bool {
    let bytes = vstd::utf8::encode_utf8(value);
    forall|i: int| 0 <= i < bytes.len() ==> (#[trigger] bytes[i] >= 32 && bytes[i] != 127) || bytes[i] == 9
}

/// `reqwest::header::HeaderName::from_bytes`: whether it takes the name. It takes
/// between 1 and 65535 bytes, all of them token characters.
#[verifier::external_body]
fn is_header_name(name: &str) -> (r: bool)
    ensures
        r == header_name_ok(name@),
{
    reqwest::header::HeaderName::from_bytes(name.as_bytes()).is_ok()
}

/// `reqwest::header::HeaderValue::from_str`: whether it takes the value. It takes
/// tabs and any byte from 32 on but 127.
#[verifier::external_body]
fn is_header_value(value: &str) -> (r: bool)
    ensures
        r == header_value_ok(value@),
{
    reqwest::header::HeaderValue::from_str(value).is_ok()
}

/// A status code in words, such as `404 Not Found`.
pub uninterp spec fn status_words(code: u16) -> Seq<char>;

/// `reqwest::StatusCode` as text: the number and its usual reason.
#[verifier::external_body]
fn status_text(code: u16) -> (r: String)
    requires
        100 <= code <= 999,
    ensures
        r@ == status_words(code),
{
    match reqwest::StatusCode::from_u16(code) {
        Ok(s) => s.to_string(),
        Err(_) => String::new(),
    }
}

/// The model of a row of headers.
pub open spec fn header_pairs(list: Seq<(String, String)>) -> Seq<(Seq<char>, Seq<char>)> {
    list.map_values(|e: (String, String)| (e.0@, e.1@))
}

/// The headers of a jack that can be sent, in the order of their names.
pub open spec fn sendable(pairs: Seq<(Seq<char>, Seq<char>)>) -> Seq<(Seq<char>, Seq<char>)> {
    pairs.filter(|e: (Seq<char>, Seq<char>)| header_name_ok(e.0) && header_value_ok(e.1))
}

/// The line of the log for a header that cannot be sent.
pub open spec fn header_note(name: Seq<char>, header: (Seq<char>, Seq<char>)) -> Option<Seq<char>> {
    if !header_name_ok(header.0) {
        Some("[jack:"@ + name + "] skipping header with invalid name '"@ + header.0 + "'"@)
    } else if !header_value_ok(header.1) {
        Some("[jack:"@ + name + "] skipping header '"@ + header.0 + "' with invalid value"@)
    } else {
        None
    }
}

/// The lines of the log for those of the headers that cannot be sent, in order.
pub open spec fn header_notes(name: Seq<char>, pairs: Seq<(Seq<char>, Seq<char>)>) -> Seq<Seq<char>>
    decreases pairs.len(),
{
    if pairs.len() == 0 {
        Seq::empty()
    } else {
        let front = header_notes(name, pairs.drop_last());
        match header_note(name, pairs.last()) {
            Some(line) => front.push(line),
            None => front,
        }
    }
}

fn header_line(name: &str, key: &str, value: &str) -> (r: Option<String>)
    ensures
        view_opt(r) == header_note(name@, (key@, value@)),
{
    let mut s = "[jack:".to_owned();
    s.append(name);
    if !is_header_name(key) {
        s.append("] skipping header with invalid name '");
        s.append(key);
        s.append("'");
        Some(s)
    } else if !is_header_value(value) {
        s.append("] skipping header '");
        s.append(key);
        s.append("' with invalid value");
        Some(s)
    } else {
        None
    }
}

// ---- the client ----------------------------------------------------------

/// A connection to a remote MCP server.
#[derive(Debug, PartialEq, Eq)]
pub struct HttpClient {
    /// The headers that go with every request, as they are used.
    pub headers: NameMap<String>,
    /// The session id that the server gave.
    pub session_id: Option<String>,
    /// The id of the next request.
    pub next_id: i64,
    /// Set when the connection is shut down; nothing is sent from then on.
    pub closed: bool,
    /// Set when the handshake is done.
    pub initialized: bool,
}

pub struct HttpModel {
    pub headers: Seq<(Seq<char>, Seq<char>)>,
    pub session_id: Option<Seq<char>>,
    pub next_id: i64,
    pub closed: bool,
    pub initialized: bool,
}

impl View for HttpClient {
    type V = HttpModel;

    open spec fn view(&self) -> HttpModel {
        HttpModel {
            headers: self.headers.pairs(),
            session_id: view_opt(self.session_id),
            next_id: self.next_id,
            closed: self.closed,
            initialized: self.initialized,
        }
    }
}

/// Why a request failed.
#[derive(Debug, PartialEq, Eq)]
pub enum ReqErr {
    /// The server does not know the session any more.
    SessionInvalid,
    Other(String),
}

pub enum ReqErrModel {
    SessionInvalid,
    Other(Seq<char>),
}

impl View for ReqErr {
    type V = ReqErrModel;

    open spec fn view(&self) -> ReqErrModel {
        match self {
            ReqErr::SessionInvalid => ReqErrModel::SessionInvalid,
            ReqErr::Other(s) => ReqErrModel::Other(s@),
        }
    }
}

impl ReqErr {
    /// The reason in words.
    pub fn message(&self) -> (r: String)
        ensures
            r@ == (match self@ {
                ReqErrModel::SessionInvalid => "upstream session invalid"@,
                ReqErrModel::Other(s) => s,
            }),
    {
        match self {
            ReqErr::SessionInvalid => "upstream session invalid".to_owned(),
            ReqErr::Other(s) => s.clone(),
        }
    }
}

/// A message that is to be posted.
#[derive(Debug, PartialEq, Eq)]
pub struct Outbound {
    /// The id of the request; a notification has none.
    pub id: Option<i64>,
    pub body: Json,
    pub headers: Vec<(String, String)>,
}

impl HttpModel {
    /// The headers of a message: what it is and what it takes back, the jack's
    /// own headers, then the session, and the protocol version after the
    /// handshake.
    pub open spec fn message_headers(self) -> Seq<(Seq<char>, Seq<char>)> {
        let base = seq![
            ("accept"@, "application/json, text/event-stream"@),
            ("content-type"@, "application/json"@),
        ];
        base + self.shared_headers()
    }

    /// The headers that go with everything that is sent.
    pub open spec fn shared_headers(self) -> Seq<(Seq<char>, Seq<char>)> {
        let own = sendable(self.headers);
        let session = match self.session_id {
            Some(sid) => own.push(("mcp-session-id"@, sid)),
            None => own,
        };
        if self.initialized {
            session.push(("mcp-protocol-version"@, "2025-06-18"@))
        } else {
            session
        }
    }
}

/// Whether a body says that the session is gone: a JSON-RPC error with a code in
/// the server's own range whose message speaks of a session, or a text that says
/// as much.
pub open spec fn session_gone(body: Seq<char>) -> bool {
    let lower = lowered(body);
    ||| (json_read(body) matches Ok(v) && session_error(v))
    ||| (holds(lower, "session"@) && (holds(lower, "initialize first"@) || holds(lower, "no valid"@) || holds(
        lower,
        "not found"@,
    ) || holds(lower, "invalid"@) || holds(lower, "expired"@)))
}

/// Whether a message is such an error.
pub open spec fn session_error(v: Doc) -> bool {
    match v.member("error"@) {
        Some(e) => {
            let code = match e.member("code"@) {
                Some(c) => super::wire::as_id(c),
                None => None,
            };
            let message = match e.text_member("message"@) {
                Some(m) => m,
                None => Seq::empty(),
            };
            code is Some && -32099 <= code->0 <= -32000 && holds(lowered(message), "session"@)
        },
        None => false,
    }
}

/// Whether a message is an error that says that the session is gone.
pub fn is_session_error(v: &Json) -> (r: bool)
    ensures
        r == session_error(v@),
{
    match v.get("error") {
        Some(e) => {
            let code: Option<i64> = match e.get("code") {
                Some(c) => c.as_id(),
                None => None,
            };
            match code {
                Some(n) => {
                    if -32099 <= n && n <= -32000 {
                        match e.text_member("message") {
                            Some(m) => contains_text(lower_text(m.as_str()).as_str(), "session"),
                            None => {
                                let none = String::new();
                                proof {
                                    assert(lowered(none@) =~= none@);
                                }
                                contains_text(none.as_str(), "session")
                            },
                        }
                    } else {
                        false
                    }
                },
                None => false,
            }
        },
        None => false,
    }
}

/// Whether a body says that the session is gone.
pub fn is_session_invalid_body(text: &str) -> (r: bool)
    ensures
        r == session_gone(text@),
{
    if let Ok(v) = read_json(text) {
        if is_session_error(&v) {
            return true;
        }
    }
    let lower = lower_text(text);
    let lower = lower.as_str();
    contains_text(lower, "session") && (contains_text(lower, "initialize first") || contains_text(lower, "no valid")
        || contains_text(lower, "not found") || contains_text(lower, "invalid") || contains_text(lower, "expired"))
}

/// A text cut off after `n` characters, with `...` where anything was cut off.
pub open spec fn cut(s: Seq<char>, n: nat) -> Seq<char> {
    if s.len() > n {
        s.subrange(0, n as int) + "..."@
    } else {
        s
    }
}

/// Cut a text off after `n` characters.
pub fn truncate(s: &str, n: usize) -> (r: String)
    ensures
        r@ == cut(s@, n as nat),
{
    let v = chars_of(s);
    if v.len() > n {
        let mut t = text_of(&slice_chars(&v, 0, n));
        t.append("...");
        t
    } else {
        s.to_owned()
    }
}

/// What a response to a request that failed comes to: the session is gone, or the
/// status and the beginning of the body.
pub open spec fn failure(status: u16, body: Seq<char>) -> ReqErrModel {
    if 400 <= status < 500 && session_gone(body) {
        ReqErrModel::SessionInvalid
    } else {
        ReqErrModel::Other("upstream HTTP "@ + status_words(status) + ": "@ + cut(body, 200))
    }
}

/// What a response in plain JSON comes to.
pub open spec fn json_outcome(body: Seq<char>) -> Result<Doc, Seq<char>> {
    match json_read(body) {
        Ok(v) => response_result(v),
        Err(e) => Err("response JSON parse: "@ + e + " (body: "@ + cut(body, 200) + ")"@),
    }
}

impl HttpClient {
    /// A connection that nothing was sent over yet.
    pub fn connect(headers: NameMap<String>) -> (r: Self)
        ensures
            r@ == (HttpModel {
                headers: headers.pairs(),
                session_id: None,
                next_id: 1,
                closed: false,
                initialized: false,
            }),
    {
        HttpClient { headers, session_id: None, next_id: 1, closed: false, initialized: false }
    }

    /// Add the headers that go with everything that is sent. A header that HTTP
    /// does not allow is left out.
    fn with_shared_headers(&self, out: &mut Vec<(String, String)>)
        ensures
            header_pairs(final(out)@) == header_pairs(old(out)@) + self@.shared_headers(),
    {
        let ghost base = header_pairs(out@);
        let ghost pairs = self.headers.pairs();
        let ghost pred = |e: (Seq<char>, Seq<char>)| header_name_ok(e.0) && header_value_ok(e.1);
        self.headers.facts();
        proof {
            crate::name_map::lemma_filter_none(pairs, pred);
            assert(base + Seq::<(Seq<char>, Seq<char>)>::empty() =~= base);
        }
        let n: usize = self.headers.len();
        let mut i: usize = 0;
        while i < n
            invariant
                i <= n,
                n == pairs.len(),
                pairs == self.headers.pairs(),
                pred == (|e: (Seq<char>, Seq<char>)| header_name_ok(e.0) && header_value_ok(e.1)),
                header_pairs(out@) == base + pairs.subrange(0, i as int).filter(pred),
            decreases n - i,
        {
            let ghost prev = header_pairs(out@);
            let ghost front = pairs.subrange(0, i as int).filter(pred);
            proof {
                crate::name_map::lemma_filter_step(pairs, pred, i as int);
            }
            let k = self.headers.key_at(i);
            let v = self.headers.value_at(i);
            assert(pairs[i as int] == (k@, v@));
            if is_header_name(k.as_str()) && is_header_value(v.as_str()) {
                out.push((k.clone(), v.clone()));
                assert(header_pairs(out@) =~= prev.push((k@, v@)));
                assert(base + front.push((k@, v@)) =~= prev.push((k@, v@)));
            }
            i = i + 1;
        }
        assert(pairs.subrange(0, pairs.len() as int) =~= pairs);
        let ghost own = sendable(pairs);
        assert(header_pairs(out@) == base + own);
        if let Some(sid) = &self.session_id {
            let ghost prev = header_pairs(out@);
            out.push(("mcp-session-id".to_owned(), sid.clone()));
            assert(header_pairs(out@) =~= prev.push(("mcp-session-id"@, sid@)));
        }
        if self.initialized {
            let ghost prev = header_pairs(out@);
            out.push(("mcp-protocol-version".to_owned(), "2025-06-18".to_owned()));
            assert(header_pairs(out@) =~= prev.push(("mcp-protocol-version"@, "2025-06-18"@)));
        }
        assert(header_pairs(out@) =~= base + self@.shared_headers());
    }

    /// The lines of the log for the headers that are left out of everything that is
    /// sent to the jack `name`.
    pub fn skipped_header_lines(&self, name: &str) -> (r: Vec<String>)
        ensures
            texts(r@) == header_notes(name@, self@.headers),
    {
        let ghost pairs = self.headers.pairs();
        let n: usize = self.headers.len();
        let mut out: Vec<String> = Vec::new();
        assert(pairs.subrange(0, 0) =~= Seq::<(Seq<char>, Seq<char>)>::empty());
        assert(texts(out@) =~= Seq::<Seq<char>>::empty());
        let mut i: usize = 0;
        while i < n
            invariant
                i <= n,
                n == pairs.len(),
                pairs == self.headers.pairs(),
                texts(out@) == header_notes(name@, pairs.subrange(0, i as int)),
            decreases n - i,
        {
            let ghost prev = texts(out@);
            let ghost step = pairs.subrange(0, i + 1);
            let k = self.headers.key_at(i);
            let v = self.headers.value_at(i);
            assert(step.drop_last() =~= pairs.subrange(0, i as int));
            assert(step.last() == (k@, v@));
            if let Some(line) = header_line(name, k.as_str(), v.as_str()) {
                out.push(line);
                assert(texts(out@) =~= prev.push(line@));
            }
            i = i + 1;
        }
        assert(pairs.subrange(0, pairs.len() as int) =~= pairs);
        out
    }

    fn headers_for_message(&self) -> (r: Vec<(String, String)>)
        ensures
            header_pairs(r@) == self@.message_headers(),
    {
        let mut out: Vec<(String, String)> = Vec::new();
        out.push(("accept".to_owned(), "application/json, text/event-stream".to_owned()));
        out.push(("content-type".to_owned(), "application/json".to_owned()));
        assert(header_pairs(out@) =~= seq![
            ("accept"@, "application/json, text/event-stream"@),
            ("content-type"@, "application/json"@),
        ]);
        self.with_shared_headers(&mut out);
        out
    }

    /// The request that is to be posted. After a shutdown there is none.
    pub fn send_once(&mut self, method: &str, params: Option<Json>) -> (r: Result<Outbound, ReqErr>)
        ensures
            match r {
                Ok(out) => {
                    &&& !old(self)@.closed
                    &&& out.id == Some(old(self)@.next_id)
                    &&& out.body@ == request_doc(old(self)@.next_id, method@, view_opt(params))
                    &&& header_pairs(out.headers@) == old(self)@.message_headers()
                    &&& final(self)@ == (HttpModel { next_id: id_after(old(self)@.next_id), ..old(self)@ })
                },
                Err(e) => {
                    &&& old(self)@.closed
                    &&& e@ == ReqErrModel::Other("http upstream shut down"@)
                    &&& final(self)@ == old(self)@
                },
            },
            r matches Ok(out) ==> {
                &&& out.body@.member("id"@) == Some(Doc::Whole(old(self)@.next_id as int))
                &&& out.body@.member("method"@) == Some(Doc::Text(method@))
                &&& out.body@.member("params"@) == view_opt(params)
                &&& old(self)@.session_id is Some ==> header_pairs(out.headers@).contains(
                    ("mcp-session-id"@, old(self)@.session_id->0),
                )
                &&& final(self)@.next_id != old(self)@.next_id
            },
            r is Ok <==> !old(self)@.closed,
    {
        proof {
            super::laws::messages_carry_what_they_say(self@.next_id, method@, view_opt(params));
            super::laws::messages_carry_their_headers(self@, 0, (method@, method@));
        }
        if self.closed {
            return Err(ReqErr::Other("http upstream shut down".to_owned()));
        }
        let headers = self.headers_for_message();
        let id: i64 = take_id(&mut self.next_id);
        Ok(Outbound { id: Some(id), body: request_json(id, method, params), headers })
    }

    /// The notification that is to be posted. After a shutdown there is none.
    pub fn notify(&self, method: &str, params: Option<Json>) -> (r: Result<Outbound, String>)
        ensures
            match r {
                Ok(out) => {
                    &&& !self@.closed
                    &&& out.id is None
                    &&& out.body@ == notification_doc(method@, view_opt(params))
                    &&& header_pairs(out.headers@) == self@.message_headers()
                },
                Err(e) => self@.closed && e@ == "http upstream shut down"@,
            },
            r matches Ok(out) ==> {
                &&& out.body@.member("id"@) is None
                &&& out.body@.member("method"@) == Some(Doc::Text(method@))
                &&& out.body@.member("params"@) == view_opt(params)
                &&& self@.session_id is Some ==> header_pairs(out.headers@).contains(
                    ("mcp-session-id"@, self@.session_id->0),
                )
            },
            r is Ok <==> !self@.closed,
    {
        proof {
            super::laws::messages_carry_what_they_say(0, method@, view_opt(params));
            super::laws::messages_carry_their_headers(self@, 0, (method@, method@));
        }
        if self.closed {
            return Err("http upstream shut down".to_owned());
        }
        Ok(Outbound { id: None, body: notification_json(method, params), headers: self.headers_for_message() })
    }

    /// Take the session id that came with a response, where one did.
    fn note_session(&mut self, session_header: Option<&str>)
        ensures
            final(self)@ == (match session_header {
                Some(sid) => HttpModel { session_id: Some(sid@), ..old(self)@ },
                None => old(self)@,
            }),
    {
        if let Some(sid) = session_header {
            self.session_id = Some(sid.to_owned());
        }
    }

    /// Take a response with a status that is no success. A session that is gone is
    /// forgotten at once, so that it is never named again.
    pub fn response_failed(&mut self, status: u16, body: &str) -> (r: ReqErr)
        requires
            100 <= status <= 999,
        ensures
            r@ == failure(status, body@),
            final(self)@ == (if failure(status, body@) is SessionInvalid {
                HttpModel { session_id: None, ..old(self)@ }
            } else {
                old(self)@
            }),
    {
        if 400 <= status && status < 500 && is_session_invalid_body(body) {
            self.session_id = None;
            return ReqErr::SessionInvalid;
        }
        let mut s = "upstream HTTP ".to_owned();
        s.append(status_text(status).as_str());
        s.append(": ");
        s.append(truncate(body, 200).as_str());
        ReqErr::Other(s)
    }

    /// Take the head of a response with a success status. Returns whether its body
    /// is a stream of events, or else plain JSON.
    pub fn response_begun(&mut self, session_header: Option<&str>, content_type: Option<&str>) -> (r: bool)
        ensures
            r == (content_type is Some && holds(content_type->0@, "text/event-stream"@)),
            final(self)@ == (match session_header {
                Some(sid) => HttpModel { session_id: Some(sid@), ..old(self)@ },
                None => old(self)@,
            }),
    {
        self.note_session(session_header);
        match content_type {
            Some(c) => contains_text(c, "text/event-stream"),
            None => false,
        }
    }

    /// Take the response to a notification.
    pub fn notified(&mut self, status: u16, session_header: Option<&str>) -> (r: Result<(), String>)
        requires
            100 <= status <= 999,
        ensures
            match r {
                Ok(_) => {
                    &&& 200 <= status < 300
                    &&& final(self)@ == (match session_header {
                        Some(sid) => HttpModel { session_id: Some(sid@), ..old(self)@ },
                        None => old(self)@,
                    })
                },
                Err(e) => {
                    &&& !(200 <= status < 300)
                    &&& e@ == "upstream notify HTTP "@ + status_words(status)
                    &&& final(self)@ == old(self)@
                },
            },
    {
        if !(200 <= status && status < 300) {
            let mut s = "upstream notify HTTP ".to_owned();
            s.append(status_text(status).as_str());
            return Err(s);
        }
        self.note_session(session_header);
        Ok(())
    }

    /// Begin a handshake: whatever session there was is forgotten. Returns the
    /// request that opens it.
    pub fn do_initialize(&mut self) -> (r: Result<Outbound, ReqErr>)
        ensures
            ({
                let fresh = HttpModel { session_id: None, initialized: false, ..old(self)@ };
                match r {
                    Ok(out) => {
                        &&& !old(self)@.closed
                        &&& out.id == Some(old(self)@.next_id)
                        &&& out.body@ == request_doc(old(self)@.next_id, "initialize"@, Some(handshake_doc()))
                        &&& header_pairs(out.headers@) == fresh.message_headers()
                        &&& final(self)@ == (HttpModel { next_id: id_after(old(self)@.next_id), ..fresh })
                    },
                    Err(e) => {
                        &&& old(self)@.closed
                        &&& e@ == ReqErrModel::Other("http upstream shut down"@)
                        &&& final(self)@ == fresh
                    },
                }
            }),
            r matches Ok(out) ==> {
                &&& out.body@.member("method"@) == Some(Doc::Text("initialize"@))
                &&& out.body@.member("id"@) == Some(Doc::Whole(old(self)@.next_id as int))
                &&& out.body@.member("params"@) == Some(handshake_doc())
            },
            final(self)@.session_id is None,
            !final(self)@.initialized,
            final(self)@.headers == old(self)@.headers,
            r is Ok <==> !old(self)@.closed,
    {
        proof {
            super::laws::messages_carry_what_they_say(self@.next_id, "initialize"@, Some(handshake_doc()));
        }
        self.session_id = None;
        self.initialized = false;
        self.send_once("initialize", Some(handshake_params()))
    }

    /// The handshake is done.
    pub fn initialize_done(&mut self)
        ensures
            final(self)@ == (HttpModel { initialized: true, ..old(self)@ }),
    {
        self.initialized = true;
    }

    /// Whether a request that failed is worth another handshake and one more try.
    pub fn recovers(method: &str, error: &ReqErr) -> (r: bool)
        ensures
            r == (error@ is SessionInvalid && method@ != "initialize"@),
    {
        match error {
            ReqErr::SessionInvalid => !same_text(method, "initialize"),
            ReqErr::Other(_) => false,
        }
    }

    /// Whether the handshake is still to be made, or another request has made it
    /// meanwhile.
    pub fn needs_handshake(&self) -> (r: bool)
        ensures
            r == (self@.session_id is None),
    {
        self.session_id.is_none()
    }

    /// Shut the connection down. Nothing is sent from then on but the end of the
    /// session, where there is one: its id, and the headers that go with it.
    pub fn shutdown(&mut self) -> (r: Option<(String, Vec<(String, String)>)>)
        ensures
            final(self)@ == (HttpModel { closed: true, session_id: None, ..old(self)@ }),
            r is Some <==> old(self)@.session_id is Some,
            r matches Some(end) ==> old(self)@.session_id == Some(end.0@) && header_pairs(end.1@)
                == final(self)@.shared_headers().push(("mcp-session-id"@, end.0@)),
    {
        self.closed = true;
        let mut sid: Option<String> = None;
        core::mem::swap(&mut sid, &mut self.session_id);
        match sid {
            Some(id) => {
                let mut headers: Vec<(String, String)> = Vec::new();
                assert(header_pairs(headers@) =~= Seq::<(Seq<char>, Seq<char>)>::empty());
                self.with_shared_headers(&mut headers);
                assert(header_pairs(headers@) =~= self@.shared_headers());
                let ghost prev = header_pairs(headers@);
                headers.push(("mcp-session-id".to_owned(), id.clone()));
                assert(header_pairs(headers@) =~= prev.push(("mcp-session-id"@, id@)));
                Some((id, headers))
            },
            None => None,
        }
    }
}

/// Read a response in plain JSON.
pub fn read_json_response(body: &str) -> (r: Result<Json, String>)
    ensures
        reading(r) == json_outcome(body@),
{
    match read_json(body) {
        Ok(v) => read_response(&v),
        Err(e) => {
            let mut s = "response JSON parse: ".to_owned();
            s.append(e.as_str());
            s.append(" (body: ");
            s.append(truncate(body, 200).as_str());
            s.append(")");
            Err(s)
        },
    }
}

/// The error of a request that took too long.
pub fn timeout_error(what: &str, secs: u64) -> (r: String)
    ensures
        r@ == what@ + " timeout after "@ + decimal(secs as nat) + "s"@,
{
    let mut s = what.to_owned();
    s.append(" timeout after ");
    s.append(decimal_text(secs).as_str());
    s.append("s");
    s
}

// ---- one request from start to end ---------------------------------------

/// Where a request stands.
#[derive(Clone, Copy, Debug, PartialEq, Eq, Structural)]
pub enum FlowStage {
    /// It was sent for the first time.
    First,
    /// The server had forgotten the session, and a new handshake was opened.
    Handshaking,
    /// The end of the new handshake was announced.
    Announcing,
    /// It was sent once more.
    Retrying,
}

/// What comes next.
#[derive(Debug, PartialEq, Eq)]
pub enum FlowAction {
    /// Open a new handshake.
    Handshake,
    /// Announce the end of the handshake.
    Announce,
    /// Send the request once more.
    Resend,
    /// The request is answered.
    Finish(Result<Json, String>),
}

pub enum FlowModel {
    Handshake,
    Announce,
    Resend,
    Finish(Result<Doc, Seq<char>>),
}

impl View for FlowAction {
    type V = FlowModel;

    open spec fn view(&self) -> FlowModel {
        match self {
            FlowAction::Handshake => FlowModel::Handshake,
            FlowAction::Announce => FlowModel::Announce,
            FlowAction::Resend => FlowModel::Resend,
            FlowAction::Finish(r) => FlowModel::Finish(reading(*r)),
        }
    }
}

/// The model of what came of one exchange.
pub open spec fn exchange(r: Result<Json, ReqErr>) -> Result<Doc, ReqErrModel> {
    match r {
        Ok(v) => Ok(v@),
        Err(e) => Err(e@),
    }
}

/// The reason of a failure in words.
pub open spec fn failure_words(e: ReqErrModel) -> Seq<char> {
    match e {
        ReqErrModel::SessionInvalid => "upstream session invalid"@,
        ReqErrModel::Other(s) => s,
    }
}

/// What comes next, and where the request stands then. A request whose session is
/// gone is sent once more after a new handshake, unless another request has made
/// one meanwhile; it is never sent a third time, and a handshake is not retried.
pub open spec fn flow(
    stage: FlowStage,
    method: Seq<char>,
    has_session: bool,
    result: Result<Doc, ReqErrModel>,
) -> (FlowStage, FlowModel) {
    match (stage, result) {
        (FlowStage::First, Err(ReqErrModel::SessionInvalid)) => if method == "initialize"@ {
            (stage, FlowModel::Finish(Err(failure_words(ReqErrModel::SessionInvalid))))
        } else if has_session {
            (FlowStage::Retrying, FlowModel::Resend)
        } else {
            (FlowStage::Handshaking, FlowModel::Handshake)
        },
        (FlowStage::Handshaking, Ok(_)) => (FlowStage::Announcing, FlowModel::Announce),
        (FlowStage::Announcing, Ok(_)) => (FlowStage::Retrying, FlowModel::Resend),
        (_, Ok(v)) => (stage, FlowModel::Finish(Ok(v))),
        (_, Err(e)) => (stage, FlowModel::Finish(Err(failure_words(e)))),
    }
}

/// One request from start to end.
#[derive(Debug, PartialEq, Eq)]
pub struct RequestFlow {
    pub stage: FlowStage,
    pub method: String,
}

impl RequestFlow {
    pub fn new(method: &str) -> (r: Self)
        ensures
            r.stage is First,
            r.method@ == method@,
    {
        RequestFlow { stage: FlowStage::First, method: method.to_owned() }
    }

    /// Take what came of the last exchange. `has_session` says whether the
    /// connection has a session now.
    pub fn on_result(&mut self, has_session: bool, result: Result<Json, ReqErr>) -> (r: FlowAction)
        ensures
            (final(self).stage, r@) == flow(old(self).stage, old(self).method@, has_session, exchange(result)),
            final(self).method@ == old(self).method@,
    {
        match self.stage {
            FlowStage::First => match result {
                Ok(v) => FlowAction::Finish(Ok(v)),
                Err(e) => {
                    if !HttpClient::recovers(self.method.as_str(), &e) {
                        FlowAction::Finish(Err(e.message()))
                    } else if has_session {
                        self.stage = FlowStage::Retrying;
                        FlowAction::Resend
                    } else {
                        self.stage = FlowStage::Handshaking;
                        FlowAction::Handshake
                    }
                },
            },
            FlowStage::Handshaking => match result {
                Ok(_) => {
                    self.stage = FlowStage::Announcing;
                    FlowAction::Announce
                },
                Err(e) => FlowAction::Finish(Err(e.message())),
            },
            FlowStage::Announcing => match result {
                Ok(_) => {
                    self.stage = FlowStage::Retrying;
                    FlowAction::Resend
                },
                Err(e) => FlowAction::Finish(Err(e.message())),
            },
            FlowStage::Retrying => match result {
                Ok(v) => FlowAction::Finish(Ok(v)),
                Err(e) => FlowAction::Finish(Err(e.message())),
            },
        }
    }
}

/// How many exchanges a request may still need.
pub open spec fn exchanges_left(stage: FlowStage) -> nat {
    match stage {
        FlowStage::First => 4,
        FlowStage::Handshaking => 3,
        FlowStage::Announcing => 2,
        FlowStage::Retrying => 1,
    }
}

/// A request always comes to an end: after at most three more exchanges than the
/// first, and once it was sent again it is answered, whatever comes back.
pub proof fn request_comes_to_an_end(
    stage: FlowStage,
    method: Seq<char>,
    has_session: bool,
    result: Result<Doc, ReqErrModel>,
)
    ensures
        flow(stage, method, has_session, result).1 is Finish || exchanges_left(
            flow(stage, method, has_session, result).0,
        ) < exchanges_left(stage),
        stage is Retrying ==> flow(stage, method, has_session, result).1 is Finish,
{
}

/// No header that HTTP does not allow is ever sent, and each of the jack's own
/// headers that is sent is one that was configured.
pub proof fn only_valid_own_headers(pairs: Seq<(Seq<char>, Seq<char>)>, i: int)
    requires
        0 <= i < sendable(pairs).len(),
    ensures
        header_name_ok(sendable(pairs)[i].0),
        header_value_ok(sendable(pairs)[i].1),
        pairs.contains(sendable(pairs)[i]),
{
    let pred = |e: (Seq<char>, Seq<char>)| header_name_ok(e.0) && header_value_ok(e.1);
    let kept = pairs.filter(pred);
    pairs.lemma_filter_pred(pred, i);
    assert(kept.contains(kept[i]));
    pairs.lemma_filter_contains_rev(pred, kept[i]);
}

} // verus!
