//! A local MCP server over its standard input and output: the command that
//! starts it, the lines that are written to it, and what its lines mean.

use vstd::prelude::*;
#[allow(unused_imports)]
use vstd::string::*;

use super::wire::{
    as_id, id_after, notification_doc, notification_json, request_doc, request_json, shutdown_reason, shutdown_words,
    take_id,
};
use crate::config::validate::byte_len;
use crate::json::{json_read, json_written, read_json, write_json, Doc, Json};
use crate::name_map::{replicas, view_opt, Replica};
use crate::text::{
    chars_of, contains_text, ends_with_text, holds, join_texts, joined, lower_text, lowered, occurs_at, same_text,
    slice_chars, text_of, texts, trimmed_end,
};

verus! {

/// A line longer than this many bytes ends the connection.
pub const MAX_LINE_BYTES: usize = 10_485_760;

// ---- starting ------------------------------------------------------------

/// A program and its arguments.
#[derive(Debug, PartialEq, Eq)]
pub struct SpawnCommand {
    pub program: String,
    pub args: Vec<String>,
}

pub struct SpawnModel {
    pub program: Seq<char>,
    pub args: Seq<Seq<char>>,
}

impl View for SpawnCommand {
    type V = SpawnModel;

    open spec fn view(&self) -> SpawnModel {
        SpawnModel { program: self.program@, args: texts(self.args@) }
    }
}

/// Whether a command is a bare name: no path in it, and no `.exe` at its end.
pub open spec fn is_bare(command: Seq<char>) -> bool {
    &&& !holds(command, "/"@)
    &&& !holds(command, "\\"@)
    &&& !occurs_at(lowered(command), ".exe"@, lowered(command).len() - ".exe"@.len())
}

/// What is run for a command. On Windows a bare name goes through the command
/// interpreter, which finds launchers that are scripts.
pub open spec fn spawn_model(command: Seq<char>, args: Seq<Seq<char>>, windows: bool) -> SpawnModel {
    if windows && is_bare(command) {
        SpawnModel { program: "cmd"@, args: seq!["/C"@, command] + args }
    } else {
        SpawnModel { program: command, args }
    }
}

/// What is run for a command.
pub fn spawn_command(command: &str, args: &Vec<String>, windows: bool) -> (r: SpawnCommand)
    ensures
        r@ == spawn_model(command@, texts(args@), windows),
{
    let lower = lower_text(command);
    let bare = !contains_text(command, "/") && !contains_text(command, "\\") && !ends_with_text(
        lower.as_str(),
        ".exe",
    );
    if windows && bare {
        let mut all: Vec<String> = Vec::new();
        all.push("/C".to_owned());
        all.push(command.to_owned());
        let mut rest = replicas(args);
        let ghost tail = texts(rest@);
        all.append(&mut rest);
        assert(texts(all@) =~= seq!["/C"@, command@] + tail);
        SpawnCommand { program: "cmd".to_owned(), args: all }
    } else {
        SpawnCommand { program: command.to_owned(), args: replicas(args) }
    }
}

/// The error of a command that could not be run.
pub fn spawn_error(command: &str, args: &Vec<String>, why: &str) -> (r: String)
    ensures
        r@ == "spawn '"@ + command@ + " "@ + joined(texts(args@), " "@) + "': "@ + why@,
{
    let mut s = "spawn '".to_owned();
    s.append(command);
    s.append(" ");
    s.append(join_texts(args, " ").as_str());
    s.append("': ");
    s.append(why);
    s
}

// ---- what a line means ---------------------------------------------------

/// Whether a character ends a line.
pub open spec fn is_eol(c: char) -> bool {
    c == '\r' || c == '\n'
}

/// A line without its end.
pub open spec fn bare_line(line: Seq<char>) -> Seq<char> {
    trimmed_end(line, |c: char| is_eol(c))
}

/// A line without its end.
pub fn trim_line(line: &str) -> (r: String)
    ensures
        r@ == bare_line(line@),
{
    let v = chars_of(line);
    let ghost eol = |c: char| is_eol(c);
    let mut n: usize = v.len();
    assert(line@.subrange(0, n as int) =~= line@);
    while n > 0 && (v[n - 1] == '\r' || v[n - 1] == '\n')
        invariant
            n <= v.len(),
            v@ == line@,
            eol == (|c: char| is_eol(c)),
            trimmed_end(line@, eol) == trimmed_end(line@.subrange(0, n as int), eol),
        decreases n,
    {
        assert(line@.subrange(0, n as int).drop_last() =~= line@.subrange(0, n - 1));
        n = n - 1;
    }
    text_of(&slice_chars(&v, 0, n))
}

/// The line of the log for a line that the server wrote as an error; none for an
/// empty one.
pub fn error_line(name: &str, line: &str) -> (r: Option<String>)
    ensures
        view_opt(r) == (if bare_line(line@).len() == 0 {
            None
        } else {
            Some("[jack:"@ + name@ + "] "@ + bare_line(line@))
        }),
{
    let t = trim_line(line);
    if t.as_str().is_empty() {
        return None;
    }
    let mut s = "[jack:".to_owned();
    s.append(name);
    s.append("] ");
    s.append(t.as_str());
    Some(s)
}

/// The line of the log for a line of the server's output that is no JSON.
pub open spec fn stray_words(name: Seq<char>, line: Seq<char>) -> Option<Seq<char>> {
    if byte_len(line) > 10_485_760 || bare_line(line).len() == 0 {
        None
    } else {
        match json_read(bare_line(line)) {
            Ok(_) => None,
            Err(why) => Some(
                "[jack:"@ + name + "] non-JSON stdout line ("@ + why + "): "@ + bare_line(line),
            ),
        }
    }
}

/// The line of the log for a line of the server's output that is no JSON; none for
/// one that is JSON, that is empty or that ends the connection.
pub fn stray_line(name: &str, line: &str) -> (r: Option<String>)
    ensures
        view_opt(r) == stray_words(name@, line@),
{
    if line.as_bytes().len() > MAX_LINE_BYTES {
        return None;
    }
    let t = trim_line(line);
    if t.as_str().is_empty() {
        return None;
    }
    match read_json(t.as_str()) {
        Ok(_) => None,
        Err(why) => {
            let mut s = "[jack:".to_owned();
            s.append(name);
            s.append("] non-JSON stdout line (");
            s.append(why.as_str());
            s.append("): ");
            s.append(t.as_str());
            Some(s)
        },
    }
}

/// What a message from the server is.
pub enum MessageModel {
    /// The response to a request.
    Response { id: int },
    /// A request of the server's own, which is answered at once.
    Request { reply: Doc },
    /// The tool list changed.
    ToolsChanged,
    /// Nothing of interest.
    Nothing,
}

/// The reply to a request of the server's own: it may ask whether anybody is
/// there, and nothing else.
pub open spec fn reply_doc(message: Doc) -> Doc {
    let id = match message.member("id"@) {
        Some(i) => i,
        None => Doc::Null,
    };
    let head = Doc::empty().with("jsonrpc"@, Doc::Text("2.0"@)).with("id"@, id);
    if message.text_member("method"@) == Some("ping"@) {
        head.with("result"@, Doc::empty())
    } else {
        head.with(
            "error"@,
            Doc::empty().with("code"@, Doc::Whole(-32601)).with("message"@, Doc::Text("method not found"@)),
        )
    }
}

/// What a message from the server is. A response has a result or an error, and
/// no method; only a whole number names one of our requests. With a method and
/// an id it is a request, and with a method alone a notification.
pub open spec fn message_kind(v: Doc) -> MessageModel {
    let is_response = v.member("result"@) is Some || v.member("error"@) is Some;
    let has_method = v.member("method"@) is Some;
    let has_id = v.member("id"@) is Some && !(v.member("id"@)->0 is Null);
    if is_response && !has_method {
        match v.member("id"@) {
            Some(i) => match as_id(i) {
                Some(id) => MessageModel::Response { id },
                None => MessageModel::Nothing,
            },
            None => MessageModel::Nothing,
        }
    } else if has_method && has_id {
        MessageModel::Request { reply: reply_doc(v) }
    } else if v.text_member("method"@) == Some("notifications/tools/list_changed"@) {
        MessageModel::ToolsChanged
    } else {
        MessageModel::Nothing
    }
}

/// What a message from the server is.
#[derive(Debug, PartialEq, Eq)]
pub enum MessageKind {
    Response { id: i64 },
    Request { reply: Json },
    ToolsChanged,
    Nothing,
}

impl View for MessageKind {
    type V = MessageModel;

    open spec fn view(&self) -> MessageModel {
        match self {
            MessageKind::Response { id } => MessageModel::Response { id: *id as int },
            MessageKind::Request { reply } => MessageModel::Request { reply: reply@ },
            MessageKind::ToolsChanged => MessageModel::ToolsChanged,
            MessageKind::Nothing => MessageModel::Nothing,
        }
    }
}

fn reply_to(v: &Json) -> (r: Json)
    ensures
        r@ == reply_doc(v@),
{
    let id = match v.get("id") {
        Some(i) => i.replica(),
        None => Json::Null,
    };
    let head = Json::empty_object().with("jsonrpc", Json::from_text("2.0")).with("id", id);
    let ping = match v.text_member("method") {
        Some(m) => same_text(m.as_str(), "ping"),
        None => false,
    };
    if ping {
        head.with("result", Json::empty_object())
    } else {
        head.with(
            "error",
            Json::empty_object().with("code", Json::from_int(-32601)).with(
                "message",
                Json::from_text("method not found"),
            ),
        )
    }
}

/// What a message from the server is.
pub fn classify(v: &Json) -> (r: MessageKind)
    ensures
        r@ == message_kind(v@),
{
    let is_response = v.get("result").is_some() || v.get("error").is_some();
    let has_method = v.get("method").is_some();
    let has_id = match v.get("id") {
        Some(Json::Null) => false,
        Some(_) => true,
        None => false,
    };
    if is_response && !has_method {
        match v.get("id") {
            Some(i) => match i.as_id() {
                Some(id) => MessageKind::Response { id },
                None => MessageKind::Nothing,
            },
            None => MessageKind::Nothing,
        }
    } else if has_method && has_id {
        MessageKind::Request { reply: reply_to(v) }
    } else {
        let tools = match v.text_member("method") {
            Some(m) => same_text(m.as_str(), "notifications/tools/list_changed"),
            None => false,
        };
        if tools {
            MessageKind::ToolsChanged
        } else {
            MessageKind::Nothing
        }
    }
}

// ---- the client ----------------------------------------------------------

/// A connection to a local MCP server.
#[derive(Debug, PartialEq, Eq)]
pub struct StdioClient {
    /// The id of the next request.
    pub next_id: i64,
    /// The requests that wait for their responses.
    pub pending: Vec<i64>,
    /// Set when the connection is shut down.
    pub closed: bool,
}

/// The end of a connection: the requests that wait are told that they wait in
/// vain, and the supervisor that the server is gone.
#[derive(Debug, PartialEq, Eq)]
pub struct Ending {
    /// What the supervisor is told.
    pub reason: String,
    /// What every request that waits is told.
    pub told: String,
    /// The requests that wait.
    pub waiting: Vec<i64>,
}

pub struct EndingModel {
    pub reason: Seq<char>,
    pub told: Seq<char>,
    pub waiting: Seq<i64>,
}

impl View for Ending {
    type V = EndingModel;

    open spec fn view(&self) -> EndingModel {
        EndingModel { reason: self.reason@, told: self.told@, waiting: self.waiting@ }
    }
}

/// What is to be done about a line from the server.
#[derive(Debug, PartialEq, Eq)]
pub enum LineAction {
    Nothing,
    /// Hand the response to whoever waits for this request.
    Resolve { id: i64, response: Json },
    /// Write this line to the server.
    Reply(String),
    /// The tool list changed.
    ToolsChanged,
    /// The connection ends.
    Exit(Ending),
}

pub enum LineModel {
    Nothing,
    Resolve { id: i64, response: Doc },
    Reply(Seq<char>),
    ToolsChanged,
    Exit(EndingModel),
}

impl View for LineAction {
    type V = LineModel;

    open spec fn view(&self) -> LineModel {
        match self {
            LineAction::Nothing => LineModel::Nothing,
            LineAction::Resolve { id, response } => LineModel::Resolve { id: *id, response: response@ },
            LineAction::Reply(t) => LineModel::Reply(t@),
            LineAction::ToolsChanged => LineModel::ToolsChanged,
            LineAction::Exit(e) => LineModel::Exit(e@),
        }
    }
}

/// Every request but one.
pub open spec fn all_but(id: i64) -> spec_fn(i64) -> bool {
    |p: i64| p != id
}

/// The requests that still wait once the response to `id` came.
pub open spec fn still_waiting(pending: Seq<i64>, id: i64) -> Seq<i64> {
    pending.filter(all_but(id))
}

/// What is to be done about a message.
pub open spec fn message_action(pending: Seq<i64>, v: Doc) -> LineModel {
    match message_kind(v) {
        MessageModel::Response { id } => if pending.contains(id as i64) {
            LineModel::Resolve { id: id as i64, response: v }
        } else {
            LineModel::Nothing
        },
        MessageModel::Request { reply } => LineModel::Reply(json_written(reply)),
        MessageModel::ToolsChanged => LineModel::ToolsChanged,
        MessageModel::Nothing => LineModel::Nothing,
    }
}

/// What is to be done about a line.
pub open spec fn line_action(pending: Seq<i64>, line: Seq<char>) -> LineModel {
    if byte_len(line) > 10_485_760 {
        LineModel::Exit(
            EndingModel { reason: "line too long"@, told: "line too long"@, waiting: pending },
        )
    } else if bare_line(line).len() == 0 {
        LineModel::Nothing
    } else {
        match json_read(bare_line(line)) {
            Ok(v) => message_action(pending, v),
            Err(_) => LineModel::Nothing,
        }
    }
}

/// The requests that still wait after that.
pub open spec fn pending_after(pending: Seq<i64>, action: LineModel) -> Seq<i64> {
    match action {
        LineModel::Resolve { id, .. } => still_waiting(pending, id),
        LineModel::Exit(_) => Seq::empty(),
        _ => pending,
    }
}

fn has_id(list: &Vec<i64>, id: i64) -> (r: bool)
    ensures
        r == list@.contains(id),
{
    let mut i: usize = 0;
    while i < list.len()
        invariant
            i <= list.len(),
            forall|k: int| 0 <= k < i ==> list@[k] != id,
        decreases list.len() - i,
    {
        if list[i] == id {
            return true;
        }
        i = i + 1;
    }
    false
}

fn drop_id(list: &Vec<i64>, id: i64) -> (r: Vec<i64>)
    ensures
        r@ == still_waiting(list@, id),
{
    let ghost pred = all_but(id);
    let mut out: Vec<i64> = Vec::new();
    proof {
        crate::name_map::lemma_filter_none(list@, pred);
    }
    let mut i: usize = 0;
    while i < list.len()
        invariant
            i <= list.len(),
            pred == all_but(id),
            out@ == list@.subrange(0, i as int).filter(pred),
        decreases list.len() - i,
    {
        proof {
            crate::name_map::lemma_filter_step(list@, pred, i as int);
        }
        if list[i] != id {
            out.push(list[i]);
        }
        i = i + 1;
    }
    assert(list@.subrange(0, list@.len() as int) =~= list@);
    out
}

/// The error of a message to a connection that is closed.
pub open spec fn closed_words() -> Seq<char> {
    "stdin closed (upstream shut down)"@
}

/// The error of a message to a connection that is closed.
pub fn closed_error() -> (r: String)
    ensures
        r@ == closed_words(),
{
    "stdin closed (upstream shut down)".to_owned()
}

impl StdioClient {
    /// A connection that nothing was written to yet.
    pub fn new() -> (r: Self)
        ensures
            r.next_id == 1,
            r.pending@ == Seq::<i64>::empty(),
            !r.closed,
    {
        StdioClient { next_id: 1, pending: Vec::new(), closed: false }
    }

    /// A request: its id, and the line that is to be written. It waits for its
    /// response from now on, before the line is written, so that no response can
    /// come too early. Once the connection is closed nothing is written and nothing
    /// waits.
    pub fn request(&mut self, method: &str, params: Option<Json>) -> (r: Result<(i64, String), String>)
        ensures
            match r {
                Ok((id, line)) => {
                    &&& !old(self).closed
                    &&& id == old(self).next_id
                    &&& line@ == json_written(request_doc(id, method@, view_opt(params)))
                    &&& forall|i: int| 0 <= i < line@.len() ==> #[trigger] line@[i] != '\n'
                    &&& final(self).pending@ == old(self).pending@.push(id)
                },
                Err(e) => {
                    &&& old(self).closed
                    &&& e@ == closed_words()
                    &&& final(self).pending@ == old(self).pending@
                },
            },
            final(self).next_id == id_after(old(self).next_id),
            final(self).closed == old(self).closed,
            r matches Ok(sent) ==> exists|d: Doc|
                {
                    &&& sent.1@ == #[trigger] json_written(d)
                    &&& d.member("id"@) == Some(Doc::Whole(sent.0 as int))
                    &&& d.member("method"@) == Some(Doc::Text(method@))
                    &&& d.member("params"@) == view_opt(params)
                },
            r matches Ok(sent) ==> final(self).pending@.contains(sent.0),
            r is Ok <==> !old(self).closed,
            forall|id: i64| #[trigger] old(self).pending@.contains(id) ==> final(self).pending@.contains(id),
    {
        let id: i64 = take_id(&mut self.next_id);
        if self.closed {
            return Err(closed_error());
        }
        let ghost waiting = self.pending@;
        self.pending.push(id);
        proof {
            let now = waiting.push(id);
            super::laws::messages_carry_what_they_say(id, method@, view_opt(params));
            assert(now[now.len() - 1] == id);
            assert forall|x: i64| #[trigger] waiting.contains(x) implies now.contains(x) by {
                let k = choose|k: int| 0 <= k < waiting.len() && waiting[k] == x;
                assert(now[k] == x);
            }
        }
        Ok((id, write_json(&request_json(id, method, params))))
    }

    /// The line of a notification. Once the connection is closed there is none.
    pub fn notify(&self, method: &str, params: Option<Json>) -> (r: Result<String, String>)
        ensures
            match r {
                Ok(line) => {
                    &&& !self.closed
                    &&& line@ == json_written(notification_doc(method@, view_opt(params)))
                    &&& forall|i: int| 0 <= i < line@.len() ==> #[trigger] line@[i] != '\n'
                },
                Err(e) => self.closed && e@ == closed_words(),
            },
            r matches Ok(line) ==> exists|d: Doc|
                {
                    &&& line@ == #[trigger] json_written(d)
                    &&& d.member("id"@) is None
                    &&& d.member("method"@) == Some(Doc::Text(method@))
                    &&& d.member("params"@) == view_opt(params)
                },
            r is Ok <==> !self.closed,
    {
        proof {
            super::laws::messages_carry_what_they_say(0, method@, view_opt(params));
        }
        if self.closed {
            return Err(closed_error());
        }
        Ok(write_json(&notification_json(method, params)))
    }

    /// A request could not be written, or took too long: it waits no more.
    pub fn abandon(&mut self, id: i64)
        ensures
            final(self).pending@ == still_waiting(old(self).pending@, id),
            final(self).next_id == old(self).next_id,
            final(self).closed == old(self).closed,
            !final(self).pending@.contains(id),
            forall|other: i64| other != id ==> (#[trigger] final(self).pending@.contains(other) == old(self).pending@.contains(other)),
    {
        proof {
            assert forall|x: i64| #[trigger] still_waiting(self.pending@, id).contains(x) == (self.pending@.contains(x) && x != id) by {
                crate::name_map::lemma_filter_holds(self.pending@, all_but(id), x);
            }
        }
        let rest = drop_id(&self.pending, id);
        self.pending = rest;
    }

    /// Nobody waits any more: who did is told so.
    fn end(&mut self, reason: String, told: String) -> (r: Ending)
        ensures
            r@ == (EndingModel { reason: reason@, told: told@, waiting: old(self).pending@ }),
            final(self).pending@ == Seq::<i64>::empty(),
            final(self).next_id == old(self).next_id,
            final(self).closed == old(self).closed,
    {
        let mut waiting: Vec<i64> = Vec::new();
        core::mem::swap(&mut waiting, &mut self.pending);
        Ending { reason, told, waiting }
    }

    /// Take a message from the server.
    pub fn on_message(&mut self, v: Json) -> (r: LineAction)
        ensures
            r@ == message_action(old(self).pending@, v@),
            final(self).pending@ == pending_after(old(self).pending@, r@),
            final(self).next_id == old(self).next_id,
            final(self).closed == old(self).closed,
    {
        match classify(&v) {
            MessageKind::Response { id } => {
                if has_id(&self.pending, id) {
                    self.abandon(id);
                    LineAction::Resolve { id, response: v }
                } else {
                    LineAction::Nothing
                }
            },
            MessageKind::Request { reply } => LineAction::Reply(write_json(&reply)),
            MessageKind::ToolsChanged => LineAction::ToolsChanged,
            MessageKind::Nothing => LineAction::Nothing,
        }
    }

    /// Take a line from the server.
    pub fn on_line(&mut self, line: &str) -> (r: LineAction)
        ensures
            r@ == line_action(old(self).pending@, line@),
            final(self).pending@ == pending_after(old(self).pending@, r@),
            final(self).next_id == old(self).next_id,
            final(self).closed == old(self).closed,
            r@ matches LineModel::Resolve { id, .. } ==> !final(self).pending@.contains(id) && old(self).pending@.contains(id),
            !(r@ is Resolve) && !(r@ is Exit) ==> final(self).pending@ == old(self).pending@,
    {
        proof {
            assert forall|x: i64, y: i64| #[trigger] still_waiting(self.pending@, x).contains(y) == (self.pending@.contains(y) && y != x) by {
                crate::name_map::lemma_filter_holds(self.pending@, all_but(x), y);
            }
        }
        if line.as_bytes().len() > MAX_LINE_BYTES {
            return LineAction::Exit(self.end("line too long".to_owned(), "line too long".to_owned()));
        }
        let t = trim_line(line);
        if t.as_str().is_empty() {
            return LineAction::Nothing;
        }
        match read_json(t.as_str()) {
            Ok(v) => self.on_message(v),
            Err(_) => LineAction::Nothing,
        }
    }

    /// The server closed its output.
    pub fn on_eof(&mut self) -> (r: Ending)
        ensures
            r@ == (EndingModel {
                reason: "stdout closed"@,
                told: "upstream exited"@,
                waiting: old(self).pending@,
            }),
            final(self).pending@ == Seq::<i64>::empty(),
            final(self).next_id == old(self).next_id,
            final(self).closed == old(self).closed,
    {
        self.end("stdout closed".to_owned(), "upstream exited".to_owned())
    }

    /// The server's output could not be read.
    pub fn on_read_error(&mut self, why: &str) -> (r: Ending)
        ensures
            r@ == (EndingModel {
                reason: "read error: "@ + why@,
                told: "read error: "@ + why@,
                waiting: old(self).pending@,
            }),
            final(self).pending@ == Seq::<i64>::empty(),
            final(self).next_id == old(self).next_id,
            final(self).closed == old(self).closed,
    {
        let mut s = "read error: ".to_owned();
        s.append(why);
        let told = s.clone();
        self.end(s, told)
    }

    /// Close the connection: nothing is written any more, and who waits may still
    /// get a response.
    pub fn close(&mut self)
        ensures
            final(self).closed,
            final(self).pending@ == old(self).pending@,
            final(self).next_id == old(self).next_id,
    {
        self.closed = true;
    }

    /// Shut the connection down.
    pub fn shutdown(&mut self) -> (r: Ending)
        ensures
            r@ == (EndingModel {
                reason: shutdown_words(),
                told: shutdown_words(),
                waiting: old(self).pending@,
            }),
            final(self).pending@ == Seq::<i64>::empty(),
            final(self).closed,
            final(self).next_id == old(self).next_id,
    {
        self.closed = true;
        self.end(shutdown_reason(), shutdown_reason())
    }
}

/// What the server asks of its own accord never answers a request of ours,
/// whatever id it carries.
pub proof fn server_requests_resolve_nothing(pending: Seq<i64>, v: Doc)
    requires
        v.member("method"@) is Some,
    ensures
        !(message_action(pending, v) is Resolve),
        pending_after(pending, message_action(pending, v)) == pending,
{
}

/// A response is handed out once, to the request that it names: afterwards that
/// request waits no more, and all others wait as before.
pub proof fn response_is_handed_out_once(pending: Seq<i64>, v: Doc, other: i64)
    requires
        message_action(pending, v) is Resolve,
    ensures
        ({
            let id = message_action(pending, v)->id;
            let after = pending_after(pending, message_action(pending, v));
            &&& pending.contains(id)
            &&& !after.contains(id)
            &&& other != id ==> after.contains(other) == pending.contains(other)
            &&& message_action(after, v) is Nothing
        }),
{
    let id = message_action(pending, v)->id;
    let pred = all_but(id);
    crate::name_map::lemma_filter_holds(pending, pred, id);
    crate::name_map::lemma_filter_holds(pending, pred, other);
}

} // verus!
