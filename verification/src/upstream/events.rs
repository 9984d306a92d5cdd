//! Server-sent events as they come from an upstream server: cutting the stream
//! into events, and finding the one that answers a request.

use vstd::prelude::*;
use vstd::slice::{slice_subrange, slice_to_vec};
#[allow(unused_imports)]
use vstd::string::*;

use super::http::{cut, truncate};
use super::wire::as_id;
use crate::json::{json_read, read_json, Doc, Json};
use crate::name_map::{view_opt, views};
use crate::numerals::{decimal, decimal_text};
use crate::text::{
    chars_of, join_texts, joined, occurs_at, same_text, slice_chars, strip_prefix_text, text_of, texts,
};

verus! {

/// Bytes as text, with a replacement character for what is no UTF-8.
pub uninterp spec fn lossy_text(bytes: Seq<u8>) -> Seq<char>;

/// `String::from_utf8_lossy`. Bytes that are UTF-8 give the text they encode;
/// where replacement characters go otherwise is not stated.
#[verifier::external_body]
fn utf8_lossy(bytes: &Vec<u8>) -> (r: String)
    ensures
        r@ == lossy_text(bytes@),
        vstd::utf8::valid_utf8(bytes@) ==> r@ == vstd::utf8::decode_utf8(bytes@),
{
    String::from_utf8_lossy(bytes).into_owned()
}

/// Bytes as text: the text that they encode, and where they are no UTF-8 one with
/// replacement characters.
pub open spec fn read_text(bytes: Seq<u8>) -> Seq<char> {
    if vstd::utf8::valid_utf8(bytes) {
        vstd::utf8::decode_utf8(bytes)
    } else {
        lossy_text(bytes)
    }
}

/// The first position of a line feed; the length where there is none.
pub open spec fn line_end(s: Seq<char>) -> int
    decreases s.len(),
{
    if s.len() == 0 || s[0] == '\n' {
        0
    } else {
        1 + line_end(s.drop_first())
    }
}

proof fn lemma_line_end(s: Seq<char>)
    ensures
        0 <= line_end(s) <= s.len(),
        line_end(s) < s.len() ==> s[line_end(s)] == '\n',
        forall|k: int| 0 <= k < line_end(s) ==> s[k] != '\n',
    decreases s.len(),
{
    if s.len() > 0 && s[0] != '\n' {
        let t = s.drop_first();
        lemma_line_end(t);
        assert forall|k: int| 0 <= k < line_end(s) implies s[k] != '\n' by {
            if k > 0 {
                assert(t[k - 1] == s[k]);
            }
        }
    }
}

pub(crate) proof fn lemma_is_line_end(s: Seq<char>, i: int)
    requires
        0 <= i <= s.len(),
        i < s.len() ==> s[i] == '\n',
        forall|k: int| 0 <= k < i ==> s[k] != '\n',
    ensures
        line_end(s) == i,
{
    lemma_line_end(s);
}

/// A line without the carriage return at its end.
pub open spec fn without_cr(line: Seq<char>) -> Seq<char> {
    if line.len() > 0 && line.last() == '\r' {
        line.drop_last()
    } else {
        line
    }
}

/// The lines of a text. A line ends at a line feed, or at a carriage return and
/// a line feed; the last line needs no end.
pub open spec fn lines_of(s: Seq<char>) -> Seq<Seq<char>>
    decreases s.len(),
{
    if s.len() == 0 {
        Seq::empty()
    } else if line_end(s) < s.len() && line_end(s) >= 0 {
        seq![without_cr(s.subrange(0, line_end(s)))] + lines_of(s.subrange(line_end(s) + 1, s.len() as int))
    } else {
        seq![s]
    }
}

/// The lines of a text.
fn split_lines(s: &str) -> (r: Vec<String>)
    ensures
        texts(r@) == lines_of(s@),
{
    let v = chars_of(s);
    let n: usize = v.len();
    let mut out: Vec<String> = Vec::new();
    let mut start: usize = 0;
    assert(texts(out@) =~= Seq::<Seq<char>>::empty());
    assert(s@.subrange(0, n as int) =~= s@);
    assert(Seq::<Seq<char>>::empty() + lines_of(s@) =~= lines_of(s@));
    while start < n
        invariant
            start <= n,
            n == v.len(),
            v@ == s@,
            lines_of(s@) == texts(out@) + lines_of(s@.subrange(start as int, n as int)),
        decreases n - start,
    {
        let ghost rest = s@.subrange(start as int, n as int);
        let ghost prev = texts(out@);
        let mut end: usize = start;
        while end < n && v[end] != '\n'
            invariant
                start <= end <= n,
                n == v.len(),
                v@ == s@,
                forall|k: int| start <= k < end ==> s@[k] != '\n',
            decreases n - end,
        {
            end = end + 1;
        }
        proof {
            lemma_is_line_end(rest, end - start);
        }
        if end < n {
            let mut stop: usize = end;
            if stop > start && v[stop - 1] == '\r' {
                stop = stop - 1;
            }
            let line = text_of(&slice_chars(&v, start, stop));
            assert(rest.subrange(0, end - start) =~= s@.subrange(start as int, end as int));
            assert(line@ =~= without_cr(rest.subrange(0, end - start)));
            out.push(line);
            assert(texts(out@) =~= prev.push(line@));
            let ghost tail = s@.subrange(end + 1, n as int);
            assert(rest.subrange(end - start + 1, rest.len() as int) =~= tail);
            assert(prev + (seq![line@] + lines_of(tail)) =~= prev.push(line@) + lines_of(tail));
            start = end + 1;
        } else {
            let line = text_of(&slice_chars(&v, start, n));
            out.push(line);
            assert(texts(out@) =~= prev.push(line@));
            assert(s@.subrange(n as int, n as int) =~= Seq::<char>::empty());
            assert(prev + seq![rest] =~= prev.push(rest) + lines_of(Seq::<char>::empty()));
            start = n;
        }
    }
    assert(s@.subrange(n as int, n as int) =~= Seq::<char>::empty());
    assert(texts(out@) + lines_of(Seq::<char>::empty()) =~= texts(out@));
    out
}

/// What a line adds to the data of its event: what follows `data:`, without one
/// leading space.
pub open spec fn line_data(line: Seq<char>) -> Option<Seq<char>> {
    if occurs_at(line, "data:"@, 0) {
        let rest = line.subrange("data:"@.len() as int, line.len() as int);
        if rest.len() > 0 && rest[0] == ' ' {
            Some(rest.drop_first())
        } else {
            Some(rest)
        }
    } else {
        None
    }
}

/// The data of the lines that have any.
pub open spec fn data_of(lines: Seq<Seq<char>>) -> Seq<Seq<char>>
    decreases lines.len(),
{
    if lines.len() == 0 {
        Seq::empty()
    } else {
        match line_data(lines.last()) {
            Some(d) => data_of(lines.drop_last()).push(d),
            None => data_of(lines.drop_last()),
        }
    }
}

/// The data of an event: that of its lines, one under the other.
pub open spec fn event_data(event: Seq<char>) -> Option<Seq<char>> {
    let parts = data_of(lines_of(event));
    if parts.len() == 0 {
        None
    } else {
        Some(joined(parts, "\n"@))
    }
}

fn data_in_line(line: &str) -> (r: Option<String>)
    ensures
        view_opt(r) == line_data(line@),
{
    match strip_prefix_text(line, "data:") {
        Some(rest) => {
            assert(line@.subrange("data:"@.len() as int, line@.len() as int) =~= rest@);
            let v = chars_of(rest.as_str());
            if v.len() > 0 && v[0] == ' ' {
                let t = text_of(&slice_chars(&v, 1, v.len()));
                assert(t@ =~= rest@.drop_first());
                Some(t)
            } else {
                Some(rest)
            }
        },
        None => None,
    }
}

/// The data of an event; none where it has none.
pub fn parse_event_data(event: &str) -> (r: Option<String>)
    ensures
        view_opt(r) == event_data(event@),
{
    let lines = split_lines(event);
    let ghost all = lines_of(event@);
    let mut parts: Vec<String> = Vec::new();
    assert(all.subrange(0, 0) =~= Seq::<Seq<char>>::empty());
    assert(texts(parts@) =~= Seq::<Seq<char>>::empty());
    let mut i: usize = 0;
    while i < lines.len()
        invariant
            i <= lines.len(),
            texts(lines@) == all,
            texts(parts@) == data_of(all.subrange(0, i as int)),
        decreases lines.len() - i,
    {
        let ghost prev = texts(parts@);
        let ghost step = all.subrange(0, i + 1);
        assert(step.drop_last() =~= all.subrange(0, i as int));
        assert(step.last() == lines@[i as int]@);
        if let Some(d) = data_in_line(lines[i].as_str()) {
            parts.push(d);
            assert(texts(parts@) =~= prev.push(d@));
        }
        i = i + 1;
    }
    assert(all.subrange(0, all.len() as int) =~= all);
    assert(texts(parts@).len() == parts@.len());
    if parts.len() == 0 {
        None
    } else {
        Some(join_texts(&parts, "\n"))
    }
}

/// What an event means to one that waits for the answer to a request.
pub enum EventModel {
    /// The answer.
    Answer(Doc),
    /// The server changed its tool list.
    ToolsChanged,
    /// Nothing.
    Nothing,
}

/// What an event means to one that waits for the answer to a request.
#[derive(Debug, PartialEq, Eq)]
pub enum EventMeaning {
    Answer(Json),
    ToolsChanged,
    Nothing,
}

impl View for EventMeaning {
    type V = EventModel;

    open spec fn view(&self) -> EventModel {
        match self {
            EventMeaning::Answer(j) => EventModel::Answer(j@),
            EventMeaning::ToolsChanged => EventModel::ToolsChanged,
            EventMeaning::Nothing => EventModel::Nothing,
        }
    }
}

/// An id as text.
pub open spec fn id_text(id: i64) -> Seq<char> {
    if id >= 0 {
        decimal(id as nat)
    } else {
        "-"@ + decimal((-id) as nat)
    }
}

fn id_string(id: i64) -> (r: String)
    ensures
        r@ == id_text(id),
{
    if id >= 0 {
        decimal_text(id as u64)
    } else if id == i64::MIN {
        let mut s = "-".to_owned();
        s.append(decimal_text(0x8000_0000_0000_0000).as_str());
        s
    } else {
        let mut s = "-".to_owned();
        s.append(decimal_text((-id) as u64).as_str());
        s
    }
}

/// Whether a message answers the request `id`, which some servers repeat as a
/// text.
pub open spec fn answers(message: Doc, id: i64) -> bool {
    match message.member("id"@) {
        Some(i) => as_id(i) == Some(id as int) || i.text() == Some(id_text(id)),
        None => false,
    }
}

/// Whether a message announces a change of the tool list.
pub open spec fn announces_tools(message: Doc) -> bool {
    message.text_member("method"@) == Some("notifications/tools/list_changed"@)
}

/// What an event means to one that waits for the answer to the request `id`.
pub open spec fn event_meaning(event: Seq<char>, id: i64) -> EventModel {
    match event_data(event) {
        None => EventModel::Nothing,
        Some(data) => match json_read(data) {
            Err(_) => EventModel::Nothing,
            Ok(v) => message_meaning(v, id),
        },
    }
}

/// The same for a message that was read already.
pub open spec fn message_meaning(v: Doc, id: i64) -> EventModel {
    if answers(v, id) {
        EventModel::Answer(v)
    } else if announces_tools(v) {
        EventModel::ToolsChanged
    } else {
        EventModel::Nothing
    }
}

/// The data of an event that is no JSON, and the reason.
pub struct SkippedModel {
    pub why: Seq<char>,
    pub data: Seq<char>,
}

/// The data of an event that is no JSON, and the reason.
#[derive(Debug, PartialEq, Eq)]
pub struct SkippedData {
    pub why: String,
    pub data: String,
}

impl View for SkippedData {
    type V = SkippedModel;

    open spec fn view(&self) -> SkippedModel {
        SkippedModel { why: self.why@, data: self.data@ }
    }
}

impl SkippedData {
    /// The line of the log for it, at the jack `name`.
    pub fn line(&self, name: &str) -> (r: String)
        ensures
            r@ == "[jack:"@ + name@ + "] non-JSON SSE data line ("@ + self@.why + "): "@ + cut(self@.data, 200),
    {
        let mut s = "[jack:".to_owned();
        s.append(name);
        s.append("] non-JSON SSE data line (");
        s.append(self.why.as_str());
        s.append("): ");
        s.append(truncate(self.data.as_str(), 200).as_str());
        s
    }
}

/// The data of an event, where it is no JSON.
pub open spec fn event_skipped(event: Seq<char>) -> Option<SkippedModel> {
    match event_data(event) {
        None => None,
        Some(data) => match json_read(data) {
            Err(why) => Some(SkippedModel { why, data }),
            Ok(_) => None,
        },
    }
}

/// What a message means to one that waits for the answer to the request `id`.
pub fn classify_message(v: Json, id: i64) -> (r: EventMeaning)
    ensures
        r@ == message_meaning(v@, id),
{
    let hit = match v.get("id") {
        Some(i) => {
            let by_number = match i.as_id() {
                Some(n) => n == id,
                None => false,
            };
            by_number || match i.as_text() {
                Some(t) => same_text(t.as_str(), id_string(id).as_str()),
                None => false,
            }
        },
        None => false,
    };
    if hit {
        return EventMeaning::Answer(v);
    }
    let tools = match v.text_member("method") {
        Some(m) => same_text(m.as_str(), "notifications/tools/list_changed"),
        None => false,
    };
    if tools {
        EventMeaning::ToolsChanged
    } else {
        EventMeaning::Nothing
    }
}

/// What an event means to one that waits for the answer to the request `id`, and
/// its data where it is no JSON.
fn read_event(event: &str, id: i64) -> (r: (EventMeaning, Option<SkippedData>))
    ensures
        r.0@ == event_meaning(event@, id),
        view_opt(r.1) == event_skipped(event@),
{
    match parse_event_data(event) {
        None => (EventMeaning::Nothing, None),
        Some(data) => match read_json(data.as_str()) {
            Ok(v) => (classify_message(v, id), None),
            Err(why) => (EventMeaning::Nothing, Some(SkippedData { why, data })),
        },
    }
}

/// What an event means to one that waits for the answer to the request `id`.
pub fn process_event(event: &str, id: i64) -> (r: EventMeaning)
    ensures
        r@ == event_meaning(event@, id),
{
    read_event(event, id).0
}

// ---- cutting the stream --------------------------------------------------

/// A text with a line feed for every carriage return and line feed.
pub open spec fn lf_only(s: Seq<char>) -> Seq<char>
    decreases s.len(),
{
    if s.len() == 0 {
        s
    } else if s.len() >= 2 && s[0] == '\r' && s[1] == '\n' {
        seq!['\n'] + lf_only(s.subrange(2, s.len() as int))
    } else {
        seq![s[0]] + lf_only(s.drop_first())
    }
}

fn to_lf(s: &str) -> (r: String)
    ensures
        r@ == lf_only(s@),
{
    let v = chars_of(s);
    let n: usize = v.len();
    let mut out = String::new();
    let mut i: usize = 0;
    assert(s@.subrange(0, n as int) =~= s@);
    assert(out@ + lf_only(s@) =~= lf_only(s@));
    while i < n
        invariant
            i <= n,
            n == v.len(),
            v@ == s@,
            lf_only(s@) == out@ + lf_only(s@.subrange(i as int, n as int)),
        decreases n - i,
    {
        let ghost rest = s@.subrange(i as int, n as int);
        let ghost prev = out@;
        if n - i >= 2 && v[i] == '\r' && v[i + 1] == '\n' {
            assert(rest.subrange(2, rest.len() as int) =~= s@.subrange(i + 2, n as int));
            out.push('\n');
            assert(prev + (seq!['\n'] + lf_only(s@.subrange(i + 2, n as int))) =~= out@ + lf_only(
                s@.subrange(i + 2, n as int),
            ));
            i = i + 2;
        } else {
            assert(rest.drop_first() =~= s@.subrange(i + 1, n as int));
            out.push(v[i]);
            assert(prev + (seq![rest[0]] + lf_only(s@.subrange(i + 1, n as int))) =~= out@ + lf_only(
                s@.subrange(i + 1, n as int),
            ));
            i = i + 1;
        }
    }
    assert(s@.subrange(n as int, n as int) =~= Seq::<char>::empty());
    assert(out@ + Seq::<char>::empty() =~= out@);
    out
}

/// The text of an event. What ended its last line is not part of it.
pub open spec fn event_text(bytes: Seq<u8>) -> Seq<char> {
    lf_only(without_cr(read_text(bytes)))
}

fn event_string(bytes: &[u8]) -> (r: String)
    ensures
        r@ == event_text(bytes@),
{
    let text = utf8_lossy(&slice_to_vec(bytes));
    let v = chars_of(text.as_str());
    let mut n: usize = v.len();
    assert(text@.subrange(0, n as int) =~= text@);
    if n > 0 && v[n - 1] == '\r' {
        assert(text@.subrange(0, n - 1) =~= text@.drop_last());
        n = n - 1;
    }
    let line = text_of(&slice_chars(&v, 0, n));
    to_lf(line.as_str())
}

/// How many bytes end an event at position `i`: a line feed and, for the blank
/// line behind it, one more line end, which may have a carriage return. None end
/// it elsewhere.
pub open spec fn gap_at(s: Seq<u8>, i: int) -> int {
    if 0 <= i && i + 1 < s.len() && s[i] == 10 && s[i + 1] == 10 {
        2
    } else if 0 <= i && i + 2 < s.len() && s[i] == 10 && s[i + 1] == 13 && s[i + 2] == 10 {
        3
    } else {
        0
    }
}

/// The first position where an event ends; the length where none does.
pub open spec fn event_end(s: Seq<u8>) -> int
    decreases s.len(),
{
    if s.len() == 0 || gap_at(s, 0) > 0 {
        0
    } else {
        1 + event_end(s.drop_first())
    }
}

proof fn lemma_event_end(s: Seq<u8>)
    ensures
        0 <= event_end(s) <= s.len(),
        event_end(s) < s.len() ==> gap_at(s, event_end(s)) > 0,
        forall|k: int| 0 <= k < event_end(s) ==> #[trigger] gap_at(s, k) == 0,
    decreases s.len(),
{
    if s.len() > 0 && gap_at(s, 0) == 0 {
        let t = s.drop_first();
        lemma_event_end(t);
        assert(gap_at(t, event_end(t)) == gap_at(s, event_end(s)));
        assert forall|k: int| 0 <= k < event_end(s) implies #[trigger] gap_at(s, k) == 0 by {
            if k > 0 {
                assert(gap_at(t, k - 1) == gap_at(s, k));
            }
        }
    }
}

pub(crate) proof fn lemma_is_event_end(s: Seq<u8>, i: int)
    requires
        0 <= i <= s.len(),
        i < s.len() ==> gap_at(s, i) > 0,
        forall|k: int| 0 <= k < i ==> #[trigger] gap_at(s, k) == 0,
    ensures
        event_end(s) == i,
{
    lemma_event_end(s);
}

/// What came of reading on in a stream.
pub struct ScanModel {
    /// The answer, where it came.
    pub answer: Option<Doc>,
    /// How many announcements of a changed tool list came before it.
    pub changes: nat,
    /// What is not read yet.
    pub rest: Seq<u8>,
}

/// Read the complete events of a stream, one by one, up to the answer to the
/// request `id`.
pub open spec fn scanned(buf: Seq<u8>, id: i64) -> ScanModel
    decreases buf.len(),
{
    let end = event_end(buf);
    let gap = gap_at(buf, end);
    if gap > 0 {
        let rest = buf.subrange(end + gap, buf.len() as int);
        match event_meaning(event_text(buf.subrange(0, end)), id) {
            EventModel::Answer(v) => ScanModel { answer: Some(v), changes: 0, rest },
            EventModel::ToolsChanged => {
                let more = scanned(rest, id);
                ScanModel { changes: more.changes + 1, ..more }
            },
            EventModel::Nothing => scanned(rest, id),
        }
    } else {
        ScanModel { answer: None, changes: 0, rest: buf }
    }
}

/// The data of an event as a row: one entry where it is no JSON.
pub open spec fn skipped_row(event: Seq<char>) -> Seq<SkippedModel> {
    match event_skipped(event) {
        Some(d) => seq![d],
        None => Seq::empty(),
    }
}

/// The data that is no JSON among the events that are read, up to the answer to the
/// request `id`.
pub open spec fn skipped(buf: Seq<u8>, id: i64) -> Seq<SkippedModel>
    decreases buf.len(),
{
    let end = event_end(buf);
    let gap = gap_at(buf, end);
    if gap > 0 {
        let event = event_text(buf.subrange(0, end));
        if event_meaning(event, id) is Answer {
            Seq::empty()
        } else {
            skipped_row(event) + skipped(buf.subrange(end + gap, buf.len() as int), id)
        }
    } else {
        Seq::empty()
    }
}

/// A stream of events that is being read for the answer to one request.
#[derive(Debug, PartialEq, Eq)]
pub struct EventReader {
    pub want_id: i64,
    /// What is not read yet, as it came: a line end, or a character, may still be
    /// cut in two.
    pub buf: Vec<u8>,
}

/// What came of reading on.
#[derive(Debug, PartialEq, Eq)]
pub struct ReadProgress {
    pub answer: Option<Json>,
    /// How many announcements of a changed tool list came.
    pub changes: u64,
    /// What was skipped because it is no JSON.
    pub skipped: Vec<SkippedData>,
}

fn find_event_end(v: &[u8], from: usize) -> (r: Option<(usize, usize)>)
    requires
        from <= v@.len(),
    ensures
        ({
            let s = v@.subrange(from as int, v@.len() as int);
            match r {
                Some((end, next)) => {
                    &&& from <= end < next <= v@.len()
                    &&& event_end(s) == end - from
                    &&& gap_at(s, end - from) == next - end
                },
                None => event_end(s) == s.len(),
            }
        }),
{
    let n: usize = v.len();
    let ghost s = v@.subrange(from as int, n as int);
    let mut i: usize = from;
    while i < n
        invariant
            from <= i <= n,
            n == v.len(),
            s == v@.subrange(from as int, n as int),
            forall|k: int| 0 <= k < i - from ==> #[trigger] gap_at(s, k) == 0,
        decreases n - i,
    {
        let left: usize = n - i;
        let gap: usize = if left >= 2 && v[i] == 10 && v[i + 1] == 10 {
            2
        } else if left >= 3 && v[i] == 10 && v[i + 1] == 13 && v[i + 2] == 10 {
            3
        } else {
            0
        };
        assert(gap == gap_at(s, i - from));
        if gap > 0 {
            proof {
                lemma_is_event_end(s, i - from);
            }
            return Some((i, i + gap));
        }
        i = i + 1;
    }
    proof {
        lemma_is_event_end(s, n - from);
    }
    None
}

impl EventReader {
    /// Start to read for the answer to the request `want_id`.
    pub fn new(want_id: i64) -> (r: Self)
        ensures
            r.want_id == want_id,
            r.buf@ == Seq::<u8>::empty(),
    {
        EventReader { want_id, buf: Vec::new() }
    }

    /// Read on with the bytes that came.
    pub fn feed(&mut self, bytes: &Vec<u8>) -> (r: ReadProgress)
        ensures
            ({
                let scan = scanned(old(self).buf@ + bytes@, old(self).want_id);
                &&& view_opt(r.answer) == scan.answer
                &&& r.changes == (if scan.changes <= u64::MAX {
                    scan.changes as u64
                } else {
                    u64::MAX
                })
                &&& final(self).buf@ == scan.rest
                &&& final(self).want_id == old(self).want_id
            }),
            views(r.skipped@) == skipped(old(self).buf@ + bytes@, old(self).want_id),
    {
        let ghost whole = self.buf@ + bytes@;
        let mut more = slice_to_vec(bytes.as_slice());
        let mut v: Vec<u8> = Vec::new();
        core::mem::swap(&mut v, &mut self.buf);
        v.append(&mut more);
        let v = v.as_slice();
        let n: usize = v.len();
        let id: i64 = self.want_id;
        let mut start: usize = 0;
        let mut changes: u64 = 0;
        let mut strays: Vec<SkippedData> = Vec::new();
        let ghost mut seen: nat = 0;
        assert(whole.subrange(0, n as int) =~= whole);
        assert(views(strays@) + skipped(whole, id) =~= skipped(whole, id));
        loop
            invariant
                start <= n,
                n == v.len(),
                v@ == whole,
                whole == old(self).buf@ + bytes@,
                id == self.want_id,
                id == old(self).want_id,
                changes == (if seen <= u64::MAX {
                    seen as u64
                } else {
                    u64::MAX
                }),
                scanned(whole, id) == (ScanModel {
                    changes: scanned(whole.subrange(start as int, n as int), id).changes + seen,
                    ..scanned(whole.subrange(start as int, n as int), id)
                }),
                skipped(whole, id) == views(strays@) + skipped(whole.subrange(start as int, n as int), id),
            decreases n - start,
        {
            let ghost rest = whole.subrange(start as int, n as int);
            match find_event_end(v, start) {
                None => {
                    self.buf = slice_to_vec(slice_subrange(v, start, n));
                    assert(views(strays@) + Seq::<SkippedModel>::empty() =~= views(strays@));
                    return ReadProgress { answer: None, changes, skipped: strays };
                },
                Some((end, next)) => {
                    let event = event_string(slice_subrange(v, start, end));
                    assert(rest.subrange(0, end - start) =~= whole.subrange(start as int, end as int));
                    assert(rest.subrange(next - start, rest.len() as int) =~= whole.subrange(next as int, n as int));
                    let ghost prev = views(strays@);
                    let ghost tail = skipped(whole.subrange(next as int, n as int), id);
                    let (meaning, stray) = read_event(event.as_str(), id);
                    match meaning {
                        EventMeaning::Answer(a) => {
                            self.buf = slice_to_vec(slice_subrange(v, next, n));
                            assert(prev + Seq::<SkippedModel>::empty() =~= prev);
                            return ReadProgress { answer: Some(a), changes, skipped: strays };
                        },
                        EventMeaning::ToolsChanged => {
                            if changes < u64::MAX {
                                changes = changes + 1;
                            }
                            proof {
                                seen = seen + 1;
                            }
                        },
                        EventMeaning::Nothing => {},
                    }
                    if let Some(d) = stray {
                        strays.push(d);
                        assert(views(strays@) =~= prev.push(d@));
                    }
                    assert(views(strays@) =~= prev + skipped_row(event@));
                    assert(prev + (skipped_row(event@) + tail) =~= prev + skipped_row(event@) + tail);
                    start = next;
                },
            }
        }
    }

    /// The stream ended: what is left may be one more event, without a blank
    /// line behind it.
    pub fn finish(&mut self) -> (r: EventMeaning)
        ensures
            r@ == (if old(self).buf@.len() == 0 {
                EventModel::Nothing
            } else {
                event_meaning(lf_only(read_text(old(self).buf@)), old(self).want_id)
            }),
            final(self).buf@ == Seq::<u8>::empty(),
            final(self).want_id == old(self).want_id,
    {
        let mut trailing: Vec<u8> = Vec::new();
        core::mem::swap(&mut trailing, &mut self.buf);
        if trailing.len() == 0 {
            EventMeaning::Nothing
        } else {
            process_event(to_lf(utf8_lossy(&trailing).as_str()).as_str(), self.want_id)
        }
    }

    /// What is left of a stream that ended, where it is no JSON.
    pub fn skipped_tail(&self) -> (r: Option<SkippedData>)
        ensures
            view_opt(r) == (if self.buf@.len() == 0 {
                None
            } else {
                event_skipped(lf_only(read_text(self.buf@)))
            }),
    {
        if self.buf.len() == 0 {
            None
        } else {
            read_event(to_lf(utf8_lossy(&self.buf).as_str()).as_str(), self.want_id).1
        }
    }

    /// The error of a stream that ended without the answer.
    pub fn unanswered(&self) -> (r: String)
        ensures
            r@ == "upstream closed response stream without a result for id "@ + id_text(self.want_id),
    {
        let mut s = "upstream closed response stream without a result for id ".to_owned();
        s.append(id_string(self.want_id).as_str());
        s
    }
}

/// An answer that a stream gives is an answer to the request that was asked.
pub proof fn scanned_answer_is_ours(buf: Seq<u8>, id: i64)
    ensures
        scanned(buf, id).answer matches Some(v) ==> answers(v, id),
    decreases buf.len(),
{
    let end = event_end(buf);
    let gap = gap_at(buf, end);
    if gap > 0 {
        scanned_answer_is_ours(buf.subrange(end + gap, buf.len() as int), id);
    }
}

/// It does not matter how a stream is cut into chunks: reading `a` and then `b`
/// gives what reading both at once gives, wherever the cut is. What follows the
/// answer stays unread.
pub proof fn chunks_do_not_matter(a: Seq<u8>, b: Seq<u8>, id: i64)
    ensures
        ({
            let first = scanned(a, id);
            let second = scanned(first.rest + b, id);
            scanned(a + b, id) == (if first.answer is Some {
                ScanModel { rest: first.rest + b, ..first }
            } else {
                ScanModel { changes: first.changes + second.changes, ..second }
            })
        }),
        skipped(a + b, id) == (if scanned(a, id).answer is Some {
            skipped(a, id)
        } else {
            skipped(a, id) + skipped(scanned(a, id).rest + b, id)
        }),
    decreases a.len(),
{
    let end = event_end(a);
    let gap = gap_at(a, end);
    if gap > 0 {
        let both = a + b;
        lemma_event_end(a);
        assert(gap_at(both, end) == gap);
        assert forall|k: int| 0 <= k < end implies #[trigger] gap_at(both, k) == 0 by {
            assert(gap_at(a, k) == 0);
        }
        lemma_is_event_end(both, end);
        let rest = a.subrange(end + gap, a.len() as int);
        assert(both.subrange(0, end) =~= a.subrange(0, end));
        assert(both.subrange(end + gap, both.len() as int) =~= rest + b);
        chunks_do_not_matter(rest, b, id);
        let row = skipped_row(event_text(a.subrange(0, end)));
        let later = skipped(scanned(rest, id).rest + b, id);
        assert(row + (skipped(rest, id) + later) =~= row + skipped(rest, id) + later);
    } else {
        assert(Seq::<SkippedModel>::empty() + skipped(a + b, id) =~= skipped(a + b, id));
    }
}

} // verus!
