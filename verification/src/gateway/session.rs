//! Per-client sessions: the notification stream of each, what is kept for
//! replay, and the registry of all of them. Times are milliseconds of one
//! monotonic clock, handed in by the caller.

use vstd::prelude::*;
#[allow(unused_imports)]
use vstd::string::*;

use super::sse::{list_changed_doc, list_changed_notification};
use crate::json::{Doc, Json};
use crate::name_map::{lemma_filter_step, view_opt, views, Replica};
use crate::numerals::{decimal, decimal_reads_back, decimal_text, numeral_value, parse_numeral};
use crate::text::{chars_of, last_char_at, occurs_at, rfind_char, slice_chars, starts_with_text, text_of};

verus! {

/// At most this many recent records are kept per session.
pub const BACKLOG_MAX_RECORDS: usize = 32;

/// Records older than this many milliseconds are pruned.
pub const BACKLOG_MAX_AGE: u64 = 300_000;

/// The notification stream of a session. There is one per session at most.
#[derive(Clone, Copy, Debug, PartialEq, Eq, Structural)]
pub struct StreamSlot {
    /// Unique id of this stream.
    pub stream_id: u128,
    /// Rises with every stream that replaces another.
    pub generation: u64,
}

/// One server-sent event, sent or kept for replay.
#[derive(Debug, PartialEq, Eq)]
pub struct SseRecord {
    /// `<session id>:<sequence>`.
    pub event_id: String,
    /// The stream that the record was handed to; none while it waits.
    pub stream_id: Option<u128>,
    pub json: Json,
    pub created_at: u64,
}

pub struct RecordModel {
    pub event_id: Seq<char>,
    pub stream_id: Option<u128>,
    pub json: Doc,
    pub created_at: u64,
}

impl View for SseRecord {
    type V = RecordModel;

    open spec fn view(&self) -> RecordModel {
        RecordModel {
            event_id: self.event_id@,
            stream_id: self.stream_id,
            json: self.json@,
            created_at: self.created_at,
        }
    }
}

impl Replica for SseRecord {
    fn replica(&self) -> (r: Self) {
        SseRecord {
            event_id: self.event_id.clone(),
            stream_id: self.stream_id,
            json: self.json.replica(),
            created_at: self.created_at,
        }
    }
}

/// A client session, made by `initialize` and named by its `Mcp-Session-Id`.
#[derive(Debug, PartialEq, Eq)]
pub struct ClientSession {
    pub id: String,
    /// Set once `notifications/initialized` arrives.
    pub initialized: bool,
    pub protocol_version: String,
    /// The identity of the client; none where it gave none.
    pub client_name: Option<String>,
    pub notification_stream: Option<StreamSlot>,
    pub backlog: Vec<SseRecord>,
    pub next_event_seq: u64,
    /// A change of the tool list is pending and on no stream yet.
    pub dirty_tools_list: bool,
    pub last_seen: u64,
}

pub struct SessionModel {
    pub id: Seq<char>,
    pub initialized: bool,
    pub protocol_version: Seq<char>,
    pub client_name: Option<Seq<char>>,
    pub notification_stream: Option<StreamSlot>,
    pub backlog: Seq<RecordModel>,
    pub next_event_seq: u64,
    pub dirty_tools_list: bool,
    pub last_seen: u64,
}

impl View for ClientSession {
    type V = SessionModel;

    open spec fn view(&self) -> SessionModel {
        SessionModel {
            id: self.id@,
            initialized: self.initialized,
            protocol_version: self.protocol_version@,
            client_name: view_opt(self.client_name),
            notification_stream: self.notification_stream,
            backlog: views(self.backlog@),
            next_event_seq: self.next_event_seq,
            dirty_tools_list: self.dirty_tools_list,
            last_seen: self.last_seen,
        }
    }
}

/// The event id of the `seq`-th event of a session.
pub open spec fn event_id(session: Seq<char>, seq: u64) -> Seq<char> {
    session + ":"@ + decimal(seq as nat)
}

/// The sequence number in an event id: the numeral after its last `:`.
pub open spec fn seq_of(event_id: Seq<char>) -> Option<nat> {
    if event_id.contains(':') {
        let i = choose|i: int| last_char_at(event_id, ':', i);
        numeral_value(event_id.subrange(i + 1, event_id.len() as int), u64::MAX as nat)
    } else {
        None
    }
}

proof fn lemma_seq_of_at(event_id: Seq<char>, i: int)
    requires
        last_char_at(event_id, ':', i),
    ensures
        seq_of(event_id) == numeral_value(
            event_id.subrange(i + 1, event_id.len() as int),
            u64::MAX as nat,
        ),
{
    let c = choose|c: int| last_char_at(event_id, ':', c);
    assert(event_id[i] == ':');
    assert(event_id[c] == ':');
}

/// The sequence number of an event id is the one it was made with, whatever the
/// session is called.
pub proof fn event_id_carries_seq(session: Seq<char>, seq: u64)
    ensures
        seq_of(event_id(session, seq)) == Some(seq as nat),
{
    reveal_strlit(":");
    decimal_reads_back(seq as nat, u64::MAX as nat);
    let e = event_id(session, seq);
    let i = session.len() as int;
    let d = decimal(seq as nat);
    assert(e[i] == ':');
    assert forall|k: int| i < k < e.len() implies e[k] != ':' by {
        assert(e[k] == d[k - i - 1]);
        assert(crate::numerals::is_digit_char(d[k - i - 1]));
    }
    lemma_seq_of_at(e, i);
    assert(e.subrange(i + 1, e.len() as int) =~= d);
}

/// Parse the sequence number out of an event id.
pub fn parse_seq(event_id: &str) -> (r: Option<u64>)
    ensures
        r matches Some(n) ==> seq_of(event_id@) == Some(n as nat),
        r is None ==> seq_of(event_id@) is None,
{
    let v = chars_of(event_id);
    match rfind_char(&v, ':') {
        Some(i) => {
            proof {
                lemma_seq_of_at(event_id@, i as int);
            }
            let n: usize = v.len();
            let tail = text_of(&slice_chars(&v, i + 1, n));
            parse_numeral(tail.as_str(), u64::MAX)
        },
        None => None,
    }
}

fn event_id_text(session: &str, seq: u64) -> (r: String)
    ensures
        r@ == event_id(session@, seq),
{
    let mut s = session.to_owned();
    s.append(":");
    s.append(decimal_text(seq).as_str());
    s
}

/// The records from the first that is not too old.
pub open spec fn fresh_records(records: Seq<RecordModel>, now: u64) -> Seq<RecordModel>
    decreases records.len(),
{
    if records.len() > 0 && now - records[0].created_at > BACKLOG_MAX_AGE {
        fresh_records(records.drop_first(), now)
    } else {
        records
    }
}

/// The last 32 records.
pub open spec fn last_records(records: Seq<RecordModel>) -> Seq<RecordModel> {
    if records.len() > 32 {
        records.subrange(records.len() - 32, records.len() as int)
    } else {
        records
    }
}

/// What of a backlog is kept at `now`.
pub open spec fn pruned(records: Seq<RecordModel>, now: u64) -> Seq<RecordModel> {
    last_records(fresh_records(records, now))
}

/// Prune a backlog to its last 32 records and to those that are not too old.
pub fn prune_backlog(backlog: &mut Vec<SseRecord>, now: u64)
    ensures
        views(final(backlog)@) == pruned(views(old(backlog)@), now),
{
    let ghost whole = views(backlog@);
    while backlog.len() > 0 && now > backlog[0].created_at && now - backlog[0].created_at > BACKLOG_MAX_AGE
        invariant
            fresh_records(whole, now) == fresh_records(views(backlog@), now),
        decreases backlog@.len(),
    {
        let ghost prev = views(backlog@);
        assert(prev[0] == backlog@[0]@);
        backlog.remove(0);
        assert(views(backlog@) =~= prev.drop_first());
    }
    proof {
        if backlog@.len() > 0 {
            assert(views(backlog@)[0] == backlog@[0]@);
        }
    }
    let ghost fresh = views(backlog@);
    assert(fresh_records(whole, now) == fresh);
    assert(fresh.subrange(0, fresh.len() as int) =~= fresh);
    while backlog.len() > 32
        invariant
            backlog@.len() <= fresh.len(),
            fresh.len() > 32 ==> backlog@.len() >= 32,
            fresh.len() <= 32 ==> backlog@.len() == fresh.len(),
            views(backlog@) == fresh.subrange(fresh.len() - backlog@.len(), fresh.len() as int),
        decreases backlog@.len(),
    {
        let ghost prev = views(backlog@);
        backlog.remove(0);
        assert(views(backlog@) =~= prev.drop_first());
        assert(views(backlog@) =~= fresh.subrange(fresh.len() - backlog@.len(), fresh.len() as int));
    }
}

/// The sequence number after `n`; it stays at its limit once it is there.
pub open spec fn seq_after(n: u64) -> u64 {
    if n < u64::MAX {
        (n + 1) as u64
    } else {
        n
    }
}

/// Whether a record of session `session` has a sequence above `seq`.
pub open spec fn missed(session: Seq<char>, seq: nat, r: RecordModel) -> bool {
    &&& occurs_at(r.event_id, session + ":"@, 0)
    &&& seq_of(r.event_id) is Some
    &&& seq_of(r.event_id)->0 > seq
}

/// A record as it is handed out again, on no stream yet.
pub open spec fn unassigned(r: RecordModel) -> RecordModel {
    RecordModel { stream_id: None, ..r }
}

impl SessionModel {
    /// The record of a change of the tool list, with the next sequence number.
    pub open spec fn change_record(self, stream: Option<u128>, now: u64) -> RecordModel {
        RecordModel {
            event_id: event_id(self.id, seq_after(self.next_event_seq)),
            stream_id: stream,
            json: list_changed_doc(),
            created_at: now,
        }
    }

    /// The records that a freshly connected stream is owed. A client that names
    /// the last event it saw is owed the later ones of this session; any other
    /// is owed what was on no stream yet. Either way one change of the tool
    /// list follows where one is pending, however many there were.
    pub open spec fn replay(self, last_event_id: Option<Seq<char>>, now: u64) -> Seq<RecordModel> {
        let kept = if last_event_id is Some && seq_of(last_event_id->0) is Some {
            self.backlog.filter(
                |r: RecordModel| missed(self.id, seq_of(last_event_id->0)->0, r),
            ).map_values(|r: RecordModel| unassigned(r))
        } else {
            self.backlog.filter(|r: RecordModel| r.stream_id is None)
        };
        if self.dirty_tools_list {
            kept.push(self.change_record(None, now))
        } else {
            kept
        }
    }

    /// The session once the records it owes are handed out.
    pub open spec fn replayed(self, last_event_id: Option<Seq<char>>) -> SessionModel {
        SessionModel {
            backlog: if last_event_id is Some && seq_of(last_event_id->0) is Some {
                self.backlog
            } else {
                self.backlog.filter(|r: RecordModel| r.stream_id is Some)
            },
            next_event_seq: if self.dirty_tools_list {
                seq_after(self.next_event_seq)
            } else {
                self.next_event_seq
            },
            dirty_tools_list: false,
            ..self
        }
    }

    /// The session with a new stream in place of the one it had.
    pub open spec fn streaming(self, stream_id: u128, now: u64) -> SessionModel {
        SessionModel {
            notification_stream: Some(
                StreamSlot {
                    stream_id,
                    generation: match self.notification_stream {
                        Some(s) => if s.generation < u64::MAX {
                            (s.generation + 1) as u64
                        } else {
                            0
                        },
                        None => 1,
                    },
                },
            ),
            last_seen: now,
            ..self
        }
    }

    /// The session after one stream is closed: only that very stream is cleared.
    pub open spec fn unregistered(self, stream_id: u128, generation: u64) -> SessionModel {
        if self.notification_stream == Some(StreamSlot { stream_id, generation }) {
            SessionModel { notification_stream: None, ..self }
        } else {
            self
        }
    }

    /// The session after a change of the tool list was announced. Before the
    /// client is initialized, and while it has no stream, the change is pending;
    /// otherwise its record is kept and goes out on the stream.
    pub open spec fn announced(self, now: u64) -> SessionModel {
        if !self.initialized {
            SessionModel { dirty_tools_list: true, ..self }
        } else if self.notification_stream is None {
            SessionModel { dirty_tools_list: true, last_seen: now, ..self }
        } else {
            SessionModel {
                backlog: pruned(
                    self.backlog.push(
                        self.change_record(Some(self.notification_stream->0.stream_id), now),
                    ),
                    now,
                ),
                next_event_seq: seq_after(self.next_event_seq),
                last_seen: now,
                ..self
            }
        }
    }

    /// Whether a change of the tool list goes out at once.
    pub open spec fn reachable(self) -> bool {
        self.initialized && self.notification_stream is Some
    }

    /// The session after a record could not be sent on `stream_id`: that stream
    /// is cleared where it is still the session's, and the change is pending.
    pub open spec fn undelivered(self, stream_id: u128) -> SessionModel {
        SessionModel {
            notification_stream: if self.notification_stream is Some
                && self.notification_stream->0.stream_id == stream_id {
                None
            } else {
                self.notification_stream
            },
            dirty_tools_list: true,
            ..self
        }
    }
}

fn next_seq(n: u64) -> (r: u64)
    ensures
        r == seq_after(n),
{
    if n < u64::MAX {
        n + 1
    } else {
        n
    }
}

impl ClientSession {
    pub fn is_initialized(&self) -> (r: bool)
        ensures
            r == self@.initialized,
    {
        self.initialized
    }

    /// Record the identity that was resolved for this client.
    pub fn set_client_name(&mut self, name: Option<String>)
        ensures
            final(self)@ == (SessionModel { client_name: view_opt(name), ..old(self)@ }),
    {
        self.client_name = name;
    }

    /// Any inbound activity keeps a session alive.
    pub fn touch(&mut self, now: u64)
        ensures
            final(self)@ == (SessionModel { last_seen: now, ..old(self)@ }),
    {
        self.last_seen = now;
    }

    /// Make `stream_id` this session's notification stream, in place of the one
    /// it had. The generation returned with it guards its later closing.
    pub fn register_stream_as(&mut self, stream_id: u128, now: u64) -> (r: (u128, u64))
        ensures
            final(self)@ == old(self)@.streaming(stream_id, now),
            final(self)@.notification_stream == Some(
                (StreamSlot { stream_id: r.0, generation: r.1 }),
            ),
            r.0 == stream_id,
    {
        let generation: u64 = match &self.notification_stream {
            Some(s) => if s.generation < u64::MAX {
                s.generation + 1
            } else {
                0
            },
            None => 1,
        };
        self.notification_stream = Some(StreamSlot { stream_id, generation });
        self.last_seen = now;
        (stream_id, generation)
    }

    /// Make a brand-new stream this session's notification stream.
    pub fn register_stream(&mut self, now: u64) -> (r: (u128, u64))
        ensures
            final(self)@ == old(self)@.streaming(r.0, now),
            final(self)@.notification_stream == Some(
                (StreamSlot { stream_id: r.0, generation: r.1 }),
            ),
    {
        let stream_id: u128 = fresh_stream_id();
        self.register_stream_as(stream_id, now)
    }

    /// Clear the notification stream only if it is still this very one: a stale
    /// disconnect never evicts a newer stream.
    pub fn unregister_stream(&mut self, stream_id: u128, generation: u64)
        ensures
            final(self)@ == old(self)@.unregistered(stream_id, generation),
    {
        let hit = match &self.notification_stream {
            Some(s) => s.stream_id == stream_id && s.generation == generation,
            None => false,
        };
        if hit {
            self.notification_stream = None;
        }
    }

    /// Take the records to replay to a freshly connected stream.
    pub fn take_replay_since(&mut self, last_event_id: Option<&str>, now: u64) -> (r: Vec<SseRecord>)
        ensures
            views(r@) == old(self)@.replay(crate::config::grants::name_of(last_event_id), now),
            final(self)@ == old(self)@.replayed(crate::config::grants::name_of(last_event_id)),
    {
        let ghost whole = self@;
        let ghost last = crate::config::grants::name_of(last_event_id);
        let ghost records = views(self.backlog@);
        let named: Option<u64> = match last_event_id {
            Some(eid) => parse_seq(eid),
            None => None,
        };
        let mut out: Vec<SseRecord> = Vec::new();
        assert(records.subrange(0, records.len() as int) =~= records);
        if let Some(last_seq) = named {
            let mut prefix = self.id.clone();
            prefix.append(":");
            let ghost pred = |r: RecordModel| missed(whole.id, seq_of(last->0)->0, r);
            assert(records.subrange(0, 0).filter(pred) =~= Seq::<RecordModel>::empty()) by {
                reveal(Seq::filter);
            }
            let mut i: usize = 0;
            while i < self.backlog.len()
                invariant
                    i <= self.backlog.len(),
                    self@ == whole,
                    records == views(self.backlog@),
                    prefix@ == whole.id + ":"@,
                    last is Some,
                    seq_of(last->0) == Some(last_seq as nat),
                    pred == (|r: RecordModel| missed(whole.id, seq_of(last->0)->0, r)),
                    views(out@) == records.subrange(0, i as int).filter(pred).map_values(
                        |r: RecordModel| unassigned(r),
                    ),
                decreases self.backlog.len() - i,
            {
                let rec = &self.backlog[i];
                let ghost prev = views(out@);
                let ghost front = records.subrange(0, i as int).filter(pred);
                assert(records[i as int] == rec@);
                proof {
                    lemma_filter_step(records, pred, i as int);
                }
                if starts_with_text(rec.event_id.as_str(), prefix.as_str()) {
                    if let Some(rs) = parse_seq(rec.event_id.as_str()) {
                        if rs > last_seq {
                            let mut copy = rec.replica();
                            copy.stream_id = None;
                            out.push(copy);
                            assert(views(out@) =~= prev.push(unassigned(rec@)));
                            assert(front.push(rec@).map_values(|r: RecordModel| unassigned(r)) =~= prev.push(
                                unassigned(rec@),
                            ));
                        }
                    }
                }
                i = i + 1;
            }
        } else {
            let ghost free = |r: RecordModel| r.stream_id is None;
            let ghost bound = |r: RecordModel| r.stream_id is Some;
            assert(records.subrange(0, 0).filter(free) =~= Seq::<RecordModel>::empty()) by {
                reveal(Seq::filter);
            }
            assert(records.subrange(0, 0).filter(bound) =~= Seq::<RecordModel>::empty()) by {
                reveal(Seq::filter);
            }
            let mut keep: Vec<SseRecord> = Vec::new();
            let mut i: usize = 0;
            while i < self.backlog.len()
                invariant
                    i <= self.backlog.len(),
                    self@ == whole,
                    records == views(self.backlog@),
                    free == (|r: RecordModel| r.stream_id is None),
                    bound == (|r: RecordModel| r.stream_id is Some),
                    views(out@) == records.subrange(0, i as int).filter(free),
                    views(keep@) == records.subrange(0, i as int).filter(bound),
                decreases self.backlog.len() - i,
            {
                let rec = &self.backlog[i];
                let ghost prev_out = views(out@);
                let ghost prev_keep = views(keep@);
                assert(records[i as int] == rec@);
                proof {
                    lemma_filter_step(records, free, i as int);
                    lemma_filter_step(records, bound, i as int);
                }
                let copy = rec.replica();
                if rec.stream_id.is_none() {
                    out.push(copy);
                    assert(views(out@) =~= prev_out.push(rec@));
                } else {
                    keep.push(copy);
                    assert(views(keep@) =~= prev_keep.push(rec@));
                }
                i = i + 1;
            }
            self.backlog = keep;
        }
        if self.dirty_tools_list {
            self.next_event_seq = next_seq(self.next_event_seq);
            let ghost prev = views(out@);
            let rec = SseRecord {
                event_id: event_id_text(self.id.as_str(), self.next_event_seq),
                stream_id: None,
                json: list_changed_notification(),
                created_at: now,
            };
            out.push(rec);
            assert(views(out@) =~= prev.push(whole.change_record(None, now)));
            self.dirty_tools_list = false;
        }
        out
    }

    /// Note a change of the tool list. Where the client can be reached, the
    /// record to send comes back with the stream it goes to.
    pub fn announce(&mut self, now: u64) -> (r: Option<(u128, SseRecord)>)
        ensures
            final(self)@ == old(self)@.announced(now),
            r is Some <==> old(self)@.reachable(),
            r matches Some(d) ==> d.0 == old(self)@.notification_stream->0.stream_id && d.1@
                == old(self)@.change_record(Some(d.0), now),
    {
        let ghost whole = self@;
        if !self.initialized {
            self.dirty_tools_list = true;
            return None;
        }
        self.last_seen = now;
        match &self.notification_stream {
            None => {
                self.dirty_tools_list = true;
                None
            },
            Some(slot) => {
                let stream_id: u128 = slot.stream_id;
                self.next_event_seq = next_seq(self.next_event_seq);
                let rec = SseRecord {
                    event_id: event_id_text(self.id.as_str(), self.next_event_seq),
                    stream_id: Some(stream_id),
                    json: list_changed_notification(),
                    created_at: now,
                };
                let copy = rec.replica();
                let ghost before = views(self.backlog@);
                self.backlog.push(copy);
                assert(views(self.backlog@) =~= before.push(rec@));
                prune_backlog(&mut self.backlog, now);
                Some((stream_id, rec))
            },
        }
    }

    /// Note that a record could not be sent on `stream_id`.
    pub fn delivery_failed(&mut self, stream_id: u128)
        ensures
            final(self)@ == old(self)@.undelivered(stream_id),
    {
        let hit = match &self.notification_stream {
            Some(s) => s.stream_id == stream_id,
            None => false,
        };
        if hit {
            self.notification_stream = None;
        }
        self.dirty_tools_list = true;
    }
}

/// `uuid::Uuid::new_v4().as_u128()`: a random id. Nothing is known of its value.
#[verifier::external_body]
fn fresh_stream_id() -> (r: u128) {
    uuid::Uuid::new_v4().as_u128()
}

/// However often the tool list changes while a client cannot be reached, the
/// client is owed one announcement of it.
pub proof fn announcements_coalesce(s: SessionModel, first: u64, second: u64, now: u64)
    requires
        !s.reachable(),
    ensures
        s.announced(first).announced(second) == s.announced(second),
        s.announced(first).dirty_tools_list,
        s.announced(first).replay(None, now) == s.backlog.filter(
            |r: RecordModel| r.stream_id is None,
        ).push(s.change_record(None, now)),
{
}

/// A change that could not be delivered is not lost: the next replay ends with
/// the announcement of it, and after that nothing is pending.
pub proof fn failed_delivery_is_replayed(
    s: SessionModel,
    stream_id: u128,
    last_event_id: Option<Seq<char>>,
    now: u64,
)
    ensures
        s.undelivered(stream_id).replay(last_event_id, now).len() > 0,
        s.undelivered(stream_id).replay(last_event_id, now).last().json == list_changed_doc(),
        !s.undelivered(stream_id).replayed(last_event_id).dirty_tools_list,
{
}

/// A client that names the last event it saw gets only later events of its own
/// session, besides the one announcement that may be pending.
pub proof fn replay_is_later_and_own(s: SessionModel, last: Seq<char>, now: u64, i: int)
    requires
        seq_of(last) is Some,
        0 <= i < s.replay(Some(last), now).len(),
        s.dirty_tools_list ==> i < s.replay(Some(last), now).len() - 1,
    ensures
        missed(s.id, seq_of(last)->0, s.replay(Some(last), now)[i]),
        s.replay(Some(last), now)[i].stream_id is None,
{
    let pred = |r: RecordModel| missed(s.id, seq_of(last)->0, r);
    let f = s.backlog.filter(pred);
    s.backlog.lemma_filter_pred(pred, i);
    assert(s.replay(Some(last), now)[i] == unassigned(f[i]));
}

/// What waited for a stream is handed out once: right after a replay without a
/// last event id, another such replay is empty.
pub proof fn replay_takes_what_waited(s: SessionModel, now: u64)
    ensures
        s.replayed(None).replay(None, now) == Seq::<RecordModel>::empty(),
{
    let free = |r: RecordModel| r.stream_id is None;
    let bound = |r: RecordModel| r.stream_id is Some;
    let kept = s.backlog.filter(bound);
    let f = kept.filter(free);
    if f.len() > 0 {
        kept.lemma_filter_pred(free, 0);
        assert(f.contains(f[0]));
        kept.lemma_filter_contains_rev(free, f[0]);
        let k = choose|k: int| 0 <= k < kept.len() && kept[k] == f[0];
        s.backlog.lemma_filter_pred(bound, k);
    }
    assert(f =~= Seq::<RecordModel>::empty());
}

/// Closing an older stream never clears a newer one.
pub proof fn stale_close_keeps_newer_stream(s: SessionModel, old_id: u128, new_id: u128, t0: u64, t1: u64)
    requires
        old_id != new_id,
    ensures
        s.streaming(old_id, t0).streaming(new_id, t1).unregistered(
            old_id,
            s.streaming(old_id, t0).notification_stream->0.generation,
        ) == s.streaming(old_id, t0).streaming(new_id, t1),
{
}

/// A backlog never holds more than 32 records, and only the newest of them.
pub proof fn backlog_is_bounded(s: SessionModel, now: u64)
    requires
        s.backlog.len() <= 32,
    ensures
        s.announced(now).backlog.len() <= 32,
        s.reachable() ==> s.announced(now).backlog.last() == s.change_record(
            Some(s.notification_stream->0.stream_id),
            now,
        ),
{
    if s.reachable() {
        let rec = s.change_record(Some(s.notification_stream->0.stream_id), now);
        lemma_fresh_keeps_last(s.backlog.push(rec), now);
    }
}

proof fn lemma_fresh_keeps_last(records: Seq<RecordModel>, now: u64)
    requires
        records.len() > 0,
        records.last().created_at == now,
    ensures
        fresh_records(records, now).len() > 0,
        fresh_records(records, now).last() == records.last(),
    decreases records.len(),
{
    if now - records[0].created_at > BACKLOG_MAX_AGE {
        assert(records.len() > 1);
        assert(records.drop_first().last() == records.last());
        lemma_fresh_keeps_last(records.drop_first(), now);
    }
}

/// Sequence numbers only rise, and rise by one with every record made.
pub proof fn sequence_rises(s: SessionModel, last_event_id: Option<Seq<char>>, now: u64)
    requires
        s.next_event_seq < u64::MAX,
    ensures
        s.reachable() ==> s.announced(now).next_event_seq == s.next_event_seq + 1,
        !s.reachable() ==> s.announced(now).next_event_seq == s.next_event_seq,
        s.replayed(last_event_id).next_event_seq == s.next_event_seq + (if s.dirty_tools_list {
            1int
        } else {
            0int
        }),
        seq_of(s.change_record(None, now).event_id) == Some((s.next_event_seq + 1) as nat),
{
    event_id_carries_seq(s.id, seq_after(s.next_event_seq));
}

/// A change of the tool list is never lost on a session: with a stream open it is
/// kept for replay as handed to that stream, and without one it is pending. Who the
/// client is and what it agreed on do not change.
pub proof fn announcements_are_kept(s: SessionModel, now: u64)
    ensures
        ({
            let after = s.announced(now);
            &&& !(s.initialized && s.notification_stream is Some) ==> after.dirty_tools_list && after.backlog
                == s.backlog
            &&& s.initialized && s.notification_stream is Some ==> {
                &&& after.backlog.len() > 0
                &&& after.backlog.last().json == list_changed_doc()
                &&& after.backlog.last().stream_id == Some(s.notification_stream->0.stream_id)
                &&& after.backlog.last().created_at == now
                &&& after.dirty_tools_list == s.dirty_tools_list
            }
            &&& after.id == s.id
            &&& after.initialized == s.initialized
            &&& after.client_name == s.client_name
            &&& after.protocol_version == s.protocol_version
            &&& after.notification_stream == s.notification_stream
        }),
{
    if s.reachable() {
        let r = s.change_record(Some(s.notification_stream->0.stream_id), now);
        lemma_fresh_keeps_last(s.backlog.push(r), now);
    }
}

/// What a client missed is replayed: of the records that are kept, all that are its
/// session's own and come after the one that it names. Without a name all that never
/// went to a stream are replayed. A change that is pending comes last, and is not
/// pending any more.
pub proof fn replay_is_complete(s: SessionModel, last: Option<Seq<char>>, n: nat, now: u64, k: int)
    requires
        0 <= k < s.backlog.len(),
    ensures
        last is Some && seq_of(last->0) == Some(n) && occurs_at(s.backlog[k].event_id, s.id + ":"@, 0) && seq_of(
            s.backlog[k].event_id,
        ) is Some && seq_of(s.backlog[k].event_id)->0 > n ==> exists|j: int|
            0 <= j < s.replay(last, now).len() && (#[trigger] s.replay(last, now)[j]).event_id
                == s.backlog[k].event_id && s.replay(last, now)[j].json == s.backlog[k].json,
        last is None && s.backlog[k].stream_id is None ==> exists|j: int|
            0 <= j < s.replay(last, now).len() && #[trigger] s.replay(last, now)[j] == s.backlog[k],
        s.dirty_tools_list ==> {
            &&& s.replay(last, now).len() > 0
            &&& s.replay(last, now).last().json == list_changed_doc()
            &&& s.replay(last, now).last().stream_id is None
        },
        !s.replayed(last).dirty_tools_list,
{
    if last is Some && seq_of(last->0) == Some(n) && missed(s.id, n, s.backlog[k]) {
        let pred = |r: RecordModel| missed(s.id, seq_of(last->0)->0, r);
        let un = |r: RecordModel| unassigned(r);
        let kept = s.backlog.filter(pred);
        crate::name_map::lemma_filter_holds(s.backlog, pred, s.backlog[k]);
        assert(s.backlog.contains(s.backlog[k]));
        let j = choose|j: int| 0 <= j < kept.len() && kept[j] == s.backlog[k];
        assert(kept.map_values(un)[j] == unassigned(s.backlog[k]));
        assert(s.replay(last, now)[j] == unassigned(s.backlog[k]));
    }
    if last is None && s.backlog[k].stream_id is None {
        let pred = |r: RecordModel| r.stream_id is None;
        let kept = s.backlog.filter(pred);
        crate::name_map::lemma_filter_holds(s.backlog, pred, s.backlog[k]);
        assert(s.backlog.contains(s.backlog[k]));
        let j = choose|j: int| 0 <= j < kept.len() && kept[j] == s.backlog[k];
        assert(s.replay(last, now)[j] == s.backlog[k]);
    }
}

/// Nothing is replayed that the session did not keep, but for the change that is
/// pending: each record that is replayed is one of the kept ones, with the id and the
/// message that it has there.
pub proof fn replay_invents_nothing(s: SessionModel, last: Option<Seq<char>>, now: u64, j: int)
    requires
        0 <= j < s.replay(last, now).len(),
        s.dirty_tools_list ==> j < s.replay(last, now).len() - 1,
    ensures
        exists|k: int|
            0 <= k < s.backlog.len() && (#[trigger] s.backlog[k]).event_id == s.replay(last, now)[j].event_id
                && s.backlog[k].json == s.replay(last, now)[j].json,
        s.replay(last, now)[j].stream_id is None,
        s.replay(last, now).len() <= s.backlog.len() + (if s.dirty_tools_list {
            1int
        } else {
            0int
        }),
{
    let named = last is Some && seq_of(last->0) is Some;
    let pred = if named {
        |r: RecordModel| missed(s.id, seq_of(last->0)->0, r)
    } else {
        |r: RecordModel| r.stream_id is None
    };
    let kept = s.backlog.filter(pred);
    crate::name_map::lemma_filter_same(s.backlog, pred);
    let x = kept[j];
    assert(kept.contains(x));
    crate::name_map::lemma_filter_holds(s.backlog, pred, x);
    let k = choose|k: int| 0 <= k < s.backlog.len() && s.backlog[k] == x;
    if named {
        assert(s.replay(last, now)[j] == unassigned(x));
    } else {
        assert(s.replay(last, now)[j] == x);
    }
    assert(s.backlog[k].event_id == s.replay(last, now)[j].event_id);
}

/// Pruning takes records from the front only: those that are older than the limit of
/// five minutes, and those beyond the newest that fit. What is younger and fits stays.
pub proof fn pruning_keeps_the_newest(records: Seq<RecordModel>, now: u64)
    ensures
        pruned(records, now).len() <= records.len(),
        pruned(records, now).len() <= 32,
        pruned(records, now) == records.subrange(records.len() - pruned(records, now).len(), records.len() as int),
        records.len() <= 32 && (forall|i: int|
            0 <= i < records.len() ==> now - (#[trigger] records[i]).created_at <= 300_000) ==> pruned(records, now)
            == records,
        pruned(records, now).len() < records.len() && pruned(records, now).len() < 32 ==> now - records[records.len()
            - pruned(records, now).len() - 1].created_at > 300_000,
        records.len() <= 32 && pruned(records, now).len() > 0 ==> now - pruned(records, now)[0].created_at <= 300_000,
{
    lemma_fresh_suffix(records, now);
    let fresh = fresh_records(records, now);
    assert(pruned(records, now) =~= records.subrange(
        records.len() - pruned(records, now).len(),
        records.len() as int,
    ));
    assert(records.subrange(0, records.len() as int) =~= records);
    if pruned(records, now).len() < records.len() && pruned(records, now).len() < 32 {
        assert(pruned(records, now) == fresh);
    }
}

proof fn lemma_fresh_suffix(records: Seq<RecordModel>, now: u64)
    ensures
        fresh_records(records, now).len() <= records.len(),
        fresh_records(records, now) == records.subrange(
            records.len() - fresh_records(records, now).len(),
            records.len() as int,
        ),
        fresh_records(records, now).len() > 0 ==> now - fresh_records(records, now)[0].created_at <= 300_000,
        fresh_records(records, now).len() < records.len() ==> now - records[records.len() - fresh_records(
            records,
            now,
        ).len() - 1].created_at > 300_000,
        (forall|i: int| 0 <= i < records.len() ==> now - (#[trigger] records[i]).created_at <= 300_000)
            ==> fresh_records(records, now) == records,
    decreases records.len(),
{
    if records.len() > 0 && now - records[0].created_at > 300_000 {
        let rest = records.drop_first();
        lemma_fresh_suffix(rest, now);
        let f = fresh_records(rest, now);
        assert(f =~= records.subrange(records.len() - f.len(), records.len() as int));
        if f.len() < rest.len() {
            assert(rest[rest.len() - f.len() - 1] == records[records.len() - f.len() - 1]);
        }
    } else {
        assert(records.subrange(0, records.len() as int) =~= records);
    }
}

/// A stream that is opened takes the place of the one before, under a generation of
/// its own; closing it leaves the session without one. Closing any other stream
/// changes nothing, and neither touches what is kept.
pub proof fn streams_open_and_close(s: SessionModel, stream_id: u128, other: u128, generation: u64, now: u64)
    ensures
        ({
            let open = s.streaming(stream_id, now);
            let slot = open.notification_stream->0;
            &&& open.notification_stream is Some
            &&& slot.stream_id == stream_id
            &&& s.notification_stream is Some ==> slot.generation != s.notification_stream->0.generation
            &&& open.last_seen == now
            &&& open == (SessionModel { notification_stream: open.notification_stream, last_seen: now, ..s })
            &&& open.unregistered(stream_id, slot.generation) == (SessionModel { notification_stream: None, ..open })
            &&& (other != stream_id || generation != slot.generation) ==> open.unregistered(other, generation) == open
        }),
{
}

/// A record that could not be handed to its stream leaves the change pending, and
/// the session without that stream; a newer stream stays.
pub proof fn failed_delivery_is_pending(s: SessionModel, stream_id: u128)
    ensures
        s.undelivered(stream_id).dirty_tools_list,
        s.notification_stream matches Some(slot) ==> (slot.stream_id == stream_id ==> s.undelivered(
            stream_id,
        ).notification_stream is None),
        s.notification_stream matches Some(slot) ==> (slot.stream_id != stream_id ==> s.undelivered(
            stream_id,
        ).notification_stream == Some(slot)),
        s.undelivered(stream_id).backlog == s.backlog,
        s.undelivered(stream_id).client_name == s.client_name,
        s.undelivered(stream_id).id == s.id,
{
}

/// Replay takes away only what it handed out for good: asked without a name, what never
/// went to a stream leaves the kept records, and asked by name all of them stay. Nothing
/// else of the session changes but the number of its last record.
pub proof fn replay_keeps_the_rest(s: SessionModel, last: Option<Seq<char>>, r: RecordModel)
    ensures
        last is Some && seq_of(last->0) is Some ==> s.replayed(last).backlog == s.backlog,
        last is None ==> (s.replayed(last).backlog.contains(r) <==> s.backlog.contains(r) && r.stream_id is Some),
        s.replayed(last) == (SessionModel {
            backlog: s.replayed(last).backlog,
            next_event_seq: s.replayed(last).next_event_seq,
            dirty_tools_list: false,
            ..s
        }),
{
    crate::name_map::lemma_filter_holds(s.backlog, |x: RecordModel| x.stream_id is Some, r);
}

/// What is replayed comes in the order in which it was kept: of two records the one that
/// was kept first comes first, and each once.
pub proof fn replay_keeps_the_order(s: SessionModel, last: Option<Seq<char>>, now: u64, i: int, j: int)
    requires
        0 <= i < j,
        j < s.replay(last, now).len() - (if s.dirty_tools_list {
            1int
        } else {
            0int
        }),
    ensures
        exists|a: int, b: int|
            0 <= a < b < s.backlog.len() && (#[trigger] s.backlog[a]).event_id == s.replay(last, now)[i].event_id && (
            #[trigger] s.backlog[b]).event_id == s.replay(last, now)[j].event_id,
{
    let named = last is Some && seq_of(last->0) is Some;
    let pred = if named {
        |r: RecordModel| missed(s.id, seq_of(last->0)->0, r)
    } else {
        |r: RecordModel| r.stream_id is None
    };
    let kept = s.backlog.filter(pred);
    crate::name_map::lemma_filter_order(s.backlog, pred, i, j);
    let (a, b) = choose|a: int, b: int|
        0 <= a < b < s.backlog.len() && #[trigger] s.backlog[a] == kept[i] && #[trigger] s.backlog[b] == kept[j];
    if named {
        assert(s.replay(last, now)[i] == unassigned(kept[i]));
        assert(s.replay(last, now)[j] == unassigned(kept[j]));
    } else {
        assert(s.replay(last, now)[i] == kept[i]);
        assert(s.replay(last, now)[j] == kept[j]);
    }
    assert(s.backlog[a].event_id == s.replay(last, now)[i].event_id && s.backlog[b].event_id == s.replay(
        last,
        now,
    )[j].event_id);
}

/// A change that came while a client had no stream open reaches it with the next one that
/// it opens, once, whatever it names as the last that it has.
pub proof fn changes_wait_for_the_next_stream(s: SessionModel, stream_id: u128, last: Option<Seq<char>>, t0: u64, t1: u64)
    requires
        s.notification_stream is None || !s.initialized,
    ensures
        ({
            let open = s.announced(t0).streaming(stream_id, t1);
            &&& open.replay(last, t1).len() > 0
            &&& open.replay(last, t1).last().json == list_changed_doc()
            &&& !open.replayed(last).dirty_tools_list
            &&& open.replayed(None).replay(None, t1).len() == 0
        }),
{
    let open = s.announced(t0).streaming(stream_id, t1);
    replay_takes_what_waited(open, t1);
}

/// A change that was handed to a stream and did not arrive is replayed to a client that
/// comes back and names an earlier record as the last that it has.
pub proof fn lost_changes_are_replayed(s: SessionModel, stream_id: u128, last: Seq<char>, n: nat, t0: u64, t1: u64)
    requires
        s.initialized,
        s.notification_stream is Some,
        s.next_event_seq < u64::MAX,
        seq_of(last) == Some(n),
        n <= s.next_event_seq,
    ensures
        ({
            let open = s.announced(t0).streaming(stream_id, t1);
            exists|j: int|
                0 <= j < open.replay(Some(last), t1).len() && (#[trigger] open.replay(Some(last), t1)[j]).json
                    == list_changed_doc() && open.replay(Some(last), t1)[j].event_id == event_id(
                    s.id,
                    (s.next_event_seq + 1) as u64,
                )
        }),
{
    let after = s.announced(t0);
    let open = after.streaming(stream_id, t1);
    announcements_are_kept(s, t0);
    let r = s.change_record(Some(s.notification_stream->0.stream_id), t0);
    lemma_fresh_keeps_last(s.backlog.push(r), t0);
    let k = open.backlog.len() - 1;
    assert(open.backlog[k] == r);
    event_id_carries_seq(s.id, (s.next_event_seq + 1) as u64);
    let eid = event_id(s.id, (s.next_event_seq + 1) as u64);
    assert(eid.subrange(0, (s.id + ":"@).len() as int) =~= s.id + ":"@);
    replay_is_complete(open, Some(last), n, t1, k);
}

/// The numbers of records never fall.
pub proof fn numbers_never_fall(n: u64)
    ensures
        seq_after(n) >= n,
        n < u64::MAX ==> seq_after(n) == n + 1,
{
}

} // verus!
