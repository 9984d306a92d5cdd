//! The registry of live sessions, and the announcement that goes to all of
//! them.

use vstd::prelude::*;

use super::session::{ClientSession, RecordModel, SessionModel, SseRecord};
use crate::json::Doc;
use crate::name_map::{in_order, pair_keys, view_opt, views, NameMap};
use crate::text::texts;

verus! {

/// One record on its way to one stream of one session.
#[derive(Debug, PartialEq, Eq)]
pub struct Delivery {
    pub session: String,
    pub stream_id: u128,
    pub record: SseRecord,
}

pub struct DeliveryModel {
    pub session: Seq<char>,
    pub stream_id: u128,
    pub record: RecordModel,
}

impl View for Delivery {
    type V = DeliveryModel;

    open spec fn view(&self) -> DeliveryModel {
        DeliveryModel { session: self.session@, stream_id: self.stream_id, record: self.record@ }
    }
}

/// All live client sessions, by their id.
#[derive(Debug, PartialEq, Eq)]
pub struct SessionRegistry {
    pub sessions: NameMap<ClientSession>,
}

impl View for SessionRegistry {
    type V = Map<Seq<char>, SessionModel>;

    open spec fn view(&self) -> Map<Seq<char>, SessionModel> {
        self.sessions@
    }
}

/// A session as `initialize` makes it.
pub open spec fn new_session(id: Seq<char>, now: u64) -> SessionModel {
    SessionModel {
        id,
        initialized: false,
        protocol_version: Seq::empty(),
        client_name: None,
        notification_stream: None,
        backlog: Seq::empty(),
        next_event_seq: 1,
        dirty_tools_list: false,
        last_seen: now,
    }
}

/// The session after its stream is closed from this side.
pub open spec fn closed_stream(s: SessionModel) -> SessionModel {
    SessionModel { notification_stream: None, ..s }
}

/// Whether a session was last active more than `max_age` before `now`.
pub open spec fn idle_too_long(s: SessionModel, now: u64, max_age: u64) -> bool {
    now - s.last_seen > max_age
}

/// The deliveries of one announcement to the sessions `ids`, in their order.
pub open spec fn deliveries(
    sessions: Map<Seq<char>, SessionModel>,
    ids: Seq<Seq<char>>,
    now: u64,
) -> Seq<DeliveryModel>
    decreases ids.len(),
{
    if ids.len() == 0 {
        Seq::empty()
    } else {
        let s = sessions[ids.last()];
        let front = deliveries(sessions, ids.drop_last(), now);
        if s.reachable() {
            let stream_id = s.notification_stream->0.stream_id;
            front.push(
                DeliveryModel {
                    session: ids.last(),
                    stream_id,
                    record: s.change_record(Some(stream_id), now),
                },
            )
        } else {
            front
        }
    }
}

/// `uuid::Uuid::new_v4().to_string()`: a random id in its hyphenated form, 36
/// characters of which none is `:`.
#[verifier::external_body]
pub(crate) fn fresh_session_id() -> (r: String)
    ensures
        r@.len() == 36,
        forall|i: int| 0 <= i < r@.len() ==> #[trigger] r@[i] != ':',
{
    uuid::Uuid::new_v4().to_string()
}

impl Default for SessionRegistry {
    fn default() -> (r: Self)
        ensures
            r@ == Map::<Seq<char>, SessionModel>::empty(),
    {
        SessionRegistry::new()
    }
}

impl SessionRegistry {
    pub fn new() -> (r: Self)
        ensures
            r@ == Map::<Seq<char>, SessionModel>::empty(),
    {
        SessionRegistry { sessions: NameMap::new() }
    }

    fn take_sessions(&mut self) -> (r: NameMap<ClientSession>)
        ensures
            r@ == old(self)@,
    {
        let mut m: NameMap<ClientSession> = NameMap::new();
        core::mem::swap(&mut m, &mut self.sessions);
        m
    }

    /// Register a fresh session under `id`.
    pub fn create_as(&mut self, id: &str, now: u64)
        ensures
            final(self)@ == old(self)@.insert(id@, new_session(id@, now)),
    {
        let session = ClientSession {
            id: id.to_owned(),
            initialized: false,
            protocol_version: String::new(),
            client_name: None,
            notification_stream: None,
            backlog: Vec::new(),
            next_event_seq: 1,
            dirty_tools_list: false,
            last_seen: now,
        };
        assert(views(session.backlog@) =~= Seq::<RecordModel>::empty());
        let m = self.take_sessions();
        self.sessions = m.put(id.to_owned(), session);
    }

    /// Register a fresh session under a new random id, and return that id.
    pub fn create(&mut self, now: u64) -> (r: String)
        ensures
            final(self)@ == old(self)@.insert(r@, new_session(r@, now)),
            r@.len() == 36,
    {
        let id = fresh_session_id();
        self.create_as(id.as_str(), now);
        id
    }

    /// Look up a live session by its id.
    pub fn get(&self, id: &str) -> (r: Option<&ClientSession>)
        ensures
            r is Some <==> self@.contains_key(id@),
            r matches Some(s) ==> s@ == self@[id@],
    {
        self.sessions.get(id)
    }

    /// Put a session back under `id` in place of the one that is there.
    pub fn store(&mut self, id: &str, session: ClientSession)
        ensures
            final(self)@ == old(self)@.insert(id@, session@),
    {
        let m = self.take_sessions();
        self.sessions = m.put(id.to_owned(), session);
    }

    /// Take a session out to change it.
    pub fn check_out(&mut self, id: &str) -> (r: Option<ClientSession>)
        ensures
            final(self)@ == old(self)@.remove(id@),
            r is Some <==> old(self)@.contains_key(id@),
            r matches Some(s) ==> s@ == old(self)@[id@],
    {
        let m = self.take_sessions();
        let (rest, s) = m.taken(id);
        self.sessions = rest;
        s
    }

    /// Remove a session and close its stream.
    pub fn remove(&mut self, id: &str) -> (r: Option<ClientSession>)
        ensures
            final(self)@ == old(self)@.remove(id@),
            r is Some <==> old(self)@.contains_key(id@),
            r matches Some(s) ==> s@ == closed_stream(old(self)@[id@]),
    {
        match self.check_out(id) {
            Some(s) => {
                let mut gone = s;
                gone.notification_stream = None;
                Some(gone)
            },
            None => None,
        }
    }

    /// Note that a session's client has sent `notifications/initialized`.
    pub fn mark_initialized(&mut self, id: &str)
        ensures
            final(self)@ == if old(self)@.contains_key(id@) {
                old(self)@.insert(id@, SessionModel { initialized: true, ..old(self)@[id@] })
            } else {
                old(self)@
            },
    {
        let ghost whole = self@;
        match self.check_out(id) {
            Some(s) => {
                let mut next = s;
                next.initialized = true;
                self.store(id, next);
                assert(self@ =~= whole.insert(id@, SessionModel { initialized: true, ..whole[id@] }));
            },
            None => {
                assert(self@ =~= whole);
            },
        }
    }

    /// Close every stream and keep the sessions.
    pub fn close_all_streams(&mut self)
        ensures
            final(self)@ == old(self)@.map_values(|s: SessionModel| closed_stream(s)),
    {
        let ghost whole = self@;
        let ghost goal = self@.map_values(|s: SessionModel| closed_stream(s));
        self.sessions.facts();
        let ids = self.sessions.keys();
        let ghost order = texts(ids@);
        let mut i: usize = 0;
        while i < ids.len()
            invariant
                i <= ids.len(),
                order == texts(ids@),
                order.to_set() =~= whole.dom(),
                goal == whole.map_values(|s: SessionModel| closed_stream(s)),
                self@.dom() =~= whole.dom(),
                forall|x: Seq<char>| #[trigger]
                    whole.contains_key(x) ==> self@[x] == goal[x] || self@[x] == whole[x],
                forall|k: int| 0 <= k < i ==> self@[#[trigger] order[k]] == goal[order[k]],
            decreases ids.len() - i,
        {
            assert(order[i as int] == ids@[i as int]@);
            assert(order.to_set().contains(order[i as int]));
            let ghost before = self@;
            match self.check_out(ids[i].as_str()) {
                Some(s) => {
                    let mut next = s;
                    next.notification_stream = None;
                    self.store(ids[i].as_str(), next);
                },
                None => {},
            }
            i = i + 1;
        }
        proof {
            assert forall|x: Seq<char>| whole.contains_key(x) implies self@[x] == goal[x] by {
                assert(order.to_set().contains(x));
                let k = choose|k: int| 0 <= k < order.len() && order[k] == x;
                assert(self@[order[k]] == goal[order[k]]);
            }
            assert(self@ =~= goal);
        }
    }

    /// Announce a change of the tool list to every session. What comes back is
    /// to be sent; each of those records is already kept for replay.
    pub fn broadcast_tools_list_changed(&mut self, now: u64) -> (r: Vec<Delivery>)
        ensures
            final(self)@ == old(self)@.map_values(|s: SessionModel| s.announced(now)),
            views(r@) == deliveries(old(self)@, in_order(old(self)@.dom()), now),
            forall|id: Seq<char>| #[trigger]
                old(self)@.contains_key(id) && old(self)@[id].initialized && old(self)@[id].notification_stream is Some
                    ==> exists|i: int| 0 <= i < views(r@).len() && (#[trigger] views(r@)[i]).session == id,
            forall|id: Seq<char>| #[trigger]
                old(self)@.contains_key(id) && !(old(self)@[id].initialized && old(self)@[id].notification_stream is Some)
                    ==> final(self)@[id].dirty_tools_list,
            final(self)@.dom() == old(self)@.dom(),
    {
        let ghost whole = self@;
        let ghost goal = self@.map_values(|s: SessionModel| s.announced(now));
        self.sessions.facts();
        proof {
            broadcasts_reach_every_open_stream(self@, now);
            assert(goal.dom() =~= self@.dom());
        }
        let ghost pairs = self.sessions.pairs();
        let ids = self.sessions.keys();
        let ghost order = texts(ids@);
        let mut out: Vec<Delivery> = Vec::new();
        assert(order.subrange(0, 0) =~= Seq::<Seq<char>>::empty());
        assert(views(out@) =~= Seq::<DeliveryModel>::empty());
        let mut i: usize = 0;
        while i < ids.len()
            invariant
                i <= ids.len(),
                order == texts(ids@),
                order == in_order(whole.dom()),
                crate::name_map::ascending(order),
                order.to_set() =~= whole.dom(),
                goal == whole.map_values(|s: SessionModel| s.announced(now)),
                self@.dom() =~= whole.dom(),
                forall|k: int| 0 <= k < i ==> self@[#[trigger] order[k]] == goal[order[k]],
                forall|k: int| i <= k < order.len() ==> self@[#[trigger] order[k]] == whole[order[k]],
                views(out@) == deliveries(whole, order.subrange(0, i as int), now),
            decreases ids.len() - i,
        {
            assert(order[i as int] == ids@[i as int]@);
            assert(order.to_set().contains(order[i as int]));
            let ghost before = self@;
            let ghost prev = views(out@);
            let ghost step = order.subrange(0, i + 1);
            assert(step.drop_last() =~= order.subrange(0, i as int));
            assert(step.last() == order[i as int]);
            assert(before[order[i as int]] == whole[order[i as int]]);
            match self.check_out(ids[i].as_str()) {
                Some(s) => {
                    let mut next = s;
                    let sent = next.announce(now);
                    self.store(ids[i].as_str(), next);
                    if let Some(d) = sent {
                        let del = Delivery { session: ids[i].clone(), stream_id: d.0, record: d.1 };
                        out.push(del);
                        assert(views(out@) =~= prev.push(del@));
                    }
                },
                None => {},
            }
            proof {
                assert forall|k: int| 0 <= k < order.len() && k != i implies self@[#[trigger] order[k]]
                    == before[order[k]] by {
                    if order[k] == order[i as int] {
                        crate::name_map::before_irreflexive(order[k]);
                        if k < i {
                            assert(crate::name_map::before(order[k], order[i as int]));
                        } else {
                            assert(crate::name_map::before(order[i as int], order[k]));
                        }
                    }
                }
            }
            i = i + 1;
        }
        proof {
            assert(order.subrange(0, order.len() as int) =~= order);
            assert forall|x: Seq<char>| whole.contains_key(x) implies self@[x] == goal[x] by {
                assert(order.to_set().contains(x));
                let k = choose|k: int| 0 <= k < order.len() && order[k] == x;
                assert(self@[order[k]] == goal[order[k]]);
            }
            assert(self@ =~= goal);
        }
        out
    }

    /// Note that a record could not be sent: the stream is closed where it is
    /// still the session's, and the change stays pending.
    pub fn delivery_failed(&mut self, session: &str, stream_id: u128)
        ensures
            final(self)@ == if old(self)@.contains_key(session@) {
                old(self)@.insert(session@, old(self)@[session@].undelivered(stream_id))
            } else {
                old(self)@
            },
    {
        let ghost whole = self@;
        match self.check_out(session) {
            Some(s) => {
                let mut next = s;
                next.delivery_failed(stream_id);
                self.store(session, next);
                assert(self@ =~= whole.insert(session@, whole[session@].undelivered(stream_id)));
            },
            None => {
                assert(self@ =~= whole);
            },
        }
    }
}

/// The sessions that are not idle too long.
pub open spec fn active_sessions(
    sessions: Map<Seq<char>, SessionModel>,
    max_age: u64,
    now: u64,
) -> Map<Seq<char>, SessionModel> {
    sessions.restrict(
        sessions.dom().filter(|id: Seq<char>| !idle_too_long(sessions[id], now, max_age)),
    )
}

/// What reaping leaves: the active sessions, and of those no more than `cap`.
/// Where there are more, `cap` of them stay, and none that goes was seen after
/// one that stays.
pub open spec fn reaped(
    before: Map<Seq<char>, SessionModel>,
    after: Map<Seq<char>, SessionModel>,
    max_age: u64,
    cap: nat,
    now: u64,
) -> bool {
    let active = active_sessions(before, max_age, now);
    if active.dom().len() <= cap {
        after == active
    } else {
        &&& after.submap_of(active)
        &&& after.dom().len() == cap
        &&& forall|gone: Seq<char>, stays: Seq<char>|
            active.contains_key(gone) && !after.contains_key(gone) && after.contains_key(stays)
                ==> #[trigger] active[gone].last_seen <= #[trigger] after[stays].last_seen
    }
}

impl SessionRegistry {
    /// The id of a session that was seen no later than any other.
    fn oldest(&self) -> (r: String)
        requires
            self@.dom().len() > 0,
        ensures
            self@.contains_key(r@),
            forall|x: Seq<char>| #[trigger]
                self@.contains_key(x) ==> self@[r@].last_seen <= self@[x].last_seen,
    {
        self.sessions.facts();
        let ghost pairs = self.sessions.pairs();
        let n: usize = self.sessions.len();
        let mut best: usize = 0;
        let mut i: usize = 1;
        while i < n
            invariant
                n == pairs.len(),
                pairs == self.sessions.pairs(),
                best < n,
                i <= n,
                best < i,
                forall|k: int| 0 <= k < i ==> pairs[best as int].1.last_seen <= (#[trigger] pairs[k]).1.last_seen,
            decreases n - i,
        {
            if self.sessions.value_at(i).last_seen < self.sessions.value_at(best).last_seen {
                best = i;
            }
            i = i + 1;
        }
        proof {
            assert forall|x: Seq<char>| #[trigger] self@.contains_key(x) implies pairs[best as int].1.last_seen
                <= self@[x].last_seen by {
                let k = choose|k: int| 0 <= k < pairs.len() && (#[trigger] pairs[k]).0 == x;
                assert(pairs[best as int].1.last_seen <= pairs[k].1.last_seen);
                assert(self@[pairs[k].0] == pairs[k].1);
            }
            assert(self@[pairs[best as int].0] == pairs[best as int].1);
        }
        self.sessions.key_at(best).clone()
    }

    /// Evict the sessions that are idle for more than `max_age`, then the
    /// longest-idle ones as long as more than `cap` are left. Returns the ids
    /// that went.
    pub fn reap_idle(&mut self, max_age: u64, cap: usize, now: u64) -> (r: Vec<String>)
        ensures
            reaped(old(self)@, final(self)@, max_age, cap as nat, now),
            texts(r@).to_set() == old(self)@.dom().difference(final(self)@.dom()),
            r@.len() + final(self)@.dom().len() == old(self)@.dom().len(),
    {
        let ghost whole = self@;
        let ghost active = active_sessions(whole, max_age, now);
        self.sessions.facts();
        let ids = self.sessions.keys();
        let ghost order = texts(ids@);
        let mut gone: Vec<String> = Vec::new();
        assert(texts(gone@).to_set() =~= Set::<Seq<char>>::empty());
        let mut i: usize = 0;
        while i < ids.len()
            invariant
                i <= ids.len(),
                order == texts(ids@),
                order.to_set() =~= whole.dom(),
                self@.submap_of(whole),
                active == active_sessions(whole, max_age, now),
                forall|x: Seq<char>| #[trigger]
                    whole.contains_key(x) ==> (self@.contains_key(x) || idle_too_long(whole[x], now, max_age)),
                forall|k: int|
                    0 <= k < i ==> self@.contains_key(#[trigger] order[k]) ==> !idle_too_long(
                        whole[order[k]],
                        now,
                        max_age,
                    ),
                texts(gone@).to_set() =~= whole.dom().difference(self@.dom()),
                self@.dom().finite(),
                gone@.len() + self@.dom().len() == whole.dom().len(),
            decreases ids.len() - i,
        {
            assert(order[i as int] == ids@[i as int]@);
            assert(order.to_set().contains(order[i as int]));
            let idle = match self.get(ids[i].as_str()) {
                Some(s) => now > s.last_seen && now - s.last_seen > max_age,
                None => false,
            };
            if idle {
                let ghost prev = texts(gone@);
                let ghost before = self@;
                let _ = self.remove(ids[i].as_str());
                gone.push(ids[i].clone());
                proof {
                    assert(before.dom().contains(ids@[i as int]@));
                    assert(self@.dom() =~= before.dom().remove(ids@[i as int]@));
                    assert(texts(gone@) =~= prev.push(order[i as int]));
                    lemma_push_to_set(prev, order[i as int]);
                }
            }
            i = i + 1;
        }
        proof {
            assert forall|x: Seq<char>| self@.contains_key(x) == active.contains_key(x) by {
                if self@.contains_key(x) {
                    assert(order.to_set().contains(x));
                    let k = choose|k: int| 0 <= k < order.len() && order[k] == x;
                    assert(self@.contains_key(order[k]));
                }
            }
            assert(self@ =~= active);
        }
        self.sessions.facts();
        while self.sessions.len() > cap
            invariant
                self@.submap_of(active),
                active.submap_of(whole),
                self@.dom().finite(),
                active.dom().len() <= cap ==> self@ == active,
                active.dom().len() > cap ==> self@.dom().len() >= cap,
                forall|g: Seq<char>, st: Seq<char>|
                    active.contains_key(g) && !self@.contains_key(g) && self@.contains_key(st)
                        ==> #[trigger] active[g].last_seen <= #[trigger] self@[st].last_seen,
                texts(gone@).to_set() =~= whole.dom().difference(self@.dom()),
                gone@.len() + self@.dom().len() == whole.dom().len(),
            decreases self@.dom().len(),
        {
            let id = self.oldest();
            let ghost prev = texts(gone@);
            let ghost before = self@;
            let _ = self.remove(id.as_str());
            gone.push(id);
            proof {
                assert(self@.dom() =~= before.dom().remove(id@));
                assert(texts(gone@) =~= prev.push(id@));
                lemma_push_to_set(prev, id@);
                assert(before.dom().contains(id@));
                assert(active.dom().contains(id@));
                assert(whole.dom().contains(id@));
                assert(texts(gone@).to_set() =~= whole.dom().difference(self@.dom()));
                assert forall|g: Seq<char>, st: Seq<char>|
                    active.contains_key(g) && !self@.contains_key(g) && self@.contains_key(st) implies
                    #[trigger] active[g].last_seen <= #[trigger] self@[st].last_seen by {
                    assert(before.contains_key(st));
                    assert(self@[st] == before[st]);
                    if g != id@ {
                        assert(!before.contains_key(g));
                        assert(active[g].last_seen <= before[st].last_seen);
                    } else {
                        assert(active[g] == before[id@]);
                    }
                }
            }
        }
        gone
    }
}

proof fn lemma_push_to_set(s: Seq<Seq<char>>, x: Seq<char>)
    ensures
        s.push(x).to_set() =~= s.to_set().insert(x),
{
    let t = s.push(x);
    assert(t[t.len() - 1] == x);
    assert forall|y: Seq<char>| s.to_set().insert(x).contains(y) implies t.to_set().contains(y) by {
        if y != x {
            let k = choose|k: int| 0 <= k < s.len() && s[k] == y;
            assert(t[k] == y);
        }
    }
    assert forall|y: Seq<char>| t.to_set().contains(y) implies s.to_set().insert(x).contains(y) by {
        let k = choose|k: int| 0 <= k < t.len() && t[k] == y;
        if k < s.len() {
            assert(s[k] == y);
        }
    }
}

/// Reaping never leaves more sessions than the cap, nor one that is idle too
/// long, and changes none that it leaves.
pub proof fn reaping_bounds_sessions(
    before: Map<Seq<char>, SessionModel>,
    after: Map<Seq<char>, SessionModel>,
    max_age: u64,
    cap: nat,
    now: u64,
)
    requires
        reaped(before, after, max_age, cap, now),
    ensures
        after.dom().len() <= cap,
        after.submap_of(before),
        forall|id: Seq<char>| #[trigger] after.contains_key(id) ==> !idle_too_long(after[id], now, max_age),
{
    let active = active_sessions(before, max_age, now);
    assert(active.submap_of(before));
    assert(after.submap_of(active));
    assert forall|id: Seq<char>| #[trigger] after.contains_key(id) implies !idle_too_long(after[id], now, max_age)
        && before.contains_key(id) && before[id] == after[id] by {
        assert(after.dom().contains(id));
        assert(active.dom().contains(id));
    }
}

/// One live session as the user sees it.
#[derive(Debug, PartialEq, Eq)]
pub struct LiveSession {
    pub client_name: Option<String>,
    /// Seconds since it was last active.
    pub idle_secs: u64,
}

pub struct LiveModel {
    pub client_name: Option<Seq<char>>,
    pub idle_secs: u64,
}

impl View for LiveSession {
    type V = LiveModel;

    open spec fn view(&self) -> LiveModel {
        LiveModel { client_name: view_opt(self.client_name), idle_secs: self.idle_secs }
    }
}

/// The whole seconds that a session was idle at `now`.
pub open spec fn idle_secs(s: SessionModel, now: u64) -> u64 {
    if now > s.last_seen {
        ((now - s.last_seen) / 1000) as u64
    } else {
        0
    }
}

/// The live sessions among `ids`: those whose clients are initialized.
pub open spec fn live_sessions(sessions: Map<Seq<char>, SessionModel>, ids: Seq<Seq<char>>, now: u64) -> Seq<LiveModel>
    decreases ids.len(),
{
    if ids.len() == 0 {
        Seq::empty()
    } else {
        let s = sessions[ids.last()];
        let front = live_sessions(sessions, ids.drop_last(), now);
        if s.initialized {
            front.push(LiveModel { client_name: s.client_name, idle_secs: idle_secs(s, now) })
        } else {
            front
        }
    }
}

impl SessionRegistry {
    /// The live sessions, in the order of their ids.
    pub fn snapshot(&self, now: u64) -> (r: Vec<LiveSession>)
        ensures
            views(r@) == live_sessions(self@, in_order(self@.dom()), now),
    {
        self.sessions.facts();
        let ghost pairs = self.sessions.pairs();
        let ghost order = pair_keys(pairs);
        let n: usize = self.sessions.len();
        let mut out: Vec<LiveSession> = Vec::new();
        assert(order.subrange(0, 0) =~= Seq::<Seq<char>>::empty());
        assert(views(out@) =~= Seq::<LiveModel>::empty());
        let mut i: usize = 0;
        while i < n
            invariant
                i <= n,
                n == pairs.len(),
                pairs == self.sessions.pairs(),
                order == pair_keys(pairs),
                forall|k: int|
                    0 <= k < pairs.len() ==> self@.contains_key((#[trigger] pairs[k]).0) && self@[pairs[k].0]
                        == pairs[k].1,
                views(out@) == live_sessions(self@, order.subrange(0, i as int), now),
            decreases n - i,
        {
            let ghost prev = views(out@);
            let ghost step = order.subrange(0, i + 1);
            assert(step.drop_last() =~= order.subrange(0, i as int));
            let s = self.sessions.value_at(i);
            assert(step.last() == pairs[i as int].0);
            assert(pairs[i as int].1 == s@);
            if s.initialized {
                let secs: u64 = if now > s.last_seen {
                    (now - s.last_seen) / 1000
                } else {
                    0
                };
                let one = LiveSession {
                    client_name: crate::name_map::replica_opt(&s.client_name),
                    idle_secs: secs,
                };
                out.push(one);
                assert(views(out@) =~= prev.push(one@));
            }
            i = i + 1;
        }
        assert(order.subrange(0, order.len() as int) =~= order);
        out
    }
}

/// A broadcast reaches everybody: for every session that is initialized and has a
/// stream open there is exactly one delivery, on that stream, of the notice that the
/// tool list changed, and there is none for any other session.
pub proof fn broadcasts_reach_every_open_stream(sessions: Map<Seq<char>, SessionModel>, now: u64)
    requires
        sessions.dom().finite(),
    ensures
        ({
            let sent = deliveries(sessions, in_order(sessions.dom()), now);
            &&& forall|id: Seq<char>| #[trigger]
                sessions.contains_key(id) && sessions[id].initialized && sessions[id].notification_stream is Some
                    ==> exists|i: int| 0 <= i < sent.len() && (#[trigger] sent[i]).session == id
            &&& forall|i: int|
                0 <= i < sent.len() ==> {
                    let d = #[trigger] sent[i];
                    let s = sessions[d.session];
                    &&& sessions.contains_key(d.session)
                    &&& s.initialized
                    &&& s.notification_stream is Some
                    &&& d.stream_id == s.notification_stream->0.stream_id
                    &&& d.record.stream_id == Some(d.stream_id)
                    &&& d.record.json.member("method"@) == Some(Doc::Text("notifications/tools/list_changed"@))
                    &&& d.record.json.member("id"@) is None
                    &&& d.record.created_at == now
                    &&& super::session::seq_of(d.record.event_id) is Some
                    &&& s.next_event_seq < u64::MAX ==> super::session::seq_of(d.record.event_id)->0
                        > s.next_event_seq
                    &&& crate::text::occurs_at(d.record.event_id, s.id + ":"@, 0)
                }
            &&& forall|i: int, j: int|
                0 <= i < sent.len() && 0 <= j < sent.len() && (#[trigger] sent[i]).session == (
                #[trigger] sent[j]).session ==> i == j
        }),
{
    let ids = in_order(sessions.dom());
    crate::name_map::in_order_lists(sessions.dom());
    crate::name_map::lemma_ascending_distinct(ids);
    lemma_deliveries(sessions, ids, now);
    let sent = deliveries(sessions, ids, now);
    assert forall|id: Seq<char>| #[trigger]
        sessions.contains_key(id) && sessions[id].initialized && sessions[id].notification_stream is Some implies exists|
        i: int,
    | 0 <= i < sent.len() && (#[trigger] sent[i]).session == id by {
        assert(ids.to_set().contains(id));
        let n = choose|n: int| 0 <= n < ids.len() && ids[n] == id;
        assert(ids[n] == id);
    }
    assert forall|i: int| 0 <= i < sent.len() implies {
        let d = #[trigger] sent[i];
        let s = sessions[d.session];
        &&& sessions.contains_key(d.session)
        &&& s.initialized
        &&& s.notification_stream is Some
        &&& d.stream_id == s.notification_stream->0.stream_id
        &&& d.record.stream_id == Some(d.stream_id)
        &&& d.record.json.member("method"@) == Some(Doc::Text("notifications/tools/list_changed"@))
        &&& d.record.json.member("id"@) is None
        &&& d.record.created_at == now
        &&& super::session::seq_of(d.record.event_id) is Some
        &&& s.next_event_seq < u64::MAX ==> super::session::seq_of(d.record.event_id)->0 > s.next_event_seq
        &&& crate::text::occurs_at(d.record.event_id, s.id + ":"@, 0)
    } by {
        let d = sent[i];
        let s = sessions[d.session];
        super::sse::notice_names_its_method();
        super::session::event_id_carries_seq(s.id, super::session::seq_after(s.next_event_seq));
        let eid = super::session::event_id(s.id, super::session::seq_after(s.next_event_seq));
        assert(eid.subrange(0, (s.id + ":"@).len() as int) =~= s.id + ":"@);
    }
}

proof fn lemma_deliveries(sessions: Map<Seq<char>, SessionModel>, ids: Seq<Seq<char>>, now: u64)
    requires
        forall|i: int, j: int| 0 <= i < ids.len() && 0 <= j < ids.len() && ids[i] == ids[j] ==> i == j,
    ensures
        ({
            let sent = deliveries(sessions, ids, now);
            &&& forall|n: int|
                0 <= n < ids.len() && sessions[#[trigger] ids[n]].reachable() ==> exists|i: int|
                    0 <= i < sent.len() && (#[trigger] sent[i]).session == ids[n]
            &&& forall|i: int|
                0 <= i < sent.len() ==> {
                    let d = #[trigger] sent[i];
                    let s = sessions[d.session];
                    &&& ids.contains(d.session)
                    &&& s.reachable()
                    &&& d.stream_id == s.notification_stream->0.stream_id
                    &&& d.record == s.change_record(Some(d.stream_id), now)
                }
            &&& forall|i: int, j: int|
                0 <= i < sent.len() && 0 <= j < sent.len() && (#[trigger] sent[i]).session == (
                #[trigger] sent[j]).session ==> i == j
        }),
    decreases ids.len(),
{
    if ids.len() > 0 {
        let front = ids.drop_last();
        let last = ids.last();
        assert forall|i: int, j: int| 0 <= i < front.len() && 0 <= j < front.len() && front[i] == front[j] implies i
            == j by {
            assert(front[i] == ids[i] && front[j] == ids[j]);
        }
        lemma_deliveries(sessions, front, now);
        let before = deliveries(sessions, front, now);
        let sent = deliveries(sessions, ids, now);
        assert(!front.contains(last)) by {
            if front.contains(last) {
                let i = choose|i: int| 0 <= i < front.len() && front[i] == last;
                assert(ids[i] == ids[ids.len() - 1]);
            }
        }
        assert forall|i: int| 0 <= i < before.len() implies sent[i] == before[i] && before[i].session != last by {
            assert(front.contains(before[i].session));
        }
        assert forall|n: int| 0 <= n < ids.len() && sessions[#[trigger] ids[n]].reachable() implies exists|i: int|
            0 <= i < sent.len() && (#[trigger] sent[i]).session == ids[n] by {
            if n < front.len() {
                assert(front[n] == ids[n]);
                let i = choose|i: int| 0 <= i < before.len() && (#[trigger] before[i]).session == front[n];
                assert(sent[i].session == ids[n]);
            } else {
                assert(sent[sent.len() - 1].session == ids[n]);
            }
        }
        assert forall|i: int| 0 <= i < sent.len() implies ids.contains((#[trigger] sent[i]).session) by {
            if i < before.len() {
                let s = before[i].session;
                let k = choose|k: int| 0 <= k < front.len() && front[k] == s;
                assert(ids[k] == s);
            } else {
                assert(ids[ids.len() - 1] == sent[i].session);
            }
        }
    }
}

/// Ending every stream leaves no session with one, and touches nothing else.
pub proof fn closing_streams_keeps_sessions(sessions: Map<Seq<char>, SessionModel>, id: Seq<char>)
    ensures
        ({
            let after = sessions.map_values(|s: SessionModel| closed_stream(s));
            &&& after.contains_key(id) == sessions.contains_key(id)
            &&& sessions.contains_key(id) ==> after[id].notification_stream is None
            &&& sessions.contains_key(id) ==> after[id] == (SessionModel { notification_stream: None, ..sessions[id] })
        }),
{
}

/// Reaping takes nobody who was active lately while there is room, and everybody who
/// was not. Where there is no room, nobody who stays was active before one who goes.
pub proof fn reaping_takes_the_idle(
    before: Map<Seq<char>, SessionModel>,
    after: Map<Seq<char>, SessionModel>,
    max_age: u64,
    cap: nat,
    now: u64,
    id: Seq<char>,
    other: Seq<char>,
)
    requires
        before.dom().finite(),
        before.contains_key(id),
        reaped(before, after, max_age, cap, now),
    ensures
        now - before[id].last_seen > max_age ==> !after.contains_key(id),
        before.dom().len() <= cap && now - before[id].last_seen <= max_age ==> after.contains_key(id),
        after.contains_key(id) ==> after[id] == before[id],
        !after.contains_key(id) && now - before[id].last_seen <= max_age && after.contains_key(other)
            ==> before[id].last_seen <= before[other].last_seen,
        !after.contains_key(id) && now - before[id].last_seen <= max_age ==> after.dom().len() == cap,
{
    let active = active_sessions(before, max_age, now);
    assert(active.dom().subset_of(before.dom()));
    vstd::set_lib::lemma_len_subset(active.dom(), before.dom());
    if !after.contains_key(id) && now - before[id].last_seen <= max_age && after.contains_key(other) {
        assert(active.contains_key(id));
        assert(active[id].last_seen <= after[other].last_seen);
        assert(active.contains_key(other));
    }
    assert(before.dom().contains(id));
    if now - before[id].last_seen <= max_age {
        assert(active.contains_key(id));
    } else {
        assert(!active.contains_key(id));
    }
}

/// The live sessions that are shown are those that are initialized, one for each.
pub proof fn live_sessions_are_the_initialized(sessions: Map<Seq<char>, SessionModel>, now: u64)
    requires
        sessions.dom().finite(),
    ensures
        live_sessions(sessions, in_order(sessions.dom()), now).len() == sessions.dom().filter(
            |id: Seq<char>| sessions[id].initialized,
        ).len(),
        ({
            let live = live_sessions(sessions, in_order(sessions.dom()), now);
            forall|id: Seq<char>| #[trigger]
                sessions.contains_key(id) && sessions[id].initialized ==> exists|i: int|
                    0 <= i < live.len() && (#[trigger] live[i]).client_name == sessions[id].client_name && (now
                        >= sessions[id].last_seen ==> live[i].idle_secs == (now - sessions[id].last_seen) / 1000)
        }),
{
    let ids = in_order(sessions.dom());
    crate::name_map::in_order_lists(sessions.dom());
    crate::name_map::lemma_ascending_distinct(ids);
    lemma_live(sessions, ids, now);
    assert(ids.to_set().filter(|id: Seq<char>| sessions[id].initialized) =~= sessions.dom().filter(
        |id: Seq<char>| sessions[id].initialized,
    ));
    let live = live_sessions(sessions, ids, now);
    assert forall|id: Seq<char>| #[trigger] sessions.contains_key(id) && sessions[id].initialized implies exists|i: int|
        {
            0 <= i < live.len() && (#[trigger] live[i]).client_name == sessions[id].client_name && (now
                >= sessions[id].last_seen ==> live[i].idle_secs == (now - sessions[id].last_seen) / 1000)
        } by {
        assert(ids.to_set().contains(id));
        let n = choose|n: int| 0 <= n < ids.len() && ids[n] == id;
        let i = choose|i: int| 0 <= i < live.len() && (#[trigger] live[i]) == (LiveModel {
            client_name: sessions[ids[n]].client_name,
            idle_secs: idle_secs(sessions[ids[n]], now),
        });
        assert(live[i].client_name == sessions[id].client_name);
    }
}

proof fn lemma_live(sessions: Map<Seq<char>, SessionModel>, ids: Seq<Seq<char>>, now: u64)
    requires
        forall|i: int, j: int| 0 <= i < ids.len() && 0 <= j < ids.len() && ids[i] == ids[j] ==> i == j,
    ensures
        ids.to_set().finite(),
        live_sessions(sessions, ids, now).len() == ids.to_set().filter(
            |id: Seq<char>| sessions[id].initialized,
        ).len(),
        ({
            let live = live_sessions(sessions, ids, now);
            forall|n: int|
                0 <= n < ids.len() && sessions[#[trigger] ids[n]].initialized ==> exists|i: int|
                    0 <= i < live.len() && (#[trigger] live[i]) == (LiveModel {
                        client_name: sessions[ids[n]].client_name,
                        idle_secs: idle_secs(sessions[ids[n]], now),
                    })
        }),
    decreases ids.len(),
{
    let init = |id: Seq<char>| sessions[id].initialized;
    if ids.len() > 0 {
        let front = ids.drop_last();
        let last = ids.last();
        assert forall|i: int, j: int| 0 <= i < front.len() && 0 <= j < front.len() && front[i] == front[j] implies i
            == j by {
            assert(front[i] == ids[i] && front[j] == ids[j]);
        }
        lemma_live(sessions, front, now);
        assert(ids =~= front.push(last));
        lemma_push_to_set(front, last);
        assert(!front.to_set().contains(last)) by {
            if front.to_set().contains(last) {
                let i = choose|i: int| 0 <= i < front.len() && front[i] == last;
                assert(ids[i] == ids[ids.len() - 1]);
            }
        }
        let a = front.to_set().filter(init);
        let b = ids.to_set().filter(init);
        if sessions[last].initialized {
            assert(b =~= a.insert(last));
        } else {
            assert(b =~= a);
        }
        let before = live_sessions(sessions, front, now);
        let live = live_sessions(sessions, ids, now);
        assert forall|n: int| 0 <= n < ids.len() && sessions[#[trigger] ids[n]].initialized implies exists|i: int|
            0 <= i < live.len() && (#[trigger] live[i]) == (LiveModel {
                client_name: sessions[ids[n]].client_name,
                idle_secs: idle_secs(sessions[ids[n]], now),
            }) by {
            if n < front.len() {
                assert(front[n] == ids[n]);
                let i = choose|i: int| 0 <= i < before.len() && (#[trigger] before[i]) == (LiveModel {
                    client_name: sessions[front[n]].client_name,
                    idle_secs: idle_secs(sessions[front[n]], now),
                });
                assert(live[i] == before[i]);
            } else {
                assert(live[live.len() - 1].client_name == sessions[ids[n]].client_name);
            }
        }
    } else {
        assert(ids.to_set() =~= Set::<Seq<char>>::empty());
        assert(ids.to_set().filter(init) =~= Set::<Seq<char>>::empty());
    }
}

/// A new session knows nobody yet and waits for nothing.
pub proof fn new_sessions_are_empty(id: Seq<char>, now: u64)
    ensures
        new_session(id, now).id == id,
        !new_session(id, now).initialized,
        new_session(id, now).client_name is None,
        new_session(id, now).notification_stream is None,
        new_session(id, now).backlog.len() == 0,
        !new_session(id, now).dirty_tools_list,
        new_session(id, now).last_seen == now,
{
}

/// A session is idle for the whole seconds since it was last active.
pub proof fn idle_time_is_told_in_seconds(s: SessionModel, now: u64)
    ensures
        now >= s.last_seen ==> idle_secs(s, now) * 1000 <= now - s.last_seen && now - s.last_seen < idle_secs(s, now) * 1000
            + 1000,
        now < s.last_seen ==> idle_secs(s, now) == 0,
{
}

} // verus!
