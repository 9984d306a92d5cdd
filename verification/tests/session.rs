use patchbay::gateway::registry::SessionRegistry;
use patchbay::gateway::session::{parse_seq, ClientSession, SseRecord, BACKLOG_MAX_AGE, BACKLOG_MAX_RECORDS};
use patchbay::gateway::sse::{event_from_record, list_changed_notification};
use patchbay::json::Json;
use patchbay::name_map::Replica;

fn method(j: &Json) -> &str {
    j.text_member("method").map(|t| t.as_str()).unwrap_or("")
}

/// Works on one session in place.
fn on<R>(reg: &mut SessionRegistry, id: &str, work: impl FnOnce(&mut ClientSession) -> R) -> R {
    let mut s = reg.check_out(id).unwrap();
    let r = work(&mut s);
    reg.store(id, s);
    r
}

#[test]
fn create_registers_and_gets_back() {
    let mut reg = SessionRegistry::new();
    let id = reg.create(0);
    assert!(id.len() > 8, "session id should be a uuid string");
    let s = reg.get(&id).expect("session must be retrievable");
    assert!(!s.is_initialized());
    assert_eq!(s.id, id);
}

#[test]
fn mark_initialized_flips_flag() {
    let mut reg = SessionRegistry::new();
    let id = reg.create(0);
    assert!(!reg.get(&id).unwrap().is_initialized());
    reg.mark_initialized(&id);
    assert!(reg.get(&id).unwrap().is_initialized());
}

#[test]
fn remove_drops_session() {
    let mut reg = SessionRegistry::new();
    let id = reg.create(0);
    assert!(reg.get(&id).is_some());
    let removed = reg.remove(&id);
    assert!(removed.is_some());
    assert!(reg.get(&id).is_none());
}

#[test]
fn close_all_streams_closes_registered_channels_but_keeps_sessions() {
    let mut reg = SessionRegistry::new();
    let id = reg.create(0);
    on(&mut reg, &id, |s| s.register_stream(0));
    assert!(reg.get(&id).unwrap().notification_stream.is_some());

    reg.close_all_streams();

    assert!(reg.get(&id).is_some(), "session must remain registered");
    assert!(reg.get(&id).unwrap().notification_stream.is_none());
}

#[test]
fn create_yields_distinct_ids() {
    let mut reg = SessionRegistry::new();
    let a = reg.create(0);
    let b = reg.create(0);
    assert_ne!(a, b);
}

#[test]
fn register_replaces_prior_stream_and_generation_guard_holds() {
    let mut reg = SessionRegistry::new();
    let id = reg.create(0);
    reg.mark_initialized(&id);

    let (id_a, gen_a) = on(&mut reg, &id, |s| s.register_stream(0));

    let sent = reg.broadcast_tools_list_changed(0);
    assert_eq!(sent.len(), 1, "A must receive exactly one frame");
    assert_eq!(sent[0].stream_id, id_a);
    assert_eq!(method(&sent[0].record.json), "notifications/tools/list_changed");

    let (id_b, _gen_b) = on(&mut reg, &id, |s| s.register_stream(0));
    assert_ne!(id_a, id_b, "each registration mints a fresh stream_id");

    let sent = reg.broadcast_tools_list_changed(0);
    assert_eq!(sent.len(), 1);
    assert_eq!(sent[0].stream_id, id_b, "only B receives");
    assert_eq!(method(&sent[0].record.json), "notifications/tools/list_changed");

    on(&mut reg, &id, |s| s.unregister_stream(id_a, gen_a));
    let sent = reg.broadcast_tools_list_changed(0);
    assert_eq!(sent.len(), 1, "B must still be canonical after a stale A drop");
    assert_eq!(sent[0].stream_id, id_b);
}

#[test]
fn disconnected_session_coalesces_dirty_into_one_on_connect() {
    let mut reg = SessionRegistry::new();
    let id = reg.create(0);
    reg.mark_initialized(&id);

    reg.broadcast_tools_list_changed(0);
    reg.broadcast_tools_list_changed(0);
    reg.broadcast_tools_list_changed(0);

    let replay = on(&mut reg, &id, |s| s.take_replay_since(None, 0));
    assert_eq!(replay.len(), 1, "multiple broadcasts coalesce to one");
    assert_eq!(method(&replay[0].json), "notifications/tools/list_changed");
    assert!(!reg.get(&id).unwrap().dirty_tools_list, "dirty cleared after coalesce");
}

#[test]
fn last_event_id_replays_higher_seq_records() {
    let mut reg = SessionRegistry::new();
    let id = reg.create(0);
    reg.mark_initialized(&id);

    on(&mut reg, &id, |s| s.register_stream(0));
    let sent = reg.broadcast_tools_list_changed(0);
    let rec = &sent.first().expect("delivered to canonical stream").record;

    let seq: u64 = parse_seq(&rec.event_id).unwrap();
    let last_id = format!("{}:{}", id, seq - 1);
    let replay = on(&mut reg, &id, |s| s.take_replay_since(Some(&last_id), 0));
    assert_eq!(replay.len(), 1, "the higher-seq record is replayed");
    assert_eq!(method(&replay[0].json), "notifications/tools/list_changed");
}

#[test]
fn broadcast_skips_uninitialized_session_but_sets_dirty() {
    let mut reg = SessionRegistry::new();
    let id = reg.create(0);
    assert!(reg.broadcast_tools_list_changed(0).is_empty());
    assert!(reg.get(&id).unwrap().dirty_tools_list);

    reg.mark_initialized(&id);
    let replay = on(&mut reg, &id, |s| s.take_replay_since(None, 0));
    assert_eq!(replay.len(), 1, "coalesced list_changed delivered post-init");
}

#[test]
fn parse_seq_extracts_trailing_number() {
    assert_eq!(parse_seq("abc-def:42"), Some(42));
    assert_eq!(parse_seq("sess:0"), Some(0));
    assert_eq!(parse_seq("no-colon"), None);
    assert_eq!(parse_seq("sess:notanumber"), None);
}

#[test]
fn a_failed_delivery_closes_the_stream_and_waits_for_the_next() {
    let mut reg = SessionRegistry::new();
    let id = reg.create(0);
    reg.mark_initialized(&id);
    on(&mut reg, &id, |s| s.register_stream(0));
    let sent = reg.broadcast_tools_list_changed(0);
    reg.delivery_failed(&id, sent[0].stream_id);
    let s = reg.get(&id).unwrap();
    assert!(s.notification_stream.is_none());
    assert!(s.dirty_tools_list);
}

#[test]
fn the_backlog_is_bounded_in_number_and_age() {
    let mut reg = SessionRegistry::new();
    let id = reg.create(0);
    reg.mark_initialized(&id);
    on(&mut reg, &id, |s| s.register_stream(0));
    for _ in 0..BACKLOG_MAX_RECORDS + 5 {
        reg.broadcast_tools_list_changed(0);
    }
    assert!(reg.get(&id).unwrap().backlog.len() <= BACKLOG_MAX_RECORDS);
    assert_eq!(reg.get(&id).unwrap().backlog.len(), BACKLOG_MAX_RECORDS);
    reg.broadcast_tools_list_changed(BACKLOG_MAX_AGE + 1);
    assert_eq!(reg.get(&id).unwrap().backlog.len(), 1, "records that are too old are dropped");
}

#[test]
fn idle_sessions_are_reaped_and_the_rest_is_capped() {
    let mut reg = SessionRegistry::new();
    reg.create_as("old", 0);
    reg.create_as("a", 50);
    reg.create_as("b", 60);
    let gone = reg.reap_idle(90, 10, 100);
    assert_eq!(gone, vec!["old".to_string()]);
    let gone = reg.reap_idle(90, 1, 100);
    assert_eq!(gone, vec!["a".to_string()], "the longest idle goes first");
    assert!(reg.get("b").is_some());
}

#[test]
fn the_snapshot_lists_initialized_sessions() {
    let mut reg = SessionRegistry::new();
    reg.create_as("s", 1_000);
    assert!(reg.snapshot(4_500).is_empty());
    reg.mark_initialized("s");
    on(&mut reg, "s", |s| s.set_client_name(Some("codex".to_string())));
    let live = reg.snapshot(4_500);
    assert_eq!(live.len(), 1);
    assert_eq!(live[0].client_name.as_deref(), Some("codex"));
    assert_eq!(live[0].idle_secs, 3);
}

#[test]
fn list_changed_body_is_a_jsonrpc_notification() {
    let v = list_changed_notification();
    assert_eq!(v.text_member("jsonrpc").map(|t| t.as_str()), Some("2.0"));
    assert_eq!(method(&v), "notifications/tools/list_changed");
    assert!(v.get("id").is_none());
}

#[test]
fn event_from_record_carries_message_event_data_and_id() {
    let rec = SseRecord {
        event_id: "sess:7".to_string(),
        stream_id: None,
        json: list_changed_notification(),
        created_at: 0,
    };
    let ev = event_from_record(&rec);
    assert_eq!(ev.event, "message", "event type must be 'message'");
    assert_eq!(ev.id, "sess:7", "event id must be carried");
    assert_eq!(
        ev.data,
        "{\"jsonrpc\":\"2.0\",\"method\":\"notifications/tools/list_changed\"}",
        "data must be the compact json"
    );
    assert_eq!(rec.replica(), rec);
}
