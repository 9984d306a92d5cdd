use patchbay::app_state::approvals::{ApprovalStep, LAST_SEEN_THROTTLE_SECS};
use patchbay::app_state::identity::{sanitize_client_name, MAX_CLIENT_NAME_LEN};
use patchbay::app_state::jacks::{
    transport_type_string, AddJackError, LifecycleMove, RemoveJackError, ToggleResult,
};
use patchbay::app_state::state::{AppState, Effect, Write};
use patchbay::config::load::{first_run_template, ConfigError};
use patchbay::config::schema::{
    ClientOverride, JackConfig, JackConfigInput, JackTransport, PatchbayConfig, SeenClient, Sharing, UiMode,
    CURRENT_VERSION, DEFAULT_PORT,
};
use patchbay::name_map::NameMap;

fn stdio(command: &str) -> JackTransport {
    JackTransport::Stdio { command: command.to_string(), args: vec![], env: NameMap::new() }
}

fn http(url: &str) -> JackTransport {
    JackTransport::StreamableHttp { url: url.to_string(), headers: NameMap::new() }
}

fn stdio_input(name: &str, command: &str) -> JackConfigInput {
    JackConfigInput {
        name: name.to_string(),
        patched: true,
        transport: stdio(command),
        sharing: Sharing::Shared,
    }
}

fn http_input(name: &str, url: &str) -> JackConfigInput {
    JackConfigInput { name: name.to_string(), patched: true, transport: http(url), sharing: Sharing::Shared }
}

fn stdio_input_patched(name: &str, patched: bool) -> JackConfigInput {
    JackConfigInput { name: name.to_string(), patched, transport: stdio("npx"), sharing: Sharing::Shared }
}

fn state_with_prod() -> AppState {
    AppState::new(first_run_template())
}

fn jack(name: &str, patched: bool) -> JackConfig {
    JackConfig {
        name: name.to_string(),
        patched,
        transport: stdio(""),
        sharing: Sharing::Shared,
        tools: None,
    }
}

fn state_two_jacks() -> AppState {
    AppState::new(PatchbayConfig {
        version: CURRENT_VERSION,
        port: DEFAULT_PORT,
        autostart: false,
        ui_mode: UiMode::Tray,
        jacks: vec![jack("alpha", true), jack("beta", false)],
        bays: NameMap::new(),
        seen_clients: Vec::new(),
        client_overrides: NameMap::new(),
        require_approval_for_new_clients: true,
        request_logging_enabled: false,
        forbidden_clients: Vec::new(),
    })
}

fn seen(name: &str, first_seen: &str) -> SeenClient {
    SeenClient {
        name: name.to_string(),
        first_seen_version: None,
        first_seen: first_seen.to_string(),
        last_seen: None,
    }
}

fn is_seen(st: &AppState, name: &str) -> bool {
    st.config.seen_clients.iter().any(|c| c.name == name)
}

fn toggle(st: &mut AppState, name: &str, on: bool, saved: Result<(), String>) -> ToggleResult {
    let (refused, _effects) = st.set_patched(name, on, saved);
    match refused {
        Some(r) => r,
        None => st.toggle_report(name, on).0,
    }
}

/// Carry out a deletion as its effects ask for it.
fn delete_agents(st: &mut AppState, names: &[&str]) -> u64 {
    let names: Vec<String> = names.iter().map(|n| n.to_string()).collect();
    let (token, effects) = st.delete_agents(&names);
    for e in effects {
        if let Effect::DeleteClient(n) = e {
            st.delete_client(&n, Ok(())).0.unwrap();
        }
    }
    token
}

fn touch(st: &mut AppState, name: &str, secs: u64) {
    let (write, now) = st.touch_client_last_seen(name, secs);
    if let Write::State(_) = write {
        st.touch_client_saved(name, &now, Ok(()));
    }
}

fn decide(st: &mut AppState, name: &str, version: Option<&str>, allowed: bool, saved: Result<(), String>) {
    let (_write, now) = st.approval_write(name, version, allowed);
    st.apply_approval_decision(name, version, &now, allowed, saved);
}

fn custom(st: &AppState, client: &str, jack: &str) -> Option<bool> {
    st.config.client_overrides.get(client).unwrap().jacks.get(jack).copied()
}

#[test]
fn add_jack_rejects_duplicate_name() {
    let mut st = state_with_prod();
    let err = st.add_jack(&stdio_input("prod", "npx"), Ok(())).unwrap_err();
    assert!(matches!(err, AddJackError::DuplicateName(_)), "{:?}", err);
    assert!(err.message().contains("already exists"));
}

#[test]
fn add_jack_rejects_invalid_name_charset() {
    let mut st = state_with_prod();
    let err = st.add_jack(&stdio_input("bad name", "npx"), Ok(())).unwrap_err();
    assert!(matches!(err, AddJackError::InvalidName(_)), "{:?}", err);
}

#[test]
fn add_jack_rejects_name_with_separator() {
    let mut st = state_with_prod();
    let err = st.add_jack(&stdio_input("a__b", "npx"), Ok(())).unwrap_err();
    assert!(matches!(err, AddJackError::InvalidName(_)), "{:?}", err);
}

#[test]
fn add_jack_rejects_empty_command_for_stdio() {
    let mut st = state_with_prod();
    let err = st.add_jack(&stdio_input("newjack", ""), Ok(())).unwrap_err();
    assert!(matches!(err, AddJackError::MissingRequiredField(_)), "{:?}", err);
    assert!(err.message().contains("command"));
}

#[test]
fn add_jack_rejects_empty_url_for_http() {
    let mut st = state_with_prod();
    let err = st.add_jack(&http_input("newjack", ""), Ok(())).unwrap_err();
    assert!(matches!(err, AddJackError::MissingRequiredField(_)), "{:?}", err);
    assert!(err.message().contains("url"));
}

#[test]
fn add_jack_reports_a_failed_save_and_keeps_memory() {
    let mut st = state_with_prod();
    let err = st.add_jack(&stdio_input("newjack", "npx"), Err("disk full".to_string())).unwrap_err();
    assert_eq!(err.message(), "failed to persist config: disk full");
    assert_eq!(st.config.jacks.len(), 1);
}

#[test]
fn add_jack_starts_what_is_switched_on() {
    let mut st = state_with_prod();
    let effects = st.add_jack(&stdio_input("fresh", "npx"), Ok(())).unwrap();
    assert_eq!(effects, vec![Effect::StartJack("fresh".to_string()), Effect::Broadcast]);
    let (summary, after) = st.add_report("fresh");
    assert_eq!(summary.transport, "stdio");
    assert_eq!(summary.status, "unknown");
    assert_eq!(
        after,
        vec![Effect::RequestEvent("add_jack 'fresh' (stdio)".to_string()), Effect::NotifyStructure]
    );
}

#[test]
fn remove_jack_returns_not_found_for_unknown() {
    let mut st = state_with_prod();
    let err = st.begin_remove_jack("ghost").unwrap_err();
    assert!(matches!(err, RemoveJackError::NotFound(_)), "{:?}", err);
    assert!(err.message().contains("ghost"));
    let err = st.remove_jack("ghost", Ok(())).unwrap_err();
    assert!(matches!(err, RemoveJackError::NotFound(_)), "{:?}", err);
}

#[test]
fn remove_jack_reports_a_failed_save() {
    let mut st = state_with_prod();
    st.begin_remove_jack("prod").unwrap();
    let err = st.remove_jack("prod", Err("disk full".to_string())).unwrap_err();
    assert_eq!(err.message(), "failed to persist config: disk full");
    assert_eq!(st.config.jacks.len(), 1);
    assert_eq!(st.upstream.status_string("prod"), "stopped");
}

#[test]
fn removing_a_jack_undoes_adding_it() {
    let mut st = state_two_jacks();
    st.set_client_override("codex", "alpha", false, Ok(())).0.unwrap();
    let before = format!("{:?}", st.config);
    st.add_jack(&stdio_input_patched("gamma", true), Ok(())).unwrap();
    assert_ne!(before, format!("{:?}", st.config));
    st.remove_jack("gamma", Ok(())).unwrap();
    assert_eq!(before, format!("{:?}", st.config));
}

#[test]
fn list_jacks_reflects_config() {
    let st = state_with_prod();
    let jacks = st.list_jacks();
    assert_eq!(jacks.len(), 1);
    let j = &jacks[0];
    assert_eq!(j.name, "prod");
    assert!(!j.patched);
    assert_eq!(j.transport, "stdio");
    assert_eq!(j.status, "unknown");
    assert_eq!(j.tool_count, 0);
}

#[test]
fn list_jacks_reports_http_transport_type() {
    let mut cfg = first_run_template();
    cfg.jacks[0].transport = http("https://example.com/mcp");
    let st = AppState::new(cfg);
    let jacks = st.list_jacks();
    assert_eq!(jacks[0].transport, "streamable_http");
}

#[test]
fn transport_type_string_labels() {
    assert_eq!(transport_type_string(&stdio("")), "stdio");
    assert_eq!(transport_type_string(&http("")), "streamable_http");
}

#[test]
fn a_corrupt_config_is_never_overwritten_by_a_background_mutator() {
    let mut st = state_two_jacks();
    st.config_error = Some("parse error".to_string());

    assert!(matches!(st.set_ui_mode_write(UiMode::Window), Write::Refused(_)));
    let err = st.set_ui_mode(UiMode::Window, Ok(())).0.expect_err("a save must be refused");
    assert!(err.contains("did not parse"), "unhelpful message: {}", err);
    st.set_autostart(true, Ok(())).0.expect_err("also refused");
    assert!(!matches!(st.touch_client_last_seen("codex", 0).0, Write::State(_)));
    assert!(matches!(st.set_request_logging_enabled_write(true), Write::Refused(_)));
    let _ = st.set_request_logging_enabled(true, Ok(()));
    assert!(!st.config.request_logging_enabled);

    st.config_error = None;
    assert!(matches!(st.set_ui_mode_write(UiMode::Window), Write::Config(_)));
    st.set_ui_mode(UiMode::Window, Ok(())).0.expect("saving must work again");
}

#[test]
fn agent_traffic_never_rewrites_the_config_file() {
    let mut st = state_two_jacks();
    st.set_require_approval(false, Ok(())).0.expect("gate off for this test");

    let (write, _) = st.record_seen_client("Codex", Some("1.0"));
    match write {
        Write::State(cfg) => assert_eq!(cfg.seen_clients[0].name, "Codex"),
        other => panic!("{:?}", other),
    }
    let (write, now) = st.touch_client_last_seen("Codex", 1_000);
    match &write {
        Write::State(cfg) => assert_eq!(cfg.seen_clients[0].last_seen.as_deref(), Some(now.as_str())),
        other => panic!("{:?}", other),
    }
    st.touch_client_saved("Codex", &now, Ok(()));
    let codex = st.config.seen_clients.iter().find(|c| c.name == "Codex").expect("recorded");
    assert!(codex.last_seen.is_some(), "last_seen was not kept");
}

#[test]
fn nothing_writes_the_config_except_the_guarded_helper() {
    let mut st = state_two_jacks();
    st.record_seen_client("codex", None);
    delete_agents(&mut st, &["codex"]);
    st.enable_custom_client("kept", Ok(())).0.unwrap();
    st.config_error = Some("parse error".to_string());
    let token = st.agent_tombstone.as_ref().unwrap().token;
    let names = vec!["codex".to_string()];
    let writes = vec![
        st.set_patched_write("alpha", false),
        st.add_jack_write(&stdio_input("gamma", "npx")),
        st.remove_jack_write("alpha"),
        st.set_client_override_write("codex", "alpha", false),
        st.enable_custom_client_write("codex"),
        st.disable_custom_client_write("kept"),
        st.reset_custom_to_global_write("kept"),
        st.set_forbidden_write("codex", true),
        st.set_forbidden_batch_write(&names, true),
        st.delete_client_write("kept"),
        st.undo_delete_agents_write(token),
        st.set_request_logging_enabled_write(true),
        st.set_autostart_write(true),
        st.set_require_approval_write(false),
        st.set_port_write(4000),
        st.set_ui_mode_write(UiMode::Both),
        st.approval_write("new", None, true).0,
        st.record_seen_client("another", None).0,
    ];
    for w in writes {
        assert!(matches!(w, Write::Refused(_)), "{:?}", w);
    }
}

#[test]
fn set_client_override_lazily_creates_full_snapshot() {
    let mut st = state_two_jacks();
    assert!(st.config.effective_patched("alpha", Some("codex")));
    assert!(!st.config.effective_patched("beta", Some("codex")));

    st.set_client_override("codex", "alpha", false, Ok(())).0.unwrap();

    let ovr = st.config.client_overrides.get("codex").expect("override created");
    assert!(ovr.enabled, "lazy create enables Custom mode");
    assert_eq!(ovr.jacks.len(), 2);
    assert_eq!(ovr.jacks.get("alpha"), Some(&false), "alpha flipped off");
    assert_eq!(ovr.jacks.get("beta"), Some(&false), "beta seeded from global (off)");

    assert!(!st.config.effective_patched("alpha", Some("codex")));
    assert!(!st.config.effective_patched("beta", Some("codex")));
    assert!(st.config.effective_patched("alpha", Some("other")));
}

#[test]
fn set_client_override_second_jack_does_not_reseed() {
    let mut st = state_two_jacks();
    st.set_client_override("codex", "alpha", false, Ok(())).0.unwrap();
    st.set_client_override("codex", "beta", true, Ok(())).0.unwrap();
    assert_eq!(custom(&st, "codex", "alpha"), Some(false), "first flip preserved");
    assert_eq!(custom(&st, "codex", "beta"), Some(true), "second flip applied");
}

#[test]
fn set_client_override_rejects_unknown_jack() {
    let mut st = state_two_jacks();
    let err = st.set_client_override("codex", "ghost", true, Ok(())).0.unwrap_err();
    assert!(err.contains("not found"), "err: {}", err);
    assert!(
        !st.config.client_overrides.contains_key("codex"),
        "a stale tray click must not create a ghost override entry"
    );
}

#[test]
fn set_client_override_failed_save_leaves_memory_alone() {
    let mut st = state_two_jacks();
    let (r, effects) = st.set_client_override("codex", "alpha", false, Err("disk full".to_string()));
    assert_eq!(r, Err("disk full".to_string()));
    assert!(effects.is_empty());
    assert!(!st.config.client_overrides.contains_key("codex"));
}

#[test]
fn enable_custom_client_seeds_snapshot_no_flip() {
    let mut st = state_two_jacks();
    st.enable_custom_client("codex", Ok(())).0.unwrap();
    let ovr = st.config.client_overrides.get("codex").unwrap();
    assert!(ovr.enabled);
    assert_eq!(ovr.jacks.get("alpha"), Some(&true));
    assert_eq!(ovr.jacks.get("beta"), Some(&false));
    assert!(st.config.effective_patched("alpha", Some("codex")));
    assert!(!st.config.effective_patched("beta", Some("codex")));
}

#[test]
fn add_jack_propagates_new_jack_into_custom_lists() {
    let mut st = state_two_jacks();
    st.set_client_override("codex", "alpha", false, Ok(())).0.unwrap();
    st.add_jack(&stdio_input_patched("gamma", false), Ok(())).unwrap();
    assert_eq!(custom(&st, "codex", "gamma"), Some(false));
}

#[test]
fn remove_jack_removes_jack_from_custom_lists() {
    let mut st = state_two_jacks();
    st.set_client_override("codex", "alpha", false, Ok(())).0.unwrap();
    st.remove_jack("alpha", Ok(())).unwrap();
    assert_eq!(custom(&st, "codex", "alpha"), None, "removed jack gone from custom list");
}

#[test]
fn record_seen_client_appends_only_once() {
    let mut st = state_two_jacks();
    st.record_seen_client("desk-code", Some("1.0.0"));
    assert_eq!(st.config.seen_clients.len(), 1);
    assert_eq!(st.config.seen_clients[0].name, "desk-code");
    assert_eq!(st.config.seen_clients[0].first_seen_version.as_deref(), Some("1.0.0"));
    st.record_seen_client("desk-code", Some("2.0.0"));
    assert_eq!(st.config.seen_clients.len(), 1);
    st.record_seen_client("codex", None);
    assert_eq!(st.config.seen_clients.len(), 2);
    st.record_seen_client("", None);
    assert_eq!(st.config.seen_clients.len(), 2);
}

#[test]
fn ensure_client_approved_fast_paths_skip_the_dialog() {
    let mut st = state_two_jacks();
    st.config.require_approval_for_new_clients = false;
    assert_eq!(st.ensure_client_approved("brand-new"), ApprovalStep::Record);
    st.record_seen_client("brand-new", None);
    assert!(is_seen(&st, "brand-new"), "gate OFF auto-records the client");
    assert!(st.config.forbidden_clients.is_empty());

    let mut st2 = state_two_jacks();
    st2.record_seen_client("known", None);
    let before = st2.config.seen_clients.len();
    assert_eq!(st2.ensure_client_approved("known"), ApprovalStep::Proceed);
    assert_eq!(st2.config.seen_clients.len(), before);

    let mut st3 = state_two_jacks();
    st3.config.forbidden_clients.push("banned".to_string());
    assert_eq!(st3.ensure_client_approved("banned"), ApprovalStep::Proceed);
    assert!(st3.config.is_forbidden(Some("banned")));
    assert!(!is_seen(&st3, "banned"), "a forbidden identity is not recorded as seen");
}

#[test]
fn concurrent_requests_join_one_question() {
    let mut st = state_two_jacks();
    assert_eq!(st.ensure_client_approved("codex"), ApprovalStep::Ask);
    assert_eq!(st.ensure_client_approved("codex"), ApprovalStep::Join);
    assert_eq!(st.ensure_client_approved("other"), ApprovalStep::Ask);
    let effects = st.apply_approval_decision("codex", None, "now", true, Ok(()));
    assert_eq!(
        effects,
        vec![
            Effect::AnswerApproval { name: "codex".to_string(), allowed: true },
            Effect::NotifyStructure,
            Effect::ReconcileAll,
        ]
    );
    assert_eq!(st.ensure_client_approved("codex"), ApprovalStep::Proceed);
    assert_eq!(st.pending_approvals, vec!["other".to_string()]);
}

#[test]
fn apply_approval_decision_deny_adds_to_forbidden_not_seen() {
    let mut st = state_two_jacks();
    decide(&mut st, "rogue", None, false, Ok(()));
    assert!(st.config.is_forbidden(Some("rogue")), "denied -> forbidden");
    assert!(!is_seen(&st, "rogue"), "a denied agent must NOT land in seen_clients");
}

#[test]
fn a_denial_holds_even_when_it_cannot_be_saved() {
    let mut st = state_two_jacks();
    decide(&mut st, "rogue", None, false, Err("disk full".to_string()));
    assert!(st.config.is_forbidden(Some("rogue")));
    decide(&mut st, "friend", None, true, Err("disk full".to_string()));
    assert!(!is_seen(&st, "friend"));
}

#[test]
fn apply_approval_decision_allow_adds_to_seen_and_clears_forbidden() {
    let mut st = state_two_jacks();
    st.config.forbidden_clients.push("maybe".to_string());
    decide(&mut st, "maybe", Some("1.2.3"), true, Ok(()));
    assert!(!st.config.is_forbidden(Some("maybe")));
    let maybe = st.config.seen_clients.iter().find(|c| c.name == "maybe").unwrap();
    assert_eq!(maybe.first_seen_version.as_deref(), Some("1.2.3"));

    decide(&mut st, "fresh", None, true, Ok(()));
    assert!(!st.config.is_forbidden(Some("fresh")));
    let fresh = st.config.seen_clients.iter().find(|c| c.name == "fresh").unwrap();
    assert_eq!(fresh.first_seen_version.as_deref(), None);
}

#[test]
fn remove_forbidden_client_removes_without_granting_seen() {
    let mut st = state_two_jacks();
    st.config.forbidden_clients.push("banned".to_string());
    st.set_forbidden("banned", false, Ok(())).0.unwrap();
    assert!(!st.config.is_forbidden(Some("banned")));
    assert!(!is_seen(&st, "banned"), "un-forbid must not grant seen_clients status");
}

#[test]
fn set_forbidden_round_trip_without_touching_seen() {
    let mut st = state_two_jacks();
    st.record_seen_client("codex", None);
    let seen_before = st.config.seen_clients.len();

    st.set_forbidden("codex", true, Ok(())).0.unwrap();
    assert!(st.config.is_forbidden(Some("codex")));
    let (r, effects) = st.set_forbidden("codex", true, Ok(()));
    r.unwrap();
    assert_eq!(effects, vec![Effect::Broadcast]);
    assert_eq!(
        st.config.forbidden_clients.iter().filter(|c| *c == "codex").count(),
        1,
        "forbidding twice must not duplicate"
    );

    st.set_forbidden("codex", false, Ok(())).0.unwrap();
    assert!(!st.config.is_forbidden(Some("codex")));
    st.set_forbidden("codex", false, Ok(())).0.unwrap();
    assert!(!st.config.is_forbidden(Some("codex")));

    assert_eq!(st.config.seen_clients.len(), seen_before, "set_forbidden must not touch seen_clients");
}

#[test]
fn set_forbidden_reflects_in_effective_patched() {
    let mut st = state_two_jacks();
    st.record_seen_client("codex", None);
    assert!(st.config.effective_patched("alpha", Some("codex")));
    st.set_forbidden("codex", true, Ok(())).0.unwrap();
    assert!(!st.config.effective_patched("alpha", Some("codex")));
    assert!(st.config.effective_patched("alpha", Some("other")));
}

#[test]
fn set_forbidden_batch_changes_all_or_nothing() {
    let mut st = state_two_jacks();
    let names = vec!["a".to_string(), "b".to_string()];
    assert_eq!(st.set_forbidden_batch(&names, true, Err("disk full".to_string())).0, Err("disk full".to_string()));
    assert!(st.config.forbidden_clients.is_empty());
    let (r, effects) = st.set_forbidden_batch(&names, true, Ok(()));
    assert_eq!(r, Ok(2));
    assert_eq!(
        effects,
        vec![
            Effect::ReconcileAll,
            Effect::Broadcast,
            Effect::RequestEvent("set_forbidden_batch 2 identities -> forbidden=true".to_string()),
            Effect::NotifyStructure,
        ]
    );
    assert_eq!(st.config.forbidden_clients, names);
    assert_eq!(st.set_forbidden_batch(&names, true, Ok(())).0, Ok(0));
    assert_eq!(st.set_forbidden_batch(&vec![], true, Ok(())).0, Ok(0));
    assert_eq!(st.set_forbidden_batch(&names, false, Ok(())).0, Ok(2));
    assert!(st.config.forbidden_clients.is_empty());
}

#[test]
fn disable_custom_client_flips_enabled_preserves_jacks() {
    let mut st = state_two_jacks();
    st.enable_custom_client("codex", Ok(())).0.unwrap();
    st.set_client_override("codex", "alpha", false, Ok(())).0.unwrap();
    assert!(st.config.client_overrides.get("codex").unwrap().enabled);
    assert_eq!(custom(&st, "codex", "alpha"), Some(false), "alpha customized off");
    assert_eq!(custom(&st, "codex", "beta"), Some(false), "beta seeded from global");
    assert!(!st.config.effective_patched("alpha", Some("codex")));

    st.disable_custom_client("codex", Ok(())).0.unwrap();
    let ovr = st.config.client_overrides.get("codex").unwrap();
    assert!(!ovr.enabled, "disabled");
    assert_eq!(ovr.jacks.get("alpha"), Some(&false), "alpha customization preserved");
    assert_eq!(ovr.jacks.get("beta"), Some(&false), "beta customization preserved");
    assert_eq!(ovr.jacks.len(), 2, "jacks map intact (not cleared)");
    assert!(
        st.config.effective_patched("alpha", Some("codex")),
        "disabled override falls back to global"
    );
}

#[test]
fn disable_custom_client_is_noop_without_override() {
    let mut st = state_two_jacks();
    st.disable_custom_client("ghost", Ok(())).0.unwrap();
    assert!(
        !st.config.client_overrides.contains_key("ghost"),
        "disabling a never-customized client must not create an entry"
    );
    st.enable_custom_client("codex", Ok(())).0.unwrap();
    st.disable_custom_client("codex", Ok(())).0.unwrap();
    st.disable_custom_client("codex", Ok(())).0.unwrap();
    assert!(!st.config.client_overrides.get("codex").unwrap().enabled, "still disabled after double-disable");
}

#[test]
fn re_enable_after_disable_restores_same_jacks_map() {
    let mut st = state_two_jacks();
    st.enable_custom_client("codex", Ok(())).0.unwrap();
    st.set_client_override("codex", "alpha", false, Ok(())).0.unwrap();
    st.set_client_override("codex", "beta", true, Ok(())).0.unwrap();

    st.disable_custom_client("codex", Ok(())).0.unwrap();
    st.enable_custom_client("codex", Ok(())).0.unwrap();

    assert!(st.config.client_overrides.get("codex").unwrap().enabled, "re-enabled");
    assert_eq!(custom(&st, "codex", "alpha"), Some(false), "alpha customization restored");
    assert_eq!(custom(&st, "codex", "beta"), Some(true), "beta customization restored");
    assert!(!st.config.effective_patched("alpha", Some("codex")));
    assert!(st.config.effective_patched("beta", Some("codex")));
}

#[test]
fn delete_client_removes_from_seen_clients() {
    let mut st = state_two_jacks();
    st.record_seen_client("codex", None);
    st.record_seen_client("other", None);
    assert_eq!(st.config.seen_clients.len(), 2);

    st.delete_client("codex", Ok(())).0.unwrap();

    assert!(!is_seen(&st, "codex"), "deleted identity gone from seen_clients");
    assert!(is_seen(&st, "other"), "unrelated identity untouched");
}

#[test]
fn delete_client_erases_custom_override_entirely() {
    let mut st = state_two_jacks();
    st.enable_custom_client("codex", Ok(())).0.unwrap();
    st.set_client_override("codex", "alpha", false, Ok(())).0.unwrap();
    assert!(st.config.client_overrides.contains_key("codex"));

    st.delete_client("codex", Ok(())).0.unwrap();

    assert!(
        !st.config.client_overrides.contains_key("codex"),
        "delete must erase the override entry, not just disable it"
    );
}

#[test]
fn delete_client_removes_forbidden_entry() {
    let mut st = state_two_jacks();
    st.record_seen_client("codex", None);
    st.set_forbidden("codex", true, Ok(())).0.unwrap();
    assert!(st.config.is_forbidden(Some("codex")));

    st.delete_client("codex", Ok(())).0.unwrap();

    assert!(!st.config.is_forbidden(Some("codex")), "deleted identity gone from forbidden_clients");
    assert!(!is_seen(&st, "codex"), "and gone from seen_clients too");
}

#[test]
fn delete_client_removes_sole_custom_consumer_stops_jack() {
    let mut st = state_two_jacks();
    st.record_seen_client("codex", None);
    st.enable_custom_client("codex", Ok(())).0.unwrap();
    st.set_client_override("codex", "beta", true, Ok(())).0.unwrap();
    assert!(
        st.config.should_run_jack("beta"),
        "codex's Custom override is the sole reason beta should run"
    );

    st.delete_client("codex", Ok(())).0.unwrap();

    assert!(
        !st.config.should_run_jack("beta"),
        "deleting the sole Custom consumer must stop the shared child"
    );
}

#[test]
fn delete_client_unknown_identity_is_noop() {
    let mut st = state_two_jacks();
    st.record_seen_client("codex", None);
    let seen_before = st.config.seen_clients.len();

    let (r, effects) = st.delete_client("ghost", Ok(()));
    r.unwrap();
    assert!(effects.is_empty());

    assert_eq!(st.config.seen_clients.len(), seen_before, "unknown delete must not touch seen_clients");
    assert!(!st.config.client_overrides.contains_key("ghost"));
    assert!(!st.config.is_forbidden(Some("ghost")));
}

#[test]
fn set_request_logging_enabled_persists_then_commits() {
    let mut st = state_two_jacks();
    assert!(!st.config.request_logging_enabled);

    match st.set_request_logging_enabled_write(true) {
        Write::Config(c) => assert!(c.request_logging_enabled, "disk must match in-memory state"),
        other => panic!("{:?}", other),
    }
    st.set_request_logging_enabled(true, Ok(())).0.unwrap();
    assert!(st.config.request_logging_enabled);

    match st.set_request_logging_enabled_write(false) {
        Write::Config(c) => assert!(!c.request_logging_enabled),
        other => panic!("{:?}", other),
    }
    st.set_request_logging_enabled(false, Ok(())).0.unwrap();
    assert!(!st.config.request_logging_enabled);

    assert_eq!(st.set_request_logging_enabled_write(false), Write::Nothing);
    st.set_request_logging_enabled(false, Ok(())).0.unwrap();
    assert!(!st.config.request_logging_enabled);
}

#[test]
fn set_patched_failed_save_does_not_commit_to_memory() {
    let mut st = state_with_prod();
    assert!(!st.config.jacks[0].patched, "template ships prod OFF");

    let result = toggle(&mut st, "prod", true, Err("disk full".to_string()));

    assert!(!result.patched, "a failed persist must report the UNCHANGED flag, not the intent");
    assert!(
        result.status.starts_with("failed to persist"),
        "status must name the failure, got '{}'",
        result.status
    );
    assert!(!st.config.jacks[0].patched, "live config must NOT be mutated when the save failed");
}

#[test]
fn set_patched_commits_when_save_succeeds() {
    let mut st = state_with_prod();
    let result = toggle(&mut st, "prod", true, Ok(()));
    assert!(result.patched);
    assert!(st.config.jacks[0].patched);
}

#[test]
fn set_patched_unknown_jack_is_reported_not_persisted() {
    let mut st = state_with_prod();
    assert_eq!(st.set_patched_write("no-such-jack", true), Write::Nothing);
    let result = toggle(&mut st, "no-such-jack", true, Ok(()));
    assert!(!result.patched);
    assert_eq!(result.status, "unknown");
}

#[test]
fn set_patched_orders_start_and_stop_around_the_broadcast() {
    let mut st = state_with_prod();
    let (_, on) = st.set_patched("prod", true, Ok(()));
    assert_eq!(on, vec![Effect::StartJack("prod".to_string()), Effect::Broadcast]);
    assert_eq!(st.lifecycle_move("prod"), LifecycleMove::Start);
    let (_, off) = st.set_patched("prod", false, Ok(()));
    assert_eq!(off, vec![Effect::Broadcast]);
    let (report, effects) = st.toggle_report("prod", false);
    assert_eq!(report.status, "unknown");
    assert_eq!(
        effects,
        vec![Effect::RequestEvent("toggle_jack 'prod' -> patched=false".to_string()), Effect::NotifyState]
    );
    st.upstream.set_failed("prod", "boom".to_string());
    let (_, effects) = st.toggle_report("prod", true);
    assert_eq!(effects[0], Effect::RequestError("jack_start_failed 'prod' (failed: boom)".to_string()));
}

#[test]
fn reconcile_starts_then_announces_then_stops() {
    let mut st = state_two_jacks();
    st.upstream.runtimes = NameMap::new().put(
        "beta".to_string(),
        patchbay::upstream::manager::JackRuntime {
            status: patchbay::upstream::manager::JackStatus::Running,
            client: Some(1),
            tool_cache: vec![],
        },
    );
    assert_eq!(
        st.reconcile_all_jack_lifecycles(),
        vec![
            Effect::StartJack("alpha".to_string()),
            Effect::Broadcast,
            Effect::StopJack("beta".to_string()),
        ]
    );
    assert_eq!(
        st.reconcile_each_jack_lifecycle(),
        vec![Effect::StartJack("alpha".to_string()), Effect::StopJack("beta".to_string())]
    );
    assert!(st.still_due(&Effect::StartJack("alpha".to_string())));
    assert!(st.still_due(&Effect::StopJack("beta".to_string())));
    assert!(!st.still_due(&Effect::StartJack("beta".to_string())), "nobody needs it");
    assert!(!st.still_due(&Effect::StopJack("alpha".to_string())), "somebody needs it");
    assert!(st.still_due(&Effect::Broadcast));
}

#[test]
fn touch_last_seen_updates_a_known_client() {
    let mut cfg = first_run_template();
    cfg.seen_clients.push(seen("Codex", "2026-07-29T16:26:20+02:00"));
    let mut st = AppState::new(cfg);

    touch(&mut st, "Codex", 0);

    let got = st.config.seen_clients[0].last_seen.clone();
    assert!(got.is_some(), "a known client's last_seen must be filled");
    assert_ne!(
        got.as_deref(),
        Some("2026-07-29T16:26:20+02:00"),
        "last_seen must be NOW, not a copy of first_seen"
    );
}

#[test]
fn touch_last_seen_is_throttled_within_the_window() {
    let mut cfg = first_run_template();
    cfg.seen_clients.push(seen("Codex", "2026-07-29T16:26:20+02:00"));
    let mut st = AppState::new(cfg);

    touch(&mut st, "Codex", 100);
    let first = st.config.seen_clients[0].last_seen.clone();
    for i in 0..50 {
        touch(&mut st, "Codex", 100 + i);
    }
    let after = st.config.seen_clients[0].last_seen.clone();

    assert_eq!(first, after, "within LAST_SEEN_THROTTLE_SECS the value must not be rewritten");
    assert!(LAST_SEEN_THROTTLE_SECS >= 30, "throttle must be meaningful");
    assert!(matches!(st.touch_client_last_seen("Codex", 160).0, Write::State(_)));
}

#[test]
fn touch_last_seen_ignores_an_unknown_identity() {
    let mut st = state_with_prod();
    let before = st.config.seen_clients.len();

    touch(&mut st, "rogue-never-seen", 0);

    assert_eq!(
        st.config.seen_clients.len(),
        before,
        "an unknown identity must not be added to seen_clients"
    );
}

#[test]
fn record_seen_client_seeds_last_seen_on_first_sighting() {
    let mut st = state_with_prod();
    st.record_seen_client("brand-new", Some("1.0"));
    let entry = st.config.seen_clients.iter().find(|c| c.name == "brand-new").expect("recorded");
    assert!(entry.last_seen.is_some(), "a first sighting IS a sighting and must seed last_seen");
    assert_eq!(
        entry.last_seen.as_deref(),
        Some(entry.first_seen.as_str()),
        "on a first sighting both timestamps are the same moment"
    );
    assert!(entry.first_seen.contains('T'), "an RFC 3339 time");
}

#[test]
fn every_mutator_fans_out_to_the_ui() {
    fn tells(name: &str, effects: &[Effect]) {
        assert!(
            effects.iter().any(|e| matches!(e, Effect::NotifyState | Effect::NotifyStructure)),
            "mutator '{}' changes user-visible state but never fans out: {:?}",
            name,
            effects
        );
    }
    let mut st = state_two_jacks();
    st.set_patched("alpha", false, Ok(()));
    tells("set_patched", &st.toggle_report("alpha", false).1);
    st.add_jack(&stdio_input("gamma", "npx"), Ok(())).unwrap();
    tells("add_jack", &st.add_report("gamma").1);
    tells("remove_jack", &st.remove_jack("gamma", Ok(())).unwrap());
    tells("set_client_override", &st.set_client_override("codex", "alpha", true, Ok(())).1);
    tells("disable_custom_client", &st.disable_custom_client("codex", Ok(())).1);
    tells("enable_custom_client", &st.enable_custom_client("codex", Ok(())).1);
    tells("reset_custom_to_global", &st.reset_custom_to_global("codex", Ok(())).1);
    tells("set_forbidden", &st.set_forbidden("codex", true, Ok(())).1);
    tells("set_forbidden_batch", &st.set_forbidden_batch(&vec!["b".to_string()], true, Ok(())).1);
    tells("delete_client", &st.delete_client("codex", Ok(())).1);
    tells("record_seen_client", &st.record_seen_client("seen", None).1);
    let (token, effects) = st.delete_agents(&vec!["seen".to_string()]);
    tells("delete_agents", &effects);
    st.delete_client("seen", Ok(())).0.unwrap();
    tells("undo_delete_agents", &st.undo_delete_agents(token, Ok(())).1);
    tells("set_request_logging_enabled", &st.set_request_logging_enabled(true, Ok(())).1);
    tells("set_autostart", &st.set_autostart(true, Ok(())).1);
    tells("set_require_approval", &st.set_require_approval(false, Ok(())).1);
    tells("set_port", &st.set_port(4000, Ok(())).1);
    tells("set_ui_mode", &st.set_ui_mode(UiMode::Window, Ok(())).1);
    tells("touch_client_last_seen", &st.touch_client_saved("seen", "now", Ok(())));
    tells("apply_approval_decision", &st.apply_approval_decision("x", None, "now", true, Ok(())));
}

#[test]
fn set_ui_mode_persists_and_is_idempotent() {
    let mut st = state_with_prod();
    assert_eq!(st.config.ui_mode, UiMode::Tray);

    assert!(matches!(st.set_ui_mode_write(UiMode::Window), Write::Config(_)));
    st.set_ui_mode(UiMode::Window, Ok(())).0.expect("save");
    assert_eq!(st.config.ui_mode, UiMode::Window);

    assert_eq!(st.set_ui_mode_write(UiMode::Window), Write::Nothing);
    st.set_ui_mode(UiMode::Window, Ok(())).0.expect("no-op");
    assert_eq!(st.config.ui_mode, UiMode::Window);
}

#[test]
fn set_port_checks_saves_and_rebinds() {
    let mut st = state_with_prod();
    assert_eq!(st.set_port(0, Ok(())).0, Err("port must be between 1 and 65535".to_string()));
    assert_eq!(st.set_port(4000, Err("disk full".to_string())).0, Err("disk full".to_string()));
    assert_eq!(st.config.port, DEFAULT_PORT);
    let (r, effects) = st.set_port(4000, Ok(()));
    assert_eq!(r, Ok(()));
    assert_eq!(
        effects,
        vec![
            Effect::CloseStreams,
            Effect::StopListener,
            Effect::StartListener(4000),
            Effect::RequestEvent("gateway_port_rebind 4000".to_string()),
            Effect::NotifyState,
        ]
    );
    assert!(st.set_port(4000, Ok(())).1.is_empty());
}

#[test]
fn set_autostart_tells_the_session_only_after_the_save() {
    let mut st = state_with_prod();
    assert!(st.set_autostart(true, Err("disk full".to_string())).1.is_empty());
    assert!(!st.config.autostart);
    assert_eq!(st.set_autostart(true, Ok(())).1, vec![Effect::SetAutorun(true), Effect::NotifyState]);
}

#[test]
fn sanitize_keeps_every_real_agent_name_untouched() {
    for name in [
        "Desk Code - Personal",
        "Desk Code - Work",
        "Desk Code - MiniMax expert",
        "Antigravity-CLI",
        "Kilo-Agent",
        "OpenCode",
        "opencode",
        "Codex",
        "bee-memory-bank",
        "agent@host",
        "tool/sub",
        "v1.2.3+build",
    ] {
        assert_eq!(sanitize_client_name(name), name, "must not rewrite '{}'", name);
    }
}

#[test]
fn sanitize_defuses_markup_in_an_agent_name() {
    let hostile = "<img src=x onerror=\"alert(1)\">";
    let safe = sanitize_client_name(hostile);
    for ch in ['<', '>', '"', '=', '(', ')'] {
        assert!(!safe.contains(ch), "'{}' survived in {:?}", ch, safe);
    }
}

#[test]
fn sanitize_replaces_rather_than_deletes_so_tampering_stays_visible() {
    let safe = sanitize_client_name("<script>");
    assert_eq!(safe, "_script_");
    assert_ne!(safe, "script", "a sanitized name must not masquerade as a plain one");
}

#[test]
fn sanitize_caps_length_and_never_returns_empty() {
    let long = "x".repeat(500);
    assert_eq!(sanitize_client_name(&long).chars().count(), MAX_CLIENT_NAME_LEN);
    assert_eq!(sanitize_client_name("   "), "unnamed-agent");
    assert_eq!(sanitize_client_name("\u{0}\u{1}"), "unnamed-agent");
}

#[test]
fn sanitize_strips_newlines_that_would_forge_log_lines() {
    let forged = "ok\n[EVENT] custom_disable 'Desk Code - Work'";
    let safe = sanitize_client_name(forged);
    assert!(!safe.contains('\n'));
}

#[test]
fn sanitize_is_idempotent_and_keeps_letters_of_any_script() {
    assert_eq!(sanitize_client_name("Żółw 北京"), "Żółw 北京");
    for raw in ["<a>", "  x  ", "a\u{a0}", "\u{7f}q", "é!"] {
        let once = sanitize_client_name(raw);
        assert_eq!(sanitize_client_name(&once), once);
    }
    assert_eq!(sanitize_client_name("é!"), "é_");
}

fn state_with_agents() -> AppState {
    let mut cfg = first_run_template();
    for name in ["keep-me", "junk-a", "junk-b"] {
        let mut c = seen(name, "2026-08-18T15:00:00+02:00");
        c.first_seen_version = Some("1.0".to_string());
        cfg.seen_clients.push(c);
    }
    cfg.client_overrides = NameMap::new().put(
        "junk-a".to_string(),
        ClientOverride { enabled: true, jacks: NameMap::new().put("prod".to_string(), true) },
    );
    AppState::new(cfg)
}

#[test]
fn undo_restores_only_the_deleted_agents() {
    let mut st = state_with_agents();

    let token = delete_agents(&mut st, &["junk-a", "junk-b"]);
    assert!(!is_seen(&st, "junk-a"));
    assert!(!is_seen(&st, "junk-b"));
    assert!(is_seen(&st, "keep-me"));
    assert!(!st.config.client_overrides.contains_key("junk-a"));

    let restored = st.undo_delete_agents(token, Ok(())).0.expect("undo");
    assert_eq!(restored, 2);
    assert!(is_seen(&st, "junk-a"));
    assert!(is_seen(&st, "junk-b"));
    assert!(
        st.config.client_overrides.contains_key("junk-a"),
        "the agent's Custom list must come back with it"
    );
    assert_eq!(custom(&st, "junk-a", "prod"), Some(true));
}

#[test]
fn undo_does_not_clobber_a_concurrent_unrelated_change() {
    let mut st = state_with_agents();

    let token = delete_agents(&mut st, &["junk-a"]);

    toggle(&mut st, "prod", true, Ok(()));
    st.record_seen_client("arrived-meanwhile", Some("2.0"));

    st.undo_delete_agents(token, Ok(())).0.expect("undo");

    assert!(is_seen(&st, "junk-a"), "the deleted agent must be restored");
    assert!(
        st.config.jacks.iter().any(|j| j.name == "prod" && j.patched),
        "a jack toggled during the undo window must NOT be reverted"
    );
    assert!(
        is_seen(&st, "arrived-meanwhile"),
        "an agent registered during the undo window must NOT be erased"
    );
}

#[test]
fn a_stale_undo_token_is_refused() {
    let mut st = state_with_agents();

    let first = delete_agents(&mut st, &["junk-a"]);
    let second = delete_agents(&mut st, &["junk-b"]);
    assert_ne!(first, second);

    let err = st.undo_delete_agents(first, Ok(())).0.unwrap_err();
    assert!(err.contains("no longer available"), "got '{}'", err);

    st.undo_delete_agents(second, Ok(())).0.expect("the current undo still works");
    assert!(is_seen(&st, "junk-b"));
    assert!(!is_seen(&st, "junk-a"), "the superseded deletion stays applied");
}

#[test]
fn undo_is_single_use() {
    let mut st = state_with_agents();
    let token = delete_agents(&mut st, &["junk-a"]);
    st.undo_delete_agents(token, Ok(())).0.expect("first undo");
    assert_eq!(
        st.undo_delete_agents(token, Ok(())).0,
        Err("nothing to undo".to_string()),
        "must not undo twice"
    );
}

#[test]
fn deleting_a_denied_identity_restores_the_denial() {
    let mut cfg = first_run_template();
    cfg.forbidden_clients.push("rogue".to_string());
    let mut st = AppState::new(cfg);

    let token = delete_agents(&mut st, &["rogue"]);
    assert!(st.config.forbidden_clients.is_empty());

    st.undo_delete_agents(token, Ok(())).0.expect("undo");
    assert!(
        st.config.forbidden_clients.iter().any(|f| f == "rogue"),
        "undo must not silently un-block a blocked agent"
    );
}

#[test]
fn reset_custom_to_global_drops_the_preserved_list() {
    let mut st = state_with_agents();
    assert!(st.config.client_overrides.contains_key("junk-a"));

    st.reset_custom_to_global("junk-a", Ok(())).0.expect("reset");
    assert!(
        !st.config.client_overrides.contains_key("junk-a"),
        "the override entry must be gone, not merely disabled"
    );

    st.reset_custom_to_global("junk-a", Ok(())).0.expect("no-op");
    st.enable_custom_client("junk-a", Ok(())).0.unwrap();
    assert_eq!(custom(&st, "junk-a", "prod"), Some(false), "seeded afresh from the global list");
}

#[test]
fn reload_brings_jacks_in_line_and_keeps_the_config_on_a_bad_file() {
    let mut st = state_two_jacks();
    let effects = st.reload(Err(ConfigError::Parse("parse x: bad".to_string())));
    assert_eq!(st.config_error.as_deref(), Some("parse x: bad"));
    assert_eq!(st.config.jacks.len(), 2);
    assert_eq!(effects, vec![Effect::NotifyStructure, Effect::RequestEvent("reload_config".to_string())]);

    let mut next = first_run_template();
    next.jacks[0].patched = true;
    next.port = 4000;
    let effects = st.reload(Ok(next));
    assert_eq!(st.config_error, None);
    assert_eq!(
        effects,
        vec![
            Effect::StartJack("prod".to_string()),
            Effect::StopJack("alpha".to_string()),
            Effect::StopJack("beta".to_string()),
            Effect::Broadcast,
            Effect::CloseStreams,
            Effect::StopListener,
            Effect::StartListener(4000),
            Effect::RequestEvent("gateway_port_rebind".to_string()),
            Effect::NotifyStructure,
            Effect::RequestEvent("reload_config".to_string()),
        ]
    );
    st.reload(Err(ConfigError::Missing));
    assert_eq!(st.config_error, None);
    assert_eq!(st.config.port, 4000);
}
