use patchbay::app_state::state::{AppState, GatewayStatus};
use patchbay::approval::{
    approval_granted, approval_prompt, delete_confirm_prompt, deletion_confirmed, DialogAnswer,
};
use patchbay::config::load::first_run_template;
use patchbay::config::schema::{ClientOverride, JackConfig, JackTransport, PatchbayConfig, SeenClient, Sharing};
use patchbay::name_map::NameMap;
use patchbay::text::{contains_text, lower_text, trim_text};
use patchbay::numerals::{decimal_text, parse_numeral};
use patchbay::tray::{
    build_menu, build_minimal_menu, forbidden_item_label, on_menu_event, tooltip_text, ClickAction,
    DeleteClientItem, MenuEntry,
};
use patchbay::ui::{build_snapshot, gateway_url, is_sensitive_jack_name, split_status, UiCustomState};
use patchbay::upstream::manager::{JackRuntime, JackStatus};
use patchbay::json::Json;

fn seen(name: &str) -> SeenClient {
    SeenClient {
        name: name.to_string(),
        first_seen_version: None,
        first_seen: "2026-07-01T00:00:00+02:00".to_string(),
        last_seen: None,
    }
}

fn custom(enabled: bool) -> ClientOverride {
    ClientOverride { enabled, jacks: NameMap::new().put("prod".to_string(), true) }
}

#[test]
fn snapshot_never_leaks_secrets() {
    let mut cfg = first_run_template();
    cfg.jacks[0].transport = JackTransport::StreamableHttp {
        url: "https://example.com/mcp?token=URLSECRET".to_string(),
        headers: NameMap::new().put("Authorization".to_string(), "Bearer HEADERSECRET".to_string()),
    };
    cfg.jacks.push(JackConfig {
        name: "child".to_string(),
        patched: false,
        transport: JackTransport::Stdio {
            command: "npx".to_string(),
            args: vec!["-y".to_string(), "some-mcp".to_string()],
            env: NameMap::new().put("DB_TOKEN".to_string(), "ENVSECRET".to_string()),
        },
        sharing: Sharing::Shared,
        tools: None,
    });

    let state = AppState::new(cfg);
    let snap = build_snapshot(&state, "1.3.0", 0);
    let shown = format!("{:?}", snap);

    for secret in ["HEADERSECRET", "ENVSECRET", "URLSECRET", "Bearer", "dpapi:"] {
        assert!(!shown.contains(secret), "snapshot leaked '{}': {}", secret, shown);
    }
    assert!(shown.contains("child"), "jack names must still be present");
}

#[test]
fn sensitive_jacks_are_flagged() {
    assert!(is_sensitive_jack_name("prod"));
    assert!(is_sensitive_jack_name("eUnifyMCP-Prod"));
    assert!(is_sensitive_jack_name("prod-replica"));
    assert!(!is_sensitive_jack_name("bee-memory-bank"));
    assert!(!is_sensitive_jack_name("tabduct"));
}

#[test]
fn tool_count_is_none_unless_running() {
    let mut state = AppState::new(first_run_template());
    let snap = build_snapshot(&state, "1.3.0", 0);
    assert_eq!(snap.jacks[0].tool_count, None);
    assert_eq!(snap.jacks[0].status, "unknown");
    state.upstream.runtimes = NameMap::new().put(
        "prod".to_string(),
        JackRuntime { status: JackStatus::Running, client: Some(1), tool_cache: vec![Json::Null] },
    );
    assert_eq!(build_snapshot(&state, "1.3.0", 0).jacks[0].tool_count, Some(1));
}

#[test]
fn status_failure_reason_is_split_out() {
    let (s, e) = split_status("failed: ECONNREFUSED");
    assert_eq!(s, "failed");
    assert_eq!(e.as_deref(), Some("ECONNREFUSED"));
    let (s, e) = split_status("running");
    assert_eq!(s, "running");
    assert_eq!(e, None);
}

#[test]
fn custom_state_distinguishes_preserved_from_absent() {
    let mut cfg = first_run_template();
    cfg.seen_clients = vec![seen("plain"), seen("preserved"), seen("active")];
    cfg.client_overrides =
        NameMap::new().put("preserved".to_string(), custom(false)).put("active".to_string(), custom(true));

    let state = AppState::new(cfg);
    let snap = build_snapshot(&state, "1.3.0", 0);
    let by = |n: &str| snap.agents.iter().find(|a| a.name == n).unwrap();

    assert_eq!(by("plain").custom_state, UiCustomState::Absent);
    assert_eq!(by("preserved").custom_state, UiCustomState::PreservedDisabled);
    assert_eq!(by("active").custom_state, UiCustomState::Enabled);

    let preserved_prod = by("preserved").overrides.iter().find(|o| o.jack == "prod").unwrap().on;
    assert!(preserved_prod, "a preserved override must be shown as it will be restored");
    let plain_prod = by("plain").overrides.iter().find(|o| o.jack == "prod").unwrap().on;
    assert!(!plain_prod, "an agent with no entry follows the global list");
}

#[test]
fn denied_identity_without_a_seen_record_still_appears() {
    let mut cfg = first_run_template();
    cfg.forbidden_clients.push("rogue".to_string());
    let state = AppState::new(cfg);
    let snap = build_snapshot(&state, "1.3.0", 0);

    let rogue = snap.agents.iter().find(|a| a.name == "rogue").expect("a denied identity must be listed");
    assert!(rogue.denied);
    assert_eq!(rogue.first_seen, None, "it has no seen_clients record, so it has no first_seen date");
    assert!(!rogue.connected);
}

#[test]
fn a_connected_agent_shows_its_freshest_session() {
    let mut cfg = first_run_template();
    cfg.seen_clients = vec![seen("codex")];
    let mut state = AppState::new(cfg);
    for (id, at) in [("a", 1_000u64), ("b", 7_000)] {
        state.sessions.create_as(id, at);
        let mut s = state.sessions.check_out(id).unwrap();
        s.set_client_name(Some("codex".to_string()));
        state.sessions.store(id, s);
        state.sessions.mark_initialized(id);
    }
    let snap = build_snapshot(&state, "1.3.0", 10_000);
    assert_eq!(snap.gateway.session_count, 2);
    assert_eq!(snap.agents[0].idle_secs, Some(3));
    assert!(snap.agents[0].connected);
    assert_eq!(snap.gateway.url, "http://127.0.0.1:39100/mcp");
    assert_eq!(snap.settings.version, "1.3.0");
    assert_eq!(gateway_url(80), "http://127.0.0.1:80/mcp");
}

fn state_with_agents() -> AppState {
    let mut cfg: PatchbayConfig = first_run_template();
    cfg.seen_clients = vec![seen("codex"), seen("kilo")];
    cfg.client_overrides = NameMap::new().put("codex".to_string(), custom(true));
    cfg.forbidden_clients = vec!["kilo".to_string()];
    AppState::new(cfg)
}

fn labels(entries: &[MenuEntry]) -> Vec<String> {
    entries
        .iter()
        .map(|e| match e {
            MenuEntry::Item { label, .. } => label.clone(),
            MenuEntry::Check { label, checked, .. } => format!("{}={}", label, checked),
            MenuEntry::Separator => "-".to_string(),
            MenuEntry::Submenu { label, .. } => format!("{}>", label),
        })
        .collect()
}

fn submenu<'a>(entries: &'a [MenuEntry], name: &str) -> &'a Vec<MenuEntry> {
    entries
        .iter()
        .find_map(|e| match e {
            MenuEntry::Submenu { label, entries } if label == name => Some(entries),
            _ => None,
        })
        .unwrap_or_else(|| panic!("no submenu {}", name))
}

#[test]
fn the_menu_shows_jacks_settings_and_agents() {
    let st = state_with_agents();
    let (menu, items) = build_menu(&st, "1.3.0");
    assert_eq!(labels(&menu), vec!["prod=false", "-", "Settings>", "About [1.3.0]", "-", "Quit"]);
    let settings = submenu(&menu, "Settings");
    assert_eq!(
        labels(settings),
        vec![
            "Custom [1/2]>",
            "Forbidden [1]>",
            "Retry gateway",
            "Reload config",
            "Open config file",
            "Open logs folder",
            "Copy gateway URL",
            "-",
            "Start with Windows=false",
            "Require approval for new agents=false",
            "Enable request logging=false",
        ]
    );
    let custom = submenu(settings, "Custom [1/2]");
    assert_eq!(
        labels(submenu(custom, "codex")),
        vec!["Enable Custom permissions=true", "-", "prod=true", "-", "\u{2715} Delete this agent"]
    );
    assert_eq!(
        labels(submenu(settings, "Forbidden [1]")),
        vec!["codex [allowed]=false", "kilo [denied]=true"]
    );
    assert_eq!(items.overrides.len(), 2);
    assert_eq!(forbidden_item_label("a", true), "a [denied]");
    assert_eq!(labels(&build_minimal_menu()).len(), build_minimal_menu().len());
}

#[test]
fn an_empty_menu_says_so() {
    let mut cfg = first_run_template();
    cfg.jacks.clear();
    let st = AppState::new(cfg);
    let (menu, _items) = build_menu(&st, "1.3.0");
    let settings = submenu(&menu, "Settings");
    assert_eq!(labels(submenu(settings, "Custom [0/0]")), vec!["(no agents seen yet)"]);
    assert_eq!(labels(submenu(settings, "Forbidden [0]")), vec!["(no agents seen yet)"]);
    assert_eq!(
        tooltip_text(&st),
        "Patchbay \u{2014} no servers configured \u{b7} http://127.0.0.1:39100/mcp"
    );
}

#[test]
fn a_click_asks_for_the_opposite_of_what_is_so() {
    let mut st = state_with_agents();
    let (_menu, items) = build_menu(&st, "1.3.0");
    let click = |st: &AppState, id: &str| on_menu_event(st, &items, id);
    assert_eq!(click(&st, "jack:prod"), ClickAction::SetPatched { jack: "prod".to_string(), on: true });
    assert_eq!(
        click(&st, "ovr:1"),
        ClickAction::SetOverride {
            client: "codex".to_string(),
            jack: "prod".to_string(),
            on: false,
            newly_custom: false,
        }
    );
    assert_eq!(click(&st, "enable_custom:1"), ClickAction::DisableCustom { client: "codex".to_string() });
    assert_eq!(click(&st, "enable_custom:2"), ClickAction::EnableCustom { client: "kilo".to_string() });
    assert_eq!(
        click(&st, "forbid:2"),
        ClickAction::SetForbidden { identity: "kilo".to_string(), denied: false }
    );
    assert_eq!(
        click(&st, "delete_client:1"),
        ClickAction::DeleteClient(DeleteClientItem { identity: "codex".to_string() })
    );
    assert_eq!(click(&st, "delete_client:9"), ClickAction::Nothing, "a stale id does nothing");
    assert_eq!(click(&st, "retry_gateway"), ClickAction::RetryGateway { port: 39100 });
    assert_eq!(click(&st, "autostart"), ClickAction::SetAutostart(true));
    assert_eq!(click(&st, "copy_url"), ClickAction::CopyUrl { url: "http://127.0.0.1:39100/mcp".to_string() });
    assert_eq!(click(&st, "quit"), ClickAction::Quit);
    st.status = GatewayStatus::Running { port: 39100 };
    assert_eq!(click(&st, "retry_gateway"), ClickAction::RefreshTooltip);
}

#[test]
fn the_tooltip_names_the_worst_first() {
    let mut st = state_with_agents();
    assert_eq!(tooltip_text(&st), "Patchbay \u{2014} 0/1 patched \u{b7} http://127.0.0.1:39100/mcp");
    st.status = GatewayStatus::Failed { reason: "in use".to_string() };
    assert_eq!(tooltip_text(&st), "Patchbay \u{2014} GATEWAY FAILED: in use");
    st.config_error = Some("bad".to_string());
    assert_eq!(
        tooltip_text(&st),
        "Patchbay \u{2014} CONFIG ERROR: bad (fix patchbay.json, then Reload config)"
    );
}

#[test]
fn a_dialog_that_cannot_ask_never_deletes() {
    assert!(approval_granted(DialogAnswer::Yes));
    assert!(!approval_granted(DialogAnswer::No));
    assert!(approval_granted(DialogAnswer::Unavailable));
    assert!(deletion_confirmed(DialogAnswer::Yes));
    assert!(!deletion_confirmed(DialogAnswer::No));
    assert!(!deletion_confirmed(DialogAnswer::Unavailable));
    assert_eq!(
        approval_prompt("codex"),
        "'codex' wants to connect to Patchbay for the first time.\n\nAllow this AI agent to access your configured MCP servers?"
    );
    assert!(delete_confirm_prompt("codex").starts_with("Are you sure you want to permanently delete 'codex'"));
}

#[test]
fn texts_and_numerals() {
    assert_eq!(trim_text("\u{2003}a b\n"), "a b");
    assert_eq!(lower_text("ABÉ"), "abÉ");
    assert!(contains_text("hello", "ell"));
    assert!(!contains_text("hello", "elo"));
    assert_eq!(decimal_text(18_446_744_073_709_551_615), "18446744073709551615");
    assert_eq!(decimal_text(0), "0");
    assert_eq!(parse_numeral("+7", 10), Some(7));
    assert_eq!(parse_numeral("11", 10), None);
    assert_eq!(parse_numeral("", 10), None);
    assert_eq!(parse_numeral("7a", 10), None);
}
