use patchbay::app_state::identity::sanitize_client_name;
use patchbay::app_state::state::AppState;
use patchbay::config::load::{config_to_write, first_run_template, safe_default};
use patchbay::config::schema::{ClientOverride, JackConfig, JackTransport, PatchbayConfig, SeenClient, Sharing};
use patchbay::config::validate::validate;
use patchbay::gateway::registry::SessionRegistry;
use patchbay::gateway::session::parse_seq;
use patchbay::gateway::tools::namespace;
use patchbay::name_map::{NameMap, Replica};
use patchbay::numerals::{decimal_text, parse_numeral, wide_decimal_text};
use patchbay::text::trim_text;
use patchbay::upstream::events::{EventMeaning, EventReader};

fn jack(name: &str, patched: bool) -> JackConfig {
    JackConfig {
        name: name.to_string(),
        patched,
        transport: JackTransport::Stdio {
            command: "npx".to_string(),
            args: vec![],
            env: NameMap::new().put("K".to_string(), "plain".to_string()),
        },
        sharing: Sharing::Shared,
        tools: None,
    }
}

/// Two jacks, one client with a list of its own, one that follows.
fn config() -> PatchbayConfig {
    let mut cfg = safe_default();
    cfg.jacks = vec![jack("alpha", true), jack("beta", false)];
    cfg.client_overrides = NameMap::new().put(
        "own".to_string(),
        ClientOverride {
            enabled: true,
            jacks: NameMap::new().put("alpha".to_string(), false).put("beta".to_string(), true),
        },
    );
    cfg.seen_clients = vec![SeenClient {
        name: "follower".to_string(),
        first_seen_version: None,
        first_seen: "then".to_string(),
        last_seen: None,
    }];
    cfg
}

fn grants(cfg: &PatchbayConfig) -> Vec<(String, bool)> {
    let mut out = Vec::new();
    for j in cfg.jack_names() {
        for c in [None, Some("own"), Some("follower"), Some("stranger")] {
            out.push((format!("{} {:?}", j, c), cfg.effective_patched(&j, c)));
        }
    }
    out
}

/// Whether nobody reaches more in `after` than in `before`.
fn no_more(before: &PatchbayConfig, after: &PatchbayConfig) -> bool {
    let old = grants(before);
    grants(after).iter().all(|(k, on)| !*on || old.iter().any(|(k2, on2)| k2 == k && *on2))
}

#[test]
fn a_client_reaches_only_what_runs() {
    let cfg = config();
    for j in cfg.jack_names() {
        let anyone = [None, Some("own"), Some("follower")].iter().any(|c| cfg.effective_patched(&j, *c));
        assert_eq!(anyone, cfg.should_run_jack(&j), "{}", j);
    }
}

#[test]
fn no_change_that_an_agent_may_ask_for_grants_anything() {
    let cfg = config();
    assert!(no_more(&cfg, &cfg.with_patched("alpha", false)));
    assert!(no_more(&cfg, &cfg.without_jack("beta")));
    assert!(no_more(&cfg, &cfg.with_jack(&jack("gamma", false))));
    assert!(!no_more(&cfg, &cfg.with_patched("beta", true)));
}

#[test]
fn lists_mirror_the_jacks_through_every_change() {
    let mut cfg = config();
    cfg = cfg.with_jack(&jack("gamma", true));
    cfg = cfg.without_jack("alpha");
    cfg = cfg.with_override("own", "beta", false);
    cfg = cfg.with_custom("follower");
    cfg = cfg.without_custom("own");
    for i in 0..cfg.client_overrides.len() {
        let mut names = cfg.jack_names();
        names.sort();
        assert_eq!(cfg.client_overrides.value_at(i).jacks.keys(), names);
    }
    assert_eq!(cfg.sync_override_jacks(), 0);
}

#[test]
fn the_global_switch_reaches_followers_and_the_own_switch_one_client() {
    let cfg = config();
    let on = cfg.with_patched("beta", true);
    assert!(on.effective_patched("beta", Some("follower")));
    assert!(on.effective_patched("beta", None));
    assert_eq!(on.effective_patched("alpha", Some("own")), cfg.effective_patched("alpha", Some("own")));
    let back = on.with_patched("beta", false);
    assert_eq!(back, cfg, "switching back restores");

    let own = cfg.with_override("own", "alpha", true);
    assert!(own.effective_patched("alpha", Some("own")));
    for c in [None, Some("follower"), Some("stranger")] {
        assert_eq!(own.effective_patched("alpha", c), cfg.effective_patched("alpha", c));
    }
    assert_eq!(own.with_override("own", "alpha", false), cfg);
}

#[test]
fn denial_and_its_end_leave_the_rest_alone() {
    let cfg = config();
    let denied = cfg.with_forbidden("own", true);
    assert!(!denied.effective_patched("beta", Some("own")));
    assert_eq!(denied.effective_patched("alpha", Some("follower")), cfg.effective_patched("alpha", Some("follower")));
    assert_eq!(denied.with_forbidden("own", false), cfg);
}

#[test]
fn traffic_grants_nothing() {
    let mut st = AppState::new(config());
    let before = grants(&st.config);
    st.record_seen_client("stranger", Some("1"));
    let (_, now) = st.touch_client_last_seen("follower", 100);
    st.touch_client_saved("follower", &now, Ok(()));
    assert_eq!(grants(&st.config), before);
}

#[test]
fn storing_secrets_keeps_the_rest() {
    let cfg = config();
    let sealed: Vec<NameMap<Vec<u8>>> =
        cfg.jacks.iter().map(|_| NameMap::new().put("K".to_string(), vec![1u8, 2])).collect();
    let written = config_to_write(&cfg, &sealed);
    match &written.jacks[0].transport {
        JackTransport::Stdio { env, .. } => assert_eq!(env.get("K").unwrap(), "dpapi:AQI="),
        other => panic!("{:?}", other),
    }
    assert_eq!(written.client_overrides, cfg.client_overrides);
    assert_eq!(written.jacks[0].name, cfg.jacks[0].name);
    assert_eq!(grants(&written), grants(&cfg));
    // What is sealed already is not sealed again.
    assert_eq!(config_to_write(&written, &sealed), written);
    assert_eq!(cfg.jacks[0].replica(), cfg.jacks[0]);
}

#[test]
fn the_configurations_that_ship_are_clean() {
    assert_eq!(validate(&first_run_template()), Ok(()));
    assert_eq!(validate(&safe_default()), Ok(()));
}

#[test]
fn tools_of_two_jacks_never_share_a_name() {
    assert_ne!(namespace("a", "b__c"), namespace("a-b", "c"));
    assert_ne!(namespace("prod", "x"), namespace("pro", "d__x"));
    // A name that ends in an underscore can collide.
    assert_eq!(namespace("a_", "b"), namespace("a", "_b"));
}

#[test]
fn a_failed_delivery_is_made_up_for_and_numbers_rise() {
    let mut reg = SessionRegistry::new();
    reg.create_as("s", 0);
    reg.mark_initialized("s");
    let mut s = reg.check_out("s").unwrap();
    s.register_stream_as(7, 0);
    let (_, first) = s.announce(0).unwrap();
    let (_, second) = s.announce(0).unwrap();
    assert!(parse_seq(&first.event_id).unwrap() < parse_seq(&second.event_id).unwrap());
    s.delivery_failed(7);
    let replay = s.take_replay_since(Some(&second.event_id), 0);
    assert_eq!(replay.len(), 1, "the change that was not delivered");
    for r in &replay {
        assert!(parse_seq(&r.event_id).unwrap() > parse_seq(&second.event_id).unwrap());
        assert!(r.event_id.starts_with("s:"));
    }
    assert!(s.take_replay_since(Some(&replay[0].event_id), 0).is_empty());
}

#[test]
fn an_event_stream_answers_only_its_own_request() {
    let mut reader = EventReader::new(5);
    assert_eq!(reader.feed(&b"data: {\"id\":4,\"result\":1}\n\n".to_vec()).answer, None);
    assert_eq!(reader.finish(), EventMeaning::Nothing);
    let mut reader = EventReader::new(5);
    let p = reader.feed(&b"data: {\"id\":4}\n\ndata: {\"id\":5,\"result\":2}\n\n".to_vec());
    assert_eq!(p.answer.unwrap().get("id"), Some(&patchbay::json::Json::from_count(5)));
}

#[test]
fn texts_keep_their_form() {
    for n in [0u64, 7, 10, 99, 18_446_744_073_709_551_615] {
        assert_eq!(parse_numeral(&decimal_text(n), u64::MAX), Some(n));
    }
    assert_eq!(wide_decimal_text(340_282_366_920_938_463_463_374_607_431_768_211_455),
        "340282366920938463463374607431768211455");
    let once = trim_text("  a  b \t");
    assert_eq!(trim_text(&once), once);
    let clean = sanitize_client_name(" <x>\u{7}y ");
    assert_eq!(clean, "_x_y");
    assert_eq!(sanitize_client_name(&clean), clean);
}
