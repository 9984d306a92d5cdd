use patchbay::config::load::{
    config_file_path, config_to_write, example_file_path, first_run_template, load_lines, load_result, repair_on_load,
    runtime_state, safe_default, startup_config, state_path_for, ConfigError, FilePlace, FileRead, RuntimeState,
};
use patchbay::config::schema::{
    ClientOverride, JackConfig, JackTransport, PatchbayConfig, SeenClient, Sharing, UiMode, CURRENT_VERSION,
    DEFAULT_PORT,
};
use patchbay::config::secrets::{
    decrypted_env, decrypted_headers, encrypt_config_secrets, jack_plain_secrets,
};
use patchbay::config::validate::{is_valid_jack_name, is_valid_name_charset, validate};
use patchbay::json::{Json, Number};
use patchbay::name_map::{NameMap, Replica};
use patchbay::utils::dpapi::{decrypt_field, encrypt_field, is_encrypted, protected_bytes};

fn jack(name: &str, patched: bool) -> JackConfig {
    JackConfig {
        name: name.to_string(),
        patched,
        transport: JackTransport::Stdio {
            command: "npx".to_string(),
            args: vec!["-y".to_string(), "some-db-mcp".to_string()],
            env: NameMap::new(),
        },
        sharing: Sharing::Shared,
        tools: None,
    }
}

fn http_jack(name: &str) -> JackConfig {
    JackConfig {
        name: name.to_string(),
        patched: true,
        transport: JackTransport::StreamableHttp {
            url: "https://example.com/mcp".to_string(),
            headers: NameMap::new(),
        },
        sharing: Sharing::PerClientSession,
        tools: None,
    }
}

fn cfg_with_jacks(jacks: Vec<JackConfig>) -> PatchbayConfig {
    PatchbayConfig {
        version: CURRENT_VERSION,
        port: DEFAULT_PORT,
        autostart: false,
        ui_mode: UiMode::Tray,
        jacks,
        bays: NameMap::new(),
        seen_clients: Vec::new(),
        client_overrides: NameMap::new(),
        require_approval_for_new_clients: false,
        request_logging_enabled: false,
        forbidden_clients: Vec::new(),
    }
}

fn make_override(enabled: bool, entries: &[(&str, bool)]) -> ClientOverride {
    let mut jacks = NameMap::new();
    for (n, v) in entries {
        jacks = jacks.put(n.to_string(), *v);
    }
    ClientOverride { enabled, jacks }
}

fn set_override(cfg: &mut PatchbayConfig, client: &str, o: ClientOverride) {
    cfg.client_overrides = cfg.client_overrides.copied().put(client.to_string(), o);
}

fn seen(name: &str) -> SeenClient {
    SeenClient {
        name: name.to_string(),
        first_seen_version: None,
        first_seen: "2026-07-29T16:26:20+02:00".to_string(),
        last_seen: Some("2026-09-03T11:02:00+02:00".to_string()),
    }
}

fn no_secrets(cfg: &PatchbayConfig) -> Vec<NameMap<Vec<u8>>> {
    cfg.jacks.iter().map(|_| NameMap::new()).collect()
}

#[test]
fn save_load_round_trip() {
    let mut cfg = cfg_with_jacks(vec![jack("alpha", true), http_jack("beta")]);
    cfg.port = 39100;
    cfg.autostart = true;
    let written = config_to_write(&cfg, &no_secrets(&cfg));
    let state = runtime_state(&cfg);
    let loaded = load_result("p", FileRead::Config(written), Some(state)).expect("load should succeed");
    assert_eq!(cfg, loaded, "config should survive a save/load round trip");
}

#[test]
fn validation_passes_for_clean_config() {
    let cfg = cfg_with_jacks(vec![jack("prod", false), jack("docs-v2", true), http_jack("api")]);
    assert!(validate(&cfg).is_ok(), "clean config should validate");
}

#[test]
fn validation_reports_every_violation() {
    let cfg = cfg_with_jacks(vec![
        jack("", false),
        jack("a__b", true),
        jack("dup", false),
        jack("dup", false),
        jack(&"x".repeat(41), true),
        jack("bad name", false),
    ]);
    let errs = validate(&cfg).expect_err("should have violations");
    assert!(errs.iter().any(|e| e.contains("empty")), "expected empty-name violation: {:?}", errs);
    assert!(errs.iter().any(|e| e.contains("__")), "expected '__' violation: {:?}", errs);
    assert!(
        errs.iter().any(|e| e.contains("unique") && e.contains("dup")),
        "expected duplicate violation: {:?}",
        errs
    );
    assert!(errs.iter().any(|e| e.contains("40")), "expected length violation: {:?}", errs);
    assert!(errs.iter().any(|e| e.contains("invalid chars")), "expected charset violation: {:?}", errs);
}

#[test]
fn a_name_is_quoted_in_a_violation() {
    let cfg = cfg_with_jacks(vec![jack("bad \"x\"", false)]);
    let errs = validate(&cfg).unwrap_err();
    assert!(errs.iter().any(|e| e.contains("\"bad \\\"x\\\"\"")), "{:?}", errs);
}

#[test]
fn validation_underscore_without_double_is_ok() {
    let cfg = cfg_with_jacks(vec![jack("my_jack", true)]);
    assert!(validate(&cfg).is_ok());
}

#[test]
fn validation_max_length_boundary() {
    let name_40 = "a".repeat(40);
    let name_41 = "b".repeat(41);
    assert!(validate(&cfg_with_jacks(vec![jack(&name_40, true)])).is_ok(), "40 chars should be allowed");
    assert!(validate(&cfg_with_jacks(vec![jack(&name_41, true)])).is_err(), "41 chars should be rejected");
    assert!(is_valid_jack_name(&name_40));
    assert!(!is_valid_jack_name(&name_41));
    assert!(!is_valid_jack_name(""));
    assert!(is_valid_name_charset("A-z_0"));
    assert!(!is_valid_name_charset("é"));
}

#[test]
fn first_run_template_has_prod_off() {
    let t = first_run_template();
    assert_eq!(t.port, DEFAULT_PORT);
    assert_eq!(t.jacks.len(), 1);
    let prod = &t.jacks[0];
    assert_eq!(prod.name, "prod");
    assert!(!prod.patched, "prod must ship patched:false");
    match &prod.transport {
        JackTransport::Stdio { command, args, env } => {
            assert_eq!(command, "npx");
            assert_eq!(args, &["-y".to_string(), "some-db-mcp".to_string()]);
            assert!(env.contains_key("DB_TOKEN"));
        }
        _ => panic!("prod should be a stdio jack"),
    }
}

#[test]
fn a_drifted_override_map_is_repaired_on_load_not_by_the_caller() {
    let mut cfg = first_run_template();
    cfg.jacks = vec![jack("alpha", true)];
    set_override(&mut cfg, "codex", make_override(true, &[("alpha-prod", true)]));
    let loaded = load_result("p", FileRead::Config(cfg), None).expect("load");
    let ovr = loaded.client_overrides.get("codex").unwrap();
    assert!(!ovr.jacks.contains_key("alpha-prod"), "stale key survived");
    assert_eq!(ovr.jacks.get("alpha"), Some(&false), "missing key not seeded closed");
}

#[test]
fn seen_agents_live_beside_the_config_not_inside_it() {
    let mut cfg = first_run_template();
    cfg.seen_clients.push(seen("Codex"));
    let state = runtime_state(&cfg);
    let on_disk = config_to_write(&cfg, &no_secrets(&cfg));
    assert!(on_disk.seen_clients.is_empty(), "seen agents must not be written to the config");
    assert_eq!(cfg.seen_clients.len(), 1, "the copy in memory keeps them");
    let back = load_result("p", FileRead::Config(on_disk), Some(state)).expect("load");
    assert_eq!(back.seen_clients.len(), 1);
    assert_eq!(back.seen_clients[0].last_seen.as_deref(), Some("2026-09-03T11:02:00+02:00"));
}

#[test]
fn an_existing_install_migrates_its_seen_agents_on_first_save() {
    let mut old_format = cfg_with_jacks(vec![]);
    old_format.seen_clients.push(SeenClient {
        name: "some-agent".to_string(),
        first_seen_version: None,
        first_seen: "2026-01-01T00:00:00+00:00".to_string(),
        last_seen: None,
    });
    let loaded = load_result("p", FileRead::Config(old_format), None).expect("load");
    assert_eq!(
        loaded.seen_clients.len(),
        1,
        "the migration must not lose the agents the user already approved"
    );
    let state = runtime_state(&loaded);
    assert_eq!(state.version, 1);
    assert_eq!(state.seen_clients.len(), 1);
    let on_disk = config_to_write(&loaded, &no_secrets(&loaded));
    assert!(on_disk.seen_clients.is_empty(), "the list leaves the config on the first save");
    let reloaded = load_result("p", FileRead::Config(on_disk), Some(state)).expect("reload");
    assert_eq!(reloaded.seen_clients.len(), 1);
}

#[test]
fn what_is_written_is_read_back() {
    let mut cfg = cfg_with_jacks(vec![jack("alpha", true), http_jack("beta")]);
    cfg.forbidden_clients.push("rogue".to_string());
    cfg.seen_clients.push(seen("Codex"));
    set_override(&mut cfg, "codex", make_override(true, &[("alpha", false), ("beta", true)]));
    let on_disk = config_to_write(&cfg, &no_secrets(&cfg));
    let back = load_result("p", FileRead::Config(on_disk), Some(runtime_state(&cfg))).expect("load");
    assert_eq!(back, cfg);
    let on_disk = config_to_write(&cfg, &no_secrets(&cfg));
    let alone = load_result("p", FileRead::Config(on_disk), None).expect("load");
    cfg.seen_clients = Vec::new();
    assert_eq!(alone, cfg, "without the state file only the agents are forgotten");
}

#[test]
fn a_damaged_state_file_costs_only_the_agent_list() {
    let cfg = first_run_template();
    let jacks = cfg.jacks.len();
    let loaded = load_result("p", FileRead::Config(cfg), None)
        .expect("a damaged state file must not fail the load");
    assert_eq!(loaded.jacks.len(), jacks, "the servers must survive");
    assert!(loaded.seen_clients.is_empty(), "known agents simply look new again");
}

#[test]
fn loading_tells_what_it_changes() {
    let mut cfg = cfg_with_jacks(vec![jack("alpha", true)]);
    assert!(load_lines(&FileRead::Config(cfg.replica()), false, "s").is_empty());
    assert!(load_lines(&FileRead::Missing, false, "s").is_empty());
    cfg.seen_clients.push(seen("Codex"));
    set_override(&mut cfg, "codex", make_override(true, &[("gone", true)]));
    let repaired = "config: repaired 2 stale/missing entries across 1 Custom override(s) (a Custom list no longer matched the jack list)".to_string();
    assert_eq!(
        load_lines(&FileRead::Config(cfg.replica()), false, "patchbay.state.json"),
        vec![
            "config: migrating 1 seen agent(s) out of the config file into patchbay.state.json".to_string(),
            repaired.clone(),
        ]
    );
    assert_eq!(load_lines(&FileRead::Config(cfg), true, "patchbay.state.json"), vec![repaired]);
}

#[test]
fn the_state_file_wins_over_a_list_left_in_the_config() {
    let mut cfg = first_run_template();
    cfg.seen_clients.push(seen("old"));
    let state = RuntimeState { version: 1, seen_clients: vec![seen("new")] };
    let loaded = load_result("p", FileRead::Config(cfg), Some(state)).unwrap();
    assert_eq!(loaded.seen_clients.len(), 1);
    assert_eq!(loaded.seen_clients[0].name, "new");
}

#[test]
fn the_state_file_sits_beside_its_own_config() {
    let place = |file: &str| FilePlace { dir: "C:\\x".to_string(), file: file.to_string() };
    let a = state_path_for(&place("patchbay.json"));
    let b = state_path_for(&place("patchbay_test_7.json"));
    assert_eq!(a.file, "patchbay.state.json");
    for nameless in ["", ".", ".."] {
        assert_eq!(state_path_for(&place(nameless)).file, "patchbay.state.json");
    }
    assert_eq!(b.file, "patchbay_test_7.state.json");
    assert_eq!(a.dir, b.dir);
    assert_ne!(a, b);
    assert_eq!(config_file_path("d").file, "patchbay.json");
    assert_eq!(example_file_path("d").file, "patchbay.example.jsonc");
}

#[test]
fn safe_default_is_empty_and_valid() {
    let d = safe_default();
    assert!(d.jacks.is_empty());
    assert_eq!(d.port, DEFAULT_PORT);
    assert!(validate(&d).is_ok());
}

#[test]
fn a_load_fails_in_three_ways() {
    assert_eq!(load_result("p", FileRead::Missing, None).unwrap_err(), ConfigError::Missing);
    assert_eq!(
        load_result("p", FileRead::Unparsable("bad".to_string()), None).unwrap_err(),
        ConfigError::Parse("parse p: bad".to_string())
    );
    assert_eq!(
        load_result("p", FileRead::Unreadable("denied".to_string()), None).unwrap_err(),
        ConfigError::Io("read p: denied".to_string())
    );
}

#[test]
fn startup_never_overwrites_a_file_it_could_not_read() {
    let s = startup_config(Err(ConfigError::Parse("parse p: bad".to_string())));
    assert!(!s.write_template);
    assert_eq!(s.config_error.as_deref(), Some("parse p: bad"));
    assert_eq!(s.config, safe_default());
    let s = startup_config(Err(ConfigError::Missing));
    assert!(s.write_template);
    assert_eq!(s.config_error, None);
    assert_eq!(s.config, first_run_template());
    let s = startup_config(Ok(cfg_with_jacks(vec![jack("a", true)])));
    assert!(!s.write_template);
    assert_eq!(s.config.jacks.len(), 1);
}

#[test]
fn effective_patched_falls_back_to_global_when_no_override() {
    let cfg = cfg_with_jacks(vec![jack("alpha", true), jack("beta", false)]);
    assert!(cfg.effective_patched("alpha", None));
    assert!(!cfg.effective_patched("beta", None));
    assert!(cfg.effective_patched("alpha", Some("desk-code")));
    assert!(!cfg.effective_patched("beta", Some("desk-code")));
    assert!(!cfg.effective_patched("ghost", Some("desk-code")));
}

#[test]
fn effective_patched_uses_enabled_override_entry() {
    let mut cfg = cfg_with_jacks(vec![jack("alpha", true), jack("beta", false)]);
    set_override(&mut cfg, "codex", make_override(true, &[("alpha", false), ("beta", true)]));
    assert!(!cfg.effective_patched("alpha", Some("codex")));
    assert!(cfg.effective_patched("beta", Some("codex")));
    assert!(cfg.effective_patched("alpha", Some("other")));
}

#[test]
fn effective_patched_disabled_override_falls_back_to_global() {
    let mut cfg = cfg_with_jacks(vec![jack("alpha", true)]);
    set_override(&mut cfg, "codex", make_override(false, &[("alpha", false)]));
    assert!(cfg.effective_patched("alpha", Some("codex")));
}

#[test]
fn effective_patched_override_missing_jack_fails_closed() {
    let mut cfg = cfg_with_jacks(vec![jack("alpha", true), jack("beta", true)]);
    set_override(&mut cfg, "codex", make_override(true, &[("alpha", false)]));
    assert!(!cfg.effective_patched("alpha", Some("codex")));
    assert!(
        !cfg.effective_patched("beta", Some("codex")),
        "a jack the enabled Custom list does not name must be denied, not inherited"
    );
    set_override(&mut cfg, "kilo", make_override(false, &[("alpha", false)]));
    assert!(cfg.effective_patched("beta", Some("kilo")));
}

#[test]
fn sync_override_jacks_drops_stale_and_seeds_missing_closed() {
    let mut cfg = cfg_with_jacks(vec![jack("alpha", true), jack("beta", true)]);
    set_override(&mut cfg, "codex", make_override(true, &[("alpha-prod", true), ("alpha-test", false)]));

    let repairs = cfg.sync_override_jacks();
    assert_eq!(repairs, 4, "2 stale dropped + 2 missing seeded");

    let ovr = cfg.client_overrides.get("codex").unwrap();
    assert_eq!(
        ovr.jacks.keys(),
        vec!["alpha".to_string(), "beta".to_string()],
        "the map must name exactly the jacks that exist"
    );
    assert_eq!(ovr.jacks.get("alpha"), Some(&false));
    assert_eq!(ovr.jacks.get("beta"), Some(&false));
    assert_eq!(cfg.sync_override_jacks(), 0);
    assert_eq!(repair_on_load(&mut cfg), 0);
}

#[test]
fn sync_override_jacks_preserves_decisions_that_are_still_valid() {
    let mut cfg = cfg_with_jacks(vec![jack("alpha", true), jack("beta", true)]);
    set_override(&mut cfg, "codex", make_override(true, &[("alpha", true), ("gone", true)]));
    assert_eq!(cfg.sync_override_jacks(), 2);
    let ovr = cfg.client_overrides.get("codex").unwrap();
    assert_eq!(ovr.jacks.get("alpha"), Some(&true));
    assert_eq!(ovr.jacks.get("beta"), Some(&false));
}

#[test]
fn should_run_jack_or_over_global_and_client_overrides() {
    let mut cfg = cfg_with_jacks(vec![jack("alpha", false)]);
    assert!(!cfg.should_run_jack("alpha"));
    set_override(&mut cfg, "codex", make_override(true, &[("alpha", true)]));
    assert!(cfg.should_run_jack("alpha"));
    set_override(&mut cfg, "kilo", make_override(false, &[("alpha", true)]));
    assert!(cfg.should_run_jack("alpha"), "enabled codex still drives it");
    cfg.client_overrides = cfg.client_overrides.copied().without("codex");
    assert!(!cfg.should_run_jack("alpha"));
    cfg.jacks[0].patched = true;
    assert!(cfg.should_run_jack("alpha"));
}

#[test]
fn forbidden_client_sees_no_jacks_as_effective_patched() {
    let mut cfg = cfg_with_jacks(vec![jack("alpha", true), jack("beta", false)]);
    set_override(&mut cfg, "codex", make_override(true, &[("alpha", true)]));
    cfg.forbidden_clients.push("codex".to_string());

    assert!(!cfg.effective_patched("alpha", Some("codex")));
    assert!(!cfg.effective_patched("beta", Some("codex")));
    assert!(cfg.effective_patched("alpha", Some("desk-code")));
    assert!(!cfg.is_forbidden(None));
    assert!(cfg.effective_patched("alpha", None));
}

#[test]
fn forbidden_override_does_not_keep_shared_child_running() {
    let mut cfg = cfg_with_jacks(vec![jack("alpha", false)]);
    set_override(&mut cfg, "codex", make_override(true, &[("alpha", true)]));
    assert!(cfg.should_run_jack("alpha"), "non-forbidden Custom client drives the shared child");
    assert_eq!(cfg.custom_client_count(), 1);

    cfg.forbidden_clients.push("codex".to_string());
    assert!(
        !cfg.should_run_jack("alpha"),
        "forbidden clients have no access and must not keep a child alive"
    );
    assert_eq!(
        cfg.custom_client_count(),
        0,
        "forbidden overrides should not count as active Custom clients"
    );
}

#[test]
fn ui_mode_parses_all_three_values() {
    for (text, want) in [("tray", UiMode::Tray), ("window", UiMode::Window), ("both", UiMode::Both)] {
        assert_eq!(UiMode::from_json(&Json::from_text(text)), want, "ui_mode '{}'", text);
    }
}

#[test]
fn ui_mode_is_case_and_whitespace_tolerant() {
    assert_eq!(UiMode::from_json(&Json::from_text("  Window ")), UiMode::Window);
}

#[test]
fn ui_mode_unknown_value_degrades_to_tray_without_failing_the_parse() {
    assert_eq!(UiMode::from_json(&Json::from_text("windwo")), UiMode::Tray);
    let told = "config: unknown ui_mode 'windwo', falling back to 'tray'".to_string();
    assert_eq!(UiMode::unknown_json_line(&Json::from_text(" Windwo ")), Some(told.clone()));
    assert_eq!(UiMode::unknown_line("windwo"), Some(told));
    for known in ["tray", "window", " BOTH "] {
        assert_eq!(UiMode::unknown_line(known), None);
        assert_eq!(UiMode::unknown_json_line(&Json::from_text(known)), None);
    }
}

#[test]
fn ui_mode_wrong_type_degrades_to_tray_without_failing_the_parse() {
    assert_eq!(UiMode::from_json(&Json::Number(Number::Unsigned(5))), UiMode::Tray);
    assert_eq!(
        UiMode::unknown_json_line(&Json::Number(Number::Unsigned(5))).unwrap(),
        "config: ui_mode is not a string (5), falling back to 'tray'"
    );
}

#[test]
fn ui_mode_round_trips_through_serialization() {
    assert_eq!(UiMode::Both.as_str(), "both");
    for mode in [UiMode::Tray, UiMode::Window, UiMode::Both] {
        assert_eq!(UiMode::from_json(&Json::from_text(mode.as_str())), mode);
        assert_eq!(UiMode::from_str_lenient(mode.as_str()), mode);
    }
}

#[test]
fn ui_mode_click_routing_predicates() {
    assert!(!UiMode::Tray.window_on_left_click());
    assert!(UiMode::Window.window_on_left_click());
    assert!(UiMode::Both.window_on_left_click());

    assert!(UiMode::Tray.full_menu());
    assert!(!UiMode::Window.full_menu(), "window mode gets the escape hatch only");
    assert!(UiMode::Both.full_menu());

    assert_eq!(UiMode::Tray.as_str(), "tray");
    assert_eq!(UiMode::Window.as_str(), "window");
    assert_eq!(UiMode::Both.as_str(), "both");
}

/// Stands in for the operating system's protection: the bytes backwards.
fn scramble(text: &str) -> Vec<u8> {
    text.bytes().rev().collect()
}

fn unscramble(bytes: Vec<u8>) -> Vec<u8> {
    bytes.into_iter().rev().collect()
}

fn protect_all(cfg: &PatchbayConfig) -> Vec<NameMap<Vec<u8>>> {
    cfg.jacks
        .iter()
        .map(|j| {
            let plain = jack_plain_secrets(j);
            let mut out = NameMap::new();
            for k in plain.keys() {
                let sealed = scramble(plain.get(&k).unwrap());
                out = out.put(k, sealed);
            }
            out
        })
        .collect()
}

fn stored(jack: &JackConfig) -> &NameMap<String> {
    match &jack.transport {
        JackTransport::Stdio { env, .. } => env,
        JackTransport::StreamableHttp { headers, .. } => headers,
    }
}

fn opened(jack: &JackConfig) -> NameMap<Vec<u8>> {
    let mut out = NameMap::new();
    for k in stored(jack).keys() {
        if let Some(b) = protected_bytes(stored(jack).get(&k).unwrap()) {
            out = out.put(k, unscramble(b));
        }
    }
    out
}

fn stdio_with_env(env_val: &str) -> PatchbayConfig {
    let mut cfg = cfg_with_jacks(vec![jack("prod", false)]);
    cfg.jacks[0].transport = JackTransport::Stdio {
        command: "npx".to_string(),
        args: vec!["-y".to_string(), "some-db-mcp".to_string()],
        env: NameMap::new().put("DB_TOKEN".to_string(), env_val.to_string()),
    };
    cfg
}

fn env_value(cfg: &PatchbayConfig) -> String {
    stored(&cfg.jacks[0]).get("DB_TOKEN").unwrap().clone()
}

#[test]
fn plaintext_becomes_dpapi_prefixed_and_round_trips() {
    let mut cfg = stdio_with_env("hunter2");
    let protected = protect_all(&cfg);
    encrypt_config_secrets(&mut cfg, &protected);

    let enc = env_value(&cfg);
    assert!(enc.starts_with("dpapi:"), "expected dpapi: prefix, got: {}", enc);
    assert_ne!(enc, "hunter2", "value was not actually encrypted");
    // The base64 text of "2retnuh".
    assert_eq!(enc, "dpapi:MnJldG51aA==");

    let dec = decrypt_field(&enc, protected_bytes(&enc).map(unscramble));
    assert_eq!(dec, "hunter2");

    let env = decrypted_env(&cfg.jacks[0], &opened(&cfg.jacks[0]));
    assert_eq!(env.get("DB_TOKEN").unwrap(), "hunter2");
}

#[test]
fn already_encrypted_is_not_double_encrypted() {
    let mut cfg = stdio_with_env("secret123");
    let protected = protect_all(&cfg);
    encrypt_config_secrets(&mut cfg, &protected);
    let once = env_value(&cfg);

    let protected = protect_all(&cfg);
    encrypt_config_secrets(&mut cfg, &protected);
    let twice = env_value(&cfg);
    assert_eq!(once, twice, "double-encryption detected");

    assert_eq!(decrypt_field(&twice, protected_bytes(&twice).map(unscramble)), "secret123");
}

#[test]
fn empty_value_stays_empty() {
    let mut cfg = stdio_with_env("");
    let protected = protect_all(&cfg);
    encrypt_config_secrets(&mut cfg, &protected);
    assert_eq!(env_value(&cfg), "");
}

#[test]
fn headers_get_encrypted_for_http_jack() {
    let mut cfg = cfg_with_jacks(vec![http_jack("docs")]);
    cfg.jacks[0].transport = JackTransport::StreamableHttp {
        url: "https://example.com/mcp".to_string(),
        headers: NameMap::new().put("Authorization".to_string(), "Bearer xyz".to_string()),
    };
    let protected = protect_all(&cfg);
    encrypt_config_secrets(&mut cfg, &protected);
    assert!(is_encrypted(stored(&cfg.jacks[0]).get("Authorization").unwrap()));
    let h = decrypted_headers(&cfg.jacks[0], &opened(&cfg.jacks[0]));
    assert_eq!(h.get("Authorization").unwrap(), "Bearer xyz");
}

#[test]
fn decrypt_helper_passes_through_plaintext() {
    let mut j = jack("prod", false);
    j.transport = JackTransport::Stdio {
        command: "npx".to_string(),
        args: vec![],
        env: NameMap::new().put("K".to_string(), "plain-value".to_string()),
    };
    let env = decrypted_env(&j, &NameMap::new());
    assert_eq!(env.get("K").unwrap(), "plain-value");
    assert_eq!(decrypted_headers(&j, &NameMap::new()).len(), 0);
}

#[test]
fn a_secret_that_cannot_be_sealed_is_an_error_and_one_that_cannot_be_opened_is_empty() {
    assert_eq!(
        encrypt_field("x", Err("no key".to_string())),
        Err("no key".to_string())
    );
    assert_eq!(encrypt_field("", Err("no key".to_string())), Ok("".to_string()));
    assert_eq!(encrypt_field("x", Ok(vec![1, 2])), Ok("dpapi:AQI=".to_string()));
    assert_eq!(protected_bytes("plain"), None);
    assert_eq!(protected_bytes("dpapi:!!"), None);
    assert_eq!(protected_bytes("dpapi:AQI="), Some(vec![1, 2]));
    assert_eq!(decrypt_field("dpapi:AQI=", None), "");
    assert_eq!(decrypt_field("dpapi:AQI=", Some(vec![0xff])), "");
    assert_eq!(decrypt_field("plain", None), "plain");
}

#[test]
fn a_map_of_names_keeps_its_order_and_its_last_value() {
    let m = NameMap::new().put("b".to_string(), 1u64).put("a".to_string(), 2).put("b".to_string(), 3);
    assert_eq!(m.keys(), vec!["a".to_string(), "b".to_string()]);
    assert_eq!(m.get("b"), Some(&3));
    assert_eq!(m.replica(), m);
    let (rest, gone) = m.taken("a");
    assert_eq!(gone, Some(2));
    assert_eq!(rest.len(), 1);
    assert_eq!(*rest.key_at(0), "b");
    assert_eq!(*rest.value_at(0), 3);
}
