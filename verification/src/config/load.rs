//! Configurations as they come off the disk, and as they go back to it.

use vstd::prelude::*;
#[allow(unused_imports)]
use vstd::string::*;

use super::grants::capped;
use super::schema::{
    ConfigModel, JackConfig, JackModel, JackTransport, PatchbayConfig, SeenClient, SeenModel, Sharing,
    TransportModel, UiMode, CURRENT_VERSION, DEFAULT_PORT,
};
use super::secrets::{encrypt_config_secrets, stored_config};
use crate::name_map::{replicas, view_opt, views, NameMap, Replica};
use crate::numerals::{decimal, decimal_text};
use crate::text::{chars_of, last_char_at, rfind_char, same_text, slice_chars, text_of, texts};

verus! {

// ---- templates -----------------------------------------------------------

/// An empty configuration.
pub open spec fn empty_config(jacks: Seq<JackModel>) -> ConfigModel {
    ConfigModel {
        version: 1,
        port: 39100,
        autostart: false,
        ui_mode: UiMode::Tray,
        jacks,
        bays: Map::empty(),
        seen_clients: Seq::empty(),
        client_overrides: Map::empty(),
        require_approval_for_new_clients: false,
        request_logging_enabled: false,
        forbidden_clients: Seq::empty(),
    }
}

fn config_with(jacks: Vec<JackConfig>) -> (r: PatchbayConfig)
    ensures
        r@ == empty_config(views(jacks@)),
{
    let seen: Vec<SeenClient> = Vec::new();
    let denied: Vec<String> = Vec::new();
    assert(views(seen@) =~= Seq::<SeenModel>::empty());
    assert(texts(denied@) =~= Seq::<Seq<char>>::empty());
    PatchbayConfig {
        version: CURRENT_VERSION,
        port: DEFAULT_PORT,
        autostart: false,
        ui_mode: UiMode::Tray,
        jacks,
        bays: NameMap::new(),
        seen_clients: seen,
        client_overrides: NameMap::new(),
        require_approval_for_new_clients: false,
        request_logging_enabled: false,
        forbidden_clients: denied,
    }
}

/// The configuration that is used when the one on disk cannot be: no jacks.
pub fn safe_default() -> (r: PatchbayConfig)
    ensures
        r@ == empty_config(Seq::empty()),
{
    let jacks: Vec<JackConfig> = Vec::new();
    assert(views(jacks@) =~= Seq::<JackModel>::empty());
    config_with(jacks)
}

/// The jack of the first run: a stdio server, switched off.
pub open spec fn example_jack() -> JackModel {
    JackModel {
        name: "prod"@,
        patched: false,
        transport: TransportModel::Stdio {
            command: "npx"@,
            args: seq!["-y"@, "some-db-mcp"@],
            env: Map::<Seq<char>, Seq<char>>::empty().insert("DB_TOKEN"@, "REPLACE_ME"@),
        },
        sharing: Sharing::Shared,
        tools: None,
    }
}

/// The configuration of the first run: one example jack, switched off.
pub fn first_run_template() -> (r: PatchbayConfig)
    ensures
        r@ == empty_config(seq![example_jack()]),
{
    let env: NameMap<String> = NameMap::new();
    let env = env.put("DB_TOKEN".to_owned(), "REPLACE_ME".to_owned());
    let mut args: Vec<String> = Vec::new();
    args.push("-y".to_owned());
    args.push("some-db-mcp".to_owned());
    assert(texts(args@) =~= seq!["-y"@, "some-db-mcp"@]);
    let prod = JackConfig {
        name: "prod".to_owned(),
        patched: false,
        transport: JackTransport::Stdio { command: "npx".to_owned(), args, env },
        sharing: Sharing::Shared,
        tools: None,
    };
    let ghost shown = prod@;
    let mut jacks: Vec<JackConfig> = Vec::new();
    jacks.push(prod);
    assert(views(jacks@) =~= seq![example_jack()]);
    config_with(jacks)
}

// ---- places --------------------------------------------------------------

/// A file: the directory it is in, and its name there.
#[derive(Debug, PartialEq, Eq)]
pub struct FilePlace {
    pub dir: String,
    pub file: String,
}

/// The stem of a file's name: what stands before its last dot. A name without a
/// dot, or with one at its start only, is a stem as a whole; no name, and the names
/// of a directory itself and of its parent, have none.
pub open spec fn file_stem(file: Seq<char>) -> Option<Seq<char>> {
    if file.len() == 0 || file == "."@ || file == ".."@ {
        None
    } else if file.contains('.') && (choose|i: int| last_char_at(file, '.', i)) > 0 {
        Some(file.subrange(0, choose|i: int| last_char_at(file, '.', i)))
    } else {
        Some(file)
    }
}

/// The name of the state file that belongs to a configuration file.
pub open spec fn state_file(file: Seq<char>) -> Seq<char> {
    (match file_stem(file) {
        Some(stem) => stem,
        None => "patchbay"@,
    }) + ".state.json"@
}

/// The state file that belongs to a configuration file: beside it, and named after
/// it.
pub fn state_path_for(config: &FilePlace) -> (r: FilePlace)
    ensures
        r.dir@ == config.dir@,
        r.file@ == state_file(config.file@),
{
    let v = chars_of(config.file.as_str());
    let mut name: String = if v.len() == 0 || same_text(config.file.as_str(), ".") || same_text(
        config.file.as_str(),
        "..",
    ) {
        "patchbay".to_owned()
    } else {
        match rfind_char(&v, '.') {
            Some(i) => {
                proof {
                    let c = choose|k: int| last_char_at(config.file@, '.', k);
                    assert(last_char_at(config.file@, '.', i as int));
                    assert(config.file@[i as int] == '.');
                    assert(config.file@[c] == '.');
                }
                if i > 0 {
                    text_of(&slice_chars(&v, 0, i))
                } else {
                    config.file.clone()
                }
            },
            None => config.file.clone(),
        }
    };
    name.append(".state.json");
    FilePlace { dir: config.dir.clone(), file: name }
}

/// The configuration file in a directory.
pub fn config_file_path(dir: &str) -> (r: FilePlace)
    ensures
        r.dir@ == dir@,
        r.file@ == "patchbay.json"@,
{
    FilePlace { dir: dir.to_owned(), file: "patchbay.json".to_owned() }
}

/// The documented example in a directory.
pub fn example_file_path(dir: &str) -> (r: FilePlace)
    ensures
        r.dir@ == dir@,
        r.file@ == "patchbay.example.jsonc"@,
{
    FilePlace { dir: dir.to_owned(), file: "patchbay.example.jsonc".to_owned() }
}

// ---- observed state ------------------------------------------------------

/// What was observed rather than configured, in a file of its own.
#[derive(Debug, PartialEq, Eq)]
pub struct RuntimeState {
    pub version: u32,
    pub seen_clients: Vec<SeenClient>,
}

impl Default for RuntimeState {
    fn default() -> (r: Self)
        ensures
            r.version == 0,
            views(r.seen_clients@) == Seq::<SeenModel>::empty(),
    {
        let seen: Vec<SeenClient> = Vec::new();
        assert(views(seen@) =~= Seq::<SeenModel>::empty());
        RuntimeState { version: 0, seen_clients: seen }
    }
}

/// What was observed, as it is written.
pub fn runtime_state(cfg: &PatchbayConfig) -> (r: RuntimeState)
    ensures
        r.version == 1,
        views(r.seen_clients@) == cfg@.seen_clients,
{
    RuntimeState { version: 1, seen_clients: replicas(&cfg.seen_clients) }
}

/// The configuration with what was observed: the state file has the say where
/// there is one, and else what the configuration file still carries.
pub open spec fn merged(c: ConfigModel, seen: Option<Seq<SeenModel>>) -> ConfigModel {
    match seen {
        Some(seen_clients) => ConfigModel { seen_clients, ..c },
        None => c,
    }
}

/// Take over what was observed.
pub fn merge_state(cfg: &mut PatchbayConfig, state: Option<RuntimeState>)
    ensures
        final(cfg)@ == merged(
            old(cfg)@,
            match state {
                Some(s) => Some(views(s.seen_clients@)),
                None => None,
            },
        ),
{
    if let Some(s) = state {
        cfg.seen_clients = s.seen_clients;
    }
}

/// Repair a configuration that came off the disk: every own list is re-keyed after
/// the jacks that exist. Returns the number of entries that were added or dropped.
pub fn repair_on_load(cfg: &mut PatchbayConfig) -> (r: usize)
    ensures
        final(cfg)@ == old(cfg)@.synced(),
        r == capped(old(cfg)@.repairs()),
{
    cfg.sync_override_jacks()
}

// ---- loading -------------------------------------------------------------

/// Why there is no configuration.
#[derive(Debug, PartialEq, Eq)]
pub enum ConfigError {
    /// There is no file yet.
    Missing,
    /// The file could not be understood.
    Parse(String),
    /// The file could not be read.
    Io(String),
}

pub enum LoadErrorModel {
    Missing,
    Parse(Seq<char>),
    Io(Seq<char>),
}

impl View for ConfigError {
    type V = LoadErrorModel;

    open spec fn view(&self) -> LoadErrorModel {
        match self {
            ConfigError::Missing => LoadErrorModel::Missing,
            ConfigError::Parse(s) => LoadErrorModel::Parse(s@),
            ConfigError::Io(s) => LoadErrorModel::Io(s@),
        }
    }
}

impl LoadErrorModel {
    pub open spec fn reason(self) -> Seq<char> {
        match self {
            LoadErrorModel::Missing => "config file missing"@,
            LoadErrorModel::Parse(s) => s,
            LoadErrorModel::Io(s) => s,
        }
    }
}

impl ConfigError {
    /// The reason in words.
    pub fn reason(&self) -> (r: String)
        ensures
            r@ == self@.reason(),
    {
        match self {
            ConfigError::Missing => "config file missing".to_owned(),
            ConfigError::Parse(s) => s.clone(),
            ConfigError::Io(s) => s.clone(),
        }
    }
}

/// What came of reading the configuration file.
#[derive(Debug, PartialEq, Eq)]
pub enum FileRead {
    Missing,
    /// It could not be read, for this reason.
    Unreadable(String),
    /// It could not be understood, for this reason.
    Unparsable(String),
    Config(PatchbayConfig),
}

/// The configuration that a reading gives.
pub open spec fn loaded(path: Seq<char>, read: FileRead, seen: Option<Seq<SeenModel>>) -> Result<
    ConfigModel,
    LoadErrorModel,
> {
    match read {
        FileRead::Missing => Err(LoadErrorModel::Missing),
        FileRead::Unreadable(e) => Err(LoadErrorModel::Io("read "@ + path + ": "@ + e@)),
        FileRead::Unparsable(e) => Err(LoadErrorModel::Parse("parse "@ + path + ": "@ + e@)),
        FileRead::Config(c) => Ok(merged(c@, seen).synced()),
    }
}

/// The configuration that a reading of the file at `path` gives, with the state
/// that stands beside it. A file that is there and cannot be used is told apart
/// from one that is not there, so that it is never written over.
pub fn load_result(path: &str, read: FileRead, state: Option<RuntimeState>) -> (r: Result<PatchbayConfig, ConfigError>)
    ensures
        ({
            let seen = match state {
                Some(s) => Some(views(s.seen_clients@)),
                None => None,
            };
            match r {
                Ok(c) => loaded(path@, read, seen) == Ok::<ConfigModel, LoadErrorModel>(c@),
                Err(e) => loaded(path@, read, seen) == Err::<ConfigModel, LoadErrorModel>(e@),
            }
        }),
{
    match read {
        FileRead::Missing => Err(ConfigError::Missing),
        FileRead::Unreadable(e) => {
            let mut s = "read ".to_owned();
            s.append(path);
            s.append(": ");
            s.append(e.as_str());
            Err(ConfigError::Io(s))
        },
        FileRead::Unparsable(e) => {
            let mut s = "parse ".to_owned();
            s.append(path);
            s.append(": ");
            s.append(e.as_str());
            Err(ConfigError::Parse(s))
        },
        FileRead::Config(c) => {
            let mut cfg = c;
            merge_state(&mut cfg, state);
            let _ = repair_on_load(&mut cfg);
            Ok(cfg)
        },
    }
}

/// The line of the log for clients that the configuration file still carries, and
/// that move to the state file at `state_path` with the next save.
pub open spec fn migration_words(c: ConfigModel, state_path: Seq<char>) -> Seq<char> {
    "config: migrating "@ + decimal(c.seen_clients.len()) + " seen agent(s) out of the config file into "@ + state_path
}

/// The line of the log for own lists that had to be repaired.
pub open spec fn repair_words(c: ConfigModel) -> Seq<char> {
    "config: repaired "@ + decimal(capped(c.repairs()) as nat) + " stale/missing entries across "@ + decimal(
        c.client_overrides.dom().len(),
    ) + " Custom override(s) (a Custom list no longer matched the jack list)"@
}

/// The lines of the log for what loading a configuration changes in it. `kept` says
/// that a state file stands beside it.
pub open spec fn load_words(c: ConfigModel, kept: bool, state_path: Seq<char>) -> Seq<Seq<char>> {
    (if !kept && c.seen_clients.len() > 0 {
        seq![migration_words(c, state_path)]
    } else {
        Seq::empty()
    }) + (if c.repairs() > 0 {
        seq![repair_words(c)]
    } else {
        Seq::empty()
    })
}

/// The lines of the log for what loading the configuration that was read changes in
/// it. `kept` says that a state file stands beside it; its path is `state_path`.
pub fn load_lines(read: &FileRead, kept: bool, state_path: &str) -> (r: Vec<String>)
    ensures
        texts(r@) == (match *read {
            FileRead::Config(c) => load_words(c@, kept, state_path@),
            _ => Seq::empty(),
        }),
{
    let mut out: Vec<String> = Vec::new();
    assert(texts(out@) =~= Seq::<Seq<char>>::empty());
    if let FileRead::Config(c) = read {
        assert(views(c.seen_clients@).len() == c.seen_clients@.len());
        if !kept && c.seen_clients.len() > 0 {
            let mut line = "config: migrating ".to_owned();
            line.append(decimal_text(c.seen_clients.len() as u64).as_str());
            line.append(" seen agent(s) out of the config file into ");
            line.append(state_path);
            out.push(line);
            assert(texts(out@) =~= seq![migration_words(c@, state_path@)]);
        }
        let ghost moved = texts(out@);
        let mut copy = c.replica();
        let repairs: usize = copy.sync_override_jacks();
        if repairs > 0 {
            let mut line = "config: repaired ".to_owned();
            line.append(decimal_text(repairs as u64).as_str());
            line.append(" stale/missing entries across ");
            line.append(decimal_text(c.client_overrides.len() as u64).as_str());
            line.append(" Custom override(s) (a Custom list no longer matched the jack list)");
            out.push(line);
            assert(texts(out@) =~= moved + seq![repair_words(c@)]);
        }
        assert(texts(out@) =~= load_words(c@, kept, state_path@));
    }
    out
}

/// What the application starts with.
#[derive(Debug, PartialEq, Eq)]
pub struct Startup {
    pub config: PatchbayConfig,
    /// Why the file could not be used; none where it could.
    pub config_error: Option<String>,
    /// Whether the configuration and the documented example are to be written now.
    pub write_template: bool,
}

/// What the application starts with: the configuration that was loaded, the
/// template on the first run, and otherwise an empty one that is never written.
pub fn startup_config(loaded: Result<PatchbayConfig, ConfigError>) -> (r: Startup)
    ensures
        match loaded {
            Ok(c) => r.config@ == c@ && r.config_error is None && !r.write_template,
            Err(ConfigError::Missing) => r.config@ == empty_config(seq![example_jack()]) && r.config_error is None
                && r.write_template,
            Err(e) => r.config@ == empty_config(Seq::empty()) && view_opt(r.config_error) == Some(e@.reason())
                && !r.write_template,
        },
{
    match loaded {
        Ok(config) => Startup { config, config_error: None, write_template: false },
        Err(ConfigError::Missing) => Startup {
            config: first_run_template(),
            config_error: None,
            write_template: true,
        },
        Err(e) => Startup { config: safe_default(), config_error: Some(e.reason()), write_template: false },
    }
}

/// The configuration as it is written: every secret is protected, and the clients
/// that were observed are left to the state file. `bytes` says for each jack what
/// protecting its secrets gave.
pub open spec fn config_on_disk(c: ConfigModel, bytes: Seq<Map<Seq<char>, Seq<u8>>>) -> ConfigModel {
    ConfigModel { seen_clients: Seq::empty(), ..stored_config(c, bytes) }
}

/// The configuration as it is written: a copy with every secret protected and
/// without the clients that were observed, beside one in memory that is left as it
/// is.
pub fn config_to_write(cfg: &PatchbayConfig, protected: &Vec<NameMap<Vec<u8>>>) -> (r: PatchbayConfig)
    requires
        protected@.len() == cfg.jacks@.len(),
    ensures
        r@ == config_on_disk(cfg@, views(protected@)),
{
    let mut copy = cfg.replica();
    assert(views(copy.jacks@).len() == copy.jacks@.len());
    assert(views(cfg.jacks@).len() == cfg.jacks@.len());
    encrypt_config_secrets(&mut copy, protected);
    copy.seen_clients = Vec::new();
    assert(views(copy.seen_clients@) =~= Seq::<SeenModel>::empty());
    copy
}

/// The configuration file and the state file give back together what was written:
/// the configuration as it is stored, with the clients that were observed. Own
/// lists that name exactly the jacks that exist need no repair.
pub proof fn reading_gives_back_what_was_written(
    c: ConfigModel,
    bytes: Seq<Map<Seq<char>, Seq<u8>>>,
    path: Seq<char>,
    file: PatchbayConfig,
)
    requires
        c.overrides_mirror_jacks(),
        file@ == config_on_disk(c, bytes),
    ensures
        loaded(path, FileRead::Config(file), Some(c.seen_clients)) == Ok::<ConfigModel, LoadErrorModel>(
            stored_config(c, bytes),
        ),
{
    let stored = stored_config(c, bytes);
    assert(super::grants::jack_names(stored.jacks) =~= super::grants::jack_names(c.jacks));
    lemma_nothing_to_repair(stored);
}

/// The state file is all that is lost with it: what was configured is read as it
/// was written, and the clients that were known look new again.
pub proof fn losing_the_state_costs_only_the_clients(
    c: ConfigModel,
    bytes: Seq<Map<Seq<char>, Seq<u8>>>,
    path: Seq<char>,
    file: PatchbayConfig,
)
    requires
        c.overrides_mirror_jacks(),
        file@ == config_on_disk(c, bytes),
    ensures
        loaded(path, FileRead::Config(file), None) == Ok::<ConfigModel, LoadErrorModel>(
            ConfigModel { seen_clients: Seq::empty(), ..stored_config(c, bytes) },
        ),
{
    let written = config_on_disk(c, bytes);
    assert(super::grants::jack_names(written.jacks) =~= super::grants::jack_names(c.jacks));
    lemma_nothing_to_repair(written);
}

proof fn lemma_nothing_to_repair(c: ConfigModel)
    requires
        c.overrides_mirror_jacks(),
    ensures
        c.synced() == c,
{
    assert forall|o: Seq<char>| #[trigger] c.client_overrides.contains_key(o) implies c.synced().client_overrides[o]
        == c.client_overrides[o] by {
        assert(c.synced().client_overrides[o].jacks =~= c.client_overrides[o].jacks);
    }
    assert(c.synced().client_overrides =~= c.client_overrides);
}

/// Whatever comes off the disk, every own list of it names exactly the jacks that
/// exist.
pub proof fn loaded_lists_mirror(path: Seq<char>, read: FileRead, seen: Option<Seq<SeenModel>>)
    ensures
        loaded(path, read, seen) matches Ok(c) ==> c.overrides_mirror_jacks(),
{
    if let FileRead::Config(c) = read {
        super::grants::sync_is_complete(merged(c@, seen));
    }
}

/// The templates keep the rules that are checked of every configuration, and have
/// nothing switched on.
pub proof fn templates_are_clean(jack: Seq<char>)
    ensures
        super::validate::clean_names(super::grants::jack_names(empty_config(Seq::empty()).jacks)),
        super::validate::clean_names(super::grants::jack_names(empty_config(seq![example_jack()]).jacks)),
        !empty_config(Seq::empty()).should_run(jack),
        !empty_config(seq![example_jack()]).should_run(jack),
{
    reveal_strlit("prod");
    reveal_strlit("__");
    let c = empty_config(seq![example_jack()]);
    let names = super::grants::jack_names(c.jacks);
    assert(names =~= seq!["prod"@]);
    assert("prod"@.len() == 4);
    assert(vstd::utf8::is_ascii_chars("prod"@));
    vstd::utf8::is_ascii_chars_encode_utf8("prod"@);
    assert(!crate::text::holds("prod"@, "__"@)) by {
        if crate::text::holds("prod"@, "__"@) {
            let i = choose|i: int| crate::text::occurs_at("prod"@, "__"@, i);
            assert("prod"@.subrange(i, i + 2)[0] == "__"@[0]);
            assert("prod"@[i] == '_');
        }
    }
    assert forall|i: int| 0 <= i < "prod"@.len() implies super::validate::name_char(#[trigger] "prod"@[i]) by {}
    assert(super::validate::valid_jack_name("prod"@));
    super::grants::lemma_first_named(c.jacks, jack);
    assert(forall|o: Seq<char>| !c.keeps_running(jack, o));
    assert(forall|o: Seq<char>| !empty_config(Seq::empty()).keeps_running(jack, o));
}

/// What is loaded is what the file says, but for two things: the clients that were
/// observed come from the state file where there is one, and own lists are repaired.
/// A file that is missing, one that cannot be read and one that cannot be understood
/// are told apart, and the words of the last two hold the path and the reason.
pub proof fn loading_keeps_what_is_configured(
    path: Seq<char>,
    file: PatchbayConfig,
    seen: Option<Seq<SeenModel>>,
    why: String,
    client: Seq<char>,
)
    ensures
        ({
            let r = loaded(path, FileRead::Config(file), seen);
            let c = r->Ok_0;
            &&& r is Ok
            &&& c.version == file@.version
            &&& c.port == file@.port
            &&& c.autostart == file@.autostart
            &&& c.ui_mode == file@.ui_mode
            &&& c.jacks == file@.jacks
            &&& c.bays == file@.bays
            &&& c.forbidden_clients == file@.forbidden_clients
            &&& c.require_approval_for_new_clients == file@.require_approval_for_new_clients
            &&& c.request_logging_enabled == file@.request_logging_enabled
            &&& c.client_overrides.contains_key(client) == file@.client_overrides.contains_key(client)
            &&& file@.client_overrides.contains_key(client) ==> c.client_overrides[client].enabled
                == file@.client_overrides[client].enabled
            &&& seen is Some ==> c.seen_clients == seen->0
            &&& seen is None ==> c.seen_clients == file@.seen_clients
        }),
        loaded(path, FileRead::Missing, seen) == Err::<ConfigModel, LoadErrorModel>(LoadErrorModel::Missing),
        loaded(path, FileRead::Unreadable(why), seen) matches Err(LoadErrorModel::Io(words)) && crate::text::holds(
            words,
            why@,
        ) && crate::text::holds(words, path),
        loaded(path, FileRead::Unparsable(why), seen) matches Err(LoadErrorModel::Parse(words)) && crate::text::holds(
            words,
            why@,
        ) && crate::text::holds(words, path),
{
    assert forall|head: Seq<char>| #[trigger]
        crate::text::holds(head + path + ": "@ + why@, why@) && crate::text::holds(head + path + ": "@ + why@, path) by {
        let words = head + path + ": "@ + why@;
        let i = (head + path + ": "@).len() as int;
        assert(words.subrange(i, words.len() as int) =~= why@);
        assert(crate::text::occurs_at(words, why@, i));
        assert(words.subrange(head.len() as int, (head + path).len() as int) =~= path);
        assert(crate::text::occurs_at(words, path, head.len() as int));
    }
}

/// The state file is named after the configuration file: what stands before the last
/// dot of its name, and the whole name where there is no dot.
pub proof fn state_files_follow_their_configuration(stem: Seq<char>, ending: Seq<char>)
    requires
        stem.len() > 0,
        !ending.contains('.'),
    ensures
        stem + seq!['.'] + ending != ".."@ ==> state_file(stem + seq!['.'] + ending) == stem + ".state.json"@,
        !stem.contains('.') ==> state_file(stem) == stem + ".state.json"@,
{
    reveal_strlit(".");
    reveal_strlit("..");
    let file = stem + seq!['.'] + ending;
    let i = stem.len() as int;
    assert(file[i] == '.');
    assert(file.contains('.'));
    assert forall|k: int| i < k < file.len() implies file[k] != '.' by {
        assert(file[k] == ending[k - i - 1]);
        if file[k] == '.' {
            assert(ending.contains(ending[k - i - 1]));
        }
    }
    assert(last_char_at(file, '.', i));
    let c = choose|c: int| last_char_at(file, '.', c);
    assert(c == i) by {
        if c < i {
            assert(file[i] != '.');
        } else if c > i {
            assert(file[c] != '.');
        }
    }
    assert(file.subrange(0, i) =~= stem);
    if !stem.contains('.') {
        if stem == "."@ {
            assert(stem[0] == '.');
        }
        if stem == ".."@ {
            assert(stem[0] == '.');
        }
    }
}

/// What goes to disk names no client that was observed, and keeps every setting and
/// every jack under its name, with its switch and its place.
pub proof fn writing_keeps_what_is_configured(c: ConfigModel, bytes: Seq<Map<Seq<char>, Seq<u8>>>, i: int)
    ensures
        ({
            let w = config_on_disk(c, bytes);
            &&& w.seen_clients.len() == 0
            &&& w.version == c.version
            &&& w.port == c.port
            &&& w.autostart == c.autostart
            &&& w.ui_mode == c.ui_mode
            &&& w.bays == c.bays
            &&& w.client_overrides == c.client_overrides
            &&& w.forbidden_clients == c.forbidden_clients
            &&& w.require_approval_for_new_clients == c.require_approval_for_new_clients
            &&& w.request_logging_enabled == c.request_logging_enabled
            &&& w.jacks.len() == c.jacks.len()
            &&& 0 <= i < c.jacks.len() ==> {
                &&& w.jacks[i].name == c.jacks[i].name
                &&& w.jacks[i].patched == c.jacks[i].patched
                &&& w.jacks[i].sharing == c.jacks[i].sharing
                &&& w.jacks[i].tools == c.jacks[i].tools
                &&& c.jacks[i].transport matches TransportModel::Stdio { command, args, .. } ==> (
                w.jacks[i].transport matches TransportModel::Stdio { command: command2, args: args2, .. } && command2
                    == command && args2 == args)
                &&& c.jacks[i].transport matches TransportModel::StreamableHttp { url, .. } ==> (
                w.jacks[i].transport matches TransportModel::StreamableHttp { url: url2, .. } && url2 == url)
            }
        }),
{
}

/// What loading changes is told: how many clients move to the state file and where that
/// is, and how many entries of own lists had to be repaired. Where nothing changes
/// nothing is told.
pub proof fn changes_by_loading_are_told(c: ConfigModel, kept: bool, path: Seq<char>)
    ensures
        kept && c.repairs() == 0 ==> load_words(c, kept, path).len() == 0,
        c.seen_clients.len() == 0 && c.repairs() == 0 ==> load_words(c, kept, path).len() == 0,
        !kept && c.seen_clients.len() > 0 ==> load_words(c, kept, path).len() > 0 && crate::text::holds(
            load_words(c, kept, path)[0],
            decimal(c.seen_clients.len()),
        ) && crate::text::holds(load_words(c, kept, path)[0], path),
        c.repairs() > 0 ==> load_words(c, kept, path).len() > 0 && crate::text::holds(
            load_words(c, kept, path).last(),
            decimal(capped(c.repairs()) as nat),
        ),
{
    let a = migration_words(c, path);
    let n = decimal(c.seen_clients.len());
    let k = "config: migrating "@.len() as int;
    assert(a.subrange(k, k + n.len()) =~= n);
    assert(crate::text::occurs_at(a, n, k));
    let l = ("config: migrating "@ + n + " seen agent(s) out of the config file into "@).len() as int;
    assert(a.subrange(l, a.len() as int) =~= path);
    assert(crate::text::occurs_at(a, path, l));
    let b = repair_words(c);
    let d = decimal(capped(c.repairs()) as nat);
    let e = "config: repaired "@.len() as int;
    assert(b.subrange(e, e + d.len()) =~= d);
    assert(crate::text::occurs_at(b, d, e));
}

} // verus!
