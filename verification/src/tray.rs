//! The tray icon: its menu, its tooltip, and what a click means. A click is an
//! intent only: what it asks for is worked out from the state, never from what the
//! menu shows.

use vstd::prelude::*;
#[allow(unused_imports)]
use vstd::string::*;

use crate::app_state::state::{AppModel, AppState, GatewayModel, GatewayStatus};
use crate::config::grants::jack_names;
use crate::config::schema::{ConfigModel, JackModel, PatchbayConfig};
use crate::name_map::views;
use crate::numerals::{decimal, decimal_reads_back, decimal_text, wide_decimal_text};
use crate::text::{holds, occurs_at, same_text, starts_with_text, strip_prefix_text, texts};
use crate::ui::{gateway_address, gateway_url};

verus! {

/// One entry of the menu.
#[derive(Debug, PartialEq, Eq)]
pub enum MenuEntry {
    Item { id: String, label: String, enabled: bool },
    Check { id: String, label: String, checked: bool },
    Separator,
    Submenu { label: String, entries: Vec<MenuEntry> },
}

pub enum EntryModel {
    Item { id: Seq<char>, label: Seq<char>, enabled: bool },
    Check { id: Seq<char>, label: Seq<char>, checked: bool },
    Separator,
    Submenu { label: Seq<char>, entries: Seq<EntryModel> },
}

impl View for MenuEntry {
    type V = EntryModel;

    open spec fn view(&self) -> EntryModel
        decreases self,
    {
        match self {
            MenuEntry::Item { id, label, enabled } => EntryModel::Item {
                id: id@,
                label: label@,
                enabled: *enabled,
            },
            MenuEntry::Check { id, label, checked } => EntryModel::Check {
                id: id@,
                label: label@,
                checked: *checked,
            },
            MenuEntry::Separator => EntryModel::Separator,
            MenuEntry::Submenu { label, entries } => EntryModel::Submenu {
                label: label@,
                entries: Seq::new(
                    entries@.len(),
                    |i: int|
                        if 0 <= i < entries@.len() {
                            entries@[i].view()
                        } else {
                            EntryModel::Separator
                        },
                ),
            },
        }
    }
}

/// One jack of one client's own list, behind an opaque id of the menu.
#[derive(Debug, PartialEq, Eq)]
pub struct OverrideItem {
    pub id: String,
    pub client: String,
    pub jack: String,
}

pub struct OverrideItemModel {
    pub id: Seq<char>,
    pub client: Seq<char>,
    pub jack: Seq<char>,
}

impl View for OverrideItem {
    type V = OverrideItemModel;

    open spec fn view(&self) -> OverrideItemModel {
        OverrideItemModel { id: self.id@, client: self.client@, jack: self.jack@ }
    }
}

/// A client behind an opaque id of the menu.
#[derive(Debug, PartialEq, Eq)]
pub struct ClientItem {
    pub id: String,
    pub identity: String,
}

pub struct ClientItemModel {
    pub id: Seq<char>,
    pub identity: Seq<char>,
}

impl View for ClientItem {
    type V = ClientItemModel;

    open spec fn view(&self) -> ClientItemModel {
        ClientItemModel { id: self.id@, identity: self.identity@ }
    }
}

/// A client that a click asks to forget.
#[derive(Debug, PartialEq, Eq)]
pub struct DeleteClientItem {
    pub identity: String,
}

impl View for DeleteClientItem {
    type V = Seq<char>;

    open spec fn view(&self) -> Seq<char> {
        self.identity@
    }
}

/// What the opaque ids of a menu mean.
#[derive(Debug, PartialEq, Eq)]
pub struct TrayItems {
    pub overrides: Vec<OverrideItem>,
    pub enable_custom: Vec<ClientItem>,
    pub forbidden: Vec<ClientItem>,
    pub delete_client: Vec<ClientItem>,
}

pub struct TrayItemsModel {
    pub overrides: Seq<OverrideItemModel>,
    pub enable_custom: Seq<ClientItemModel>,
    pub forbidden: Seq<ClientItemModel>,
    pub delete_client: Seq<ClientItemModel>,
}

impl View for TrayItems {
    type V = TrayItemsModel;

    open spec fn view(&self) -> TrayItemsModel {
        TrayItemsModel {
            overrides: views(self.overrides@),
            enable_custom: views(self.enable_custom@),
            forbidden: views(self.forbidden@),
            delete_client: views(self.delete_client@),
        }
    }
}

pub proof fn lemma_submenu_view(label: String, entries: Vec<MenuEntry>)
    ensures
        (MenuEntry::Submenu { label, entries })@ == (EntryModel::Submenu {
            label: label@,
            entries: views(entries@),
        }),
{
    let e = MenuEntry::Submenu { label, entries };
    assert(e@->entries =~= views(entries@));
}

// ---- labels and ids ------------------------------------------------------

/// An opaque id: a prefix and a number. No name of a client is ever in one.
pub open spec fn opaque_id(prefix: Seq<char>, n: nat) -> Seq<char> {
    prefix + decimal(n)
}

fn opaque(prefix: &str, n: u128) -> (r: String)
    ensures
        r@ == opaque_id(prefix@, n as nat),
{
    let mut s = prefix.to_owned();
    s.append(wide_decimal_text(n).as_str());
    s
}

/// The label of a client in the list of denied ones.
pub open spec fn denied_label(identity: Seq<char>, denied: bool) -> Seq<char> {
    identity + (if denied {
        " [denied]"@
    } else {
        " [allowed]"@
    })
}

/// The label of a client in the list of denied ones.
pub fn forbidden_item_label(identity: &str, forbidden: bool) -> (r: String)
    ensures
        r@ == denied_label(identity@, forbidden),
{
    let mut s = identity.to_owned();
    s.append(
        if forbidden {
            " [denied]"
        } else {
            " [allowed]"
        },
    );
    s
}

// ---- one client's submenu ------------------------------------------------

/// The number of the entry for the `j`-th of `jacks` jacks under the `n`-th client.
pub open spec fn override_number(n: int, j: int, jacks: nat) -> nat {
    (n * jacks + j + 1) as nat
}

/// The entries for the jacks under the `n`-th client: what the client may reach.
pub open spec fn jack_checks(c: ConfigModel, client: Seq<char>, n: int) -> Seq<EntryModel> {
    let names = jack_names(c.jacks);
    if names.len() == 0 {
        seq![
            EntryModel::Item {
                id: opaque_id("ovr:"@, (n + 1) as nat),
                label: "(no servers configured)"@,
                enabled: false,
            },
        ]
    } else {
        Seq::new(
            names.len(),
            |j: int|
                EntryModel::Check {
                    id: opaque_id("ovr:"@, override_number(n, j, names.len())),
                    label: names[j],
                    checked: c.grants(names[j], Some(client)),
                },
        )
    }
}

/// The submenu of the `n`-th client: its own list on or off, its jacks, and the way
/// to forget it.
pub open spec fn client_submenu(c: ConfigModel, client: Seq<char>, n: int) -> EntryModel {
    EntryModel::Submenu {
        label: client,
        entries: seq![
            EntryModel::Check {
                id: opaque_id("enable_custom:"@, (n + 1) as nat),
                label: "Enable Custom permissions"@,
                checked: c.customizes(client),
            },
            EntryModel::Separator,
        ] + jack_checks(c, client, n) + seq![
            EntryModel::Separator,
            EntryModel::Item {
                id: opaque_id("delete_client:"@, (n + 1) as nat),
                label: "✕ Delete this agent"@,
                enabled: true,
            },
        ],
    }
}

/// What the ids of the jacks under the `n`-th client mean.
pub open spec fn override_items(c: ConfigModel, client: Seq<char>, n: int) -> Seq<OverrideItemModel> {
    let names = jack_names(c.jacks);
    Seq::new(
        names.len(),
        |j: int|
            OverrideItemModel {
                id: opaque_id("ovr:"@, override_number(n, j, names.len())),
                client,
                jack: names[j],
            },
    )
}

/// What the ids of the jacks under the first `n` clients mean.
pub open spec fn all_override_items(c: ConfigModel, n: int) -> Seq<OverrideItemModel>
    decreases n,
{
    if n <= 0 {
        Seq::empty()
    } else {
        all_override_items(c, n - 1) + override_items(c, c.seen_clients[n - 1].name, n - 1)
    }
}

/// What the numbered ids with a prefix mean: the clients in order.
pub open spec fn client_items(c: ConfigModel, prefix: Seq<char>) -> Seq<ClientItemModel> {
    Seq::new(
        c.seen_clients.len(),
        |n: int|
            ClientItemModel { id: opaque_id(prefix, (n + 1) as nat), identity: c.seen_clients[n].name },
    )
}

/// The entry for one row of a menu that cannot be clicked.
fn placeholder(id: String, label: &str) -> (r: MenuEntry)
    ensures
        r@ == (EntryModel::Item { id: id@, label: label@, enabled: false }),
{
    MenuEntry::Item { id, label: label.to_owned(), enabled: false }
}

fn item(id: &str, label: &str) -> (r: MenuEntry)
    ensures
        r@ == (EntryModel::Item { id: id@, label: label@, enabled: true }),
{
    MenuEntry::Item { id: id.to_owned(), label: label.to_owned(), enabled: true }
}

fn check(id: &str, label: &str, checked: bool) -> (r: MenuEntry)
    ensures
        r@ == (EntryModel::Check { id: id@, label: label@, checked }),
{
    MenuEntry::Check { id: id.to_owned(), label: label.to_owned(), checked }
}

fn override_count(n: usize, j: usize, jacks: usize) -> (r: u128)
    requires
        j < jacks,
        n < usize::MAX,
    ensures
        r == override_number(n as int, j as int, jacks as nat),
{
    assert((n as int) * (jacks as int) + (j as int) + 1 <= 0xffff_ffff_ffff_ffff * 0xffff_ffff_ffff_ffff)
        by (nonlinear_arith)
        requires
            0 <= j < jacks,
            0 <= n < 0xffff_ffff_ffff_ffff,
            jacks <= 0xffff_ffff_ffff_ffff,
    ;
    assert((n as u128) * (jacks as u128) == (n as int) * (jacks as int));
    assert(0 <= (n as int) * (jacks as int)) by (nonlinear_arith)
        requires
            0 <= n,
            0 <= jacks,
    ;
    (n as u128) * (jacks as u128) + (j as u128) + 1
}

fn build_client_submenu(cfg: &PatchbayConfig, n: usize, overrides: &mut Vec<OverrideItem>) -> (r: MenuEntry)
    requires
        n < cfg.seen_clients@.len(),
    ensures
        r@ == client_submenu(cfg@, cfg@.seen_clients[n as int].name, n as int),
        views(final(overrides)@) == views(old(overrides)@) + override_items(
            cfg@,
            cfg@.seen_clients[n as int].name,
            n as int,
        ),
{
    let client = cfg.seen_clients[n].name.as_str();
    assert(cfg@.seen_clients[n as int] == cfg.seen_clients@[n as int]@);
    let ghost c = cfg@;
    let ghost names = jack_names(c.jacks);
    let custom = match cfg.client_overrides.get(client) {
        Some(o) => o.enabled,
        None => false,
    };
    let number: u128 = n as u128 + 1;
    let total: usize = cfg.seen_clients.len();
    let mut entries: Vec<MenuEntry> = Vec::new();
    entries.push(
        MenuEntry::Check {
            id: opaque("enable_custom:", number),
            label: "Enable Custom permissions".to_owned(),
            checked: custom,
        },
    );
    entries.push(MenuEntry::Separator);
    let ghost head = seq![
        EntryModel::Check {
            id: opaque_id("enable_custom:"@, (n + 1) as nat),
            label: "Enable Custom permissions"@,
            checked: c.customizes(client@),
        },
        EntryModel::Separator,
    ];
    assert(views(entries@) =~= head);
    let jacks = cfg.jack_names();
    let ghost before = views(overrides@);
    let ghost items = override_items(c, client@, n as int);
    let ghost checks = jack_checks(c, client@, n as int);
    assert(texts(jacks@).len() == jacks@.len());
    if jacks.len() == 0 {
        entries.push(placeholder(opaque("ovr:", number), "(no servers configured)"));
        assert(views(entries@) =~= head + checks);
        assert(views(overrides@) =~= before + items);
    } else {
        assert(views(entries@) =~= head + checks.subrange(0, 0));
        assert(views(overrides@) =~= before + items.subrange(0, 0));
        let mut j: usize = 0;
        while j < jacks.len()
            invariant
                j <= jacks.len(),
                n < total,
                jacks@.len() > 0,
                names.len() == jacks@.len(),
                c == cfg@,
                names == jack_names(c.jacks),
                texts(jacks@) == names,
                items == override_items(c, client@, n as int),
                checks == jack_checks(c, client@, n as int),
                views(entries@) == head + checks.subrange(0, j as int),
                views(overrides@) == before + items.subrange(0, j as int),
            decreases jacks.len() - j,
        {
            let ghost prev = views(entries@);
            let ghost prev_items = views(overrides@);
            assert(names[j as int] == jacks@[j as int]@);
            let id = opaque("ovr:", override_count(n, j, jacks.len()));
            let on = cfg.effective_patched(jacks[j].as_str(), Some(client));
            overrides.push(OverrideItem { id: id.clone(), client: client.to_owned(), jack: jacks[j].clone() });
            entries.push(MenuEntry::Check { id, label: jacks[j].clone(), checked: on });
            assert(views(entries@) =~= prev.push(checks[j as int]));
            assert(views(overrides@) =~= prev_items.push(items[j as int]));
            j = j + 1;
            assert(views(entries@) =~= head + checks.subrange(0, j as int));
            assert(views(overrides@) =~= before + items.subrange(0, j as int));
        }
        assert(checks.subrange(0, checks.len() as int) =~= checks);
        assert(items.subrange(0, items.len() as int) =~= items);
    }
    let ghost prev = views(entries@);
    entries.push(MenuEntry::Separator);
    entries.push(
        MenuEntry::Item {
            id: opaque("delete_client:", number),
            label: "✕ Delete this agent".to_owned(),
            enabled: true,
        },
    );
    let ghost tail = seq![
        EntryModel::Separator,
        EntryModel::Item {
            id: opaque_id("delete_client:"@, (n + 1) as nat),
            label: "✕ Delete this agent"@,
            enabled: true,
        },
    ];
    assert(views(entries@) =~= prev + tail);
    let label = client.to_owned();
    proof {
        lemma_submenu_view(label, entries);
        assert(views(entries@) =~= head + checks + tail);
    }
    MenuEntry::Submenu { label, entries }
}

// ---- the two lists of clients --------------------------------------------

/// The submenu with every client's own list.
pub open spec fn custom_submenu(c: ConfigModel) -> EntryModel {
    EntryModel::Submenu {
        label: "Custom ["@ + decimal(c.custom_clients().len()) + "/"@ + decimal(c.seen_clients.len()) + "]"@,
        entries: if c.seen_clients.len() == 0 {
            seq![
                EntryModel::Item {
                    id: opaque_id("ovr:"@, 1),
                    label: "(no agents seen yet)"@,
                    enabled: false,
                },
            ]
        } else {
            Seq::new(c.seen_clients.len(), |n: int| client_submenu(c, c.seen_clients[n].name, n))
        },
    }
}

/// Build the submenu with every client's own list, and note what its ids mean.
pub fn build_custom_submenu(cfg: &PatchbayConfig, overrides: &mut Vec<OverrideItem>) -> (r: MenuEntry)
    ensures
        r@ == custom_submenu(cfg@),
        views(final(overrides)@) == views(old(overrides)@) + all_override_items(
            cfg@,
            cfg@.seen_clients.len() as int,
        ),
{
    let ghost c = cfg@;
    let ghost before = views(overrides@);
    let ghost goal = Seq::new(c.seen_clients.len(), |n: int| client_submenu(c, c.seen_clients[n].name, n));
    assert(views(overrides@) =~= before + all_override_items(c, 0));
    let mut label = "Custom [".to_owned();
    label.append(decimal_text(cfg.custom_client_count() as u64).as_str());
    label.append("/");
    label.append(decimal_text(cfg.seen_clients.len() as u64).as_str());
    label.append("]");
    let mut entries: Vec<MenuEntry> = Vec::new();
    assert(views(cfg.seen_clients@).len() == cfg.seen_clients@.len());
    if cfg.seen_clients.len() == 0 {
        entries.push(placeholder(opaque("ovr:", 1), "(no agents seen yet)"));
        assert(views(entries@) =~= custom_submenu(c)->entries);
    } else {
        assert(views(entries@) =~= goal.subrange(0, 0));
        let mut n: usize = 0;
        while n < cfg.seen_clients.len()
            invariant
                n <= cfg.seen_clients.len(),
                c == cfg@,
                c.seen_clients.len() == cfg.seen_clients@.len(),
                goal == Seq::new(
                    c.seen_clients.len(),
                    |n: int| client_submenu(c, c.seen_clients[n].name, n),
                ),
                views(entries@) == goal.subrange(0, n as int),
                views(overrides@) == before + all_override_items(c, n as int),
            decreases cfg.seen_clients.len() - n,
        {
            let ghost prev = views(entries@);
            let one = build_client_submenu(cfg, n, overrides);
            entries.push(one);
            assert(views(entries@) =~= prev.push(goal[n as int]));
            assert(views(overrides@) =~= before + all_override_items(c, n + 1));
            n = n + 1;
            assert(views(entries@) =~= goal.subrange(0, n as int));
        }
        assert(views(entries@) =~= goal);
    }
    proof {
        lemma_submenu_view(label, entries);
    }
    MenuEntry::Submenu { label, entries }
}

/// The submenu with the clients that may be denied. Its label counts all that are.
pub open spec fn forbidden_submenu(c: ConfigModel) -> EntryModel {
    EntryModel::Submenu {
        label: "Forbidden ["@ + decimal(c.forbidden_clients.len()) + "]"@,
        entries: if c.seen_clients.len() == 0 {
            seq![
                EntryModel::Item {
                    id: opaque_id("forbid:"@, 1),
                    label: "(no agents seen yet)"@,
                    enabled: false,
                },
            ]
        } else {
            Seq::new(
                c.seen_clients.len(),
                |n: int|
                    EntryModel::Check {
                        id: opaque_id("forbid:"@, (n + 1) as nat),
                        label: denied_label(
                            c.seen_clients[n].name,
                            c.forbids(Some(c.seen_clients[n].name)),
                        ),
                        checked: c.forbids(Some(c.seen_clients[n].name)),
                    },
            )
        },
    }
}

/// Build the submenu with the clients that may be denied.
pub fn build_forbidden_submenu(cfg: &PatchbayConfig) -> (r: MenuEntry)
    ensures
        r@ == forbidden_submenu(cfg@),
{
    let ghost c = cfg@;
    let mut label = "Forbidden [".to_owned();
    assert(texts(cfg.forbidden_clients@).len() == cfg.forbidden_clients@.len());
    label.append(decimal_text(cfg.forbidden_clients.len() as u64).as_str());
    label.append("]");
    let mut entries: Vec<MenuEntry> = Vec::new();
    assert(views(cfg.seen_clients@).len() == cfg.seen_clients@.len());
    let ghost goal = forbidden_submenu(c)->entries;
    if cfg.seen_clients.len() == 0 {
        entries.push(placeholder(opaque("forbid:", 1), "(no agents seen yet)"));
        assert(views(entries@) =~= goal);
    } else {
        assert(views(entries@) =~= goal.subrange(0, 0));
        let mut n: usize = 0;
        while n < cfg.seen_clients.len()
            invariant
                n <= cfg.seen_clients.len(),
                c == cfg@,
                c.seen_clients.len() == cfg.seen_clients@.len(),
                c.seen_clients.len() > 0,
                goal == forbidden_submenu(c)->entries,
                views(entries@) == goal.subrange(0, n as int),
            decreases cfg.seen_clients.len() - n,
        {
            let ghost prev = views(entries@);
            let name = cfg.seen_clients[n].name.as_str();
            assert(c.seen_clients[n as int] == cfg.seen_clients@[n as int]@);
            let denied = cfg.is_forbidden(Some(name));
            entries.push(
                MenuEntry::Check {
                    id: opaque("forbid:", n as u128 + 1),
                    label: forbidden_item_label(name, denied),
                    checked: denied,
                },
            );
            assert(views(entries@) =~= prev.push(goal[n as int]));
            n = n + 1;
            assert(views(entries@) =~= goal.subrange(0, n as int));
        }
        assert(views(entries@) =~= goal);
    }
    proof {
        lemma_submenu_view(label, entries);
    }
    MenuEntry::Submenu { label, entries }
}

fn build_client_items(cfg: &PatchbayConfig, prefix: &str) -> (r: Vec<ClientItem>)
    ensures
        views(r@) == client_items(cfg@, prefix@),
{
    let ghost c = cfg@;
    let ghost goal = client_items(c, prefix@);
    let mut out: Vec<ClientItem> = Vec::new();
    assert(views(out@) =~= goal.subrange(0, 0));
    let mut n: usize = 0;
    while n < cfg.seen_clients.len()
        invariant
            n <= cfg.seen_clients.len(),
            c == cfg@,
            goal == client_items(c, prefix@),
            views(out@) == goal.subrange(0, n as int),
        decreases cfg.seen_clients.len() - n,
    {
        let ghost prev = views(out@);
        assert(c.seen_clients[n as int] == cfg.seen_clients@[n as int]@);
        out.push(ClientItem { id: opaque(prefix, n as u128 + 1), identity: cfg.seen_clients[n].name.clone() });
        assert(views(out@) =~= prev.push(goal[n as int]));
        n = n + 1;
        assert(views(out@) =~= goal.subrange(0, n as int));
    }
    assert(views(out@) =~= goal);
    out
}

// ---- the whole menu ------------------------------------------------------

/// The entries for the jacks themselves.
pub open spec fn jack_entries(c: ConfigModel) -> Seq<EntryModel> {
    c.jacks.map_values(
        |j: JackModel| EntryModel::Check { id: "jack:"@ + j.name, label: j.name, checked: j.patched },
    )
}

/// The submenu with the settings.
pub open spec fn settings_submenu(c: ConfigModel) -> EntryModel {
    EntryModel::Submenu {
        label: "Settings"@,
        entries: seq![
            custom_submenu(c),
            forbidden_submenu(c),
            EntryModel::Item { id: "retry_gateway"@, label: "Retry gateway"@, enabled: true },
            EntryModel::Item { id: "reload"@, label: "Reload config"@, enabled: true },
            EntryModel::Item { id: "open_config"@, label: "Open config file"@, enabled: true },
            EntryModel::Item { id: "open_logs"@, label: "Open logs folder"@, enabled: true },
            EntryModel::Item { id: "copy_url"@, label: "Copy gateway URL"@, enabled: true },
            EntryModel::Separator,
            EntryModel::Check { id: "autostart"@, label: "Start with Windows"@, checked: c.autostart },
            EntryModel::Check {
                id: "require_approval"@,
                label: "Require approval for new agents"@,
                checked: c.require_approval_for_new_clients,
            },
            EntryModel::Check {
                id: "request_logging"@,
                label: "Enable request logging"@,
                checked: c.request_logging_enabled,
            },
        ],
    }
}

/// The whole menu: the jacks, the settings, and the way out.
pub open spec fn full_menu(c: ConfigModel, version: Seq<char>) -> Seq<EntryModel> {
    jack_entries(c) + seq![
        EntryModel::Separator,
        settings_submenu(c),
        EntryModel::Item { id: "about"@, label: "About ["@ + version + "]"@, enabled: true },
        EntryModel::Separator,
        EntryModel::Item { id: "quit"@, label: "Quit"@, enabled: true },
    ]
}

/// The menu beside a window: the way to the window, a reload, and the way out.
pub open spec fn minimal_menu() -> Seq<EntryModel> {
    seq![
        EntryModel::Item { id: "show_window"@, label: "Show window"@, enabled: true },
        EntryModel::Item { id: "reload"@, label: "Reload config"@, enabled: true },
        EntryModel::Item { id: "quit"@, label: "Quit"@, enabled: true },
    ]
}

/// What the opaque ids of the whole menu mean.
pub open spec fn menu_items(c: ConfigModel) -> TrayItemsModel {
    TrayItemsModel {
        overrides: all_override_items(c, c.seen_clients.len() as int),
        enable_custom: client_items(c, "enable_custom:"@),
        forbidden: client_items(c, "forbid:"@),
        delete_client: client_items(c, "delete_client:"@),
    }
}

fn build_settings_submenu(cfg: &PatchbayConfig, overrides: &mut Vec<OverrideItem>) -> (r: MenuEntry)
    ensures
        r@ == settings_submenu(cfg@),
        views(final(overrides)@) == views(old(overrides)@) + all_override_items(
            cfg@,
            cfg@.seen_clients.len() as int,
        ),
{
    let mut entries: Vec<MenuEntry> = Vec::new();
    entries.push(build_custom_submenu(cfg, overrides));
    entries.push(build_forbidden_submenu(cfg));
    entries.push(item("retry_gateway", "Retry gateway"));
    entries.push(item("reload", "Reload config"));
    entries.push(item("open_config", "Open config file"));
    entries.push(item("open_logs", "Open logs folder"));
    entries.push(item("copy_url", "Copy gateway URL"));
    entries.push(MenuEntry::Separator);
    entries.push(check("autostart", "Start with Windows", cfg.autostart));
    entries.push(
        check("require_approval", "Require approval for new agents", cfg.require_approval_for_new_clients),
    );
    entries.push(check("request_logging", "Enable request logging", cfg.request_logging_enabled));
    let label = "Settings".to_owned();
    proof {
        lemma_submenu_view(label, entries);
        assert(views(entries@) =~= settings_submenu(cfg@)->entries);
    }
    MenuEntry::Submenu { label, entries }
}

/// Build the whole menu, and note what its ids mean.
pub fn build_menu(state: &AppState, version: &str) -> (r: (Vec<MenuEntry>, TrayItems))
    ensures
        views(r.0@) == full_menu(state@.config, version@),
        r.1@ == menu_items(state@.config),
{
    let cfg = &state.config;
    let ghost c = state@.config;
    let lines = state.jack_lines();
    let ghost goal = jack_entries(c);
    let mut entries: Vec<MenuEntry> = Vec::new();
    assert(views(entries@) =~= goal.subrange(0, 0));
    assert(views(lines@).len() == lines@.len());
    let mut i: usize = 0;
    while i < lines.len()
        invariant
            i <= lines.len(),
            c.jacks.len() == lines@.len(),
            views(lines@) == c.jacks.map_values(
                |j: JackModel| crate::app_state::jacks::LineModel { name: j.name, patched: j.patched },
            ),
            goal == jack_entries(c),
            views(entries@) == goal.subrange(0, i as int),
        decreases lines.len() - i,
    {
        let ghost prev = views(entries@);
        assert(views(lines@)[i as int] == lines@[i as int]@);
        let mut id = "jack:".to_owned();
        id.append(lines[i].name.as_str());
        entries.push(MenuEntry::Check { id, label: lines[i].name.clone(), checked: lines[i].patched });
        assert(views(entries@) =~= prev.push(goal[i as int]));
        i = i + 1;
        assert(views(entries@) =~= goal.subrange(0, i as int));
    }
    assert(views(entries@) =~= goal);
    let mut overrides: Vec<OverrideItem> = Vec::new();
    entries.push(MenuEntry::Separator);
    assert(views(overrides@) =~= Seq::<OverrideItemModel>::empty());
    entries.push(build_settings_submenu(cfg, &mut overrides));
    assert(views(overrides@) =~= all_override_items(c, c.seen_clients.len() as int));
    let mut about = "About [".to_owned();
    about.append(version);
    about.append("]");
    entries.push(MenuEntry::Item { id: "about".to_owned(), label: about, enabled: true });
    entries.push(MenuEntry::Separator);
    entries.push(item("quit", "Quit"));
    assert(views(entries@) =~= full_menu(c, version@));
    let items = TrayItems {
        overrides,
        enable_custom: build_client_items(cfg, "enable_custom:"),
        forbidden: build_client_items(cfg, "forbid:"),
        delete_client: build_client_items(cfg, "delete_client:"),
    };
    (entries, items)
}

/// Build the menu beside a window.
pub fn build_minimal_menu() -> (r: Vec<MenuEntry>)
    ensures
        views(r@) == minimal_menu(),
{
    let mut entries: Vec<MenuEntry> = Vec::new();
    entries.push(item("show_window", "Show window"));
    entries.push(item("reload", "Reload config"));
    entries.push(item("quit", "Quit"));
    assert(views(entries@) =~= minimal_menu());
    entries
}

// ---- the tooltip ---------------------------------------------------------

/// How many jacks are switched on globally.
pub open spec fn patched_count(jacks: Seq<JackModel>) -> nat {
    jacks.filter(|j: JackModel| j.patched).len()
}

/// The tooltip: what is wrong, where anything is, and else how many jacks are on.
pub open spec fn tooltip(m: AppModel) -> Seq<char> {
    match m.config_error {
        Some(err) => "Patchbay — CONFIG ERROR: "@ + err + " (fix patchbay.json, then Reload config)"@,
        None => match m.status {
            GatewayModel::Failed { reason } => "Patchbay — GATEWAY FAILED: "@ + reason,
            _ => if m.config.jacks.len() == 0 {
                "Patchbay — no servers configured · "@ + gateway_address(m.config.port)
            } else {
                "Patchbay — "@ + decimal(patched_count(m.config.jacks)) + "/"@ + decimal(m.config.jacks.len())
                    + " patched · "@ + gateway_address(m.config.port)
            },
        },
    }
}

fn count_patched(cfg: &PatchbayConfig) -> (r: usize)
    ensures
        r == patched_count(cfg@.jacks),
{
    let ghost all = cfg@.jacks;
    let ghost pred = |j: JackModel| j.patched;
    proof {
        crate::name_map::lemma_filter_none(all, pred);
    }
    let mut n: usize = 0;
    let mut i: usize = 0;
    while i < cfg.jacks.len()
        invariant
            i <= cfg.jacks.len(),
            n <= i,
            all == views(cfg.jacks@),
            pred == (|j: JackModel| j.patched),
            n == all.subrange(0, i as int).filter(pred).len(),
        decreases cfg.jacks.len() - i,
    {
        assert(all[i as int] == cfg.jacks@[i as int]@);
        proof {
            crate::name_map::lemma_filter_step(all, pred, i as int);
        }
        if cfg.jacks[i].patched {
            n = n + 1;
        }
        i = i + 1;
    }
    assert(all.subrange(0, all.len() as int) =~= all);
    n
}

/// The tooltip of the tray icon.
pub fn tooltip_text(state: &AppState) -> (r: String)
    ensures
        r@ == tooltip(state@),
{
    if let Some(err) = &state.config_error {
        let mut s = "Patchbay — CONFIG ERROR: ".to_owned();
        s.append(err.as_str());
        s.append(" (fix patchbay.json, then Reload config)");
        return s;
    }
    if let GatewayStatus::Failed { reason } = &state.status {
        let mut s = "Patchbay — GATEWAY FAILED: ".to_owned();
        s.append(reason.as_str());
        return s;
    }
    let total: usize = state.config.jacks.len();
    assert(views(state.config.jacks@).len() == state.config.jacks@.len());
    if total == 0 {
        let mut s = "Patchbay — no servers configured · ".to_owned();
        s.append(gateway_url(state.config.port).as_str());
        s
    } else {
        let mut s = "Patchbay — ".to_owned();
        s.append(decimal_text(count_patched(&state.config) as u64).as_str());
        s.append("/");
        s.append(decimal_text(total as u64).as_str());
        s.append(" patched · ");
        s.append(gateway_url(state.config.port).as_str());
        s
    }
}

// ---- clicks --------------------------------------------------------------

/// What a click asks for.
#[derive(Debug, PartialEq, Eq)]
pub enum ClickAction {
    SetPatched { jack: String, on: bool },
    /// `newly_custom` says that the client had no list of its own in use, so that
    /// the whole menu changes.
    SetOverride { client: String, jack: String, on: bool, newly_custom: bool },
    EnableCustom { client: String },
    DisableCustom { client: String },
    SetForbidden { identity: String, denied: bool },
    /// To be done only once the user confirmed it.
    DeleteClient(DeleteClientItem),
    RetryGateway { port: u16 },
    /// The gateway runs already; only the tooltip is refreshed.
    RefreshTooltip,
    Reload,
    OpenConfig,
    OpenLogs,
    CopyUrl { url: String },
    SetAutostart(bool),
    SetRequireApproval(bool),
    SetRequestLogging(bool),
    About,
    ShowWindow,
    Quit,
    /// Nothing: no such entry, or one of a menu that is gone.
    Nothing,
}

pub enum ClickModel {
    SetPatched { jack: Seq<char>, on: bool },
    SetOverride { client: Seq<char>, jack: Seq<char>, on: bool, newly_custom: bool },
    EnableCustom { client: Seq<char> },
    DisableCustom { client: Seq<char> },
    SetForbidden { identity: Seq<char>, denied: bool },
    DeleteClient(Seq<char>),
    RetryGateway { port: u16 },
    RefreshTooltip,
    Reload,
    OpenConfig,
    OpenLogs,
    CopyUrl { url: Seq<char> },
    SetAutostart(bool),
    SetRequireApproval(bool),
    SetRequestLogging(bool),
    About,
    ShowWindow,
    Quit,
    Nothing,
}

impl View for ClickAction {
    type V = ClickModel;

    open spec fn view(&self) -> ClickModel {
        match self {
            ClickAction::SetPatched { jack, on } => ClickModel::SetPatched { jack: jack@, on: *on },
            ClickAction::SetOverride { client, jack, on, newly_custom } => ClickModel::SetOverride {
                client: client@,
                jack: jack@,
                on: *on,
                newly_custom: *newly_custom,
            },
            ClickAction::EnableCustom { client } => ClickModel::EnableCustom { client: client@ },
            ClickAction::DisableCustom { client } => ClickModel::DisableCustom { client: client@ },
            ClickAction::SetForbidden { identity, denied } => ClickModel::SetForbidden {
                identity: identity@,
                denied: *denied,
            },
            ClickAction::DeleteClient(d) => ClickModel::DeleteClient(d@),
            ClickAction::RetryGateway { port } => ClickModel::RetryGateway { port: *port },
            ClickAction::RefreshTooltip => ClickModel::RefreshTooltip,
            ClickAction::Reload => ClickModel::Reload,
            ClickAction::OpenConfig => ClickModel::OpenConfig,
            ClickAction::OpenLogs => ClickModel::OpenLogs,
            ClickAction::CopyUrl { url } => ClickModel::CopyUrl { url: url@ },
            ClickAction::SetAutostart(b) => ClickModel::SetAutostart(*b),
            ClickAction::SetRequireApproval(b) => ClickModel::SetRequireApproval(*b),
            ClickAction::SetRequestLogging(b) => ClickModel::SetRequestLogging(*b),
            ClickAction::About => ClickModel::About,
            ClickAction::ShowWindow => ClickModel::ShowWindow,
            ClickAction::Quit => ClickModel::Quit,
            ClickAction::Nothing => ClickModel::Nothing,
        }
    }
}

/// The first jack of a client's list behind an id.
pub open spec fn find_override(items: Seq<OverrideItemModel>, id: Seq<char>) -> Option<OverrideItemModel>
    decreases items.len(),
{
    if items.len() == 0 {
        None
    } else if items[0].id == id {
        Some(items[0])
    } else {
        find_override(items.drop_first(), id)
    }
}

/// The first client behind an id.
pub open spec fn find_client(items: Seq<ClientItemModel>, id: Seq<char>) -> Option<Seq<char>>
    decreases items.len(),
{
    if items.len() == 0 {
        None
    } else if items[0].id == id {
        Some(items[0].identity)
    } else {
        find_client(items.drop_first(), id)
    }
}

fn lookup_override<'a>(items: &'a Vec<OverrideItem>, id: &str) -> (r: Option<&'a OverrideItem>)
    ensures
        r is Some <==> find_override(views(items@), id@) is Some,
        r matches Some(o) ==> find_override(views(items@), id@) == Some(o@),
{
    let ghost all = views(items@);
    assert(all.subrange(0, all.len() as int) =~= all);
    let mut i: usize = 0;
    while i < items.len()
        invariant
            i <= items.len(),
            all == views(items@),
            find_override(all, id@) == find_override(all.subrange(i as int, all.len() as int), id@),
        decreases items.len() - i,
    {
        let ghost rest = all.subrange(i as int, all.len() as int);
        assert(rest[0] == items@[i as int]@);
        if same_text(items[i].id.as_str(), id) {
            return Some(&items[i]);
        }
        assert(rest.drop_first() =~= all.subrange(i + 1, all.len() as int));
        i = i + 1;
    }
    None
}

fn lookup_client<'a>(items: &'a Vec<ClientItem>, id: &str) -> (r: Option<&'a String>)
    ensures
        r is Some <==> find_client(views(items@), id@) is Some,
        r matches Some(n) ==> find_client(views(items@), id@) == Some(n@),
{
    let ghost all = views(items@);
    assert(all.subrange(0, all.len() as int) =~= all);
    let mut i: usize = 0;
    while i < items.len()
        invariant
            i <= items.len(),
            all == views(items@),
            find_client(all, id@) == find_client(all.subrange(i as int, all.len() as int), id@),
        decreases items.len() - i,
    {
        let ghost rest = all.subrange(i as int, all.len() as int);
        assert(rest[0] == items@[i as int]@);
        if same_text(items[i].id.as_str(), id) {
            return Some(&items[i].identity);
        }
        assert(rest.drop_first() =~= all.subrange(i + 1, all.len() as int));
        i = i + 1;
    }
    None
}

/// What a click on an entry of a client's list asks for.
pub open spec fn override_click(c: ConfigModel, items: TrayItemsModel, id: Seq<char>) -> ClickModel {
    match find_override(items.overrides, id) {
        Some(o) => ClickModel::SetOverride {
            client: o.client,
            jack: o.jack,
            on: !c.grants(o.jack, Some(o.client)),
            newly_custom: !c.customizes(o.client),
        },
        None => ClickModel::Nothing,
    }
}

/// What a click on an entry with a fixed id asks for.
pub open spec fn fixed_click(m: AppModel, id: Seq<char>) -> ClickModel {
    if id == "retry_gateway"@ {
        if m.status is Running {
            ClickModel::RefreshTooltip
        } else {
            ClickModel::RetryGateway { port: m.config.port }
        }
    } else if id == "reload"@ {
        ClickModel::Reload
    } else if id == "open_config"@ {
        ClickModel::OpenConfig
    } else if id == "open_logs"@ {
        ClickModel::OpenLogs
    } else if id == "copy_url"@ {
        ClickModel::CopyUrl { url: gateway_address(m.config.port) }
    } else if id == "autostart"@ {
        ClickModel::SetAutostart(!m.config.autostart)
    } else if id == "require_approval"@ {
        ClickModel::SetRequireApproval(!m.config.require_approval_for_new_clients)
    } else if id == "request_logging"@ {
        ClickModel::SetRequestLogging(!m.config.request_logging_enabled)
    } else if id == "about"@ {
        ClickModel::About
    } else if id == "show_window"@ {
        ClickModel::ShowWindow
    } else if id == "quit"@ {
        ClickModel::Quit
    } else {
        ClickModel::Nothing
    }
}

/// What a click asks for. Whatever the menu showed, a switch is to be the opposite
/// of what the state says.
pub open spec fn click(m: AppModel, items: TrayItemsModel, id: Seq<char>) -> ClickModel {
    let c = m.config;
    if occurs_at(id, "jack:"@, 0) {
        let jack = id.subrange("jack:"@.len() as int, id.len() as int);
        ClickModel::SetPatched { jack, on: !c.global_patched(jack) }
    } else if occurs_at(id, "ovr:"@, 0) {
        override_click(c, items, id)
    } else if occurs_at(id, "enable_custom:"@, 0) {
        match find_client(items.enable_custom, id) {
            Some(client) => if c.customizes(client) {
                ClickModel::DisableCustom { client }
            } else {
                ClickModel::EnableCustom { client }
            },
            None => ClickModel::Nothing,
        }
    } else if occurs_at(id, "forbid:"@, 0) {
        match find_client(items.forbidden, id) {
            Some(identity) => ClickModel::SetForbidden { identity, denied: !c.forbids(Some(identity)) },
            None => ClickModel::Nothing,
        }
    } else if occurs_at(id, "delete_client:"@, 0) {
        match find_client(items.delete_client, id) {
            Some(identity) => ClickModel::DeleteClient(identity),
            None => ClickModel::Nothing,
        }
    } else {
        fixed_click(m, id)
    }
}

fn on_fixed_click(state: &AppState, id: &str) -> (r: ClickAction)
    ensures
        r@ == fixed_click(state@, id@),
{
    if same_text(id, "retry_gateway") {
        match &state.status {
            GatewayStatus::Running { .. } => ClickAction::RefreshTooltip,
            _ => ClickAction::RetryGateway { port: state.config.port },
        }
    } else if same_text(id, "reload") {
        ClickAction::Reload
    } else if same_text(id, "open_config") {
        ClickAction::OpenConfig
    } else if same_text(id, "open_logs") {
        ClickAction::OpenLogs
    } else if same_text(id, "copy_url") {
        ClickAction::CopyUrl { url: gateway_url(state.config.port) }
    } else if same_text(id, "autostart") {
        ClickAction::SetAutostart(!state.config.autostart)
    } else if same_text(id, "require_approval") {
        ClickAction::SetRequireApproval(!state.config.require_approval_for_new_clients)
    } else if same_text(id, "request_logging") {
        ClickAction::SetRequestLogging(!state.config.request_logging_enabled)
    } else if same_text(id, "about") {
        ClickAction::About
    } else if same_text(id, "show_window") {
        ClickAction::ShowWindow
    } else if same_text(id, "quit") {
        ClickAction::Quit
    } else {
        ClickAction::Nothing
    }
}

/// Whether a client uses a list of its own.
fn is_custom(cfg: &PatchbayConfig, client: &str) -> (r: bool)
    ensures
        r == cfg@.customizes(client@),
{
    match cfg.client_overrides.get(client) {
        Some(o) => o.enabled,
        None => false,
    }
}

/// What a click on the entry `id` asks for.
pub fn on_menu_event(state: &AppState, items: &TrayItems, id: &str) -> (r: ClickAction)
    ensures
        r@ == click(state@, items@, id@),
{
    let cfg = &state.config;
    if let Some(jack) = strip_prefix_text(id, "jack:") {
        assert(id@.subrange("jack:"@.len() as int, id@.len() as int) =~= jack@);
        let on = !cfg.global_patched(jack.as_str());
        return ClickAction::SetPatched { jack, on };
    }
    if starts_with_text(id, "ovr:") {
        return match lookup_override(&items.overrides, id) {
            Some(o) => ClickAction::SetOverride {
                client: o.client.clone(),
                jack: o.jack.clone(),
                on: !cfg.effective_patched(o.jack.as_str(), Some(o.client.as_str())),
                newly_custom: !is_custom(cfg, o.client.as_str()),
            },
            None => ClickAction::Nothing,
        };
    }
    if starts_with_text(id, "enable_custom:") {
        return match lookup_client(&items.enable_custom, id) {
            Some(client) => if is_custom(cfg, client.as_str()) {
                ClickAction::DisableCustom { client: client.clone() }
            } else {
                ClickAction::EnableCustom { client: client.clone() }
            },
            None => ClickAction::Nothing,
        };
    }
    if starts_with_text(id, "forbid:") {
        return match lookup_client(&items.forbidden, id) {
            Some(identity) => ClickAction::SetForbidden {
                identity: identity.clone(),
                denied: !cfg.is_forbidden(Some(identity.as_str())),
            },
            None => ClickAction::Nothing,
        };
    }
    if starts_with_text(id, "delete_client:") {
        return match lookup_client(&items.delete_client, id) {
            Some(identity) => ClickAction::DeleteClient(DeleteClientItem { identity: identity.clone() }),
            None => ClickAction::Nothing,
        };
    }
    on_fixed_click(state, id)
}

// ---- what holds of it ----------------------------------------------------

proof fn lemma_opaque_ids_differ(prefix: Seq<char>, a: nat, b: nat)
    requires
        opaque_id(prefix, a) == opaque_id(prefix, b),
    ensures
        a == b,
{
    let x = opaque_id(prefix, a);
    assert(x.subrange(prefix.len() as int, x.len() as int) =~= decimal(a));
    assert(x.subrange(prefix.len() as int, x.len() as int) =~= decimal(b));
    decimal_reads_back(a, a);
    decimal_reads_back(b, b);
}

proof fn lemma_find_client_at(items: Seq<ClientItemModel>, i: int)
    requires
        0 <= i < items.len(),
        forall|k: int| 0 <= k < i ==> (#[trigger] items[k]).id != items[i].id,
    ensures
        find_client(items, items[i].id) == Some(items[i].identity),
    decreases items.len(),
{
    if i > 0 {
        let rest = items.drop_first();
        assert(items[0].id != items[i].id);
        assert(rest[i - 1] == items[i]);
        assert forall|k: int| 0 <= k < i - 1 implies (#[trigger] rest[k]).id != rest[i - 1].id by {
            assert(rest[k] == items[k + 1]);
        }
        lemma_find_client_at(rest, i - 1);
    }
}

proof fn lemma_find_override_at(items: Seq<OverrideItemModel>, i: int)
    requires
        0 <= i < items.len(),
        forall|k: int| 0 <= k < i ==> (#[trigger] items[k]).id != items[i].id,
    ensures
        find_override(items, items[i].id) == Some(items[i]),
    decreases items.len(),
{
    if i > 0 {
        let rest = items.drop_first();
        assert(items[0].id != items[i].id);
        assert(rest[i - 1] == items[i]);
        assert forall|k: int| 0 <= k < i - 1 implies (#[trigger] rest[k]).id != rest[i - 1].id by {
            assert(rest[k] == items[k + 1]);
        }
        lemma_find_override_at(rest, i - 1);
    }
}

/// The id of a client's entry leads back to that client.
pub proof fn client_ids_resolve(c: ConfigModel, prefix: Seq<char>, n: int)
    requires
        0 <= n < c.seen_clients.len(),
    ensures
        find_client(client_items(c, prefix), opaque_id(prefix, (n + 1) as nat)) == Some(c.seen_clients[n].name),
{
    let items = client_items(c, prefix);
    assert forall|k: int| 0 <= k < n implies (#[trigger] items[k]).id != items[n].id by {
        if items[k].id == items[n].id {
            lemma_opaque_ids_differ(prefix, (k + 1) as nat, (n + 1) as nat);
        }
    }
    lemma_find_client_at(items, n);
}

proof fn lemma_override_items(c: ConfigModel, n: int)
    requires
        0 <= n <= c.seen_clients.len(),
    ensures
        all_override_items(c, n).len() == n * c.jacks.len(),
        forall|k: int|
            0 <= k < n * c.jacks.len() ==> (#[trigger] all_override_items(c, n)[k]).id == opaque_id(
                "ovr:"@,
                (k + 1) as nat,
            ),
        forall|l: int| l > n ==> #[trigger] (l * c.jacks.len()) >= n * c.jacks.len(),
    decreases n,
{
    let jacks = c.jacks.len();
    assert forall|l: int| l > n implies #[trigger] (l * jacks) >= n * jacks by {
        assert(l * jacks >= n * jacks) by (nonlinear_arith)
            requires
                l > n,
                jacks >= 0,
        ;
    }
    if n > 0 {
        lemma_override_items(c, n - 1);
        let front = all_override_items(c, n - 1);
        let last = override_items(c, c.seen_clients[n - 1].name, n - 1);
        assert(n * jacks == (n - 1) * jacks + jacks) by (nonlinear_arith);
        assert forall|k: int| 0 <= k < n * jacks implies (#[trigger] all_override_items(c, n)[k]).id == opaque_id(
            "ovr:"@,
            (k + 1) as nat,
        ) by {
            if k < front.len() {
                assert(all_override_items(c, n)[k] == front[k]);
            } else {
                let j = k - front.len();
                assert(all_override_items(c, n)[k] == last[j]);
            }
        }
    } else {
        assert(n * jacks == 0) by (nonlinear_arith)
            requires
                n == 0,
        ;
    }
}

proof fn lemma_override_item_at(c: ConfigModel, m: int, n: int, j: int)
    requires
        0 <= n < m <= c.seen_clients.len(),
        0 <= j < c.jacks.len(),
    ensures
        0 <= n * c.jacks.len() + j < all_override_items(c, m).len(),
        all_override_items(c, m)[n * c.jacks.len() + j] == override_items(c, c.seen_clients[n].name, n)[j],
    decreases m,
{
    let jacks = c.jacks.len();
    lemma_override_items(c, m);
    lemma_override_items(c, m - 1);
    assert(0 <= n * jacks) by (nonlinear_arith)
        requires
            0 <= n,
            jacks >= 0,
    ;
    assert(n * jacks + j < m * jacks) by (nonlinear_arith)
        requires
            n < m,
            0 <= j < jacks,
    ;
    if n == m - 1 {
        assert(all_override_items(c, m)[n * jacks + j] == override_items(c, c.seen_clients[m - 1].name, m - 1)[j]);
    } else {
        lemma_override_item_at(c, m - 1, n, j);
    }
}

/// The id of a jack's entry under a client leads back to that client and that jack.
pub proof fn override_ids_resolve(c: ConfigModel, n: int, j: int)
    requires
        0 <= n < c.seen_clients.len(),
        0 <= j < c.jacks.len(),
    ensures
        find_override(
            menu_items(c).overrides,
            opaque_id("ovr:"@, override_number(n, j, c.jacks.len())),
        ) == Some(
            OverrideItemModel {
                id: opaque_id("ovr:"@, override_number(n, j, c.jacks.len())),
                client: c.seen_clients[n].name,
                jack: jack_names(c.jacks)[j],
            },
        ),
{
    let items = menu_items(c).overrides;
    let jacks = c.jacks.len();
    let i = n * jacks + j;
    lemma_override_items(c, c.seen_clients.len() as int);
    lemma_override_item_at(c, c.seen_clients.len() as int, n, j);
    assert forall|k: int| 0 <= k < i implies (#[trigger] items[k]).id != items[i].id by {
        if items[k].id == items[i].id {
            lemma_opaque_ids_differ("ovr:"@, (k + 1) as nat, (i + 1) as nat);
        }
    }
    lemma_find_override_at(items, i);
}

/// A click on what the menu shows for a jack under a client asks for the opposite of
/// what it shows, as long as the configuration is the one that the menu was built
/// from.
pub proof fn click_flips_what_is_shown(m: AppModel, n: int, j: int)
    requires
        0 <= n < m.config.seen_clients.len(),
        0 <= j < m.config.jacks.len(),
    ensures
        ({
            let c = m.config;
            let client = c.seen_clients[n].name;
            let shown = jack_checks(c, client, n)[j];
            &&& shown is Check
            &&& click(m, menu_items(c), shown->Check_id) == (ClickModel::SetOverride {
                client,
                jack: jack_names(c.jacks)[j],
                on: !shown->checked,
                newly_custom: !c.customizes(client),
            })
        }),
{
    let c = m.config;
    let id = opaque_id("ovr:"@, override_number(n, j, c.jacks.len()));
    override_ids_resolve(c, n, j);
    reveal_strlit("ovr:");
    reveal_strlit("jack:");
    assert(id.subrange(0, 4) =~= "ovr:"@);
    assert(occurs_at(id, "ovr:"@, 0));
    assert(!occurs_at(id, "jack:"@, 0)) by {
        if occurs_at(id, "jack:"@, 0) {
            assert(id.subrange(0, 5)[0] == "jack:"@[0]);
            assert(id[0] == 'o');
        }
    }
}

proof fn lemma_prefixes_differ()
    ensures
        "jack:"@.len() == 5,
        "ovr:"@.len() == 4,
        "enable_custom:"@.len() == 14,
        "forbid:"@.len() == 7,
        "delete_client:"@.len() == 14,
        "jack:"@[0] == 'j',
        "ovr:"@[0] == 'o',
        "enable_custom:"@[0] == 'e',
        "forbid:"@[0] == 'f',
        "delete_client:"@[0] == 'd',
{
    reveal_strlit("jack:");
    reveal_strlit("ovr:");
    reveal_strlit("enable_custom:");
    reveal_strlit("forbid:");
    reveal_strlit("delete_client:");
}

proof fn lemma_prefix_letter(id: Seq<char>, p: Seq<char>)
    requires
        p.len() > 0,
        occurs_at(id, p, 0),
    ensures
        id.len() > 0,
        id[0] == p[0],
{
    assert(id.subrange(0, p.len() as int)[0] == id[0]);
}

/// Every jack stands in the menu in its place, under its name, checked where it is on;
/// a click switches it the other way.
pub proof fn jacks_are_switched_by_a_click(m: AppModel, version: Seq<char>, items: TrayItemsModel, i: int)
    requires
        0 <= i < m.config.jacks.len(),
    ensures
        ({
            let j = m.config.jacks[i];
            let shown = full_menu(m.config, version)[i];
            &&& shown is Check
            &&& shown->Check_label == j.name
            &&& shown->checked == j.patched
            &&& click(m, items, shown->Check_id) == (ClickModel::SetPatched {
                jack: j.name,
                on: !crate::config::laws::switched_on(m.config, j.name),
            })
        }),
{
    let j = m.config.jacks[i];
    let id = "jack:"@ + j.name;
    assert(jack_entries(m.config)[i] == (EntryModel::Check { id, label: j.name, checked: j.patched }));
    assert(full_menu(m.config, version)[i] == jack_entries(m.config)[i]);
    assert(id.subrange(0, "jack:"@.len() as int) =~= "jack:"@);
    assert(id.subrange("jack:"@.len() as int, id.len() as int) =~= j.name);
    crate::config::laws::global_switch_is_the_first(m.config, j.name);
}

/// Every known client stands in the list of those that may be denied, checked where it
/// is; a click denies it or no longer denies it, and the label says which it is.
pub proof fn clients_are_denied_by_a_click(m: AppModel, n: int)
    requires
        0 <= n < m.config.seen_clients.len(),
    ensures
        ({
            let c = m.config;
            let client = c.seen_clients[n].name;
            let entries = forbidden_submenu(c)->entries;
            let shown = entries[n];
            &&& entries.len() == c.seen_clients.len()
            &&& shown is Check
            &&& shown->checked == c.forbidden_clients.contains(client)
            &&& shown->Check_label == denied_label(client, shown->checked)
            &&& click(m, menu_items(c), shown->Check_id) == (ClickModel::SetForbidden {
                identity: client,
                denied: !shown->checked,
            })
        }),
{
    let c = m.config;
    let id = opaque_id("forbid:"@, (n + 1) as nat);
    client_ids_resolve(c, "forbid:"@, n);
    lemma_prefixes_differ();
    assert(id.subrange(0, "forbid:"@.len() as int) =~= "forbid:"@);
    assert(id[0] == 'f');
    if occurs_at(id, "jack:"@, 0) {
        lemma_prefix_letter(id, "jack:"@);
    }
    if occurs_at(id, "ovr:"@, 0) {
        lemma_prefix_letter(id, "ovr:"@);
    }
    if occurs_at(id, "enable_custom:"@, 0) {
        lemma_prefix_letter(id, "enable_custom:"@);
    }
}

/// Every known client has a submenu of its own: the switch that puts its own list in
/// use, one check per jack, and the way to delete it. A click on the switch turns it
/// over, and a click on the last asks to delete that very client.
pub proof fn own_lists_are_switched_by_a_click(m: AppModel, n: int)
    requires
        0 <= n < m.config.seen_clients.len(),
    ensures
        ({
            let c = m.config;
            let client = c.seen_clients[n].name;
            let menus = custom_submenu(c)->entries;
            let entries = menus[n]->entries;
            let uses = c.client_overrides.contains_key(client) && c.client_overrides[client].enabled;
            &&& menus.len() == c.seen_clients.len()
            &&& menus[n] is Submenu
            &&& menus[n]->Submenu_label == client
            &&& entries[0] is Check
            &&& entries[0]->checked == uses
            &&& click(m, menu_items(c), entries[0]->Check_id) == (if uses {
                ClickModel::DisableCustom { client }
            } else {
                ClickModel::EnableCustom { client }
            })
            &&& entries.last() is Item
            &&& click(m, menu_items(c), entries.last()->Item_id) == ClickModel::DeleteClient(client)
            &&& c.jacks.len() > 0 ==> entries.len() == c.jacks.len() + 4
        }),
{
    let c = m.config;
    let client = c.seen_clients[n].name;
    lemma_prefixes_differ();
    let id = opaque_id("enable_custom:"@, (n + 1) as nat);
    client_ids_resolve(c, "enable_custom:"@, n);
    assert(id.subrange(0, "enable_custom:"@.len() as int) =~= "enable_custom:"@);
    assert(id[0] == 'e');
    if occurs_at(id, "jack:"@, 0) {
        lemma_prefix_letter(id, "jack:"@);
    }
    if occurs_at(id, "ovr:"@, 0) {
        lemma_prefix_letter(id, "ovr:"@);
    }
    let gone = opaque_id("delete_client:"@, (n + 1) as nat);
    client_ids_resolve(c, "delete_client:"@, n);
    assert(gone.subrange(0, "delete_client:"@.len() as int) =~= "delete_client:"@);
    assert(gone[0] == 'd');
    if occurs_at(gone, "jack:"@, 0) {
        lemma_prefix_letter(gone, "jack:"@);
    }
    if occurs_at(gone, "ovr:"@, 0) {
        lemma_prefix_letter(gone, "ovr:"@);
    }
    if occurs_at(gone, "enable_custom:"@, 0) {
        lemma_prefix_letter(gone, "enable_custom:"@);
    }
    if occurs_at(gone, "forbid:"@, 0) {
        lemma_prefix_letter(gone, "forbid:"@);
    }
    assert(custom_submenu(c)->entries[n] == client_submenu(c, client, n));
    assert(jack_names(c.jacks).len() == c.jacks.len());
}

/// A check for a jack under a client shows whether that client may use it.
pub proof fn checks_show_what_a_client_may_use(c: ConfigModel, client: Seq<char>, n: int, j: int)
    requires
        0 <= j < c.jacks.len(),
        !c.forbidden_clients.contains(client),
    ensures
        ({
            let shown = jack_checks(c, client, n)[j];
            let jack = c.jacks[j].name;
            &&& jack_checks(c, client, n).len() == c.jacks.len()
            &&& shown is Check
            &&& shown->Check_label == jack
            &&& c.client_overrides.contains_key(client) && c.client_overrides[client].enabled ==> (shown->checked
                <==> c.client_overrides[client].jacks.contains_key(jack) && c.client_overrides[client].jacks[jack])
            &&& !(c.client_overrides.contains_key(client) && c.client_overrides[client].enabled) ==> shown->checked
                == crate::config::laws::switched_on(c, jack)
        }),
{
    assert(jack_names(c.jacks).len() == c.jacks.len());
    crate::config::laws::global_switch_is_the_first(c, c.jacks[j].name);
}

/// An id that no menu has does nothing.
pub proof fn unknown_ids_do_nothing(m: AppModel, n: nat)
    ensures
        ({
            let none = TrayItemsModel {
                overrides: Seq::empty(),
                enable_custom: Seq::empty(),
                forbidden: Seq::empty(),
                delete_client: Seq::empty(),
            };
            &&& click(m, none, opaque_id("ovr:"@, n)) is Nothing
            &&& click(m, none, opaque_id("forbid:"@, n)) is Nothing
            &&& click(m, none, opaque_id("delete_client:"@, n)) is Nothing
            &&& click(m, none, opaque_id("enable_custom:"@, n)) is Nothing
        }),
{
    lemma_prefixes_differ();
    let a = opaque_id("ovr:"@, n);
    let b = opaque_id("forbid:"@, n);
    let d = opaque_id("delete_client:"@, n);
    let e = opaque_id("enable_custom:"@, n);
    assert(a.subrange(0, 4) =~= "ovr:"@ && a[0] == 'o');
    assert(b.subrange(0, 7) =~= "forbid:"@ && b[0] == 'f');
    assert(d.subrange(0, 14) =~= "delete_client:"@ && d[0] == 'd');
    assert(e.subrange(0, 14) =~= "enable_custom:"@ && e[0] == 'e');
    assert forall|x: Seq<char>, p: Seq<char>| p.len() > 0 && x.len() > 0 && x[0] != p[0] implies !(#[trigger] occurs_at(
        x,
        p,
        0,
    )) by {
        if occurs_at(x, p, 0) {
            lemma_prefix_letter(x, p);
        }
    }
}

/// What is wrong is what the tooltip says: first the configuration file, then the
/// gateway; where nothing is wrong it tells where the gateway is.
pub proof fn the_tooltip_tells_what_is_wrong(m: AppModel)
    ensures
        m.config_error is Some ==> holds(tooltip(m), m.config_error->0),
        m.config_error is None ==> (m.status matches GatewayModel::Failed { reason } ==> holds(tooltip(m), reason)),
        m.config_error is None && !(m.status is Failed) ==> holds(tooltip(m), gateway_address(m.config.port)),
        m.config_error is None && !(m.status is Failed) && m.config.jacks.len() > 0 ==> holds(
            tooltip(m),
            decimal(patched_count(m.config.jacks)) + "/"@ + decimal(m.config.jacks.len()),
        ),
{
    let t = tooltip(m);
    if m.config_error is Some {
        let e = m.config_error->0;
        let k = "Patchbay — CONFIG ERROR: "@.len() as int;
        assert(t.subrange(k, k + e.len()) =~= e);
        assert(occurs_at(t, e, k));
    } else if let GatewayModel::Failed { reason } = m.status {
        let k = "Patchbay — GATEWAY FAILED: "@.len() as int;
        assert(t.subrange(k, t.len() as int) =~= reason);
        assert(occurs_at(t, reason, k));
    } else {
        let url = gateway_address(m.config.port);
        let k = t.len() - url.len();
        assert(t.subrange(k, t.len() as int) =~= url);
        assert(occurs_at(t, url, k));
        if m.config.jacks.len() > 0 {
            let head = "Patchbay — "@;
            let n = decimal(patched_count(m.config.jacks)) + "/"@ + decimal(m.config.jacks.len());
            assert(t.subrange(head.len() as int, (head.len() + n.len()) as int) =~= n);
            assert(occurs_at(t, n, head.len() as int));
        }
    }
}

/// The switches of the settings are shown as they are, and a click turns them over.
pub proof fn settings_are_switched_by_a_click(m: AppModel, items: TrayItemsModel)
    ensures
        ({
            let e = settings_submenu(m.config)->entries;
            &&& e[8] is Check && e[8]->checked == m.config.autostart
            &&& e[9] is Check && e[9]->checked == m.config.require_approval_for_new_clients
            &&& e[10] is Check && e[10]->checked == m.config.request_logging_enabled
            &&& click(m, items, "autostart"@) == ClickModel::SetAutostart(!m.config.autostart)
            &&& click(m, items, "require_approval"@) == ClickModel::SetRequireApproval(
                !m.config.require_approval_for_new_clients,
            )
            &&& click(m, items, "request_logging"@) == ClickModel::SetRequestLogging(!m.config.request_logging_enabled)
            &&& click(m, items, "quit"@) is Quit
            &&& click(m, items, "reload"@) is Reload
            &&& m.status is Running ==> click(m, items, "retry_gateway"@) is RefreshTooltip
            &&& !(m.status is Running) ==> click(m, items, "retry_gateway"@) == (ClickModel::RetryGateway {
                port: m.config.port,
            })
        }),
{
    lemma_prefixes_differ();
    reveal_strlit("autostart");
    reveal_strlit("require_approval");
    reveal_strlit("request_logging");
    reveal_strlit("quit");
    reveal_strlit("reload");
    reveal_strlit("retry_gateway");
    reveal_strlit("open_config");
    reveal_strlit("open_logs");
    reveal_strlit("copy_url");
    reveal_strlit("about");
    reveal_strlit("show_window");
    assert("autostart"@.len() == 9 && "require_approval"@.len() == 16 && "request_logging"@.len() == 15 && "quit"@.len() == 4
        && "reload"@.len() == 6 && "retry_gateway"@.len() == 13 && "open_config"@.len() == 11 && "open_logs"@.len() == 9
        && "copy_url"@.len() == 8 && "about"@.len() == 5 && "show_window"@.len() == 11);
    assert("autostart"@[0] == 'a' && "open_logs"@[0] == 'o' && "require_approval"@[0] == 'r' && "request_logging"@[0]
        == 'r' && "quit"@[0] == 'q' && "reload"@[0] == 'r' && "retry_gateway"@[0] == 'r');
    assert forall|x: Seq<char>, p: Seq<char>| p.len() > 0 && x.len() > 0 && x[0] != p[0] implies !(#[trigger] occurs_at(
        x,
        p,
        0,
    )) by {
        if occurs_at(x, p, 0) {
            lemma_prefix_letter(x, p);
        }
    }
}

/// The menu beside a window has the way to the window, a reload and the way out, and a
/// click does each of them.
pub proof fn the_small_menu_has_a_way_out(m: AppModel, items: TrayItemsModel)
    ensures
        minimal_menu().len() == 3,
        minimal_menu()[0] is Item && click(m, items, minimal_menu()[0]->Item_id) is ShowWindow,
        minimal_menu()[1] is Item && click(m, items, minimal_menu()[1]->Item_id) is Reload,
        minimal_menu()[2] is Item && click(m, items, minimal_menu()[2]->Item_id) is Quit,
{
    settings_are_switched_by_a_click(m, items);
    lemma_prefixes_differ();
    reveal_strlit("show_window");
    reveal_strlit("retry_gateway");
    reveal_strlit("reload");
    reveal_strlit("open_config");
    reveal_strlit("open_logs");
    reveal_strlit("copy_url");
    reveal_strlit("autostart");
    reveal_strlit("require_approval");
    reveal_strlit("request_logging");
    reveal_strlit("about");
    let id = "show_window"@;
    assert(id.len() == 11 && id[0] == 's' && "open_config"@[0] == 'o' && "retry_gateway"@.len() == 13 && "reload"@.len() == 6
        && "open_logs"@.len() == 9 && "copy_url"@.len() == 8 && "autostart"@.len() == 9 && "require_approval"@.len() == 16
        && "request_logging"@.len() == 15 && "about"@.len() == 5);
    assert forall|p: Seq<char>| p.len() > 0 && id[0] != p[0] implies !(#[trigger] occurs_at(id, p, 0)) by {
        if occurs_at(id, p, 0) {
            lemma_prefix_letter(id, p);
        }
    }
}

/// The jacks that are counted as on are those that are on.
pub proof fn switched_on_jacks_are_counted(jacks: Seq<JackModel>, j: JackModel)
    ensures
        patched_count(Seq::empty()) == 0,
        patched_count(jacks.push(j)) == patched_count(jacks) + (if j.patched {
            1nat
        } else {
            0nat
        }),
        patched_count(jacks) <= jacks.len(),
{
    reveal(Seq::filter);
    let pred = |x: JackModel| x.patched;
    assert(jacks.push(j).drop_last() =~= jacks);
    assert(Seq::<JackModel>::empty().filter(pred) =~= Seq::<JackModel>::empty());
    crate::name_map::lemma_filter_same(jacks, pred);
}

/// The labels of the two lists of clients tell how many use a list of their own, of how
/// many that are known, and how many are denied; that of a client tells whether it is.
pub proof fn labels_tell_how_many(c: ConfigModel, client: Seq<char>)
    ensures
        holds(
            custom_submenu(c)->Submenu_label,
            decimal(c.custom_clients().len()) + "/"@ + decimal(c.seen_clients.len()),
        ),
        holds(forbidden_submenu(c)->Submenu_label, decimal(c.forbidden_clients.len())),
        denied_label(client, true) == client + " [denied]"@,
        denied_label(client, false) == client + " [allowed]"@,
{
    let a = custom_submenu(c)->Submenu_label;
    let n = decimal(c.custom_clients().len()) + "/"@ + decimal(c.seen_clients.len());
    let k = "Custom ["@.len() as int;
    assert(a.subrange(k, k + n.len()) =~= n);
    assert(occurs_at(a, n, k));
    let b = forbidden_submenu(c)->Submenu_label;
    let d = decimal(c.forbidden_clients.len());
    let l = "Forbidden ["@.len() as int;
    assert(b.subrange(l, l + d.len()) =~= d);
    assert(occurs_at(b, d, l));
}

} // verus!
