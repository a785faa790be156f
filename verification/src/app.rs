//! The wizard's screen state and what each key does to it. The terminal
//! front end reads keys, hands them here, and carries out the returned
//! action where it needs the terminal widgets or the filesystem.

use vstd::prelude::*;
use crate::actions::native::HostFacts;
use crate::config::substitute::BasicAuthEncoding;
use crate::docset::{DocKind, Document, Images};
use crate::domain::answers::{Answers, DEFAULT_ES_DATA_DIR, DEFAULT_ES_URL, DEFAULT_WISE_URL};
use crate::domain::build_config::BuildConfig;
use crate::domain::components::{all_components, Component, Components};
use crate::domain::deployment::Deployment;
use crate::domain::mounts::MountSelection;
use crate::domain::platform::Platform;
use crate::domain::plugins::spec_known_plugins;
use crate::domain::startmode::{spec_available, StartMode};
use crate::log::LogLine;
use crate::steps::{spec_required_steps, spec_step_after, spec_step_before, WizardStep};
use crate::text::{join_strings, path_join, string_views};
use crate::wizard::{DocV, docs_v, spec_wise_url_needed, sync_docs, synced_docs, wise_url_needed, Samples};

verus! {

// ---------------------------------------------------------------------------
// Keys and actions
// ---------------------------------------------------------------------------

/// The keys the wizard reacts to.
#[derive(Debug, Clone, Copy, PartialEq, Eq, Structural)]
pub enum KeyCode {
    Char(char),
    Enter,
    Esc,
    Tab,
    BackTab,
    Backspace,
    Up,
    Down,
    Left,
    Right,
    Other,
}

/// A key press, with whether Ctrl was held.
#[derive(Debug, Clone, Copy, PartialEq, Eq, Structural)]
pub struct Key {
    pub code: KeyCode,
    pub ctrl: bool,
}

/// The editable text fields.
#[derive(Debug, Clone, Copy, PartialEq, Eq, Structural)]
pub enum Field {
    Interface,
    EsUrl,
    EsUser,
    EsPassword,
    S2s,
    Plugins,
    WiseUrl,
    EsData,
    LoadPath,
    Prefix,
    MaxmindAccount,
    MaxmindKey,
}

/// What the front end does after a key: edit the named text field with the
/// key, start the file editor's buffers, type into the editor, hand the
/// editor's buffers back, read the file to load, or run the apply.
#[derive(Debug, Clone, Copy, PartialEq, Eq, Structural)]
pub enum Action {
    Nothing,
    Edit(Field),
    EditorOpened,
    EditorInput,
    CloseEditor,
    Load,
    Apply,
}

/// The text typed into each field; moving between screens keeps it.
pub struct Fields {
    pub interface: String,
    pub es_url: String,
    pub es_user: String,
    pub es_password: String,
    pub s2s: String,
    pub plugins: String,
    pub wise_url: String,
    pub es_data: String,
    pub load_path: String,
    /// A new service-name prefix being typed.
    pub prefix: String,
    pub maxmind_account: String,
    pub maxmind_key: String,
}

/// The full-file editor overlay: one tab per document, and whether the
/// active tab shows its diff instead of the buffer.
#[derive(Debug, Clone, Copy, PartialEq, Eq, Structural)]
pub struct Editor {
    pub tab: usize,
    pub count: usize,
    pub diff: bool,
}

/// The whole wizard state.
pub struct App {
    pub build: BuildConfig,
    pub platform: Platform,
    pub basic_auth: BasicAuthEncoding,
    pub images: Images,
    pub samples: Samples,
    pub host: HostFacts,
    pub start_mode: Option<StartMode>,
    pub deployment: Option<Deployment>,
    pub is_load: bool,
    pub components: Components,
    pub answers: Answers,
    /// The output files in memory; written only at apply.
    pub docs: Vec<Document>,
    /// Directory the docker files go to.
    pub out_dir: String,
    pub editor: Option<Editor>,
    pub step: WizardStep,
    pub detected_interfaces: Vec<String>,
    pub fields: Fields,
    /// Cursor of the select-style screens.
    pub cursor: usize,
    /// Focused field of the datastore screen (0..=4).
    pub es_focus: usize,
    /// Focused row of the GeoIP screen: account, licence key, download.
    pub geo_focus: usize,
    /// Checkbox per detected interface.
    pub interface_checked: Vec<bool>,
    /// The interface screen shows a free-text field instead of the boxes.
    pub interface_advanced: bool,
    /// Checkbox per known plugin.
    pub plugin_checked: Vec<bool>,
    pub plugin_advanced: bool,
    pub docker_mounts: MountSelection,
    /// The compose service-name prefix managed here.
    pub service_prefix: String,
    /// Every prefix found in a loaded compose file, the managed one first.
    pub detected_prefixes: Vec<String>,
    /// The prefixes left untouched.
    pub other_prefixes: Vec<String>,
    /// A new prefix is being typed on the prefix screen.
    pub prefix_adding: bool,
    pub is_root: bool,
    pub log: Vec<LogLine>,
    pub applied: bool,
    pub error: Option<String>,
    pub should_quit: bool,
}

// ---------------------------------------------------------------------------
// Well-formedness
// ---------------------------------------------------------------------------

impl App {
    /// The parallel lists agree and every cursor is on a row of its screen.
    pub open spec fn wf(&self) -> bool {
        &&& self.interface_checked@.len() == self.detected_interfaces@.len()
        &&& self.plugin_checked@.len() == spec_known_plugins().len()
        &&& self.step == WizardStep::StartSelect ==> self.cursor < spec_available(self.platform.os).len()
        &&& self.step == WizardStep::ComponentsSelect ==> self.cursor < all_components().len()
        &&& self.step == WizardStep::Interfaces ==> (self.cursor == 0 || self.cursor
            < self.detected_interfaces@.len())
        &&& self.step == WizardStep::Plugins ==> self.cursor < spec_known_plugins().len()
        &&& self.step == WizardStep::DockerMounts ==> self.cursor < usize::MAX
        &&& self.es_focus < usize::MAX
        &&& self.editor matches Some(e) ==> e.tab < e.count
    }
}

// ---------------------------------------------------------------------------
// Moving between screens
// ---------------------------------------------------------------------------

/// The external WISE URL is asked for (see `spec_wise_url_needed`).
pub open spec fn needs_wise_url(a: App) -> bool {
    spec_wise_url_needed(a.components, a.answers.plugins@)
}

/// The screens of the current flow.
pub open spec fn flow(a: App) -> Seq<WizardStep> {
    spec_required_steps(a.deployment, a.is_load, a.components, needs_wise_url(a))
}

/// `docs` is what reconciling and merging makes of the documents of `a`.
#[verifier::opaque]
pub open spec fn synced(a: App, docs: Seq<Document>) -> bool {
    synced_docs(
        docs_v(a.docs@),
        docs_v(docs),
        a.deployment,
        a.is_load,
        a.components,
        a.answers,
        a.docker_mounts,
        a.basic_auth,
        a.service_prefix@,
        a.images,
        a.build.install_dir@,
        a.out_dir@,
        a.samples,
    )
}

/// Where a file is loaded from unless something was typed: the compose file
/// for docker, the etc dir otherwise.
pub open spec fn default_load_path(a: App) -> Seq<char> {
    if a.deployment == Some(Deployment::Docker) {
        "docker-compose.yml"@
    } else {
        path_join(a.build.install_dir@, "etc"@)
    }
}

/// `c` is on the first row holding `p`, or on the first row when none does.
pub open spec fn prefix_cursor(list: Seq<Seq<char>>, p: Seq<char>, c: usize) -> bool {
    if list.contains(p) {
        &&& c < list.len()
        &&& list[c as int] == p
        &&& forall|m: int| 0 <= m < c ==> #[trigger] list[m] != p
    } else {
        c == 0
    }
}

/// The first row of `v` holding `p`, or the first row when none does.
fn prefix_position(v: &Vec<String>, p: &str) -> (c: usize)
    ensures
        prefix_cursor(string_views(v@), p@, c),
{
    let mut i: usize = 0;
    while i < v.len()
        invariant
            i <= v.len(),
            forall|m: int| 0 <= m < i ==> #[trigger] string_views(v@)[m] != p@,
        decreases v.len() - i,
    {
        if crate::text::str_eq(v[i].as_str(), p) {
            proof {
                assert(string_views(v@)[i as int] == v@[i as int]@);
            }
            return i;
        }
        i += 1;
    }
    proof {
        if string_views(v@).contains(p@) {
            let k = choose|k: int| 0 <= k < string_views(v@).len() && string_views(v@)[k] == p@;
            assert(string_views(v@)[k] != p@);
        }
    }
    0
}

/// Entering the screen `a.step`: the error clears and the screen's cursor
/// resets; the load path gets its default when empty; with the wise
/// component on, the wise plugin's box is checked.
pub open spec fn entered(a: App, b: App) -> bool {
    match a.step {
        WizardStep::StartSelect | WizardStep::ComponentsSelect | WizardStep::Interfaces
        | WizardStep::DockerMounts => b == App { error: None, cursor: 0, ..a },
        WizardStep::LoadPath => {
            &&& b == App { error: None, fields: Fields { load_path: b.fields.load_path, ..a.fields }, ..a }
            &&& b.fields.load_path@ == if a.fields.load_path@.len() == 0 {
                default_load_path(a)
            } else {
                a.fields.load_path@
            }
        },
        WizardStep::PrefixSelect => {
            let list = if a.detected_prefixes@.len() == 0 {
                seq![a.service_prefix@]
            } else {
                string_views(a.detected_prefixes@)
            };
            &&& b == App {
                error: None,
                prefix_adding: false,
                detected_prefixes: b.detected_prefixes,
                cursor: b.cursor,
                ..a
            }
            &&& string_views(b.detected_prefixes@) == list
            &&& prefix_cursor(list, a.service_prefix@, b.cursor)
        },
        WizardStep::Elasticsearch => b == App { error: None, es_focus: 0, ..a },
        WizardStep::GeoIp => b == App { error: None, geo_focus: 0, ..a },
        WizardStep::Plugins => {
            &&& b == App { error: None, cursor: 0, plugin_checked: b.plugin_checked, ..a }
            &&& b.plugin_checked@ == if a.components.wise {
                a.plugin_checked@.update(0, true)
            } else {
                a.plugin_checked@
            }
        },
        _ => b == App { error: None, ..a },
    }
}

/// Going to screen `to`: the documents are synced, then the screen is
/// entered.
#[verifier::opaque]
pub open spec fn went(a: App, b: App, to: WizardStep) -> bool {
    &&& synced(a, b.docs@)
    &&& entered(App { step: to, docs: b.docs, ..a }, b)
}

pub open spec fn advanced(a: App, b: App) -> bool {
    went(a, b, spec_step_after(flow(a), a.step))
}

pub open spec fn retreated(a: App, b: App) -> bool {
    went(a, b, spec_step_before(flow(a), a.step))
}

impl App {
    /// A fresh wizard on the start screen. `detected` are the capture
    /// interfaces found on the host; the first is checked, and with none the
    /// interface screen starts in typed mode with `eth1`.
    pub fn new(
        build: BuildConfig,
        platform: Platform,
        detected: Vec<String>,
        out_dir: String,
        is_root: bool,
        samples: Samples,
        host: HostFacts,
    ) -> (app: App)
        ensures
            app.wf(),
            app.build == build,
            app.platform == platform,
            app.basic_auth == BasicAuthEncoding::Plaintext,
            app.images.arkime@ == "arkime/arkime:latest"@,
            app.images.elasticsearch@ == "elasticsearch:8.19.19"@,
            app.samples == samples,
            app.host == host,
            app.start_mode is None,
            app.deployment is None,
            !app.is_load,
            app.components == Components::none(),
            app.answers.download_geoip,
            app.answers.interfaces@.len() == 0,
            app.answers.elasticsearch@.len() == 0,
            app.answers.es_user@.len() == 0,
            app.answers.es_password@.len() == 0,
            app.answers.s2s_password@.len() == 0,
            app.answers.es_backend == crate::domain::es_backend::EsBackend::External,
            app.answers.es_data_dir@.len() == 0,
            app.answers.maxmind_account@.len() == 0,
            app.answers.maxmind_key@.len() == 0,
            !app.answers.enable_uploads,
            !app.answers.init_db,
            !app.answers.create_admin,
            app.answers.admin_user@.len() == 0,
            app.answers.admin_password@.len() == 0,
            app.answers.plugins@.len() == 0,
            app.answers.viewer_plugins@.len() == 0,
            app.answers.wise_url@.len() == 0,
            app.docs@.len() == 0,
            app.out_dir == out_dir,
            app.editor is None,
            app.step == WizardStep::StartSelect,
            app.detected_interfaces == detected,
            app.fields.interface@ == if detected@.len() == 0 {
                "eth1"@
            } else {
                crate::text::join_with(string_views(detected@), ";"@)
            },
            app.fields.es_url@ == DEFAULT_ES_URL@,
            app.fields.es_user@.len() == 0,
            app.fields.es_password@.len() == 0,
            app.fields.s2s@.len() == 0,
            app.fields.plugins@.len() == 0,
            app.fields.wise_url@ == DEFAULT_WISE_URL@,
            app.fields.es_data@ == DEFAULT_ES_DATA_DIR@,
            app.fields.load_path@.len() == 0,
            app.cursor == 0,
            app.es_focus == 0,
            app.geo_focus == 0,
            app.fields.maxmind_account@.len() == 0,
            app.fields.maxmind_key@.len() == 0,
            app.interface_checked@ == Seq::new(detected@.len(), |i: int| i == 0),
            app.interface_advanced == (detected@.len() == 0),
            app.plugin_checked@ == Seq::new(4, |i: int| false),
            !app.plugin_advanced,
            forall|k: crate::domain::mounts::MountKind| #[trigger] app.docker_mounts.enabled(k),
            app.service_prefix@ == crate::docset::DEFAULT_PREFIX@,
            app.detected_prefixes@.len() == 0,
            app.other_prefixes@.len() == 0,
            !app.prefix_adding,
            app.fields.prefix@.len() == 0,
            app.is_root == is_root,
            app.log@.len() == 0,
            !app.applied,
            app.error is None,
            !app.should_quit,
    {
        let interface = if detected.len() == 0 {
            "eth1".to_owned()
        } else {
            join_strings(&detected, ";")
        };
        let mut interface_checked: Vec<bool> = Vec::new();
        let mut i: usize = 0;
        while i < detected.len()
            invariant
                i <= detected.len(),
                interface_checked@ == Seq::new(i as nat, |k: int| k == 0),
            decreases detected.len() - i,
        {
            interface_checked.push(i == 0);
            proof {
                assert(interface_checked@ =~= Seq::new((i + 1) as nat, |k: int| k == 0));
            }
            i += 1;
        }
        let interface_advanced = detected.len() == 0;
        let mut answers = Answers::default();
        answers.download_geoip = true;
        let fields = Fields {
            interface,
            es_url: DEFAULT_ES_URL.to_owned(),
            es_user: crate::domain::answers::empty_string(),
            es_password: crate::domain::answers::empty_string(),
            s2s: crate::domain::answers::empty_string(),
            plugins: crate::domain::answers::empty_string(),
            wise_url: DEFAULT_WISE_URL.to_owned(),
            es_data: DEFAULT_ES_DATA_DIR.to_owned(),
            load_path: crate::domain::answers::empty_string(),
            prefix: crate::domain::answers::empty_string(),
            maxmind_account: crate::domain::answers::empty_string(),
            maxmind_key: crate::domain::answers::empty_string(),
        };
        let plugin_checked = vec![false, false, false, false];
        proof {
            assert(plugin_checked@ =~= Seq::new(4, |i: int| false));
        }
        App {
            build,
            platform,
            basic_auth: BasicAuthEncoding::default(),
            images: Images::default(),
            samples,
            host,
            start_mode: None,
            deployment: None,
            is_load: false,
            components: Components::default(),
            answers,
            docs: Vec::new(),
            out_dir,
            editor: None,
            step: WizardStep::StartSelect,
            detected_interfaces: detected,
            fields,
            cursor: 0,
            es_focus: 0,
            geo_focus: 0,
            interface_checked,
            interface_advanced,
            plugin_checked,
            plugin_advanced: false,
            docker_mounts: MountSelection::default(),
            service_prefix: crate::docset::DEFAULT_PREFIX.to_owned(),
            detected_prefixes: Vec::new(),
            other_prefixes: Vec::new(),
            prefix_adding: false,
            is_root,
            log: Vec::new(),
            applied: false,
            error: None,
            should_quit: false,
        }
    }

    /// Reset the screen state of the step just entered.
    #[verifier::spinoff_prover]
    #[verifier::rlimit(60)]
    pub fn on_enter_step(&mut self)
        requires
            old(self).plugin_checked@.len() == spec_known_plugins().len(),
        ensures
            entered(*old(self), *final(self)),
    {
        self.error = None;
        match self.step {
            WizardStep::StartSelect | WizardStep::ComponentsSelect | WizardStep::Interfaces
            | WizardStep::DockerMounts => {
                self.cursor = 0;
            },
            WizardStep::LoadPath => {
                if self.fields.load_path.as_str().is_empty() {
                    let default = match self.deployment {
                        Some(Deployment::Docker) => "docker-compose.yml".to_owned(),
                        _ => self.build.etc_dir(),
                    };
                    self.fields.load_path = default;
                }
            },
            WizardStep::PrefixSelect => {
                self.prefix_adding = false;
                if self.detected_prefixes.len() == 0 {
                    let p = self.service_prefix.as_str().to_owned();
                    self.detected_prefixes = vec![p];
                    proof {
                        assert(string_views(self.detected_prefixes@) =~= seq![self.service_prefix@]);
                    }
                }
                self.cursor = prefix_position(&self.detected_prefixes, self.service_prefix.as_str());
            },
            WizardStep::Elasticsearch => {
                self.es_focus = 0;
            },
            WizardStep::GeoIp => {
                self.geo_focus = 0;
            },
            WizardStep::Plugins => {
                self.cursor = 0;
                if self.components.wise {
                    self.plugin_checked.set(0, true);
                }
            },
            _ => {},
        }
    }

    /// Sync the documents, move to `to` and enter it.
    fn go_to(&mut self, to: WizardStep)
        requires
            old(self).plugin_checked@.len() == spec_known_plugins().len(),
        ensures
            went(*old(self), *final(self), to),
    {
        sync_docs(
            &mut self.docs,
            self.deployment,
            self.is_load,
            &self.components,
            &self.answers,
            &self.docker_mounts,
            self.basic_auth,
            self.service_prefix.as_str(),
            &self.images,
            self.build.install_dir.as_str(),
            self.out_dir.as_str(),
            &self.samples,
        );
        proof {
            reveal(synced);
        }
        self.step = to;
        self.on_enter_step();
        proof {
            reveal(went);
        }
    }

    /// Bring the documents in line with the current selections.
    pub fn sync_docs(&mut self)
        requires
            old(self).wf(),
        ensures
            synced(*old(self), final(self).docs@),
            *final(self) == (App { docs: final(self).docs, ..*old(self) }),
            final(self).wf(),
    {
        sync_docs(
            &mut self.docs,
            self.deployment,
            self.is_load,
            &self.components,
            &self.answers,
            &self.docker_mounts,
            self.basic_auth,
            self.service_prefix.as_str(),
            &self.images,
            self.build.install_dir.as_str(),
            self.out_dir.as_str(),
            &self.samples,
        );
        proof {
            reveal(synced);
        }
    }

    /// The next screen of the flow.
    pub fn advance(&mut self)
        requires
            old(self).plugin_checked@.len() == spec_known_plugins().len(),
        ensures
            advanced(*old(self), *final(self)),
    {
        let w = wise_url_needed(&self.components, self.answers.plugins.as_str());
        let to = crate::steps::next(self.step, self.deployment, self.is_load, &self.components, w);
        self.go_to(to);
    }

    /// The previous screen of the flow.
    fn retreat(&mut self)
        requires
            old(self).plugin_checked@.len() == spec_known_plugins().len(),
        ensures
            retreated(*old(self), *final(self)),
    {
        let w = wise_url_needed(&self.components, self.answers.plugins.as_str());
        let to = crate::steps::prev(self.step, self.deployment, self.is_load, &self.components, w);
        self.go_to(to);
    }
}

// ---------------------------------------------------------------------------
// What each screen does with a key
// ---------------------------------------------------------------------------

pub const COMPONENTS_REQUIRED: &'static str = "Select at least one component (space to toggle).";

pub const WISE_LOCKED: &'static str = "wise.so is required by the wise component.";

pub const NO_FILES: &'static str = "No files to edit yet.";

/// `b` is `a` with the error set to `msg`.
pub open spec fn failed(a: App, b: App, msg: Seq<char>) -> bool {
    &&& b == App { error: b.error, ..a }
    &&& b.error matches Some(e) && e@ == msg
}

/// The row above, wrapping, of `n` rows.
pub open spec fn up(cursor: usize, n: int) -> usize {
    ((cursor + n - 1) % n) as usize
}

/// The row below, wrapping, of `n` rows.
pub open spec fn down(cursor: usize, n: int) -> usize {
    ((cursor + 1) % n) as usize
}

pub open spec fn is_up(code: KeyCode, vim: bool) -> bool {
    code == KeyCode::Up || (vim && code == KeyCode::Char('k'))
}

pub open spec fn is_down(code: KeyCode, vim: bool) -> bool {
    code == KeyCode::Down || (vim && code == KeyCode::Char('j'))
}

pub open spec fn is_back(code: KeyCode) -> bool {
    code == KeyCode::Left || code == KeyCode::Backspace
}

/// Start screen: pick one of the modes of the OS.
pub open spec fn start_rel(a: App, code: KeyCode, b: App) -> bool {
    let modes = spec_available(a.platform.os);
    let n = modes.len() as int;
    if is_up(code, true) {
        b == App { cursor: up(a.cursor, n), ..a }
    } else if is_down(code, true) {
        b == App { cursor: down(a.cursor, n), ..a }
    } else if code == KeyCode::Enter {
        let m = modes[a.cursor as int];
        advanced(
            App { start_mode: Some(m), deployment: Some(m.spec_deployment()), is_load: m.spec_is_load(), ..a },
            b,
        )
    } else {
        b == a
    }
}

/// Components screen: toggle with space; at least one is needed to go on.
pub open spec fn components_rel(a: App, code: KeyCode, b: App) -> bool {
    if is_up(code, true) {
        b == App { cursor: up(a.cursor, 5), ..a }
    } else if is_down(code, true) {
        b == App { cursor: down(a.cursor, 5), ..a }
    } else if code == KeyCode::Char(' ') {
        let c = all_components()[a.cursor as int];
        &&& b == App { components: b.components, ..a }
        &&& b.components.has(c) == !a.components.has(c)
        &&& forall|d: Component| d != c ==> b.components.has(d) == a.components.has(d)
    } else if code == KeyCode::Enter {
        if a.components.spec_any() {
            advanced(a, b)
        } else {
            failed(a, b, COMPONENTS_REQUIRED@)
        }
    } else if is_back(code) {
        retreated(a, b)
    } else {
        b == a
    }
}

/// `a` with the interface answer set to the text of `b`'s, and then advanced
/// to `b`; or the error, when the answer comes out empty.
#[verifier::opaque]
pub open spec fn interfaces_committed(a: App, b: App) -> bool {
    match crate::wizard::interfaces_answer_spec(
        a.interface_advanced,
        a.fields.interface@,
        string_views(a.detected_interfaces@),
        a.interface_checked@,
    ) {
        Ok(v) => {
            &&& b.answers.interfaces@ == v
            &&& advanced(App { answers: Answers { interfaces: b.answers.interfaces, ..a.answers }, ..a }, b)
        },
        Err(e) => failed(a, b, e),
    }
}

/// Interfaces screen: boxes of the detected interfaces, or typed text.
pub open spec fn interfaces_rel(a: App, code: KeyCode, b: App, act: Action) -> bool {
    let n = a.detected_interfaces@.len() as int;
    if a.interface_advanced {
        if code == KeyCode::Enter {
            interfaces_committed(a, b) && act == Action::Nothing
        } else if code == KeyCode::Tab && n > 0 {
            b == App { interface_advanced: false, ..a } && act == Action::Nothing
        } else {
            b == a && act == Action::Edit(Field::Interface)
        }
    } else {
        &&& act == Action::Nothing
        &&& if is_up(code, true) && n > 0 {
            b == App { cursor: up(a.cursor, n), ..a }
        } else if is_down(code, true) && n > 0 {
            b == App { cursor: down(a.cursor, n), ..a }
        } else if code == KeyCode::Char(' ') && n > 0 {
            &&& b == App { interface_checked: b.interface_checked, ..a }
            &&& b.interface_checked@ == a.interface_checked@.update(
                a.cursor as int,
                !a.interface_checked@[a.cursor as int],
            )
        } else if code == KeyCode::Char('a') || code == KeyCode::Tab {
            &&& b == App {
                fields: Fields { interface: b.fields.interface, ..a.fields },
                interface_advanced: true,
                ..a
            }
            &&& b.fields.interface@ == crate::text::join_with(
                crate::wizard::checked_spec(string_views(a.detected_interfaces@), a.interface_checked@),
                ";"@,
            )
        } else if code == KeyCode::Enter {
            interfaces_committed(a, b)
        } else if is_back(code) {
            retreated(a, b)
        } else {
            b == a
        }
    }
}

/// The plugin answer set from the screen, then advanced.
#[verifier::opaque]
pub open spec fn plugins_committed(a: App, b: App) -> bool {
    &&& b.answers.plugins@ == crate::wizard::plugins_answer_spec(
        a.plugin_advanced,
        a.fields.plugins@,
        a.plugin_checked@,
        a.components.wise,
    )
    &&& advanced(App { answers: Answers { plugins: b.answers.plugins, ..a.answers }, ..a }, b)
}

/// Plugins screen: boxes of the known plugins, or typed text; the wise
/// plugin's box is locked on while the wise component is on.
pub open spec fn plugins_rel(a: App, code: KeyCode, b: App, act: Action) -> bool {
    if a.plugin_advanced {
        if code == KeyCode::Enter {
            plugins_committed(a, b) && act == Action::Nothing
        } else if code == KeyCode::Tab {
            b == App { plugin_advanced: false, ..a } && act == Action::Nothing
        } else {
            b == a && act == Action::Edit(Field::Plugins)
        }
    } else {
        &&& act == Action::Nothing
        &&& if is_up(code, true) {
            b == App { cursor: up(a.cursor, 4), ..a }
        } else if is_down(code, true) {
            b == App { cursor: down(a.cursor, 4), ..a }
        } else if code == KeyCode::Char(' ') {
            if a.cursor == 0 && a.components.wise {
                failed(a, b, WISE_LOCKED@)
            } else {
                &&& b == App { plugin_checked: b.plugin_checked, ..a }
                &&& b.plugin_checked@ == a.plugin_checked@.update(
                    a.cursor as int,
                    !a.plugin_checked@[a.cursor as int],
                )
            }
        } else if code == KeyCode::Char('a') || code == KeyCode::Tab {
            &&& b == App { fields: Fields { plugins: b.fields.plugins, ..a.fields }, plugin_advanced: true, ..a }
            &&& b.fields.plugins@ == crate::text::join_with(
                crate::wizard::checked_spec(spec_known_plugins(), a.plugin_checked@),
                ";"@,
            )
        } else if code == KeyCode::Enter {
            plugins_committed(a, b)
        } else if is_back(code) {
            retreated(a, b)
        } else {
            b == a
        }
    }
}

/// WISE URL screen: Enter keeps the trimmed text and goes on.
pub open spec fn wise_url_rel(a: App, code: KeyCode, b: App, act: Action) -> bool {
    if code == KeyCode::Enter {
        &&& act == Action::Nothing
        &&& b.answers.wise_url@ == crate::text::trim(a.fields.wise_url@)
        &&& advanced(App { answers: Answers { wise_url: b.answers.wise_url, ..a.answers }, ..a }, b)
    } else {
        b == a && act == Action::Edit(Field::WiseUrl)
    }
}

/// Docker mounts screen: toggle the suggested mounts of the components.
pub open spec fn mounts_rel(a: App, code: KeyCode, b: App) -> bool {
    let relevant = MountSelection::spec_relevant_kinds(a.components);
    let n = relevant.len() as int;
    if n == 0 {
        if code == KeyCode::Enter {
            advanced(a, b)
        } else {
            b == a
        }
    } else {
        let kind = relevant[if a.cursor < n { a.cursor as int } else { n - 1 }];
        if code == KeyCode::Up {
            b == App { cursor: up(a.cursor, n), ..a }
        } else if code == KeyCode::Down {
            b == App { cursor: down(a.cursor, n), ..a }
        } else if code == KeyCode::Char(' ') {
            &&& b == App { docker_mounts: b.docker_mounts, ..a }
            &&& b.docker_mounts.enabled(kind) == !a.docker_mounts.enabled(kind)
            &&& forall|k: crate::domain::mounts::MountKind|
                k != kind ==> b.docker_mounts.enabled(k) == a.docker_mounts.enabled(k)
        } else if code == KeyCode::Enter {
            advanced(a, b)
        } else {
            b == a
        }
    }
}

/// The text field the datastore screen's focus is on.
pub open spec fn es_field(focus: usize) -> Field {
    if focus == 0 {
        Field::EsUrl
    } else if focus == 1 {
        Field::EsUser
    } else if focus == 2 {
        Field::EsPassword
    } else {
        Field::EsData
    }
}

/// The datastore answers from the screen's fields (the password as typed,
/// the others trimmed), then advanced.
pub open spec fn es_committed(a: App, b: App) -> bool {
    &&& b.answers.elasticsearch@ == crate::text::trim(a.fields.es_url@)
    &&& b.answers.es_user@ == crate::text::trim(a.fields.es_user@)
    &&& b.answers.es_password@ == a.fields.es_password@
    &&& b.answers.es_data_dir@ == crate::text::trim(a.fields.es_data@)
    &&& advanced(
        App {
            answers: Answers {
                elasticsearch: b.answers.elasticsearch,
                es_user: b.answers.es_user,
                es_password: b.answers.es_password,
                es_data_dir: b.answers.es_data_dir,
                ..a.answers
            },
            ..a
        },
        b,
    )
}

/// Datastore screen: url, user, password, the single-node choice, and in
/// docker with a single-node backend its data dir.
pub open spec fn es_rel(a: App, code: KeyCode, b: App, act: Action) -> bool {
    let max = crate::wizard::spec_es_max_focus(a.deployment, a.answers.es_backend);
    if code == KeyCode::Up {
        b == App { es_focus: if a.es_focus == 0 { 0 } else { (a.es_focus - 1) as usize }, ..a }
            && act == Action::Nothing
    } else if code == KeyCode::Down || code == KeyCode::Tab {
        b == App { es_focus: if a.es_focus + 1 < max { (a.es_focus + 1) as usize } else { max as usize }, ..a }
            && act == Action::Nothing
    } else if code == KeyCode::Char(' ') && a.es_focus == 3 {
        b == App { answers: Answers { es_backend: a.answers.es_backend.spec_cycle(), ..a.answers }, ..a }
            && act == Action::Nothing
    } else if code == KeyCode::Enter {
        es_committed(a, b) && act == Action::Nothing
    } else if a.es_focus != 3 {
        b == a && act == Action::Edit(es_field(a.es_focus))
    } else {
        b == a && act == Action::Nothing
    }
}

/// Encryption password screen: a non-empty password without spaces.
pub open spec fn s2s_rel(a: App, code: KeyCode, b: App, act: Action) -> bool {
    if code == KeyCode::Enter {
        &&& act == Action::Nothing
        &&& match crate::wizard::s2s_check_spec(a.fields.s2s@) {
            Ok(v) => {
                &&& b.answers.s2s_password@ == v
                &&& advanced(
                    App { answers: Answers { s2s_password: b.answers.s2s_password, ..a.answers }, ..a },
                    b,
                )
            },
            Err(e) => failed(a, b, e),
        }
    } else {
        b == a && act == Action::Edit(Field::S2s)
    }
}

/// GeoIP screen: the MaxMind account and licence key (typed), and whether
/// to download the databases now (space on the last row); Enter keeps the
/// trimmed account and key and goes on.
pub open spec fn geo_rel(a: App, code: KeyCode, b: App, act: Action) -> bool {
    if code == KeyCode::Up {
        b == App { geo_focus: if a.geo_focus == 0 { 0 } else { (a.geo_focus - 1) as usize }, ..a }
            && act == Action::Nothing
    } else if code == KeyCode::Down || code == KeyCode::Tab {
        b == App { geo_focus: if a.geo_focus < 2 { (a.geo_focus + 1) as usize } else { 2 }, ..a }
            && act == Action::Nothing
    } else if code == KeyCode::Char(' ') && a.geo_focus >= 2 {
        b == App { answers: Answers { download_geoip: !a.answers.download_geoip, ..a.answers }, ..a }
            && act == Action::Nothing
    } else if code == KeyCode::Enter {
        &&& act == Action::Nothing
        &&& b.answers.maxmind_account@ == crate::text::trim(a.fields.maxmind_account@)
        &&& b.answers.maxmind_key@ == crate::text::trim(a.fields.maxmind_key@)
        &&& advanced(
            App {
                answers: Answers {
                    maxmind_account: b.answers.maxmind_account,
                    maxmind_key: b.answers.maxmind_key,
                    ..a.answers
                },
                ..a
            },
            b,
        )
    } else if a.geo_focus < 2 {
        b == a && act == Action::Edit(if a.geo_focus == 0 { Field::MaxmindAccount } else { Field::MaxmindKey })
    } else {
        b == a && act == Action::Nothing
    }
}

/// A yes/no screen: space flips the answer, Enter goes on.
pub open spec fn flag_rel(a: App, code: KeyCode, b: App, flipped: App) -> bool {
    if code == KeyCode::Char(' ') {
        b == flipped
    } else if code == KeyCode::Enter {
        advanced(a, b)
    } else {
        b == a
    }
}

/// The prefix row the cursor is on (the last one when it is past the end).
pub open spec fn prefix_row(a: App) -> int {
    if a.cursor < a.detected_prefixes@.len() {
        a.cursor as int
    } else {
        a.detected_prefixes@.len() - 1
    }
}

/// Managing the prefix at `idx`: it, and the others left untouched.
pub open spec fn chose(a: App, idx: int, b: App) -> bool {
    &&& b == App { service_prefix: b.service_prefix, other_prefixes: b.other_prefixes, ..a }
    &&& b.service_prefix@ == a.detected_prefixes@[idx]@
    &&& string_views(b.other_prefixes@) == crate::wizard::others_spec(
        string_views(a.detected_prefixes@),
        b.service_prefix@,
    )
}

/// Confirming a typed prefix (trimmed): it joins the list unless listed,
/// the cursor goes to it, it becomes the managed prefix, the component
/// choice starts empty for it, and the fields show the answers.
pub open spec fn added_via(a: App, m: App, m2: App, b: App) -> bool {
    let p = crate::text::trim(a.fields.prefix@);
    let before = string_views(a.detected_prefixes@);
    &&& m == App { detected_prefixes: m.detected_prefixes, cursor: m.cursor, prefix_adding: false, ..a }
    &&& string_views(m.detected_prefixes@) == if before.contains(p) {
        before
    } else {
        before.push(p)
    }
    &&& m.cursor < m.detected_prefixes@.len()
    &&& m.detected_prefixes@[m.cursor as int]@ == p
    &&& forall|k: int| 0 <= k < m.cursor ==> #[trigger] m.detected_prefixes@[k]@ != p
    &&& chose(m, m.cursor as int, App { components: m.components, ..m2 })
    &&& m2.components == Components::none()
    &&& fields_from_answers(m2, b)
}

/// Deleting the prefix on the cursor's row: its services leave the compose
/// documents, it leaves the list (the default prefix comes back when the
/// list empties), the cursor stays in the list; when it was the managed
/// prefix, the one now under the cursor is managed and the compose re-read.
pub open spec fn deleted_via(a: App, m: App, m2: App, b: App) -> bool {
    let removed = a.detected_prefixes@[prefix_row(a)]@;
    &&& m == App { detected_prefixes: m.detected_prefixes, docs: m.docs, cursor: m.cursor, ..a }
    &&& string_views(m.detected_prefixes@) == if a.detected_prefixes@.len() == 1 {
        seq![crate::docset::DEFAULT_PREFIX@]
    } else {
        string_views(a.detected_prefixes@).remove(prefix_row(a))
    }
    &&& m.cursor == if prefix_row(a) < m.detected_prefixes@.len() {
        prefix_row(a) as usize
    } else {
        (m.detected_prefixes@.len() - 1) as usize
    }
    &&& crate::wizard::prefix_removed_from(a.docs@, m.docs@, removed)
    &&& if a.service_prefix@ == removed {
        chose(m, m.cursor as int, m2) && reread(m2, b)
    } else {
        b == m
    }
}

/// Choosing the prefix on the cursor's row: it is managed, the compose is
/// re-read for it, and the wizard goes on.
pub open spec fn chosen_via(a: App, m: App, m2: App, b: App) -> bool {
    chose(a, prefix_row(a), m) && reread(m, m2) && advanced(m2, b)
}

/// Prefix screen: ↑↓ (or k/j) move, `a` starts typing a new prefix and
/// Enter confirms it, `d` deletes, Enter chooses.
pub open spec fn prefix_rel(a: App, code: KeyCode, b: App, act: Action) -> bool {
    let n = a.detected_prefixes@.len() as int;
    if a.prefix_adding {
        if code == KeyCode::Enter {
            act == Action::Nothing && exists|m: App, m2: App| #[trigger] added_via(a, m, m2, b)
        } else {
            b == a && act == Action::Edit(Field::Prefix)
        }
    } else if is_up(code, true) && n > 0 {
        b == App { cursor: up(prefix_row(a) as usize, n), ..a } && act == Action::Nothing
    } else if is_down(code, true) && n > 0 {
        b == App { cursor: down(prefix_row(a) as usize, n), ..a } && act == Action::Nothing
    } else if code == KeyCode::Char('a') {
        &&& b == App { fields: Fields { prefix: b.fields.prefix, ..a.fields }, prefix_adding: true, ..a }
        &&& b.fields.prefix@.len() == 0
        &&& act == Action::Nothing
    } else if code == KeyCode::Char('d') && n > 0 {
        act == Action::Nothing && exists|m: App, m2: App| #[trigger] deleted_via(a, m, m2, b)
    } else if code == KeyCode::Enter && n > 0 {
        act == Action::Nothing && exists|m: App, m2: App| #[trigger] chosen_via(a, m, m2, b)
    } else {
        b == a && act == Action::Nothing
    }
}

/// Review screen: Enter starts the apply on the progress screen.
pub open spec fn review_rel(a: App, code: KeyCode, b: App, act: Action) -> bool {
    if code == KeyCode::Enter {
        b == App { step: WizardStep::Progress, ..a } && act == Action::Apply
    } else if is_back(code) {
        retreated(a, b) && act == Action::Nothing
    } else {
        b == a && act == Action::Nothing
    }
}

/// Route a key to the screen of `a.step`.
pub open spec fn dispatched(a: App, code: KeyCode, b: App, act: Action) -> bool {
    match a.step {
        WizardStep::StartSelect => start_rel(a, code, b) && act == Action::Nothing,
        WizardStep::LoadPath => if code == KeyCode::Enter {
            b == a && act == Action::Load
        } else {
            b == a && act == Action::Edit(Field::LoadPath)
        },
        WizardStep::PrefixSelect => prefix_rel(a, code, b, act),
        WizardStep::ComponentsSelect => components_rel(a, code, b) && act == Action::Nothing,
        WizardStep::Interfaces => interfaces_rel(a, code, b, act),
        WizardStep::Elasticsearch => es_rel(a, code, b, act),
        WizardStep::S2sPassword => s2s_rel(a, code, b, act),
        WizardStep::ViewerUploads => flag_rel(
            a,
            code,
            b,
            App { answers: Answers { enable_uploads: !a.answers.enable_uploads, ..a.answers }, ..a },
        ) && act == Action::Nothing,
        WizardStep::Plugins => plugins_rel(a, code, b, act),
        WizardStep::WiseUrl => wise_url_rel(a, code, b, act),
        WizardStep::GeoIp => geo_rel(a, code, b, act),
        WizardStep::DockerMounts => mounts_rel(a, code, b) && act == Action::Nothing,
        WizardStep::Review => review_rel(a, code, b, act),
        WizardStep::Progress => act == Action::Nothing && if a.applied && (code == KeyCode::Enter || code
            == KeyCode::Char('q') || code == KeyCode::Esc) {
            b == App { should_quit: true, ..a }
        } else {
            b == a
        },
        WizardStep::Done => b == App { should_quit: true, ..a } && act == Action::Nothing,
    }
}

/// Going back a screen: quitting from the start screen, and from the
/// progress screens once the apply ran.
pub open spec fn went_back(a: App, b: App) -> bool {
    match a.step {
        WizardStep::StartSelect => b == App { should_quit: true, ..a },
        WizardStep::Progress | WizardStep::Done => if a.applied {
            b == App { should_quit: true, ..a }
        } else {
            b == a
        },
        _ => retreated(a, b),
    }
}

/// Opening the editor: the documents are synced; with none there is
/// nothing to edit.
pub open spec fn opened(a: App, b: App, act: Action, diff: bool) -> bool {
    &&& synced(a, b.docs@)
    &&& if b.docs@.len() == 0 {
        failed(App { docs: b.docs, ..a }, b, NO_FILES@) && act == Action::Nothing
    } else {
        &&& b == App { docs: b.docs, editor: Some(Editor { tab: 0, count: b.docs@.len() as usize, diff }), ..a }
        &&& act == Action::EditorOpened
    }
}

/// Keys while the editor is open: Esc or Ctrl-E closes it, Ctrl-D flips the
/// diff view, Tab and Shift-Tab cycle the tabs; other keys edit the buffer
/// unless the diff is shown.
pub open spec fn editor_rel(a: App, e: Editor, key: Key, b: App, act: Action) -> bool {
    if key.code == KeyCode::Esc || (key.ctrl && key.code == KeyCode::Char('e')) {
        b == a && act == Action::CloseEditor
    } else if key.ctrl && key.code == KeyCode::Char('d') {
        b == App { editor: Some(Editor { diff: !e.diff, ..e }), ..a } && act == Action::Nothing
    } else if key.code == KeyCode::Tab {
        b == App { editor: Some(Editor { tab: down(e.tab, e.count as int), ..e }), ..a } && act
            == Action::Nothing
    } else if key.code == KeyCode::BackTab {
        b == App { editor: Some(Editor { tab: up(e.tab, e.count as int), ..e }), ..a } && act
            == Action::Nothing
    } else if e.diff {
        b == a && act == Action::Nothing
    } else {
        b == a && act == Action::EditorInput
    }
}

/// Whether the screen takes typed text (see `spec_screen_is_text_input`).
pub open spec fn typing(a: App) -> bool {
    crate::wizard::spec_screen_is_text_input(a.step, a.interface_advanced, a.plugin_advanced, a.prefix_adding)
}

/// What a key does: the editor takes every key while open; Ctrl-E (or `e`
/// where nothing is typed) opens it, Ctrl-D opens it on the diff; Esc goes
/// back; where nothing is typed, Left goes back and Right is Enter; every
/// other key goes to the screen.
pub open spec fn key_rel(a: App, key: Key, b: App, act: Action) -> bool {
    match a.editor {
        Some(e) => editor_rel(a, e, key, b, act),
        None => if (key.ctrl && key.code == KeyCode::Char('e')) || (key.code == KeyCode::Char('e')
            && !typing(a)) {
            opened(a, b, act, false)
        } else if key.ctrl && key.code == KeyCode::Char('d') {
            opened(a, b, act, true)
        } else if key.code == KeyCode::Esc {
            act == Action::Nothing && if a.step == WizardStep::PrefixSelect && a.prefix_adding {
                b == App { prefix_adding: false, ..a }
            } else {
                went_back(a, b)
            }
        } else if !typing(a) && key.code == KeyCode::Left {
            went_back(a, b) && act == Action::Nothing
        } else if !typing(a) && key.code == KeyCode::Right {
            dispatched(a, KeyCode::Enter, b, act)
        } else {
            dispatched(a, key.code, b, act)
        },
    }
}

/// Moving to another screen keeps the wizard well formed.
proof fn lemma_went_wf(a: App, b: App, to: WizardStep)
    requires
        a.interface_checked@.len() == a.detected_interfaces@.len(),
        a.plugin_checked@.len() == spec_known_plugins().len(),
        a.es_focus < usize::MAX,
        a.editor matches Some(e) ==> e.tab < e.count,
        went(a, b, to),
    ensures
        b.wf(),
{
    reveal(went);
}

/// Moving to another screen changes only the documents, the step and the
/// screen state.
proof fn lemma_went_frame(a: App, b: App, to: WizardStep)
    requires
        went(a, b, to),
    ensures
        b.answers == a.answers,
        b.components == a.components,
        b.step == to,
        b.editor == a.editor,
        b.applied == a.applied,
{
    reveal(went);
}

impl App {
    fn key_start(&mut self, code: KeyCode)
        requires
            old(self).wf(),
            old(self).editor is None,
            old(self).step == WizardStep::StartSelect,
        ensures
            start_rel(*old(self), code, *final(self)),
            final(self).wf(),
    {
        let modes = StartMode::available(self.platform.os);
        let n = modes.len();
        match code {
            KeyCode::Up | KeyCode::Char('k') => {
                self.cursor = crate::wizard::cursor_up(self.cursor, n);
            },
            KeyCode::Down | KeyCode::Char('j') => {
                self.cursor = crate::wizard::cursor_down(self.cursor, n);
            },
            KeyCode::Enter => {
                let mode = modes[self.cursor];
                self.start_mode = Some(mode);
                self.deployment = Some(mode.deployment());
                self.is_load = mode.is_load();
                let ghost mid = *self;
                self.advance();
                proof {
                    lemma_went_wf(mid, *self, spec_step_after(flow(mid), mid.step));
                }
            },
            _ => {},
        }
    }

    fn key_components(&mut self, code: KeyCode)
        requires
            old(self).wf(),
            old(self).editor is None,
            old(self).step == WizardStep::ComponentsSelect,
        ensures
            components_rel(*old(self), code, *final(self)),
            final(self).wf(),
    {
        let all = Component::all();
        let n = all.len();
        let ghost a = *self;
        match code {
            KeyCode::Up | KeyCode::Char('k') => {
                self.cursor = crate::wizard::cursor_up(self.cursor, n);
            },
            KeyCode::Down | KeyCode::Char('j') => {
                self.cursor = crate::wizard::cursor_down(self.cursor, n);
            },
            KeyCode::Char(' ') => {
                let c = all[self.cursor];
                self.components.toggle(c);
            },
            KeyCode::Enter => {
                if self.components.any() {
                    self.advance();
                    proof {
                        lemma_went_wf(a, *self, spec_step_after(flow(a), a.step));
                    }
                } else {
                    self.error = Some(COMPONENTS_REQUIRED.to_owned());
                }
            },
            KeyCode::Left | KeyCode::Backspace => {
                self.retreat();
                proof {
                    lemma_went_wf(a, *self, spec_step_before(flow(a), a.step));
                }
            },
            _ => {},
        }
    }
}

impl App {
    /// Keep the interface answer from the screen and go on, or report that
    /// none was chosen.
    #[verifier::spinoff_prover]
    #[verifier::rlimit(60)]
    fn commit_interfaces(&mut self)
        requires
            old(self).wf(),
            old(self).editor is None,
            old(self).step == WizardStep::Interfaces,
        ensures
            interfaces_committed(*old(self), *final(self)),
            final(self).wf(),
    {
        let ghost a = *self;
        proof {
            reveal(interfaces_committed);
        }
        match crate::wizard::commit_interfaces(
            self.interface_advanced,
            self.fields.interface.as_str(),
            &self.detected_interfaces,
            &self.interface_checked,
        ) {
            Ok(value) => {
                self.answers.interfaces = value;
                let ghost mid = *self;
                self.advance();
                proof {
                    lemma_went_wf(mid, *self, spec_step_after(flow(mid), mid.step));
                    lemma_went_frame(mid, *self, spec_step_after(flow(mid), mid.step));
                }
            },
            Err(e) => {
                self.error = Some(e);
            },
        }
    }

    #[verifier::rlimit(50)]
    #[verifier::spinoff_prover]
    #[verifier::rlimit(60)]
    fn key_interfaces(&mut self, code: KeyCode) -> (act: Action)
        requires
            old(self).wf(),
            old(self).editor is None,
            old(self).step == WizardStep::Interfaces,
        ensures
            interfaces_rel(*old(self), code, *final(self), act),
            final(self).wf(),
    {
        let ghost a = *self;
        let n = self.detected_interfaces.len();
        if self.interface_advanced {
            match code {
                KeyCode::Enter => {
                    self.commit_interfaces();
                    return Action::Nothing;
                },
                KeyCode::Tab => {
                    if n > 0 {
                        self.interface_advanced = false;
                        return Action::Nothing;
                    }
                    return Action::Edit(Field::Interface);
                },
                _ => {
                    return Action::Edit(Field::Interface);
                },
            }
        }
        match code {
            KeyCode::Up | KeyCode::Char('k') => {
                if n > 0 {
                    self.cursor = crate::wizard::cursor_up(self.cursor, n);
                }
            },
            KeyCode::Down | KeyCode::Char('j') => {
                if n > 0 {
                    self.cursor = crate::wizard::cursor_down(self.cursor, n);
                }
            },
            KeyCode::Char(' ') => {
                if n > 0 {
                    let v = !self.interface_checked[self.cursor];
                    self.interface_checked.set(self.cursor, v);
                }
            },
            KeyCode::Char('a') | KeyCode::Tab => {
                let names = crate::wizard::checked_names(&self.detected_interfaces, &self.interface_checked);
                self.fields.interface = join_strings(&names, ";");
                self.interface_advanced = true;
            },
            KeyCode::Enter => {
                self.commit_interfaces();
            },
            KeyCode::Left | KeyCode::Backspace => {
                self.retreat();
                proof {
                    lemma_went_wf(a, *self, spec_step_before(flow(a), a.step));
                }
            },
            _ => {},
        }
        Action::Nothing
    }

    /// Keep the plugin answer from the screen and go on.
    pub fn commit_plugins(&mut self)
        requires
            old(self).wf(),
        ensures
            plugins_committed(*old(self), *final(self)),
            final(self).wf(),
    {
        proof {
            reveal(plugins_committed);
        }
        let value = crate::wizard::commit_plugins(
            self.plugin_advanced,
            self.fields.plugins.as_str(),
            &self.plugin_checked,
            self.components.wise,
        );
        self.answers.plugins = value;
        let ghost mid = *self;
        self.advance();
        proof {
            lemma_went_wf(mid, *self, spec_step_after(flow(mid), mid.step));
            lemma_went_frame(mid, *self, spec_step_after(flow(mid), mid.step));
        }
    }

    #[verifier::rlimit(50)]
    fn key_plugins(&mut self, code: KeyCode) -> (act: Action)
        requires
            old(self).wf(),
            old(self).editor is None,
            old(self).step == WizardStep::Plugins,
        ensures
            plugins_rel(*old(self), code, *final(self), act),
            final(self).wf(),
    {
        let ghost a = *self;
        if self.plugin_advanced {
            match code {
                KeyCode::Enter => {
                    self.commit_plugins();
                    return Action::Nothing;
                },
                KeyCode::Tab => {
                    self.plugin_advanced = false;
                    return Action::Nothing;
                },
                _ => {
                    return Action::Edit(Field::Plugins);
                },
            }
        }
        let n: usize = 4;
        match code {
            KeyCode::Up | KeyCode::Char('k') => {
                self.cursor = crate::wizard::cursor_up(self.cursor, n);
            },
            KeyCode::Down | KeyCode::Char('j') => {
                self.cursor = crate::wizard::cursor_down(self.cursor, n);
            },
            KeyCode::Char(' ') => {
                if self.cursor == 0 && self.components.wise {
                    self.error = Some(WISE_LOCKED.to_owned());
                } else {
                    let v = !self.plugin_checked[self.cursor];
                    self.plugin_checked.set(self.cursor, v);
                }
            },
            KeyCode::Char('a') | KeyCode::Tab => {
                let names = known_plugin_names();
                let picked = crate::wizard::checked_names(&names, &self.plugin_checked);
                self.fields.plugins = join_strings(&picked, ";");
                self.plugin_advanced = true;
            },
            KeyCode::Enter => {
                self.commit_plugins();
            },
            KeyCode::Left | KeyCode::Backspace => {
                self.retreat();
                proof {
                    lemma_went_wf(a, *self, spec_step_before(flow(a), a.step));
                }
            },
            _ => {},
        }
        Action::Nothing
    }
}

impl App {
    fn key_wise_url(&mut self, code: KeyCode) -> (act: Action)
        requires
            old(self).wf(),
            old(self).editor is None,
            old(self).step == WizardStep::WiseUrl,
        ensures
            wise_url_rel(*old(self), code, *final(self), act),
            final(self).wf(),
    {
        match code {
            KeyCode::Enter => {
                self.answers.wise_url = crate::text::trimmed(self.fields.wise_url.as_str());
                let ghost mid = *self;
                self.advance();
                proof {
                    lemma_went_wf(mid, *self, spec_step_after(flow(mid), mid.step));
                    lemma_went_frame(mid, *self, spec_step_after(flow(mid), mid.step));
                }
                Action::Nothing
            },
            _ => Action::Edit(Field::WiseUrl),
        }
    }

    fn key_docker_mounts(&mut self, code: KeyCode)
        requires
            old(self).wf(),
            old(self).editor is None,
            old(self).step == WizardStep::DockerMounts,
        ensures
            mounts_rel(*old(self), code, *final(self)),
            final(self).wf(),
    {
        let ghost a = *self;
        let relevant = MountSelection::relevant_kinds(&self.components);
        let n = relevant.len();
        if n == 0 {
            if let KeyCode::Enter = code {
                self.advance();
                proof {
                    lemma_went_wf(a, *self, spec_step_after(flow(a), a.step));
                }
            }
            return ;
        }
        proof {
            assert(MountSelection::spec_relevant_kinds(a.components).len() <= 4) by {
                let all = crate::domain::mounts::all_mounts();
                all.lemma_filter_len(|k: crate::domain::mounts::MountKind| k.spec_relevant(a.components));
            }
        }
        let kind = relevant[if self.cursor < n {
            self.cursor
        } else {
            n - 1
        }];
        match code {
            KeyCode::Up => {
                self.cursor = crate::wizard::cursor_up(self.cursor, n);
            },
            KeyCode::Down => {
                self.cursor = crate::wizard::cursor_down(self.cursor, n);
            },
            KeyCode::Char(' ') => {
                self.docker_mounts.toggle(kind);
            },
            KeyCode::Enter => {
                self.advance();
                proof {
                    lemma_went_wf(a, *self, spec_step_after(flow(a), a.step));
                }
            },
            _ => {},
        }
    }

    /// Keep the datastore answers from the screen and go on.
    fn commit_es(&mut self)
        requires
            old(self).wf(),
            old(self).editor is None,
            old(self).step == WizardStep::Elasticsearch,
        ensures
            es_committed(*old(self), *final(self)),
            final(self).wf(),
    {
        self.answers.elasticsearch = crate::text::trimmed(self.fields.es_url.as_str());
        self.answers.es_user = crate::text::trimmed(self.fields.es_user.as_str());
        self.answers.es_password = self.fields.es_password.as_str().to_owned();
        self.answers.es_data_dir = crate::text::trimmed(self.fields.es_data.as_str());
        let ghost mid = *self;
        self.advance();
        proof {
            lemma_went_wf(mid, *self, spec_step_after(flow(mid), mid.step));
            lemma_went_frame(mid, *self, spec_step_after(flow(mid), mid.step));
        }
    }

    #[verifier::spinoff_prover]
    #[verifier::rlimit(60)]
    fn key_elasticsearch(&mut self, code: KeyCode) -> (act: Action)
        requires
            old(self).wf(),
            old(self).editor is None,
            old(self).step == WizardStep::Elasticsearch,
        ensures
            es_rel(*old(self), code, *final(self), act),
            final(self).wf(),
    {
        let max_focus = crate::wizard::es_max_focus(self.deployment, self.answers.es_backend);
        match code {
            KeyCode::Up => {
                self.es_focus = if self.es_focus == 0 {
                    0
                } else {
                    self.es_focus - 1
                };
                Action::Nothing
            },
            KeyCode::Down | KeyCode::Tab => {
                self.es_focus = if self.es_focus + 1 < max_focus {
                    self.es_focus + 1
                } else {
                    max_focus
                };
                Action::Nothing
            },
            KeyCode::Char(' ') if self.es_focus == 3 => {
                self.answers.es_backend = self.answers.es_backend.cycle();
                Action::Nothing
            },
            KeyCode::Enter => {
                self.commit_es();
                Action::Nothing
            },
            _ => {
                if self.es_focus != 3 {
                    let f = if self.es_focus == 0 {
                        Field::EsUrl
                    } else if self.es_focus == 1 {
                        Field::EsUser
                    } else if self.es_focus == 2 {
                        Field::EsPassword
                    } else {
                        Field::EsData
                    };
                    Action::Edit(f)
                } else {
                    Action::Nothing
                }
            },
        }
    }

    #[verifier::spinoff_prover]
    #[verifier::rlimit(60)]
    fn key_s2s(&mut self, code: KeyCode) -> (act: Action)
        requires
            old(self).wf(),
            old(self).editor is None,
            old(self).step == WizardStep::S2sPassword,
        ensures
            s2s_rel(*old(self), code, *final(self), act),
            final(self).wf(),
    {
        match code {
            KeyCode::Enter => {
                match crate::wizard::check_s2s_password(self.fields.s2s.as_str()) {
                    Ok(v) => {
                        self.answers.s2s_password = v;
                        let ghost mid = *self;
                        self.advance();
                        proof {
                            lemma_went_wf(mid, *self, spec_step_after(flow(mid), mid.step));
                            lemma_went_frame(mid, *self, spec_step_after(flow(mid), mid.step));
                        }
                    },
                    Err(e) => {
                        self.error = Some(e);
                    },
                }
                Action::Nothing
            },
            _ => Action::Edit(Field::S2s),
        }
    }

    #[verifier::spinoff_prover]
    #[verifier::rlimit(60)]
    fn key_geoip(&mut self, code: KeyCode) -> (act: Action)
        requires
            old(self).wf(),
            old(self).editor is None,
            old(self).step == WizardStep::GeoIp,
        ensures
            geo_rel(*old(self), code, *final(self), act),
            final(self).wf(),
    {
        let ghost a = *self;
        match code {
            KeyCode::Up => {
                self.geo_focus = if self.geo_focus == 0 {
                    0
                } else {
                    self.geo_focus - 1
                };
                Action::Nothing
            },
            KeyCode::Down | KeyCode::Tab => {
                self.geo_focus = if self.geo_focus < 2 {
                    self.geo_focus + 1
                } else {
                    2
                };
                Action::Nothing
            },
            KeyCode::Enter => {
                self.answers.maxmind_account = crate::text::trimmed(self.fields.maxmind_account.as_str());
                self.answers.maxmind_key = crate::text::trimmed(self.fields.maxmind_key.as_str());
                let ghost mid = *self;
                self.advance();
                proof {
                    lemma_went_wf(mid, *self, spec_step_after(flow(mid), mid.step));
                    lemma_went_frame(mid, *self, spec_step_after(flow(mid), mid.step));
                }
                Action::Nothing
            },
            _ => {
                if self.geo_focus >= 2 {
                    if matches!(code, KeyCode::Char(' ')) {
                        self.answers.download_geoip = !self.answers.download_geoip;
                    }
                    Action::Nothing
                } else if self.geo_focus == 0 {
                    Action::Edit(Field::MaxmindAccount)
                } else {
                    Action::Edit(Field::MaxmindKey)
                }
            },
        }
    }

    fn key_viewer_uploads(&mut self, code: KeyCode)
        requires
            old(self).wf(),
            old(self).editor is None,
            old(self).step == WizardStep::ViewerUploads,
        ensures
            flag_rel(
                *old(self),
                code,
                *final(self),
                App {
                    answers: Answers { enable_uploads: !old(self).answers.enable_uploads, ..old(self).answers },
                    ..*old(self)
                },
            ),
            final(self).wf(),
    {
        let ghost a = *self;
        match code {
            KeyCode::Char(' ') => {
                self.answers.enable_uploads = !self.answers.enable_uploads;
            },
            KeyCode::Enter => {
                self.advance();
                proof {
                    lemma_went_wf(a, *self, spec_step_after(flow(a), a.step));
                }
            },
            _ => {},
        }
    }

    fn key_review(&mut self, code: KeyCode) -> (act: Action)
        requires
            old(self).wf(),
            old(self).editor is None,
            old(self).step == WizardStep::Review,
        ensures
            review_rel(*old(self), code, *final(self), act),
            final(self).wf(),
    {
        let ghost a = *self;
        match code {
            KeyCode::Enter => {
                self.step = WizardStep::Progress;
                Action::Apply
            },
            KeyCode::Left | KeyCode::Backspace => {
                self.retreat();
                proof {
                    lemma_went_wf(a, *self, spec_step_before(flow(a), a.step));
                }
                Action::Nothing
            },
            _ => Action::Nothing,
        }
    }
}

impl App {
    /// Route a key to the active screen.
    #[verifier::spinoff_prover]
    #[verifier::rlimit(60)]
    fn dispatch(&mut self, code: KeyCode) -> (act: Action)
        requires
            old(self).wf(),
            old(self).editor is None,
        ensures
            dispatched(*old(self), code, *final(self), act),
            final(self).wf(),
    {
        match self.step {
            WizardStep::StartSelect => {
                self.key_start(code);
                Action::Nothing
            },
            WizardStep::LoadPath => match code {
                KeyCode::Enter => Action::Load,
                _ => Action::Edit(Field::LoadPath),
            },
            WizardStep::PrefixSelect => self.key_prefix_select(code),
            WizardStep::ComponentsSelect => {
                self.key_components(code);
                Action::Nothing
            },
            WizardStep::Interfaces => self.key_interfaces(code),
            WizardStep::Elasticsearch => self.key_elasticsearch(code),
            WizardStep::S2sPassword => self.key_s2s(code),
            WizardStep::ViewerUploads => {
                self.key_viewer_uploads(code);
                Action::Nothing
            },
            WizardStep::Plugins => self.key_plugins(code),
            WizardStep::WiseUrl => self.key_wise_url(code),
            WizardStep::GeoIp => self.key_geoip(code),
            WizardStep::DockerMounts => {
                self.key_docker_mounts(code);
                Action::Nothing
            },
            WizardStep::Review => self.key_review(code),
            WizardStep::Progress => {
                if self.applied {
                    match code {
                        KeyCode::Enter | KeyCode::Char('q') | KeyCode::Esc => {
                            self.should_quit = true;
                        },
                        _ => {},
                    }
                }
                Action::Nothing
            },
            WizardStep::Done => {
                self.should_quit = true;
                Action::Nothing
            },
        }
    }

    /// Go back one screen, or quit on the first screen and after the apply.
    fn back(&mut self)
        requires
            old(self).wf(),
            old(self).editor is None,
        ensures
            went_back(*old(self), *final(self)),
            final(self).wf(),
    {
        let ghost a = *self;
        match self.step {
            WizardStep::StartSelect => {
                self.should_quit = true;
            },
            WizardStep::Progress | WizardStep::Done => {
                if self.applied {
                    self.should_quit = true;
                }
            },
            _ => {
                self.retreat();
                proof {
                    lemma_went_wf(a, *self, spec_step_before(flow(a), a.step));
                }
            },
        }
    }

    /// Open the file editor on the synced documents, or report that there is
    /// nothing to edit yet.
    pub fn open_editor(&mut self) -> (act: Action)
        requires
            old(self).wf(),
        ensures
            opened(*old(self), *final(self), act, false),
            final(self).wf(),
    {
        sync_docs(
            &mut self.docs,
            self.deployment,
            self.is_load,
            &self.components,
            &self.answers,
            &self.docker_mounts,
            self.basic_auth,
            self.service_prefix.as_str(),
            &self.images,
            self.build.install_dir.as_str(),
            self.out_dir.as_str(),
            &self.samples,
        );
        proof {
            reveal(synced);
        }
        if self.docs.len() == 0 {
            self.error = Some(NO_FILES.to_owned());
            return Action::Nothing;
        }
        self.editor = Some(Editor { tab: 0, count: self.docs.len(), diff: false });
        Action::EditorOpened
    }

    fn editor_key(&mut self, key: Key) -> (act: Action)
        requires
            old(self).wf(),
            old(self).editor is Some,
        ensures
            editor_rel(*old(self), old(self).editor->0, key, *final(self), act),
            final(self).wf(),
    {
        let e = match self.editor {
            Some(e) => e,
            None => {
                return Action::Nothing;
            },
        };
        let n = e.count;
        if matches!(key.code, KeyCode::Esc) || (key.ctrl && matches!(key.code, KeyCode::Char('e'))) {
            return Action::CloseEditor;
        }
        if key.ctrl && matches!(key.code, KeyCode::Char('d')) {
            self.editor = Some(Editor { diff: !e.diff, ..e });
            return Action::Nothing;
        }
        match key.code {
            KeyCode::Tab => {
                self.editor = Some(Editor { tab: crate::wizard::cursor_down(e.tab, n), ..e });
                Action::Nothing
            },
            KeyCode::BackTab => {
                self.editor = Some(Editor { tab: crate::wizard::cursor_up(e.tab, n), ..e });
                Action::Nothing
            },
            _ => {
                if e.diff {
                    Action::Nothing
                } else {
                    Action::EditorInput
                }
            },
        }
    }

    /// Handle a key press; the returned action is for the front end to carry
    /// out.
    pub fn on_key(&mut self, key: Key) -> (act: Action)
        requires
            old(self).wf(),
        ensures
            key_rel(*old(self), key, *final(self), act),
            final(self).wf(),
    {
        if self.editor.is_some() {
            return self.editor_key(key);
        }
        let text_input = crate::wizard::screen_is_text_input(
            self.step,
            self.interface_advanced,
            self.plugin_advanced,
            self.prefix_adding,
        );
        let is_e = matches!(key.code, KeyCode::Char('e'));
        if (key.ctrl && is_e) || (is_e && !text_input) {
            return self.open_editor();
        }
        if key.ctrl && matches!(key.code, KeyCode::Char('d')) {
            let act = self.open_editor();
            if let Some(e) = self.editor {
                self.editor = Some(Editor { diff: true, ..e });
            }
            return act;
        }
        if matches!(key.code, KeyCode::Esc) {
            if matches!(self.step, WizardStep::PrefixSelect) && self.prefix_adding {
                self.prefix_adding = false;
            } else {
                self.back();
            }
            return Action::Nothing;
        }
        if !text_input {
            match key.code {
                KeyCode::Left => {
                    self.back();
                    return Action::Nothing;
                },
                KeyCode::Right => {
                    return self.dispatch(KeyCode::Enter);
                },
                _ => {},
            }
        }
        self.dispatch(key.code)
    }
}

// ---------------------------------------------------------------------------
// Fields from answers, the editor's text, loading and applying
// ---------------------------------------------------------------------------

/// The editable fields and boxes show the answers: the datastore URL (or its
/// default), user, passwords, plugins and interfaces as they are, the data
/// dir and WISE URL when set; a box is checked when its name is in the
/// answer, and a screen turns to typed mode when the answer names something
/// that has no box.
pub open spec fn fields_from_answers(a: App, b: App) -> bool {
    let an = a.answers;
    &&& b == App {
        fields: b.fields,
        interface_checked: b.interface_checked,
        interface_advanced: b.interface_advanced,
        plugin_checked: b.plugin_checked,
        plugin_advanced: b.plugin_advanced,
        ..a
    }
    &&& b.fields.es_url@ == an.spec_elasticsearch_or_default()
    &&& b.fields.es_user@ == an.es_user@
    &&& b.fields.es_password@ == an.es_password@
    &&& b.fields.s2s@ == an.s2s_password@
    &&& b.fields.plugins@ == an.plugins@
    &&& b.fields.es_data@ == if an.es_data_dir@.len() > 0 {
        an.es_data_dir@
    } else {
        a.fields.es_data@
    }
    &&& b.fields.wise_url@ == if an.wise_url@.len() > 0 {
        an.wise_url@
    } else {
        a.fields.wise_url@
    }
    &&& b.fields.interface@ == an.interfaces@
    &&& b.fields.load_path == a.fields.load_path
    &&& b.fields.prefix == a.fields.prefix
    &&& b.fields.maxmind_account@ == an.maxmind_account@
    &&& b.fields.maxmind_key@ == an.maxmind_key@
    &&& b.interface_checked@ == crate::wizard::boxes_spec(string_views(a.detected_interfaces@), an.interfaces@)
    &&& b.interface_advanced == (a.interface_advanced || crate::wizard::needs_typing_spec(
        string_views(a.detected_interfaces@),
        an.interfaces@,
    ))
    &&& b.plugin_checked@ == crate::wizard::boxes_spec(spec_known_plugins(), an.plugins@)
    &&& b.plugin_advanced == (a.plugin_advanced || crate::wizard::needs_typing_spec(
        spec_known_plugins(),
        an.plugins@,
    ))
}

/// The known plugin names, as strings.
fn known_plugin_names() -> (v: Vec<String>)
    ensures
        string_views(v@) == spec_known_plugins(),
{
    let known = crate::domain::plugins::known_plugins();
    let mut names: Vec<String> = Vec::new();
    let mut i: usize = 0;
    while i < known.len()
        invariant
            known@.len() == 4,
            forall|k: int| 0 <= k < 4 ==> #[trigger] known@[k]@ == spec_known_plugins()[k],
            i <= known.len(),
            string_views(names@) == spec_known_plugins().take(i as int),
        decreases known.len() - i,
    {
        let ghost before = string_views(names@);
        names.push(known[i].to_owned());
        proof {
            assert(string_views(names@) =~= before.push(known@[i as int]@));
            assert(string_views(names@) =~= spec_known_plugins().take(i + 1));
        }
        i += 1;
    }
    proof {
        assert(spec_known_plugins().take(4) =~= spec_known_plugins());
    }
    names
}

/// The fields showing `an` (see `fields_from_answers`).
fn fields_of(an: &Answers, f: &Fields) -> (g: Fields)
    ensures
        g.es_url@ == an.spec_elasticsearch_or_default(),
        g.es_user@ == an.es_user@,
        g.es_password@ == an.es_password@,
        g.s2s@ == an.s2s_password@,
        g.plugins@ == an.plugins@,
        g.es_data@ == if an.es_data_dir@.len() > 0 {
            an.es_data_dir@
        } else {
            f.es_data@
        },
        g.wise_url@ == if an.wise_url@.len() > 0 {
            an.wise_url@
        } else {
            f.wise_url@
        },
        g.interface@ == an.interfaces@,
        g.load_path == f.load_path,
        g.prefix == f.prefix,
        g.maxmind_account@ == an.maxmind_account@,
        g.maxmind_key@ == an.maxmind_key@,
{
    Fields {
        interface: an.interfaces.as_str().to_owned(),
        es_url: an.elasticsearch_or_default().to_owned(),
        es_user: an.es_user.as_str().to_owned(),
        es_password: an.es_password.as_str().to_owned(),
        s2s: an.s2s_password.as_str().to_owned(),
        plugins: an.plugins.as_str().to_owned(),
        wise_url: if an.wise_url.as_str().is_empty() {
            f.wise_url.as_str().to_owned()
        } else {
            an.wise_url.as_str().to_owned()
        },
        es_data: if an.es_data_dir.as_str().is_empty() {
            f.es_data.as_str().to_owned()
        } else {
            an.es_data_dir.as_str().to_owned()
        },
        load_path: f.load_path.clone(),
        prefix: f.prefix.clone(),
        maxmind_account: an.maxmind_account.as_str().to_owned(),
        maxmind_key: an.maxmind_key.as_str().to_owned(),
    }
}

impl App {
    /// Show the answers in the editable fields and boxes (after a load or an
    /// edit in the editor).
    fn sync_fields_from_answers(&mut self)
        requires
            old(self).wf(),
        ensures
            fields_from_answers(*old(self), *final(self)),
            final(self).wf(),
    {
        let fields = fields_of(&self.answers, &self.fields);
        let (iboxes, ityped) = crate::wizard::boxes_for(&self.detected_interfaces, self.answers.interfaces.as_str());
        let names = known_plugin_names();
        let (pboxes, ptyped) = crate::wizard::boxes_for(&names, self.answers.plugins.as_str());
        let ia = self.interface_advanced || ityped;
        let pa = self.plugin_advanced || ptyped;
        self.fields = fields;
        self.interface_checked = iboxes;
        self.interface_advanced = ia;
        self.plugin_checked = pboxes;
        self.plugin_advanced = pa;
    }

    /// Put the text the front end's widget holds for `field` into it.
    pub fn set_field(&mut self, field: Field, value: String)
        ensures
            final(self).fields == match field {
                Field::Interface => (Fields { interface: value, ..old(self).fields }),
                Field::EsUrl => (Fields { es_url: value, ..old(self).fields }),
                Field::EsUser => (Fields { es_user: value, ..old(self).fields }),
                Field::EsPassword => (Fields { es_password: value, ..old(self).fields }),
                Field::S2s => (Fields { s2s: value, ..old(self).fields }),
                Field::Plugins => (Fields { plugins: value, ..old(self).fields }),
                Field::WiseUrl => (Fields { wise_url: value, ..old(self).fields }),
                Field::EsData => (Fields { es_data: value, ..old(self).fields }),
                Field::LoadPath => (Fields { load_path: value, ..old(self).fields }),
                Field::Prefix => (Fields { prefix: value, ..old(self).fields }),
                Field::MaxmindAccount => (Fields { maxmind_account: value, ..old(self).fields }),
                Field::MaxmindKey => (Fields { maxmind_key: value, ..old(self).fields }),
            },
            *final(self) == (App { fields: final(self).fields, ..*old(self) }),
    {
        match field {
            Field::Interface => self.fields.interface = value,
            Field::EsUrl => self.fields.es_url = value,
            Field::EsUser => self.fields.es_user = value,
            Field::EsPassword => self.fields.es_password = value,
            Field::S2s => self.fields.s2s = value,
            Field::Plugins => self.fields.plugins = value,
            Field::WiseUrl => self.fields.wise_url = value,
            Field::EsData => self.fields.es_data = value,
            Field::LoadPath => self.fields.load_path = value,
            Field::Prefix => self.fields.prefix = value,
            Field::MaxmindAccount => self.fields.maxmind_account = value,
            Field::MaxmindKey => self.fields.maxmind_key = value,
        }
    }
}

/// `t` ending with a newline.
pub open spec fn with_newline(t: Seq<char>) -> Seq<char> {
    if crate::text::ends_with_newline(t) {
        t
    } else {
        t.push('\n')
    }
}

/// The documents with the editor's buffers as their text, paired up in order.
pub open spec fn edited(docs: Seq<DocV>, texts: Seq<Seq<char>>) -> Seq<DocV> {
    Seq::new(
        docs.len(),
        |i: int| if i < texts.len() { DocV { text: with_newline(texts[i]), ..docs[i] } } else { docs[i] },
    )
}

/// One document read back into the components, answers and mounts: the
/// compose file under `prefix`, the env file, or an ini.
pub open spec fn read_back(
    d: DocV,
    prefix: Seq<char>,
    c0: Components,
    a0: Answers,
    m0: MountSelection,
    c1: Components,
    a1: Answers,
    m1: MountSelection,
) -> bool {
    match d.kind {
        DocKind::Compose => match crate::yaml::yaml_parse(d.text) {
            Some(doc) => crate::docset::read_compose_spec(doc, prefix, c0, a0, m0, c1, a1, m1),
            None => c1 == c0 && a1 == a0 && m1 == m0,
        },
        DocKind::Env => crate::docset::parsed_env(d.text, a0, a1) && c1 == c0 && m1 == m0,
        _ => crate::docset::parsed_ini(d.kind, d.text, a0, a1) && c1 == c0 && m1 == m0,
    }
}

/// The documents read back in order, through the states `cs`, `ans`, `ms`.
pub open spec fn read_back_all(
    ds: Seq<DocV>,
    prefix: Seq<char>,
    cs: Seq<Components>,
    ans: Seq<Answers>,
    ms: Seq<MountSelection>,
) -> bool {
    &&& cs.len() == ds.len() + 1
    &&& ans.len() == ds.len() + 1
    &&& ms.len() == ds.len() + 1
    &&& forall|i: int|
        0 <= i < ds.len() ==> read_back(#[trigger] ds[i], prefix, cs[i], ans[i], ms[i], cs[i + 1], ans[i + 1], ms[i + 1])
}

/// Closing the editor, through the states named: the buffers become the
/// documents' text (`m`), the documents are read back into the wizard, the
/// fields show the answers (`f`), and the documents are synced.
pub open spec fn closed_via(
    a: App,
    texts: Seq<Seq<char>>,
    m: App,
    cs: Seq<Components>,
    ans: Seq<Answers>,
    ms: Seq<MountSelection>,
    f: App,
    b: App,
) -> bool {
    &&& docs_v(m.docs@) == edited(docs_v(a.docs@), texts)
    &&& read_back_all(docs_v(m.docs@), a.service_prefix@, cs, ans, ms)
    &&& cs[0] == a.components
    &&& ans[0] == a.answers
    &&& ms[0] == a.docker_mounts
    &&& m == App {
        docs: m.docs,
        editor: None,
        components: cs.last(),
        answers: ans.last(),
        docker_mounts: ms.last(),
        ..a
    }
    &&& fields_from_answers(m, f)
    &&& synced(f, b.docs@)
    &&& b == App { docs: b.docs, ..f }
}

/// Editor and wizard are two views of the same documents: closing the
/// editor makes its buffers the documents and reads them back.
pub open spec fn editor_closed(a: App, texts: Seq<Seq<char>>, b: App) -> bool {
    exists|m: App, cs: Seq<Components>, ans: Seq<Answers>, ms: Seq<MountSelection>, f: App|
        #[trigger] closed_via(a, texts, m, cs, ans, ms, f, b)
}

impl App {
    /// Close the editor with the text of its buffers, one per document.
    pub fn close_editor(&mut self, texts: &Vec<String>)
        requires
            old(self).wf(),
        ensures
            old(self).editor is Some ==> editor_closed(*old(self), string_views(texts@), *final(self)),
            old(self).editor is None ==> *final(self) == *old(self),
            final(self).wf(),
    {
        if self.editor.is_none() {
            return ;
        }
        let ghost a = *self;
        let ghost tv = string_views(texts@);
        self.editor = None;
        let mut docs: Vec<Document> = Vec::new();
        let mut i: usize = 0;
        while i < self.docs.len()
            invariant
                self.docs@ == a.docs@,
                tv == string_views(texts@),
                i <= self.docs.len(),
                docs_v(docs@) == edited(docs_v(a.docs@), tv).take(i as int),
            decreases self.docs.len() - i,
        {
            let d = &self.docs[i];
            let t = if i < texts.len() {
                let mut t = texts[i].as_str().to_owned();
                let cv = crate::text::chars_of(t.as_str());
                let ends = cv.len() > 0 && cv[cv.len() - 1] == '\n';
                if !ends {
                    crate::text::push_char(&mut t, '\n');
                }
                t
            } else {
                d.text.as_str().to_owned()
            };
            let ghost before = docs_v(docs@);
            docs.push(
                Document {
                    kind: d.kind,
                    path: d.path.as_str().to_owned(),
                    text: t,
                    original: d.original.as_str().to_owned(),
                },
            );
            proof {
                assert(docs_v(docs@) =~= before.push(edited(docs_v(a.docs@), tv)[i as int]));
                assert(edited(docs_v(a.docs@), tv).take(i + 1) =~= edited(docs_v(a.docs@), tv).take(
                    i as int,
                ).push(edited(docs_v(a.docs@), tv)[i as int]));
            }
            i += 1;
        }
        proof {
            assert(edited(docs_v(a.docs@), tv).take(a.docs@.len() as int) =~= edited(docs_v(a.docs@), tv));
        }
        self.docs = docs;
        let ghost dv = docs_v(self.docs@);
        let mut components = self.components;
        let ghost mut cs: Seq<Components> = seq![components];
        let ghost mut ans: Seq<Answers> = seq![self.answers];
        let ghost mut ms: Seq<MountSelection> = seq![self.docker_mounts];
        let ghost m0 = *self;
        let mut j: usize = 0;
        while j < self.docs.len()
            invariant
                *self == (App { answers: self.answers, docker_mounts: self.docker_mounts, ..m0 }),
                dv == docs_v(self.docs@),
                j <= self.docs.len(),
                cs.len() == j + 1,
                ans.len() == j + 1,
                ms.len() == j + 1,
                cs[0] == a.components,
                ans[0] == a.answers,
                ms[0] == a.docker_mounts,
                cs.last() == components,
                ans.last() == self.answers,
                ms.last() == self.docker_mounts,
                forall|k: int|
                    0 <= k < j ==> read_back(
                        #[trigger] dv[k],
                        a.service_prefix@,
                        cs[k],
                        ans[k],
                        ms[k],
                        cs[k + 1],
                        ans[k + 1],
                        ms[k + 1],
                    ),
                self.service_prefix == a.service_prefix,
            decreases self.docs.len() - j,
        {
            let kind = self.docs[j].kind;
            match kind {
                DocKind::Compose => {
                    crate::docset::parse_compose(
                        self.docs[j].text.as_str(),
                        self.service_prefix.as_str(),
                        &mut components,
                        &mut self.answers,
                        &mut self.docker_mounts,
                    );
                },
                DocKind::Env => {
                    crate::docset::parse_env(self.docs[j].text.as_str(), &mut self.answers);
                },
                _ => {
                    crate::docset::parse_ini(kind, self.docs[j].text.as_str(), &mut self.answers);
                },
            }
            proof {
                cs = cs.push(components);
                ans = ans.push(self.answers);
                ms = ms.push(self.docker_mounts);
            }
            j += 1;
        }
        self.components = components;
        let ghost m = *self;
        self.sync_fields_from_answers();
        let ghost f = *self;
        sync_docs(
            &mut self.docs,
            self.deployment,
            self.is_load,
            &self.components,
            &self.answers,
            &self.docker_mounts,
            self.basic_auth,
            self.service_prefix.as_str(),
            &self.images,
            self.build.install_dir.as_str(),
            self.out_dir.as_str(),
            &self.samples,
        );
        proof {
            reveal(synced);
            assert(closed_via(a, tv, m, cs, ans, ms, f, *self));
        }
    }
}

/// Loading a docker deployment, through the states named: the compose and
/// env texts become the two documents and are read into the wizard under the
/// detected prefix (`m`), the fields show the answers (`f`), and the wizard
/// goes on to the next screen.
pub open spec fn docker_loaded_via(
    a: App,
    out_dir: String,
    compose_path: Seq<char>,
    compose_text: Seq<char>,
    env_path: Seq<char>,
    env_text: Seq<char>,
    m: App,
    f: App,
    b: App,
) -> bool {
    &&& crate::wizard::prefix_state_of(
        compose_text,
        crate::wizard::PrefixState {
            service_prefix: m.service_prefix,
            detected: m.detected_prefixes,
            others: m.other_prefixes,
        },
    )
    &&& docs_v(m.docs@) == seq![
        DocV { kind: DocKind::Compose, path: compose_path, text: compose_text, original: compose_text },
        DocV { kind: DocKind::Env, path: env_path, text: env_text, original: env_text },
    ]
    &&& crate::wizard::docker_read(
        compose_text,
        env_text,
        m.service_prefix@,
        a.components,
        a.answers,
        a.docker_mounts,
        m.components,
        m.answers,
        m.docker_mounts,
    )
    &&& m == App {
        docs: m.docs,
        out_dir: out_dir,
        service_prefix: m.service_prefix,
        detected_prefixes: m.detected_prefixes,
        other_prefixes: m.other_prefixes,
        components: m.components,
        answers: m.answers,
        docker_mounts: m.docker_mounts,
        ..a
    }
    &&& fields_from_answers(m, f)
    &&& advanced(f, b)
}

pub open spec fn docker_loaded(
    a: App,
    out_dir: String,
    compose_path: Seq<char>,
    compose_text: Seq<char>,
    env_path: Seq<char>,
    env_text: Seq<char>,
    b: App,
) -> bool {
    exists|m: App, f: App|
        #[trigger] docker_loaded_via(a, out_dir, compose_path, compose_text, env_path, env_text, m, f, b)
}

pub const LOAD_FAILED: &'static str = "Load failed: ";

/// A failed load: no documents, and the error.
pub open spec fn load_failed_rel(a: App, msg: Seq<char>, b: App) -> bool {
    &&& b.docs@.len() == 0
    &&& failed(App { docs: b.docs, ..a }, b, LOAD_FAILED@ + msg)
}

/// Loading a native deployment, through the states named: the found ini
/// files become the documents and are read into the answers (`m`), the
/// fields show the answers (`f`), and the wizard goes on; with none found,
/// the load fails.
pub open spec fn native_loaded_via(
    a: App,
    dir: Seq<char>,
    texts: Seq<Option<String>>,
    m: App,
    f: App,
    b: App,
) -> bool {
    match crate::wizard::native_result(dir, texts) {
        Ok(ds) => {
            &&& docs_v(m.docs@) == ds
            &&& crate::wizard::native_read(texts, a.answers, m.answers)
            &&& m == App {
                docs: m.docs,
                components: crate::wizard::components_after_load(a.components, crate::wizard::native_found(texts)),
                answers: m.answers,
                ..a
            }
            &&& fields_from_answers(m, f)
            &&& advanced(f, b)
        },
        Err(e) => load_failed_rel(a, e, b),
    }
}

pub open spec fn native_loaded(a: App, dir: Seq<char>, texts: Seq<Option<String>>, b: App) -> bool {
    exists|m: App, f: App| #[trigger] native_loaded_via(a, dir, texts, m, f, b)
}

impl App {
    /// Take in a docker deployment read from disk: the compose text and its
    /// path under `out_dir`, and the env file beside it (empty when absent).
    pub fn load_docker(
        &mut self,
        out_dir: String,
        compose_path: &str,
        compose_text: &str,
        env_path: &str,
        env_text: &str,
    )
        requires
            old(self).wf(),
        ensures
            docker_loaded(*old(self), out_dir, compose_path@, compose_text@, env_path@, env_text@, *final(self)),
            final(self).wf(),
    {
        let ghost a = *self;
        let ghost od = out_dir;
        let (st, docs) = crate::wizard::load_docker(
            compose_path,
            compose_text,
            env_path,
            env_text,
            &mut self.components,
            &mut self.answers,
            &mut self.docker_mounts,
        );
        self.docs = docs;
        self.out_dir = out_dir;
        let crate::wizard::PrefixState { service_prefix, detected, others } = st;
        self.service_prefix = service_prefix;
        self.detected_prefixes = detected;
        self.other_prefixes = others;
        let ghost m = *self;
        self.sync_fields_from_answers();
        let ghost f = *self;
        self.advance();
        proof {
            lemma_went_wf(f, *self, spec_step_after(flow(f), f.step));
            assert(docker_loaded_via(a, od, compose_path@, compose_text@, env_path@, env_text@, m, f, *self));
        }
    }

    /// Take in a native deployment read from the directory `dir`: `texts`
    /// holds config.ini, wise.ini and cont3xt.ini where found.
    pub fn load_native(&mut self, dir: &str, texts: &Vec<Option<String>>)
        requires
            old(self).wf(),
            texts@.len() == 3,
        ensures
            native_loaded(*old(self), dir@, texts@, *final(self)),
            final(self).wf(),
    {
        let ghost a = *self;
        match crate::wizard::load_native(dir, texts, &mut self.components, &mut self.answers) {
            Ok(docs) => {
                self.docs = docs;
                let ghost m = *self;
                self.sync_fields_from_answers();
                let ghost f = *self;
                self.advance();
                proof {
                    lemma_went_wf(f, *self, spec_step_after(flow(f), f.step));
                    assert(native_loaded_via(a, dir@, texts@, m, f, *self));
                }
            },
            Err(e) => {
                proof {
                    let found = crate::wizard::native_found(texts@);
                    assert(self.components =~= a.components);
                    let (a1, a2) = choose|a1: Answers, a2: Answers|
                        #[trigger] crate::wizard::ini_step(texts@[0], DocKind::ConfigIni, a.answers, a1)
                            && #[trigger] crate::wizard::ini_step(texts@[1], DocKind::WiseIni, a1, a2)
                            && crate::wizard::ini_step(texts@[2], DocKind::Cont3xtIni, a2, self.answers);
                }
                self.docs = Vec::new();
                self.error = Some(crate::text::cat(LOAD_FAILED, e.as_str()));
                proof {
                    assert(native_loaded_via(a, dir@, texts@, a, a, *self));
                }
            },
        }
    }

    /// A load that could not read its file: the documents are dropped and
    /// the error shown.
    pub fn load_failed(&mut self, msg: &str)
        requires
            old(self).wf(),
        ensures
            load_failed_rel(*old(self), msg@, *final(self)),
            final(self).wf(),
    {
        self.docs = Vec::new();
        self.error = Some(crate::text::cat(LOAD_FAILED, msg));
    }

    /// Sync the documents, write them and, for native, run the system
    /// actions through `ops`; the log is kept and the wizard marked applied.
    pub fn apply<O: crate::actions::system::SystemOps>(&mut self, ops: &mut O)
        requires
            old(self).wf(),
        ensures
            synced(*old(self), final(self).docs@),
            *final(self) == (App { docs: final(self).docs, log: final(self).log, applied: true, ..*old(self) }),
            crate::actions::native::extends(old(ops).requests(), final(ops).requests()),
            crate::wizard::apply_trace(
                old(self).deployment,
                old(self).is_root,
                old(self).is_load,
                docs_v(final(self).docs@),
                old(self).out_dir@,
                old(self).build.install_dir@,
                old(self).platform,
                old(self).components,
                old(self).answers,
                old(self).host,
                crate::actions::native::new_outs(old(ops).requests(), final(ops).requests()),
            ) == (crate::actions::native::Trace {
                reqs: crate::actions::native::new_reqs(old(ops).requests(), final(ops).requests()),
                logs: crate::actions::native::log_views(final(self).log@),
                rest: seq![],
            }),
            final(self).wf(),
    {
        sync_docs(
            &mut self.docs,
            self.deployment,
            self.is_load,
            &self.components,
            &self.answers,
            &self.docker_mounts,
            self.basic_auth,
            self.service_prefix.as_str(),
            &self.images,
            self.build.install_dir.as_str(),
            self.out_dir.as_str(),
            &self.samples,
        );
        proof {
            reveal(synced);
        }
        let log = crate::wizard::run_apply(
            ops,
            self.deployment,
            self.is_root,
            self.is_load,
            &self.docs,
            self.out_dir.as_str(),
            &self.build,
            self.platform,
            &self.components,
            &self.answers,
            &self.host,
        );
        self.log = log;
        self.applied = true;
    }
}

// ---------------------------------------------------------------------------
// Choosing the managed prefix
// ---------------------------------------------------------------------------

/// The position of the first compose document.
pub open spec fn first_compose(docs: Seq<Document>, k: int) -> bool {
    &&& 0 <= k < docs.len()
    &&& docs[k].kind == DocKind::Compose
    &&& forall|j: int| 0 <= j < k ==> (#[trigger] docs[j]).kind != DocKind::Compose
}

/// Reading the compose document again under the managed prefix, through the
/// states named: from no components and every mount on (`m0`), the compose
/// text is read (`m`) and the fields show the answers.
pub open spec fn reread_via(a: App, k: int, m0: MountSelection, m: App, b: App) -> bool {
    &&& first_compose(a.docs@, k)
    &&& forall|kind: crate::domain::mounts::MountKind| #[trigger] m0.enabled(kind)
    &&& m == App { components: m.components, answers: m.answers, docker_mounts: m.docker_mounts, ..a }
    &&& match crate::yaml::yaml_parse(a.docs@[k].text@) {
        Some(doc) => crate::docset::read_compose_spec(
            doc,
            a.service_prefix@,
            Components::none(),
            a.answers,
            m0,
            m.components,
            m.answers,
            m.docker_mounts,
        ),
        None => m.components == Components::none() && m.answers == a.answers && m.docker_mounts == m0,
    }
    &&& fields_from_answers(m, b)
}

pub open spec fn reread(a: App, b: App) -> bool {
    if exists|k: int| first_compose(a.docs@, k) {
        exists|k: int, m0: MountSelection, m: App| #[trigger] reread_via(a, k, m0, m, b)
    } else {
        b == a
    }
}

impl App {
    /// Re-read the loaded compose file under the managed prefix, so the
    /// components, mounts and datastore reflect that deployment's services.
    pub fn reparse_for_prefix(&mut self)
        requires
            old(self).wf(),
        ensures
            reread(*old(self), *final(self)),
            final(self).wf(),
    {
        let ghost a = *self;
        let mut i: usize = 0;
        while i < self.docs.len()
            invariant
                *self == a,
                i <= self.docs.len(),
                forall|j: int| 0 <= j < i ==> (#[trigger] self.docs@[j]).kind != DocKind::Compose,
            ensures
                *self == a,
                i <= self.docs.len(),
                forall|j: int| 0 <= j < i ==> (#[trigger] self.docs@[j]).kind != DocKind::Compose,
                i < self.docs.len() ==> self.docs@[i as int].kind == DocKind::Compose,
            decreases self.docs.len() - i,
        {
            if self.docs[i].kind == DocKind::Compose {
                break;
            }
            i += 1;
        }
        if i == self.docs.len() {
            proof {
                assert forall|k: int| !first_compose(a.docs@, k) by {
                    if first_compose(a.docs@, k) {
                        assert(a.docs@[k].kind != DocKind::Compose);
                    }
                }
            }
            return ;
        }
        let text = self.docs[i].text.as_str().to_owned();
        let mut components = Components::default();
        let mut mounts = MountSelection::default();
        let ghost m0 = mounts;
        crate::docset::parse_compose(
            text.as_str(),
            self.service_prefix.as_str(),
            &mut components,
            &mut self.answers,
            &mut mounts,
        );
        self.components = components;
        self.docker_mounts = mounts;
        let ghost m = *self;
        self.sync_fields_from_answers();
        proof {
            assert(first_compose(a.docs@, i as int));
            assert(reread_via(a, i as int, m0, m, *self));
        }
    }

    /// Manage the prefix at `idx` of the detected ones; the rest are left
    /// untouched.
    pub fn select_prefix(&mut self, idx: usize)
        requires
            idx < old(self).detected_prefixes@.len(),
        ensures
            final(self).service_prefix@ == old(self).detected_prefixes@[idx as int]@,
            string_views(final(self).other_prefixes@) == crate::wizard::others_spec(
                string_views(old(self).detected_prefixes@),
                final(self).service_prefix@,
            ),
            *final(self) == (App {
                service_prefix: final(self).service_prefix,
                other_prefixes: final(self).other_prefixes,
                ..*old(self)
            }),
    {
        let (chosen, others) = crate::wizard::select_prefix(&self.detected_prefixes, idx);
        self.service_prefix = chosen;
        self.other_prefixes = others;
    }
}

impl App {
    /// The prefix screen (see `prefix_rel`).
    #[verifier::spinoff_prover]
    #[verifier::rlimit(60)]
    fn key_prefix_select(&mut self, code: KeyCode) -> (act: Action)
        requires
            old(self).wf(),
            old(self).editor is None,
            old(self).step == WizardStep::PrefixSelect,
        ensures
            prefix_rel(*old(self), code, *final(self), act),
            final(self).wf(),
    {
        let ghost a = *self;
        let n = self.detected_prefixes.len();
        let row = if self.cursor < n {
            self.cursor
        } else if n > 0 {
            n - 1
        } else {
            0
        };
        if self.prefix_adding {
            if matches!(code, KeyCode::Enter) {
                self.prefix_adding = false;
                let pos = crate::wizard::add_prefix(&mut self.detected_prefixes, self.fields.prefix.as_str());
                self.cursor = pos;
                let ghost m = *self;
                self.select_prefix(pos);
                self.components = Components::default();
                let ghost m2 = *self;
                self.sync_fields_from_answers();
                proof {
                    assert(added_via(a, m, m2, *self));
                }
                Action::Nothing
            } else {
                Action::Edit(Field::Prefix)
            }
        } else if n > 0 && (matches!(code, KeyCode::Up) || matches!(code, KeyCode::Char('k'))) {
            self.cursor = crate::wizard::cursor_up(row, n);
            Action::Nothing
        } else if n > 0 && (matches!(code, KeyCode::Down) || matches!(code, KeyCode::Char('j'))) {
            self.cursor = crate::wizard::cursor_down(row, n);
            Action::Nothing
        } else if matches!(code, KeyCode::Char('a')) {
            self.fields.prefix = crate::domain::answers::empty_string();
            self.prefix_adding = true;
            Action::Nothing
        } else if n > 0 && matches!(code, KeyCode::Char('d')) {
            let (removed, c) = crate::wizard::delete_prefix(&mut self.detected_prefixes, &mut self.docs, row, row);
            self.cursor = c;
            let ghost m = *self;
            assert(string_views(self.detected_prefixes@).len() == self.detected_prefixes@.len());
            assert(self.detected_prefixes@.len() > 0);
            if crate::text::str_eq(self.service_prefix.as_str(), removed.as_str()) {
                self.select_prefix(c);
                let ghost m2 = *self;
                self.reparse_for_prefix();
                proof {
                    assert(deleted_via(a, m, m2, *self));
                }
            } else {
                proof {
                    assert(deleted_via(a, m, m, *self));
                }
            }
            Action::Nothing
        } else if n > 0 && matches!(code, KeyCode::Enter) {
            self.select_prefix(row);
            let ghost m = *self;
            self.reparse_for_prefix();
            let ghost m2 = *self;
            self.advance();
            proof {
                lemma_went_wf(m2, *self, spec_step_after(flow(m2), m2.step));
                assert(chosen_via(a, m, m2, *self));
            }
            Action::Nothing
        } else {
            Action::Nothing
        }
    }
}

} // verus!
