//! What the wizard screens show, as plain text: step titles, key hints, the
//! review summary and the editor's diff. The terminal application lays these
//! out; nothing here draws.

use vstd::prelude::*;
use crate::domain::answers::{Answers, SINGLE_NODE_ES_URL};
use crate::domain::components::{Component, Components};
use crate::domain::deployment::Deployment;
use crate::domain::es_backend::EsBackend;
use crate::domain::mounts::{MountKind, MountSelection};
use crate::steps::WizardStep;
use crate::text::{chars_of, join_strings, join_with, push_char, string_from, string_views};

verus! {

// ---------------------------------------------------------------------------
// Small pieces
// ---------------------------------------------------------------------------

/// One `*` per character of `value`.
pub open spec fn masked(value: Seq<char>) -> Seq<char> {
    Seq::new(value.len(), |i: int| '*')
}

/// A secret as shown on screen: one `*` per character.
pub fn mask(value: &str) -> (out: String)
    ensures
        out@ == masked(value@),
{
    let n = chars_of(value).len();
    let mut out = String::new();
    let mut i: usize = 0;
    while i < n
        invariant
            i <= n,
            n == value@.len(),
            out@ == masked(value@).take(i as int),
        decreases n - i,
    {
        push_char(&mut out, '*');
        proof {
            assert(masked(value@).take(i + 1) =~= masked(value@).take(i as int).push('*'));
        }
        i += 1;
    }
    proof {
        assert(masked(value@).take(n as int) =~= masked(value@));
    }
    out
}

pub open spec fn spec_step_title(step: WizardStep) -> Seq<char> {
    match step {
        WizardStep::StartSelect => "Start"@,
        WizardStep::LoadPath => "Load file"@,
        WizardStep::PrefixSelect => "Service prefix"@,
        WizardStep::ComponentsSelect => "Components"@,
        WizardStep::Interfaces => "Interfaces"@,
        WizardStep::Elasticsearch => "OpenSearch / Elasticsearch"@,
        WizardStep::S2sPassword => "Encryption password"@,
        WizardStep::ViewerUploads => "Viewer uploads"@,
        WizardStep::Plugins => "Capture plugins"@,
        WizardStep::WiseUrl => "WISE URL"@,
        WizardStep::GeoIp => "GeoIP"@,
        WizardStep::DockerMounts => "Docker mounts"@,
        WizardStep::Review => "Review"@,
        WizardStep::Progress => "Applying"@,
        WizardStep::Done => "Done"@,
    }
}

/// The header title of a step's screen.
pub fn step_title(step: WizardStep) -> (s: &'static str)
    ensures
        s@ == spec_step_title(step),
{
    match step {
        WizardStep::StartSelect => "Start",
        WizardStep::LoadPath => "Load file",
        WizardStep::PrefixSelect => "Service prefix",
        WizardStep::ComponentsSelect => "Components",
        WizardStep::Interfaces => "Interfaces",
        WizardStep::Elasticsearch => "OpenSearch / Elasticsearch",
        WizardStep::S2sPassword => "Encryption password",
        WizardStep::ViewerUploads => "Viewer uploads",
        WizardStep::Plugins => "Capture plugins",
        WizardStep::WiseUrl => "WISE URL",
        WizardStep::GeoIp => "GeoIP",
        WizardStep::DockerMounts => "Docker mounts",
        WizardStep::Review => "Review",
        WizardStep::Progress => "Applying",
        WizardStep::Done => "Done",
    }
}

pub open spec fn spec_deployment_tag(d: Option<Deployment>) -> Seq<char> {
    match d {
        Some(Deployment::Native) => "native"@,
        Some(Deployment::Docker) => "docker"@,
        None => "-"@,
    }
}

/// The short deployment tag in the header.
pub fn deployment_tag(d: Option<Deployment>) -> (s: &'static str)
    ensures
        s@ == spec_deployment_tag(d),
{
    match d {
        Some(Deployment::Native) => "native",
        Some(Deployment::Docker) => "docker",
        None => "-",
    }
}

pub const TYPE_HINT: &'static str = "type · Enter next · Esc back";

pub const CHECKBOX_TYPING_HINT: &'static str = "type · Tab checkboxes · Enter next · Esc back";

pub open spec fn spec_footer_help(
    step: WizardStep,
    interface_advanced: bool,
    plugin_advanced: bool,
    prefix_adding: bool,
    applied: bool,
) -> Seq<char> {
    match step {
        WizardStep::StartSelect => "↑↓ choose · →/Enter select · Esc quit"@,
        WizardStep::LoadPath => "type path · Enter load · Esc back"@,
        WizardStep::PrefixSelect => if prefix_adding {
            "type prefix · Enter add · Esc cancel"@
        } else {
            "↑↓ choose · Enter select · a add · d delete · ←/Esc back"@
        },
        WizardStep::ComponentsSelect => "↑↓ move · space toggle · →/Enter next · ←/Esc back"@,
        WizardStep::Interfaces => if interface_advanced {
            CHECKBOX_TYPING_HINT@
        } else {
            "↑↓ move · space toggle · a advanced · →/Enter next · ←/Esc back"@
        },
        WizardStep::S2sPassword => TYPE_HINT@,
        WizardStep::Plugins => if plugin_advanced {
            CHECKBOX_TYPING_HINT@
        } else {
            "↑↓ move · space toggle · a custom · →/Enter next · ←/Esc back"@
        },
        WizardStep::WiseUrl => TYPE_HINT@,
        WizardStep::DockerMounts => "↑↓ row · space toggle · Enter next · Esc back"@,
        WizardStep::Elasticsearch => "Tab/↑↓ field · type · space (demo) · Enter next · Esc back"@,
        WizardStep::ViewerUploads => "space toggle · →/Enter next · ←/Esc back"@,
        WizardStep::GeoIp => "Tab/↑↓ field · type · space (download) · Enter next · Esc back"@,
        WizardStep::Review => "→/Enter apply · ←/Esc back"@,
        WizardStep::Progress => if applied {
            "Enter/Esc exit"@
        } else {
            "applying…"@
        },
        WizardStep::Done => ""@,
    }
}

/// The key hints in the footer of a step's screen.
pub fn footer_help(
    step: WizardStep,
    interface_advanced: bool,
    plugin_advanced: bool,
    prefix_adding: bool,
    applied: bool,
) -> (s: &'static str)
    ensures
        s@ == spec_footer_help(step, interface_advanced, plugin_advanced, prefix_adding, applied),
{
    match step {
        WizardStep::StartSelect => "↑↓ choose · →/Enter select · Esc quit",
        WizardStep::LoadPath => "type path · Enter load · Esc back",
        WizardStep::PrefixSelect => if prefix_adding {
            "type prefix · Enter add · Esc cancel"
        } else {
            "↑↓ choose · Enter select · a add · d delete · ←/Esc back"
        },
        WizardStep::ComponentsSelect => "↑↓ move · space toggle · →/Enter next · ←/Esc back",
        WizardStep::Interfaces => if interface_advanced {
            CHECKBOX_TYPING_HINT
        } else {
            "↑↓ move · space toggle · a advanced · →/Enter next · ←/Esc back"
        },
        WizardStep::S2sPassword => TYPE_HINT,
        WizardStep::Plugins => if plugin_advanced {
            CHECKBOX_TYPING_HINT
        } else {
            "↑↓ move · space toggle · a custom · →/Enter next · ←/Esc back"
        },
        WizardStep::WiseUrl => TYPE_HINT,
        WizardStep::DockerMounts => "↑↓ row · space toggle · Enter next · Esc back",
        WizardStep::Elasticsearch => "Tab/↑↓ field · type · space (demo) · Enter next · Esc back",
        WizardStep::ViewerUploads => "space toggle · →/Enter next · ←/Esc back",
        WizardStep::GeoIp => "Tab/↑↓ field · type · space (download) · Enter next · Esc back",
        WizardStep::Review => "→/Enter apply · ←/Esc back",
        WizardStep::Progress => if applied {
            "Enter/Esc exit"
        } else {
            "applying…"
        },
        WizardStep::Done => "",
    }
}

pub open spec fn spec_footer_edit(has_docs: bool, step: WizardStep) -> Seq<char> {
    if !has_docs {
        ""@
    } else if step == WizardStep::Review {
        " · ^E edit · ^D diff changes"@
    } else {
        " · ^E edit · ^D diff"@
    }
}

/// The editor hint appended to the footer once there are files to edit.
pub fn footer_edit(has_docs: bool, step: WizardStep) -> (s: &'static str)
    ensures
        s@ == spec_footer_edit(has_docs, step),
{
    if !has_docs {
        ""
    } else if step == WizardStep::Review {
        " · ^E edit · ^D diff changes"
    } else {
        " · ^E edit · ^D diff"
    }
}


// ---------------------------------------------------------------------------
// Review summary
// ---------------------------------------------------------------------------

/// The `(label, value)` views of review rows.
pub open spec fn row_views(rows: Seq<(String, String)>) -> Seq<(Seq<char>, Seq<char>)> {
    Seq::new(rows.len(), |i: int| (rows[i].0@, rows[i].1@))
}

/// `rows` with `(k, v)` added when `b` holds.
pub open spec fn row_if(
    rows: Seq<(Seq<char>, Seq<char>)>,
    b: bool,
    k: Seq<char>,
    v: Seq<char>,
) -> Seq<(Seq<char>, Seq<char>)> {
    if b {
        rows.push((k, v))
    } else {
        rows
    }
}

/// `v`, or `(none)` when it is empty.
pub open spec fn or_none(v: Seq<char>) -> Seq<char> {
    if v.len() == 0 {
        "(none)"@
    } else {
        v
    }
}

pub open spec fn yes_no(b: bool) -> Seq<char> {
    if b {
        "yes"@
    } else {
        "no"@
    }
}

/// The rows about the datastore.
pub open spec fn es_rows(
    rows: Seq<(Seq<char>, Seq<char>)>,
    deployment: Option<Deployment>,
    a: Answers,
) -> Seq<(Seq<char>, Seq<char>)> {
    let is_docker = deployment == Some(Deployment::Docker);
    let single = a.es_backend != EsBackend::External;
    let url = if is_docker && single {
        SINGLE_NODE_ES_URL@
    } else {
        a.spec_elasticsearch_or_default()
    };
    let r1 = rows.push(("Elasticsearch"@, url));
    let r2 = row_if(r1, a.spec_has_es_user() && !single, "ES user"@, a.es_user@);
    if is_docker {
        let r3 = r2.push(
            (
                "Single-node ES"@,
                if single {
                    "yes (we configure it)"@
                } else {
                    "no"@
                },
            ),
        );
        row_if(r3, single, "ES data dir"@, a.es_data_dir@)
    } else {
        r2.push(("Demo ES"@, yes_no(single)))
    }
}

/// The labels of the enabled components, comma separated.
pub open spec fn component_list(c: Components) -> Seq<char> {
    join_with(c.spec_enabled().map_values(|x: Component| x.spec_label()), ", "@)
}

/// The bind mounts that will be attached: relevant and enabled, in order.
pub open spec fn review_mounts(c: Components, m: MountSelection) -> Seq<Seq<char>> {
    MountSelection::spec_relevant_kinds(c).filter(|k: MountKind| m.enabled(k)).map_values(
        |k: MountKind| k.spec_volume(),
    )
}

/// The first rows: deployment, components, interfaces.
pub open spec fn review_head(deployment: Option<Deployment>, c: Components, a: Answers) -> Seq<
    (Seq<char>, Seq<char>),
> {
    let dep = match deployment {
        Some(d) => d.spec_label(),
        None => "-"@,
    };
    row_if(
        seq![("Deployment"@, dep), ("Components"@, component_list(c))],
        c.capture,
        "Interfaces"@,
        a.interfaces@,
    )
}

/// The datastore and encryption rows.
pub open spec fn review_backend(
    rows: Seq<(Seq<char>, Seq<char>)>,
    deployment: Option<Deployment>,
    c: Components,
    a: Answers,
) -> Seq<(Seq<char>, Seq<char>)> {
    if c.capture || c.viewer || c.cont3xt {
        es_rows(rows, deployment, a).push(("Encryption pw"@, masked(a.s2s_password@)))
    } else {
        rows
    }
}

/// The viewer and capture rows.
pub open spec fn review_services(rows: Seq<(Seq<char>, Seq<char>)>, c: Components, a: Answers) -> Seq<
    (Seq<char>, Seq<char>),
> {
    let r4 = if c.viewer {
        rows.push(("Viewer uploads"@, yes_no(a.enable_uploads))).push(
            ("Viewer plugins"@, or_none(a.viewer_plugins@)),
        )
    } else {
        rows
    };
    if c.capture {
        row_if(
            r4.push(("Plugins"@, or_none(a.plugins@))),
            a.wise_url@.len() > 0,
            "WISE URL"@,
            a.wise_url@,
        )
    } else {
        r4
    }
}

/// The GeoIP row and the native database/admin rows.
pub open spec fn review_setup(
    rows: Seq<(Seq<char>, Seq<char>)>,
    deployment: Option<Deployment>,
    c: Components,
    a: Answers,
) -> Seq<(Seq<char>, Seq<char>)> {
    let r6 = row_if(
        rows,
        c.capture || c.viewer,
        "GeoIP"@,
        if a.maxmind_account@.len() > 0 {
            "GeoIP.conf (MaxMind creds set)"@
        } else {
            "skipped"@
        },
    );
    let native_data = deployment == Some(Deployment::Native) && (c.capture || c.viewer);
    row_if(
        row_if(r6, native_data && a.init_db, "Initialize DB"@, "yes (init --ifneeded)"@),
        native_data && a.create_admin,
        "Admin user"@,
        a.admin_user@,
    )
}

/// The docker rows: mounts and service prefixes.
pub open spec fn review_docker(
    rows: Seq<(Seq<char>, Seq<char>)>,
    deployment: Option<Deployment>,
    c: Components,
    m: MountSelection,
    prefix: Seq<char>,
    others: Seq<Seq<char>>,
) -> Seq<(Seq<char>, Seq<char>)> {
    if deployment == Some(Deployment::Docker) {
        let mounts = review_mounts(c, m);
        let r8 = rows.push(
            (
                "Mounts"@,
                if mounts.len() == 0 {
                    "(none)"@
                } else {
                    join_with(mounts, ", "@)
                },
            ),
        ).push(("Service prefix"@, or_none(prefix)));
        row_if(r8, others.len() > 0, "Untouched prefixes"@, join_with(others, ", "@))
    } else {
        rows
    }
}

/// Every row of the review screen, in display order.
pub open spec fn review_spec(
    deployment: Option<Deployment>,
    c: Components,
    a: Answers,
    m: MountSelection,
    prefix: Seq<char>,
    others: Seq<Seq<char>>,
) -> Seq<(Seq<char>, Seq<char>)> {
    review_docker(
        review_setup(
            review_services(review_backend(review_head(deployment, c, a), deployment, c, a), c, a),
            deployment,
            c,
            a,
        ),
        deployment,
        c,
        m,
        prefix,
        others,
    )
}

fn push_row(rows: &mut Vec<(String, String)>, k: &str, v: String)
    ensures
        row_views(final(rows)@) == row_views(old(rows)@).push((k@, v@)),
{
    rows.push((k.to_owned(), v));
    proof {
        assert(row_views(final(rows)@) =~= row_views(old(rows)@).push((k@, v@)));
    }
}

fn or_none_of(v: &str) -> (s: String)
    ensures
        s@ == or_none(v@),
{
    proof {
        reveal_strlit("(none)");
    }
    if v.is_empty() {
        "(none)".to_owned()
    } else {
        v.to_owned()
    }
}

fn yes_no_of(b: bool) -> (s: String)
    ensures
        s@ == yes_no(b),
{
    if b {
        "yes".to_owned()
    } else {
        "no".to_owned()
    }
}

fn push_es_rows(rows: &mut Vec<(String, String)>, deployment: Option<Deployment>, a: &Answers)
    ensures
        row_views(final(rows)@) == es_rows(row_views(old(rows)@), deployment, *a),
{
    let is_docker = match deployment {
        Some(Deployment::Docker) => true,
        _ => false,
    };
    let single = match a.es_backend {
        EsBackend::External => false,
        _ => true,
    };
    let url = if is_docker && single {
        SINGLE_NODE_ES_URL.to_owned()
    } else {
        a.elasticsearch_or_default().to_owned()
    };
    push_row(rows, "Elasticsearch", url);
    if a.has_es_user() && !single {
        push_row(rows, "ES user", a.es_user.clone());
    }
    if is_docker {
        let v = if single {
            "yes (we configure it)".to_owned()
        } else {
            "no".to_owned()
        };
        push_row(rows, "Single-node ES", v);
        if single {
            push_row(rows, "ES data dir", a.es_data_dir.clone());
        }
    } else {
        push_row(rows, "Demo ES", yes_no_of(single));
    }
}

fn component_list_of(c: &Components) -> (s: String)
    ensures
        s@ == component_list(*c),
{
    let enabled = c.enabled();
    let mut labels: Vec<String> = Vec::new();
    let mut i: usize = 0;
    while i < enabled.len()
        invariant
            enabled@ == c.spec_enabled(),
            i <= enabled.len(),
            string_views(labels@) == enabled@.take(i as int).map_values(
                |x: Component| x.spec_label(),
            ),
        decreases enabled.len() - i,
    {
        let ghost before = string_views(labels@);
        labels.push(enabled[i].label().to_owned());
        proof {
            assert(string_views(labels@) =~= before.push(enabled@[i as int].spec_label()));
            assert(enabled@.take(i + 1).map_values(|x: Component| x.spec_label())
                =~= enabled@.take(i as int).map_values(|x: Component| x.spec_label()).push(
                enabled@[i as int].spec_label(),
            ));
        }
        i += 1;
    }
    proof {
        assert(enabled@.take(enabled@.len() as int) =~= enabled@);
    }
    join_strings(&labels, ", ")
}

fn review_mounts_of(c: &Components, m: &MountSelection) -> (v: Vec<String>)
    ensures
        string_views(v@) == review_mounts(*c, *m),
{
    let kinds = MountSelection::relevant_kinds(c);
    let mut out: Vec<String> = Vec::new();
    let mut i: usize = 0;
    while i < kinds.len()
        invariant
            kinds@ == MountSelection::spec_relevant_kinds(*c),
            i <= kinds.len(),
            string_views(out@) == kinds@.take(i as int).filter(|k: MountKind| m.enabled(k)).map_values(
                |k: MountKind| k.spec_volume(),
            ),
        decreases kinds.len() - i,
    {
        let k = kinds[i];
        let ghost before = kinds@.take(i as int).filter(|k: MountKind| m.enabled(k));
        proof {
            reveal(Seq::filter);
            assert(kinds@.take(i + 1).drop_last() =~= kinds@.take(i as int));
        }
        if m.is_enabled(k) {
            let ghost sv = string_views(out@);
            out.push(k.spec());
            proof {
                assert(string_views(out@) =~= sv.push(k.spec_volume()));
                assert(before.push(k).map_values(|k: MountKind| k.spec_volume()) =~= before.map_values(
                    |k: MountKind| k.spec_volume(),
                ).push(k.spec_volume()));
            }
        }
        i += 1;
    }
    proof {
        assert(kinds@.take(kinds@.len() as int) =~= kinds@);
    }
    out
}

fn push_head(rows: &mut Vec<(String, String)>, deployment: Option<Deployment>, c: &Components, a: &Answers)
    requires
        old(rows)@.len() == 0,
    ensures
        row_views(final(rows)@) == review_head(deployment, *c, *a),
{
    let dep = match deployment {
        Some(d) => d.label().to_owned(),
        None => "-".to_owned(),
    };
    proof {
        reveal_strlit("-");
        assert(row_views(rows@) =~= Seq::<(Seq<char>, Seq<char>)>::empty());
    }
    push_row(rows, "Deployment", dep);
    push_row(rows, "Components", component_list_of(c));
    if c.capture {
        push_row(rows, "Interfaces", a.interfaces.clone());
    }
}

fn push_backend(rows: &mut Vec<(String, String)>, deployment: Option<Deployment>, c: &Components, a: &Answers)
    ensures
        row_views(final(rows)@) == review_backend(row_views(old(rows)@), deployment, *c, *a),
{
    if c.capture || c.viewer || c.cont3xt {
        push_es_rows(rows, deployment, a);
        push_row(rows, "Encryption pw", mask(a.s2s_password.as_str()));
    }
}

fn push_services(rows: &mut Vec<(String, String)>, c: &Components, a: &Answers)
    ensures
        row_views(final(rows)@) == review_services(row_views(old(rows)@), *c, *a),
{
    if c.viewer {
        push_row(rows, "Viewer uploads", yes_no_of(a.enable_uploads));
        push_row(rows, "Viewer plugins", or_none_of(a.viewer_plugins.as_str()));
    }
    if c.capture {
        push_row(rows, "Plugins", or_none_of(a.plugins.as_str()));
        if !a.wise_url.as_str().is_empty() {
            push_row(rows, "WISE URL", a.wise_url.clone());
        }
    }
}

fn push_setup(rows: &mut Vec<(String, String)>, deployment: Option<Deployment>, c: &Components, a: &Answers)
    ensures
        row_views(final(rows)@) == review_setup(row_views(old(rows)@), deployment, *c, *a),
{
    if c.capture || c.viewer {
        let geo = if !a.maxmind_account.as_str().is_empty() {
            "GeoIP.conf (MaxMind creds set)".to_owned()
        } else {
            "skipped".to_owned()
        };
        push_row(rows, "GeoIP", geo);
    }
    let is_native = match deployment {
        Some(Deployment::Native) => true,
        _ => false,
    };
    if is_native && (c.capture || c.viewer) {
        if a.init_db {
            push_row(rows, "Initialize DB", "yes (init --ifneeded)".to_owned());
        }
        if a.create_admin {
            push_row(rows, "Admin user", a.admin_user.clone());
        }
    }
}

fn push_docker(
    rows: &mut Vec<(String, String)>,
    deployment: Option<Deployment>,
    c: &Components,
    mounts: &MountSelection,
    service_prefix: &str,
    other_prefixes: &Vec<String>,
)
    ensures
        row_views(final(rows)@) == review_docker(
            row_views(old(rows)@),
            deployment,
            *c,
            *mounts,
            service_prefix@,
            string_views(other_prefixes@),
        ),
{
    let is_docker = match deployment {
        Some(Deployment::Docker) => true,
        _ => false,
    };
    if is_docker {
        let mounts_list = review_mounts_of(c, mounts);
        let text = if mounts_list.len() == 0 {
            "(none)".to_owned()
        } else {
            join_strings(&mounts_list, ", ")
        };
        proof {
            reveal_strlit("(none)");
        }
        push_row(rows, "Mounts", text);
        push_row(rows, "Service prefix", or_none_of(service_prefix));
        if other_prefixes.len() > 0 {
            push_row(rows, "Untouched prefixes", join_strings(other_prefixes, ", "));
        }
    }
}

/// The review screen's rows: what will be applied, with the encryption
/// password masked.
pub fn review_rows(
    deployment: Option<Deployment>,
    components: &Components,
    answers: &Answers,
    mounts: &MountSelection,
    service_prefix: &str,
    other_prefixes: &Vec<String>,
) -> (rows: Vec<(String, String)>)
    ensures
        row_views(rows@) == review_spec(
            deployment,
            *components,
            *answers,
            *mounts,
            service_prefix@,
            string_views(other_prefixes@),
        ),
{
    let mut rows: Vec<(String, String)> = Vec::new();
    push_head(&mut rows, deployment, components, answers);
    push_backend(&mut rows, deployment, components, answers);
    push_services(&mut rows, components, answers);
    push_setup(&mut rows, deployment, components, answers);
    push_docker(&mut rows, deployment, components, mounts, service_prefix, other_prefixes);
    rows
}

/// Native setup writes system config and manages services, so the review
/// warns when it is not running as root.
pub fn review_needs_root_warning(deployment: Option<Deployment>, is_root: bool) -> (b: bool)
    ensures
        b == (deployment == Some(Deployment::Native) && !is_root),
{
    match deployment {
        Some(Deployment::Native) => !is_root,
        _ => false,
    }
}


// ---------------------------------------------------------------------------
// Editor diff
// ---------------------------------------------------------------------------

/// The kind of one line of a line diff.
#[derive(Debug, Clone, Copy, PartialEq, Eq, Structural)]
pub enum ChangeKind {
    Delete,
    Insert,
    Equal,
}

/// The `(kind, text)` views of diff lines.
pub open spec fn change_views(v: Seq<(ChangeKind, String)>) -> Seq<(ChangeKind, Seq<char>)> {
    Seq::new(v.len(), |i: int| (v[i].0, v[i].1@))
}

/// The line diff of `original` against `current`, as computed by the `similar`
/// crate: one entry per line, with the line's text including its newline.
pub uninterp spec fn line_changes(original: Seq<char>, current: Seq<char>) -> Seq<
    (ChangeKind, Seq<char>),
>;

/// `similar::TextDiff::from_lines(original, current).iter_all_changes()`, each
/// change as its tag and its text. The contract only names the result
/// (`line_changes`): which lines the diff pairs up is the crate's algorithm.
#[verifier::external_body]
fn line_changes_of(original: &str, current: &str) -> (changes: Vec<(ChangeKind, String)>)
    ensures
        change_views(changes@) == line_changes(original@, current@),
{
    let diff = similar::TextDiff::from_lines(original, current);
    diff.iter_all_changes().map(|c| {
        let kind = match c.tag() {
            similar::ChangeTag::Delete => ChangeKind::Delete,
            similar::ChangeTag::Insert => ChangeKind::Insert,
            similar::ChangeTag::Equal => ChangeKind::Equal,
        };
        (kind, c.value().to_string())
    }).collect()
}

/// Shown when the diff has no insertions or deletions.
pub const NO_CHANGES: &'static str = "(no changes from the original)";

pub open spec fn sign(k: ChangeKind) -> char {
    match k {
        ChangeKind::Delete => '-',
        ChangeKind::Insert => '+',
        ChangeKind::Equal => ' ',
    }
}

/// `s` without its trailing newlines (`trim_end_matches('\n')`).
pub open spec fn trim_newlines(s: Seq<char>) -> Seq<char>
    decreases s.len(),
{
    if s.len() > 0 && s.last() == '\n' {
        trim_newlines(s.drop_last())
    } else {
        s
    }
}

/// The displayed line of one change: its sign, then its text.
pub open spec fn shown(c: (ChangeKind, Seq<char>)) -> (ChangeKind, Seq<char>) {
    (c.0, seq![sign(c.0)] + trim_newlines(c.1))
}

/// The diff view: one signed line per change, and a note when nothing changed.
pub open spec fn diff_view(changes: Seq<(ChangeKind, Seq<char>)>) -> Seq<(ChangeKind, Seq<char>)> {
    let lines = changes.map_values(|c: (ChangeKind, Seq<char>)| shown(c));
    if exists|i: int| 0 <= i < changes.len() && #[trigger] changes[i].0 != ChangeKind::Equal {
        lines
    } else {
        lines.push((ChangeKind::Equal, NO_CHANGES@))
    }
}

fn trim_newlines_of(s: &str) -> (out: String)
    ensures
        out@ == trim_newlines(s@),
{
    let v = chars_of(s);
    let mut n = v.len();
    proof {
        assert(v@.take(v@.len() as int) =~= v@);
    }
    while n > 0 && v[n - 1] == '\n'
        invariant
            n <= v.len(),
            trim_newlines(v@.take(n as int)) == trim_newlines(v@),
        decreases n,
    {
        proof {
            assert(v@.take(n as int).drop_last() =~= v@.take(n - 1));
        }
        n -= 1;
    }
    let kept = crate::text::copy_range(&v, 0, n);
    proof {
        assert(v@.subrange(0, n as int) =~= v@.take(n as int));
    }
    string_from(&kept)
}

/// The lines of the diff view for the changes of a line diff.
pub fn diff_view_lines(changes: &Vec<(ChangeKind, String)>) -> (lines: Vec<(ChangeKind, String)>)
    ensures
        change_views(lines@) == diff_view(change_views(changes@)),
{
    let ghost cv = change_views(changes@);
    let mut lines: Vec<(ChangeKind, String)> = Vec::new();
    let mut changed = false;
    let mut i: usize = 0;
    while i < changes.len()
        invariant
            cv == change_views(changes@),
            i <= changes.len(),
            change_views(lines@) == cv.take(i as int).map_values(
                |c: (ChangeKind, Seq<char>)| shown(c),
            ),
            changed == exists|k: int| 0 <= k < i && #[trigger] cv[k].0 != ChangeKind::Equal,
        decreases changes.len() - i,
    {
        let kind = changes[i].0;
        let mut text = String::new();
        let sg = match kind {
            ChangeKind::Delete => '-',
            ChangeKind::Insert => '+',
            ChangeKind::Equal => ' ',
        };
        push_char(&mut text, sg);
        let rest = trim_newlines_of(changes[i].1.as_str());
        text.append(rest.as_str());
        let ghost before = change_views(lines@);
        proof {
            assert(cv[i as int] == (kind, changes@[i as int].1@));
            assert(text@ =~= seq![sign(kind)] + trim_newlines(changes@[i as int].1@));
        }
        lines.push((kind, text));
        proof {
            assert(change_views(lines@) =~= before.push(shown(cv[i as int])));
            assert(cv.take(i + 1).map_values(|c: (ChangeKind, Seq<char>)| shown(c))
                =~= cv.take(i as int).map_values(|c: (ChangeKind, Seq<char>)| shown(c)).push(
                shown(cv[i as int]),
            ));
        }
        match kind {
            ChangeKind::Equal => {},
            _ => {
                changed = true;
            },
        }
        i += 1;
    }
    proof {
        assert(cv.take(cv.len() as int) =~= cv);
    }
    if !changed {
        let ghost before = change_views(lines@);
        lines.push((ChangeKind::Equal, NO_CHANGES.to_owned()));
        proof {
            assert(change_views(lines@) =~= before.push((ChangeKind::Equal, NO_CHANGES@)));
        }
    }
    lines
}

/// The editor's diff view of `current` against `original`.
pub fn diff_lines(original: &str, current: &str) -> (lines: Vec<(ChangeKind, String)>)
    ensures
        change_views(lines@) == diff_view(line_changes(original@, current@)),
{
    let changes = line_changes_of(original, current);
    diff_view_lines(&changes)
}

} // verus!
