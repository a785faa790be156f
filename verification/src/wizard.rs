//! The wizard's decisions: what a screen asks for, how a selection becomes an
//! answer, how the service-prefix list is managed, and how cursors move. The
//! terminal application keeps the screen state and routes keys here.

use vstd::prelude::*;
use crate::config::substitute::{render_spec, BasicAuthEncoding};
use crate::docset::{
    compose_services, detect_prefix, detection_of, parse_compose, parse_env, parse_ini, parsed_env,
    parsed_ini, read_compose_spec, PrefixDetection, base_doc, compose_doc, emitted, env_fold, fresh_ini_base, remove_prefix_services, render_compose,
    render_env, render_ini, render_ini_spec, DocKind, Document, Images, DEFAULT_PREFIX,
};
use crate::domain::mounts::MountSelection;
use crate::actions::native::{
    extends, idle, join, lemma_extends_trans, lemma_log_unchanged, lemma_no_more, lemma_one_more,
    lemma_split_history, lemma_split_log, log_views, native_trace, new_logs, new_outs, new_reqs, note,
    system_actions, HostFacts, Trace,
};
use crate::actions::system::{backup_outcome, unit_outcome, flag_outcome, Outcome, Req, SystemOps};
use crate::domain::build_config::BuildConfig;
use crate::domain::platform::Platform;
use crate::log::{Level, LogLine};
use crate::text::cat;
use crate::domain::answers::Answers;
use crate::domain::components::Components;
use crate::domain::deployment::Deployment;
use crate::domain::es_backend::EsBackend;
use crate::domain::plugins::{finalize, finalize_spec, known_plugins, spec_known_plugins, WISE_PLUGIN};
use crate::steps::WizardStep;
use crate::text::{
    join_path, path_join, chars_of, copy_range, join_strings, join_with, split, split_chars, str_eq, string_from,
    string_views, trim, trim_end_at, trim_start_at, views,
};
use crate::yaml::yaml_emit;

verus! {

// ---------------------------------------------------------------------------
// Lists of names
// ---------------------------------------------------------------------------

/// The trimmed `;`-separated pieces of `s`.
pub open spec fn trimmed_pieces(s: Seq<char>) -> Seq<Seq<char>> {
    split(s, ';').map_values(|p: Seq<char>| trim(p))
}

/// The trimmed `;`-separated pieces of `s`.
pub fn pieces_of(s: &str) -> (v: Vec<String>)
    ensures
        string_views(v@) == trimmed_pieces(s@),
{
    let sv = chars_of(s);
    let parts = split_chars(&sv, ';');
    let mut out: Vec<String> = Vec::new();
    let mut i: usize = 0;
    while i < parts.len()
        invariant
            views(parts@) == split(s@, ';'),
            i <= parts.len(),
            string_views(out@) == split(s@, ';').take(i as int).map_values(|p: Seq<char>| trim(p)),
        decreases parts.len() - i,
    {
        let p = &parts[i];
        let a = trim_start_at(p, 0, p.len());
        let e = trim_end_at(p, a, p.len());
        let t = copy_range(p, a, e);
        proof {
            assert(p@ == split(s@, ';')[i as int]);
            assert(p@.subrange(0, p@.len() as int) =~= p@);
            assert(t@ == trim(p@));
        }
        let ghost before = string_views(out@);
        out.push(string_from(&t));
        proof {
            assert(string_views(out@) =~= before.push(trim(p@)));
            assert(split(s@, ';').take(i + 1).map_values(|p: Seq<char>| trim(p)) =~= split(
                s@,
                ';',
            ).take(i as int).map_values(|p: Seq<char>| trim(p)).push(trim(p@)));
        }
        i += 1;
    }
    proof {
        assert(split(s@, ';').take(split(s@, ';').len() as int) =~= split(s@, ';'));
    }
    out
}

/// Whether `x` is one of `v`.
pub fn has_string(v: &Vec<String>, x: &str) -> (b: bool)
    ensures
        b == string_views(v@).contains(x@),
{
    let mut i: usize = 0;
    while i < v.len()
        invariant
            i <= v.len(),
            forall|k: int| 0 <= k < i ==> v@[k]@ != x@,
        decreases v.len() - i,
    {
        if str_eq(v[i].as_str(), x) {
            proof {
                assert(string_views(v@)[i as int] == x@);
            }
            return true;
        }
        i += 1;
    }
    proof {
        assert forall|k: int| 0 <= k < string_views(v@).len() implies string_views(v@)[k] != x@ by {
            assert(string_views(v@)[k] == v@[k]@);
        }
    }
    false
}

/// The external WISE URL is asked for only when capture loads the wise plugin
/// but the wise component is not deployed alongside.
pub open spec fn spec_wise_url_needed(c: Components, plugins: Seq<char>) -> bool {
    c.capture && !c.wise && trimmed_pieces(plugins).contains(WISE_PLUGIN@)
}

pub fn wise_url_needed(components: &Components, plugins: &str) -> (b: bool)
    ensures
        b == spec_wise_url_needed(*components, plugins@),
{
    if !components.capture || components.wise {
        return false;
    }
    let pieces = pieces_of(plugins);
    has_string(&pieces, WISE_PLUGIN)
}

/// The names whose box is checked, in order (names and boxes paired up to the
/// shorter list).
pub open spec fn picked(names: Seq<Seq<char>>, checked: Seq<bool>, n: int) -> Seq<Seq<char>>
    decreases n,
{
    if n <= 0 {
        seq![]
    } else if checked[n - 1] {
        picked(names, checked, n - 1).push(names[n - 1])
    } else {
        picked(names, checked, n - 1)
    }
}

pub open spec fn checked_spec(names: Seq<Seq<char>>, checked: Seq<bool>) -> Seq<Seq<char>> {
    picked(names, checked, if names.len() < checked.len() { names.len() as int } else { checked.len() as int })
}

/// The names whose box is checked, in order.
pub fn checked_names(names: &Vec<String>, checked: &Vec<bool>) -> (v: Vec<String>)
    ensures
        string_views(v@) == checked_spec(string_views(names@), checked@),
{
    let n = if names.len() < checked.len() {
        names.len()
    } else {
        checked.len()
    };
    let mut out: Vec<String> = Vec::new();
    let mut i: usize = 0;
    while i < n
        invariant
            n <= names.len(),
            n <= checked.len(),
            i <= n,
            string_views(out@) == picked(string_views(names@), checked@, i as int),
        decreases n - i,
    {
        if checked[i] {
            let ghost before = string_views(out@);
            out.push(names[i].as_str().to_owned());
            proof {
                assert(string_views(out@) =~= before.push(string_views(names@)[i as int]));
            }
        }
        i += 1;
    }
    out
}

/// Asked for when neither a box is checked nor an interface typed.
pub const INTERFACE_REQUIRED: &'static str = "Select an interface (space), or press 'a' to type manually.";

/// The interface answer: the typed text (trimmed) in advanced mode, else the
/// checked interfaces joined with `;`; an error when it comes out empty.
pub open spec fn interfaces_answer_spec(
    advanced: bool,
    typed: Seq<char>,
    detected: Seq<Seq<char>>,
    checked: Seq<bool>,
) -> Result<Seq<char>, Seq<char>> {
    let value = if advanced {
        trim(typed)
    } else {
        join_with(checked_spec(detected, checked), ";"@)
    };
    if value.len() == 0 {
        Err(INTERFACE_REQUIRED@)
    } else {
        Ok(value)
    }
}

/// The interface answer of the interfaces screen (see `interfaces_answer_spec`).
pub fn commit_interfaces(advanced: bool, typed: &str, detected: &Vec<String>, checked: &Vec<bool>) -> (r:
    Result<String, String>)
    ensures
        match r {
            Ok(v) => interfaces_answer_spec(advanced, typed@, string_views(detected@), checked@) == Ok::<
                Seq<char>,
                Seq<char>,
            >(v@),
            Err(e) => interfaces_answer_spec(advanced, typed@, string_views(detected@), checked@) == Err::<
                Seq<char>,
                Seq<char>,
            >(e@),
        },
{
    let value = if advanced {
        let v = chars_of(typed);
        let a = trim_start_at(&v, 0, v.len());
        let e = trim_end_at(&v, a, v.len());
        proof {
            assert(v@.subrange(0, v@.len() as int) =~= typed@);
        }
        string_from(&copy_range(&v, a, e))
    } else {
        join_strings(&checked_names(detected, checked), ";")
    };
    if value.as_str().is_empty() {
        Err(INTERFACE_REQUIRED.to_owned())
    } else {
        Ok(value)
    }
}

/// The plugin answer of the plugins screen: the typed list in advanced mode,
/// else the checked known plugins joined with `;`, finalized (wise.so forced
/// first when the wise component is on).
pub open spec fn plugins_answer_spec(advanced: bool, typed: Seq<char>, checked: Seq<bool>, wise: bool) -> Seq<
    char,
> {
    let raw = if advanced {
        typed
    } else {
        join_with(checked_spec(spec_known_plugins(), checked), ";"@)
    };
    finalize_spec(raw, wise)
}

pub fn commit_plugins(advanced: bool, typed: &str, checked: &Vec<bool>, wise: bool) -> (v: String)
    ensures
        v@ == plugins_answer_spec(advanced, typed@, checked@, wise),
{
    if advanced {
        finalize(typed, wise)
    } else {
        let known = known_plugins();
        let mut names: Vec<String> = Vec::new();
        let mut i: usize = 0;
        while i < known.len()
            invariant
                known@.len() == 4,
                forall|k: int| 0 <= k < 4 ==> #[trigger] known@[k]@ == spec_known_plugins()[k],
                i <= known.len(),
                string_views(names@) == spec_known_plugins().take(i as int),
            decreases known.len() - i,
        {
            let ghost before = string_views(names@);
            names.push(known[i].to_owned());
            proof {
                assert(string_views(names@) =~= before.push(known@[i as int]@));
                assert(known@[i as int]@ == spec_known_plugins()[i as int]);
                assert(string_views(names@) =~= spec_known_plugins().take(i + 1));
            }
            i += 1;
        }
        proof {
            assert(spec_known_plugins().take(4) =~= spec_known_plugins());
        }
        let raw = join_strings(&checked_names(&names, checked), ";");
        finalize(raw.as_str(), wise)
    }
}

// ---------------------------------------------------------------------------
// Screens
// ---------------------------------------------------------------------------

/// Screens where typing happens, so a plain `e` is a character rather than
/// the editor key.
pub open spec fn spec_screen_is_text_input(
    step: WizardStep,
    interface_advanced: bool,
    plugin_advanced: bool,
    prefix_adding: bool,
) -> bool {
    match step {
        WizardStep::LoadPath | WizardStep::Elasticsearch | WizardStep::S2sPassword
        | WizardStep::WiseUrl | WizardStep::GeoIp => true,
        WizardStep::Interfaces => interface_advanced,
        WizardStep::Plugins => plugin_advanced,
        WizardStep::PrefixSelect => prefix_adding,
        _ => false,
    }
}

pub fn screen_is_text_input(
    step: WizardStep,
    interface_advanced: bool,
    plugin_advanced: bool,
    prefix_adding: bool,
) -> (b: bool)
    ensures
        b == spec_screen_is_text_input(step, interface_advanced, plugin_advanced, prefix_adding),
{
    match step {
        WizardStep::LoadPath | WizardStep::Elasticsearch | WizardStep::S2sPassword
        | WizardStep::WiseUrl | WizardStep::GeoIp => true,
        WizardStep::Interfaces => interface_advanced,
        WizardStep::Plugins => plugin_advanced,
        WizardStep::PrefixSelect => prefix_adding,
        _ => false,
    }
}

pub const S2S_REQUIRED: &'static str = "Password required (it encrypts S2S and secrets).";

pub const S2S_NO_SPACES: &'static str = "Password must not contain spaces.";

/// The S2S password is required and may not contain spaces.
pub open spec fn s2s_check_spec(v: Seq<char>) -> Result<Seq<char>, Seq<char>> {
    if v.len() == 0 {
        Err(S2S_REQUIRED@)
    } else if v.contains(' ') {
        Err(S2S_NO_SPACES@)
    } else {
        Ok(v)
    }
}

pub fn check_s2s_password(v: &str) -> (r: Result<String, String>)
    ensures
        match r {
            Ok(p) => s2s_check_spec(v@) == Ok::<Seq<char>, Seq<char>>(p@),
            Err(e) => s2s_check_spec(v@) == Err::<Seq<char>, Seq<char>>(e@),
        },
{
    let cs = chars_of(v);
    if cs.len() == 0 {
        return Err(S2S_REQUIRED.to_owned());
    }
    let mut i: usize = 0;
    while i < cs.len()
        invariant
            cs@ == v@,
            i <= cs.len(),
            forall|k: int| 0 <= k < i ==> cs@[k] != ' ',
        decreases cs.len() - i,
    {
        if cs[i] == ' ' {
            proof {
                assert(v@[i as int] == ' ');
            }
            return Err(S2S_NO_SPACES.to_owned());
        }
        i += 1;
    }
    Ok(v.to_owned())
}

/// The cursor one row up, wrapping to the last of `n` rows.
pub fn cursor_up(cursor: usize, n: usize) -> (c: usize)
    requires
        n > 0,
    ensures
        c == (cursor + n - 1) % (n as int),
{
    if cursor == 0 {
        proof {
            vstd::arithmetic::div_mod::lemma_small_mod((n - 1) as nat, n as nat);
        }
        n - 1
    } else {
        proof {
            vstd::arithmetic::div_mod::lemma_mod_add_multiples_vanish((cursor - 1) as int, n as int);
        }
        (cursor - 1) % n
    }
}

/// The cursor one row down, wrapping to the first of `n` rows.
pub fn cursor_down(cursor: usize, n: usize) -> (c: usize)
    requires
        n > 0,
        cursor + 1 <= usize::MAX,
    ensures
        c == (cursor + 1) % (n as int),
{
    (cursor + 1) % n
}

/// The last field of the datastore screen: url, user, password, the
/// single-node toggle, and in docker with a single-node backend its data dir.
pub open spec fn spec_es_max_focus(deployment: Option<Deployment>, backend: EsBackend) -> int {
    if deployment == Some(Deployment::Docker) && backend != EsBackend::External {
        4
    } else {
        3
    }
}

pub fn es_max_focus(deployment: Option<Deployment>, backend: EsBackend) -> (m: usize)
    ensures
        m == spec_es_max_focus(deployment, backend),
{
    let docker = match deployment {
        Some(Deployment::Docker) => true,
        _ => false,
    };
    let single = match backend {
        EsBackend::External => false,
        _ => true,
    };
    if docker && single {
        4
    } else {
        3
    }
}

/// Which files the current selections produce: docker writes the compose
/// file and the env file; native writes the ini of each service present.
pub open spec fn spec_desired_doc_kinds(dep: Deployment, c: Components) -> Seq<DocKind> {
    match dep {
        Deployment::Docker => seq![DocKind::Compose, DocKind::Env],
        Deployment::Native => {
            let a: Seq<DocKind> = if c.capture || c.viewer { seq![DocKind::ConfigIni] } else { seq![] };
            let b: Seq<DocKind> = if c.wise { a.push(DocKind::WiseIni) } else { a };
            if c.cont3xt { b.push(DocKind::Cont3xtIni) } else { b }
        },
    }
}

pub fn desired_doc_kinds(dep: Deployment, components: &Components) -> (v: Vec<DocKind>)
    ensures
        v@ == spec_desired_doc_kinds(dep, *components),
{
    match dep {
        Deployment::Docker => vec![DocKind::Compose, DocKind::Env],
        Deployment::Native => {
            let mut v: Vec<DocKind> = Vec::new();
            if components.capture || components.viewer {
                v.push(DocKind::ConfigIni);
            }
            if components.wise {
                v.push(DocKind::WiseIni);
            }
            if components.cont3xt {
                v.push(DocKind::Cont3xtIni);
            }
            proof {
                assert(v@ =~= spec_desired_doc_kinds(dep, *components));
            }
            v
        },
    }
}

// ---------------------------------------------------------------------------
// Checkbox state from answers
// ---------------------------------------------------------------------------

/// A box is checked when its name is one of the answer's trimmed pieces.
pub open spec fn boxes_spec(names: Seq<Seq<char>>, answer: Seq<char>) -> Seq<bool> {
    Seq::new(names.len(), |i: int| trimmed_pieces(answer).contains(names[i]))
}

/// The answer names something not in the list, so the screen starts in
/// advanced (typed) mode.
pub open spec fn needs_typing_spec(names: Seq<Seq<char>>, answer: Seq<char>) -> bool {
    answer.len() > 0 && exists|j: int|
        0 <= j < trimmed_pieces(answer).len() && (#[trigger] trimmed_pieces(answer)[j]).len() > 0
            && !names.contains(trimmed_pieces(answer)[j])
}

/// The checkbox state for `names` from an answer, and whether the answer
/// needs the typed mode.
pub fn boxes_for(names: &Vec<String>, answer: &str) -> (r: (Vec<bool>, bool))
    ensures
        r.0@ == boxes_spec(string_views(names@), answer@),
        r.1 == needs_typing_spec(string_views(names@), answer@),
{
    let pieces = pieces_of(answer);
    let mut boxes: Vec<bool> = Vec::new();
    let mut i: usize = 0;
    while i < names.len()
        invariant
            string_views(pieces@) == trimmed_pieces(answer@),
            i <= names.len(),
            boxes@ =~= boxes_spec(string_views(names@), answer@).take(i as int),
        decreases names.len() - i,
    {
        let b = has_string(&pieces, names[i].as_str());
        boxes.push(b);
        i += 1;
    }
    let mut typing = false;
    if !answer.is_empty() {
        let mut j: usize = 0;
        while j < pieces.len()
            invariant
                string_views(pieces@) == trimmed_pieces(answer@),
                j <= pieces.len(),
                typing == exists|t: int|
                    0 <= t < j && (#[trigger] trimmed_pieces(answer@)[t]).len() > 0
                        && !string_views(names@).contains(trimmed_pieces(answer@)[t]),
            decreases pieces.len() - j,
        {
            proof {
                assert(string_views(pieces@)[j as int] == pieces@[j as int]@);
            }
            if !pieces[j].as_str().is_empty() && !has_string(names, pieces[j].as_str()) {
                typing = true;
            }
            j += 1;
        }
    }
    (boxes, typing)
}

// ---------------------------------------------------------------------------
// Service prefixes
// ---------------------------------------------------------------------------

/// The prefixes other than the managed one, in order.
pub open spec fn others_spec(detected: Seq<Seq<char>>, chosen: Seq<char>) -> Seq<Seq<char>> {
    detected.filter(|p: Seq<char>| p != chosen)
}

/// Manage the prefix at `idx`: it, and the others left untouched.
pub fn select_prefix(detected: &Vec<String>, idx: usize) -> (r: (String, Vec<String>))
    requires
        idx < detected.len(),
    ensures
        r.0@ == detected@[idx as int]@,
        string_views(r.1@) == others_spec(string_views(detected@), r.0@),
{
    let chosen = detected[idx].as_str().to_owned();
    let ghost dv = string_views(detected@);
    let mut others: Vec<String> = Vec::new();
    let mut i: usize = 0;
    while i < detected.len()
        invariant
            dv == string_views(detected@),
            i <= detected.len(),
            string_views(others@) == dv.take(i as int).filter(|p: Seq<char>| p != chosen@),
        decreases detected.len() - i,
    {
        proof {
            reveal(Seq::filter);
            assert(dv.take(i + 1).drop_last() =~= dv.take(i as int));
            assert(dv.take(i + 1).last() == detected@[i as int]@);
        }
        if !str_eq(detected[i].as_str(), chosen.as_str()) {
            let ghost before = string_views(others@);
            others.push(detected[i].as_str().to_owned());
            proof {
                assert(string_views(others@) =~= before.push(detected@[i as int]@));
            }
        }
        i += 1;
    }
    proof {
        assert(dv.take(dv.len() as int) =~= dv);
    }
    (chosen, others)
}

/// Add a typed prefix (trimmed) unless it is already listed; its position.
pub fn add_prefix(detected: &mut Vec<String>, typed: &str) -> (pos: usize)
    ensures
        ({
            let p = trim(typed@);
            let before = string_views(old(detected)@);
            &&& string_views(final(detected)@) == if before.contains(p) {
                before
            } else {
                before.push(p)
            }
            &&& pos < final(detected)@.len()
            &&& final(detected)@[pos as int]@ == p
            &&& forall|k: int| 0 <= k < pos ==> #[trigger] final(detected)@[k]@ != p
        }),
{
    let v = chars_of(typed);
    let a = trim_start_at(&v, 0, v.len());
    let e = trim_end_at(&v, a, v.len());
    proof {
        assert(v@.subrange(0, v@.len() as int) =~= typed@);
    }
    let p = string_from(&copy_range(&v, a, e));
    let ghost before0 = string_views(detected@);
    proof {
        assert(p@ == trim(typed@));
    }
    if !has_string(detected, p.as_str()) {
        let ghost before = string_views(detected@);
        detected.push(p.as_str().to_owned());
        proof {
            assert(string_views(detected@) =~= before.push(p@));
            assert(string_views(detected@)[before.len() as int] == p@);
        }
    }
    let mut i: usize = 0;
    while i < detected.len()
        invariant
            i <= detected.len(),
            p@ == trim(typed@),
            before0 == string_views(old(detected)@),
            string_views(detected@) == if before0.contains(p@) {
                before0
            } else {
                before0.push(p@)
            },
            string_views(detected@).contains(p@),
            forall|k: int| 0 <= k < i ==> #[trigger] detected@[k]@ != p@,
        decreases detected.len() - i,
    {
        if str_eq(detected[i].as_str(), p.as_str()) {
            return i;
        }
        i += 1;
    }
    proof {
        let k = choose|k: int| 0 <= k < string_views(detected@).len() && string_views(detected@)[k] == p@;
        assert(detected@[k]@ == p@);
    }
    0
}

/// `d1s` is `d0s` with the services of prefix `removed` taken out of every
/// compose document (a document that does not parse, or whose result does
/// not emit, stays as it was); other documents are unchanged.
pub open spec fn prefix_removed_from(d0s: Seq<Document>, d1s: Seq<Document>, removed: Seq<char>) -> bool {
    &&& d1s.len() == d0s.len()
    &&& forall|i: int|
        0 <= i < d0s.len() ==> {
            let d0 = #[trigger] d0s[i];
            let d1 = d1s[i];
            &&& d1.kind == d0.kind
            &&& d1.path@ == d0.path@
            &&& d1.original@ == d0.original@
            &&& (d0.kind != DocKind::Compose ==> d1.text@ == d0.text@)
            &&& (d0.kind == DocKind::Compose ==> match crate::yaml::yaml_parse(d0.text@) {
                Some(doc) => match yaml_emit(crate::docset::removed_doc(doc, removed)) {
                    Some(t) => d1.text@ == t,
                    None => d1.text@ == d0.text@,
                },
                None => d1.text@ == d0.text@,
            })
        }
}

/// Delete the prefix at `idx`: its services leave every compose document, it
/// leaves the list (the default prefix comes back when the list empties), and
/// the cursor stays within the list. Returns the removed prefix and the new
/// cursor.
pub fn delete_prefix(detected: &mut Vec<String>, docs: &mut Vec<Document>, cursor: usize, idx: usize) -> (r: (
    String,
    usize,
))
    requires
        idx < old(detected)@.len(),
    ensures
        r.0@ == old(detected)@[idx as int]@,
        string_views(final(detected)@) == if old(detected)@.len() == 1 {
            seq![DEFAULT_PREFIX@]
        } else {
            string_views(old(detected)@).remove(idx as int)
        },
        r.1 == if cursor < final(detected)@.len() {
            cursor
        } else {
            (final(detected)@.len() - 1) as usize
        },
        prefix_removed_from(old(docs)@, final(docs)@, r.0@),
{
    let ghost before = string_views(detected@);
    let removed = detected.remove(idx);
    proof {
        assert(string_views(detected@) =~= before.remove(idx as int));
    }
    let mut i: usize = 0;
    let ghost docs0 = docs@;
    while i < docs.len()
        invariant
            docs@.len() == docs0.len(),
            i <= docs@.len(),
            forall|k: int| i <= k < docs@.len() ==> #[trigger] docs@[k] == docs0[k],
            forall|k: int|
                0 <= k < i ==> {
                    let d0 = #[trigger] docs0[k];
                    let d1 = docs@[k];
                    &&& d1.kind == d0.kind
                    &&& d1.path@ == d0.path@
                    &&& d1.original@ == d0.original@
                    &&& (d0.kind != DocKind::Compose ==> d1.text@ == d0.text@)
                    &&& (d0.kind == DocKind::Compose ==> match crate::yaml::yaml_parse(d0.text@) {
                        Some(doc) => match yaml_emit(crate::docset::removed_doc(doc, removed@)) {
                            Some(t) => d1.text@ == t,
                            None => d1.text@ == d0.text@,
                        },
                        None => d1.text@ == d0.text@,
                    })
                },
        decreases docs.len() - i,
    {
        let is_compose = match docs[i].kind {
            DocKind::Compose => true,
            _ => false,
        };
        if is_compose {
            let new_text = remove_prefix_services(docs[i].text.as_str(), removed.as_str());
            let d = Document {
                kind: docs[i].kind,
                path: docs[i].path.as_str().to_owned(),
                text: new_text,
                original: docs[i].original.as_str().to_owned(),
            };
            docs.set(i, d);
        }
        i += 1;
    }
    if detected.len() == 0 {
        detected.push(DEFAULT_PREFIX.to_owned());
        proof {
            assert(string_views(detected@) =~= seq![DEFAULT_PREFIX@]);
        }
    }
    let n = detected.len();
    let c = if cursor < n {
        cursor
    } else {
        n - 1
    };
    (removed, c)
}


// ---------------------------------------------------------------------------
// Documents
// ---------------------------------------------------------------------------

/// The sample texts new ini documents start from.
pub struct Samples {
    pub config: String,
    pub wise: String,
    pub cont3xt: String,
}

pub open spec fn sample_of(s: Samples, kind: DocKind) -> Seq<char> {
    match kind {
        DocKind::ConfigIni => s.config@,
        DocKind::WiseIni => s.wise@,
        DocKind::Cont3xtIni => s.cont3xt@,
        _ => seq![],
    }
}

/// A document, as plain values.
pub struct DocV {
    pub kind: DocKind,
    pub path: Seq<char>,
    pub text: Seq<char>,
    pub original: Seq<char>,
}

pub open spec fn doc_v(d: Document) -> DocV {
    DocV { kind: d.kind, path: d.path@, text: d.text@, original: d.original@ }
}

pub open spec fn docs_v(v: Seq<Document>) -> Seq<DocV> {
    Seq::new(v.len(), |i: int| doc_v(v[i]))
}

/// A new document of `kind`: docker files start empty in the output dir; an
/// ini starts from its sample, with the install dir filled in and the other
/// placeholders blanked, under `<install_dir>/etc`.
pub open spec fn new_doc_spec(kind: DocKind, install: Seq<char>, out_dir: Seq<char>, samples: Samples) -> DocV {
    match kind {
        DocKind::Compose | DocKind::Env => DocV {
            kind,
            path: path_join(out_dir, kind.spec_filename()),
            text: seq![],
            original: seq![],
        },
        _ => {
            let base = render_spec(sample_of(samples, kind), seq![], seq![], seq![], install);
            DocV {
                kind,
                path: path_join(path_join(install, "etc"@), kind.spec_filename()),
                text: base,
                original: base,
            }
        },
    }
}

pub open spec fn has_kind(docs: Seq<DocV>, kind: DocKind) -> bool {
    exists|i: int| 0 <= i < docs.len() && (#[trigger] docs[i]).kind == kind
}

/// The documents after adding a new one of each wanted kind that is missing,
/// in the order wanted.
pub open spec fn add_missing(
    docs: Seq<DocV>,
    wanted: Seq<DocKind>,
    install: Seq<char>,
    out_dir: Seq<char>,
    samples: Samples,
) -> Seq<DocV>
    decreases wanted.len(),
{
    if wanted.len() == 0 {
        docs
    } else {
        let d = add_missing(docs, wanted.drop_last(), install, out_dir, samples);
        let k = wanted.last();
        if has_kind(d, k) {
            d
        } else {
            d.push(new_doc_spec(k, install, out_dir, samples))
        }
    }
}

/// The document set for a deployment: (new mode) only the wanted kinds are
/// kept, and a new document is added for each wanted kind that is missing.
pub open spec fn reconciled(
    docs: Seq<DocV>,
    dep: Deployment,
    is_load: bool,
    c: Components,
    install: Seq<char>,
    out_dir: Seq<char>,
    samples: Samples,
) -> Seq<DocV> {
    let wanted = spec_desired_doc_kinds(dep, c);
    let kept = if is_load {
        docs
    } else {
        docs.filter(|d: DocV| wanted.contains(d.kind))
    };
    add_missing(kept, wanted, install, out_dir, samples)
}

/// A document's text after the understood fields are merged into it.
pub open spec fn merged(
    d: DocV,
    text: Seq<char>,
    prefix: Seq<char>,
    c: Components,
    a: Answers,
    m: MountSelection,
    images: Images,
    enc: BasicAuthEncoding,
) -> bool {
    match d.kind {
        DocKind::Compose => emitted(compose_doc(base_doc(d.text), prefix, c, a, m, images), text),
        DocKind::Env => text == env_fold(d.text, a, enc, 8),
        _ => text == render_ini_spec(d.kind, d.text, a, enc),
    }
}

fn new_doc(kind: DocKind, install: &str, out_dir: &str, samples: &Samples) -> (d: Document)
    ensures
        doc_v(d) == new_doc_spec(kind, install@, out_dir@, *samples),
{
    match kind {
        DocKind::Compose | DocKind::Env => {
            let path = join_path(out_dir, kind.filename());
            Document { kind, path, text: String::new(), original: String::new() }
        },
        _ => {
            let sample = match kind {
                DocKind::ConfigIni => samples.config.as_str(),
                DocKind::WiseIni => samples.wise.as_str(),
                _ => samples.cont3xt.as_str(),
            };
            let base = fresh_ini_base(kind, sample, install);
            let etc = join_path(install, "etc");
            proof {
                reveal_strlit("etc");
            }
            let path = join_path(etc.as_str(), kind.filename());
            let original = base.as_str().to_owned();
            Document { kind, path, text: base, original }
        },
    }
}

fn copy_doc(d: &Document) -> (c: Document)
    ensures
        doc_v(c) == doc_v(*d),
{
    Document {
        kind: d.kind,
        path: d.path.as_str().to_owned(),
        text: d.text.as_str().to_owned(),
        original: d.original.as_str().to_owned(),
    }
}

fn has_kind_exec(docs: &Vec<Document>, kind: DocKind) -> (b: bool)
    ensures
        b == has_kind(docs_v(docs@), kind),
{
    let mut i: usize = 0;
    while i < docs.len()
        invariant
            i <= docs.len(),
            forall|k: int| 0 <= k < i ==> docs@[k].kind != kind,
        decreases docs.len() - i,
    {
        if docs[i].kind == kind {
            proof {
                assert(docs_v(docs@)[i as int].kind == kind);
            }
            return true;
        }
        i += 1;
    }
    proof {
        assert forall|k: int| 0 <= k < docs_v(docs@).len() implies (#[trigger] docs_v(docs@)[k]).kind != kind by {
            assert(docs_v(docs@)[k].kind == docs@[k].kind);
        }
    }
    false
}

fn kinds_contain(kinds: &Vec<DocKind>, k: DocKind) -> (b: bool)
    ensures
        b == kinds@.contains(k),
{
    let mut i: usize = 0;
    while i < kinds.len()
        invariant
            i <= kinds.len(),
            forall|j: int| 0 <= j < i ==> kinds@[j] != k,
        decreases kinds.len() - i,
    {
        if kinds[i] == k {
            return true;
        }
        i += 1;
    }
    false
}

/// The documents after reconciling `before` with the selections and merging
/// the understood fields into each; unchanged before a deployment is chosen.
pub open spec fn synced_docs(
    before: Seq<DocV>,
    after: Seq<DocV>,
    deployment: Option<Deployment>,
    is_load: bool,
    components: Components,
    answers: Answers,
    mounts: MountSelection,
    basic_auth: BasicAuthEncoding,
    prefix: Seq<char>,
    images: Images,
    install_dir: Seq<char>,
    out_dir: Seq<char>,
    samples: Samples,
) -> bool {
    match deployment {
        None => after == before,
        Some(dep) => {
            let base = reconciled(before, dep, is_load, components, install_dir, out_dir, samples);
            &&& after.len() == base.len()
            &&& forall|i: int|
                0 <= i < base.len() ==> {
                    let d = #[trigger] after[i];
                    &&& d.kind == base[i].kind
                    &&& d.path == base[i].path
                    &&& d.original == base[i].original
                    &&& merged(base[i], d.text, prefix, components, answers, mounts, images, basic_auth)
                }
        },
    }
}

/// Reconcile the document set with the deployment and components, then merge
/// the understood fields into every document (unknown content is kept).
/// Nothing happens before a deployment is chosen.
pub fn sync_docs(
    docs: &mut Vec<Document>,
    deployment: Option<Deployment>,
    is_load: bool,
    components: &Components,
    answers: &Answers,
    mounts: &MountSelection,
    basic_auth: BasicAuthEncoding,
    prefix: &str,
    images: &Images,
    install_dir: &str,
    out_dir: &str,
    samples: &Samples,
)
    ensures
        synced_docs(
            docs_v(old(docs)@),
            docs_v(final(docs)@),
            deployment,
            is_load,
            *components,
            *answers,
            *mounts,
            basic_auth,
            prefix@,
            *images,
            install_dir@,
            out_dir@,
            *samples,
        ),
{
    let dep = match deployment {
        Some(d) => d,
        None => return ,
    };
    let wanted = desired_doc_kinds(dep, components);
    let ghost dv0 = docs_v(docs@);
    // Keep (new mode: only the wanted kinds).
    let mut kept: Vec<Document> = Vec::new();
    let mut i: usize = 0;
    while i < docs.len()
        invariant
            wanted@ == spec_desired_doc_kinds(dep, *components),
            dv0 == docs_v(docs@),
            i <= docs.len(),
            docs_v(kept@) == if is_load {
                dv0.take(i as int)
            } else {
                dv0.take(i as int).filter(|d: DocV| wanted@.contains(d.kind))
            },
        decreases docs.len() - i,
    {
        proof {
            reveal(Seq::filter);
            assert(dv0.take(i + 1).drop_last() =~= dv0.take(i as int));
            assert(dv0.take(i + 1).last() == doc_v(docs@[i as int]));
        }
        if is_load || kinds_contain(&wanted, docs[i].kind) {
            let ghost before = docs_v(kept@);
            kept.push(copy_doc(&docs[i]));
            proof {
                assert(docs_v(kept@) =~= before.push(doc_v(docs@[i as int])));
            }
        }
        i += 1;
    }
    proof {
        assert(dv0.take(dv0.len() as int) =~= dv0);
    }
    // Add the missing kinds.
    let ghost kept0 = docs_v(kept@);
    let mut j: usize = 0;
    while j < wanted.len()
        invariant
            wanted@ == spec_desired_doc_kinds(dep, *components),
            j <= wanted.len(),
            docs_v(kept@) == add_missing(kept0, wanted@.take(j as int), install_dir@, out_dir@, *samples),
        decreases wanted.len() - j,
    {
        proof {
            assert(wanted@.take(j + 1).drop_last() =~= wanted@.take(j as int));
            assert(wanted@.take(j + 1).last() == wanted@[j as int]);
        }
        let k = wanted[j];
        if !has_kind_exec(&kept, k) {
            let ghost before = docs_v(kept@);
            let d = new_doc(k, install_dir, out_dir, samples);
            let ghost dv = doc_v(d);
            kept.push(d);
            proof {
                assert(docs_v(kept@) =~= before.push(dv));
            }
        }
        j += 1;
    }
    proof {
        assert(wanted@.take(wanted@.len() as int) =~= wanted@);
    }
    // Merge the understood fields.
    let ghost base = docs_v(kept@);
    let mut out: Vec<Document> = Vec::new();
    let mut t: usize = 0;
    while t < kept.len()
        invariant
            base == docs_v(kept@),
            t <= kept.len(),
            out@.len() == t,
            forall|q: int|
                0 <= q < t ==> {
                    let d = #[trigger] docs_v(out@)[q];
                    &&& d.kind == base[q].kind
                    &&& d.path == base[q].path
                    &&& d.original == base[q].original
                    &&& merged(base[q], d.text, prefix@, *components, *answers, *mounts, *images, basic_auth)
                },
        decreases kept.len() - t,
    {
        let d = &kept[t];
        let text = match d.kind {
            DocKind::Compose => render_compose(d.text.as_str(), prefix, components, answers, mounts, images),
            DocKind::Env => render_env(d.text.as_str(), answers, basic_auth),
            _ => render_ini(d.kind, d.text.as_str(), answers, basic_auth),
        };
        proof {
            assert(base[t as int] == doc_v(kept@[t as int]));
        }
        let nd = Document {
            kind: d.kind,
            path: d.path.as_str().to_owned(),
            text,
            original: d.original.as_str().to_owned(),
        };
        let ghost before = out@;
        out.push(nd);
        proof {
            assert forall|q: int| 0 <= q < t + 1 implies {
                let d = #[trigger] docs_v(out@)[q];
                &&& d.kind == base[q].kind
                &&& d.path == base[q].path
                &&& d.original == base[q].original
                &&& merged(base[q], d.text, prefix@, *components, *answers, *mounts, *images, basic_auth)
            } by {
                if q < t {
                    assert(out@[q] == before[q]);
                    assert(docs_v(out@)[q] == docs_v(before)[q]);
                }
            }
        }
        t += 1;
    }
    *docs = out;
}


// ---------------------------------------------------------------------------
// Applying
// ---------------------------------------------------------------------------

pub const NATIVE_NEEDS_ROOT: &'static str = "Native setup must run as root. Re-run with sudo, or go back and choose Docker (which needs no root).";

pub const DOCKER_NOT_STARTED: &'static str = "Files written. Nothing is running yet — start Arkime with:";

/// The env file holds secrets: owner-only.
pub open spec fn doc_mode(kind: DocKind) -> u32 {
    if kind == DocKind::Env {
        0o600
    } else {
        0o644
    }
}

pub open spec fn write_line(path: Seq<char>, o: Outcome) -> (Level, Seq<char>) {
    match o {
        Outcome::Done(true) => (Level::Info, "Kept existing "@ + path),
        Outcome::Failed(e) => (Level::Error, "writing "@ + path + ": "@ + e),
        _ => (Level::Info, "Wrote "@ + path),
    }
}

/// One document written. Load mode backs the file up first (logging where)
/// and overwrites it; new mode writes it only when no file is there.
pub open spec fn write_doc_trace(d: DocV, is_load: bool, outs: Seq<Outcome>) -> Trace {
    if is_load {
        let saved = match outs[0] {
            Outcome::Saved(p) => seq![(Level::Info, "Backed up to "@ + p)],
            _ => seq![],
        };
        let w = match outs[1] {
            Outcome::Failed(e) => Outcome::Failed(e),
            _ => Outcome::Done(false),
        };
        Trace {
            reqs: seq![Req::Backup(d.path), Req::WriteFile(d.path, d.text, doc_mode(d.kind))],
            logs: saved.push(write_line(d.path, w)),
            rest: outs.skip(2),
        }
    } else {
        Trace {
            reqs: seq![Req::WriteNew(d.path, d.text)],
            logs: seq![write_line(d.path, outs[0])],
            rest: outs.drop_first(),
        }
    }
}

pub open spec fn write_docs_trace(docs: Seq<DocV>, is_load: bool, outs: Seq<Outcome>) -> Trace
    decreases docs.len(),
{
    if docs.len() == 0 {
        idle(outs)
    } else {
        let a = write_doc_trace(docs[0], is_load, outs);
        join(a, write_docs_trace(docs.drop_first(), is_load, a.rest))
    }
}

/// What applying requests and logs: native setup without root is refused;
/// otherwise every document is written, then docker says how to start the
/// containers and native runs its system actions.
pub open spec fn apply_trace(
    dep: Option<Deployment>,
    is_root: bool,
    is_load: bool,
    docs: Seq<DocV>,
    out_dir: Seq<char>,
    install: Seq<char>,
    platform: Platform,
    c: Components,
    a: Answers,
    h: HostFacts,
    outs: Seq<Outcome>,
) -> Trace {
    if dep == Some(Deployment::Native) && !is_root {
        note(outs, Level::Error, NATIVE_NEEDS_ROOT@)
    } else {
        let t = write_docs_trace(docs, is_load, outs);
        if dep == Some(Deployment::Docker) {
            join(
                t,
                Trace {
                    reqs: seq![],
                    logs: seq![
                        (Level::Info, DOCKER_NOT_STARTED@),
                        (Level::Info, "    cd "@ + out_dir + " && docker compose up -d"@),
                    ],
                    rest: t.rest,
                },
            )
        } else {
            join(t, native_trace(install, platform, c, a, h, t.rest))
        }
    }
}

fn push_line(log: &mut Vec<LogLine>, level: Level, text: String)
    ensures
        extends(log_views(old(log)@), log_views(final(log)@)),
        new_logs(old(log)@, final(log)@) == seq![(level, text@)],
{
    log.push(LogLine::new(level, text));
    proof {
        assert(log_views(final(log)@) =~= log_views(old(log)@).push((level, text@)));
        assert(log_views(final(log)@).take(old(log)@.len() as int) =~= log_views(old(log)@));
        assert(new_logs(old(log)@, final(log)@) =~= seq![(level, text@)]);
    }
}

fn log_write(log: &mut Vec<LogLine>, path: &str, o: Result<bool, String>)
    ensures
        extends(log_views(old(log)@), log_views(final(log)@)),
        new_logs(old(log)@, final(log)@) == seq![write_line(path@, flag_outcome(o))],
{
    match o {
        Ok(true) => push_line(log, Level::Info, cat("Kept existing ", path)),
        Ok(false) => push_line(log, Level::Info, cat("Wrote ", path)),
        Err(e) => push_line(log, Level::Error, cat(cat(cat("writing ", path).as_str(), ": ").as_str(), e.as_str())),
    }
}

/// Write one document and log how it went.
fn write_doc<O: SystemOps>(ops: &mut O, d: &Document, is_load: bool, log: &mut Vec<LogLine>)
    ensures
        extends(old(ops).requests(), final(ops).requests()),
        extends(log_views(old(log)@), log_views(final(log)@)),
        forall|tail: Seq<Outcome>|
            #[trigger] write_doc_trace(doc_v(*d), is_load, new_outs(old(ops).requests(), final(ops).requests()) + tail)
                == (Trace {
                reqs: new_reqs(old(ops).requests(), final(ops).requests()),
                logs: new_logs(old(log)@, final(log)@),
                rest: tail,
            }),
{
    let ghost h0 = ops.requests();
    let ghost l0 = log@;
    let mode: u32 = match d.kind {
        DocKind::Env => 0o600,
        _ => 0o644,
    };
    if is_load {
        let b = ops.backup(d.path.as_str());
        let ghost xb = (Req::Backup(d.path@), backup_outcome(b));
        proof {
            lemma_one_more(h0, xb);
        }
        let ghost h1 = ops.requests();
        match b {
            Ok(Some(bak)) => push_line(log, Level::Info, cat("Backed up to ", bak.as_str())),
            _ => {
                proof {
                    lemma_log_unchanged(l0);
                }
            },
        }
        let ghost l1 = log@;
        let w = ops.write_file(d.path.as_str(), d.text.as_str(), mode);
        let ghost xw = (Req::WriteFile(d.path@, d.text@, mode), unit_outcome(w));
        proof {
            lemma_one_more(h1, xw);
        }
        let flag: Result<bool, String> = match w {
            Ok(()) => Ok(false),
            Err(e) => Err(e),
        };
        log_write(log, d.path.as_str(), flag);
        proof {
            let h2 = ops.requests();
            lemma_split_history(h0, h1, h2);
            lemma_extends_trans(h0, h1, h2);
            lemma_split_log(l0, l1, log@);
            lemma_extends_trans(log_views(l0), log_views(l1), log_views(log@));
            assert forall|tail: Seq<Outcome>| #[trigger] write_doc_trace(doc_v(*d), is_load, new_outs(h0, h2) + tail)
                == (Trace { reqs: new_reqs(h0, h2), logs: new_logs(l0, log@), rest: tail }) by {
                let outs = new_outs(h0, h2) + tail;
                assert(new_outs(h0, h2) =~= seq![xb.1, xw.1]);
                assert(outs[0] == xb.1);
                assert(outs[1] == xw.1);
                assert(outs.skip(2) =~= tail);
                assert(new_reqs(h0, h2) =~= seq![xb.0, xw.0]);
                let saved = match outs[0] {
                    Outcome::Saved(p) => seq![(Level::Info, "Backed up to "@ + p)],
                    _ => Seq::<(Level, Seq<char>)>::empty(),
                };
                assert(new_logs(l0, l1) == saved);
                let wo = match outs[1] {
                    Outcome::Failed(e) => Outcome::Failed(e),
                    _ => Outcome::Done(false),
                };
                assert(wo == flag_outcome(flag));
                assert(new_logs(l1, log@) == seq![write_line(d.path@, wo)]);
                assert(new_logs(l0, log@) =~= saved.push(write_line(d.path@, wo)));
                let t = write_doc_trace(doc_v(*d), is_load, outs);
                assert(t.reqs == new_reqs(h0, h2));
                assert(t.logs == new_logs(l0, log@));
                assert(t.rest == tail);
            }
        }
    } else {
        let r = ops.write_new(d.path.as_str(), d.text.as_str());
        let ghost x = (Req::WriteNew(d.path@, d.text@), flag_outcome(r));
        proof {
            lemma_one_more(h0, x);
        }
        log_write(log, d.path.as_str(), r);
        proof {
            assert forall|tail: Seq<Outcome>| #[trigger] write_doc_trace(doc_v(*d), is_load, new_outs(h0, ops.requests()) + tail)
                == (Trace { reqs: new_reqs(h0, ops.requests()), logs: new_logs(l0, log@), rest: tail }) by {
                assert((seq![x.1] + tail).drop_first() =~= tail);
            }
        }
    }
}

/// Write every document, in order.
#[verifier::spinoff_prover]
#[verifier::rlimit(60)]
fn write_docs<O: SystemOps>(ops: &mut O, docs: &Vec<Document>, is_load: bool, log: &mut Vec<LogLine>)
    ensures
        extends(old(ops).requests(), final(ops).requests()),
        extends(log_views(old(log)@), log_views(final(log)@)),
        forall|tail: Seq<Outcome>|
            #[trigger] write_docs_trace(docs_v(docs@), is_load, new_outs(old(ops).requests(), final(ops).requests()) + tail)
                == (Trace {
                reqs: new_reqs(old(ops).requests(), final(ops).requests()),
                logs: new_logs(old(log)@, final(log)@),
                rest: tail,
            }),
{
    let ghost h0 = ops.requests();
    let ghost l0 = log@;
    let ghost dv = docs_v(docs@);
    proof {
        lemma_no_more(h0);
        lemma_log_unchanged(l0);
        assert(dv.skip(0) =~= dv);
        assert forall|tail: Seq<Outcome>| #[trigger] write_docs_trace(dv, is_load, new_outs(h0, h0) + tail)
            == (Trace {
            reqs: new_reqs(h0, h0) + write_docs_trace(dv.skip(0), is_load, tail).reqs,
            logs: new_logs(l0, l0) + write_docs_trace(dv.skip(0), is_load, tail).logs,
            rest: write_docs_trace(dv.skip(0), is_load, tail).rest,
        }) by {
            let t = write_docs_trace(dv, is_load, tail);
            assert(new_outs(h0, h0) + tail =~= tail);
            assert(new_reqs(h0, h0) + t.reqs =~= t.reqs);
            assert(new_logs(l0, l0) + t.logs =~= t.logs);
        }
    }
    let mut i: usize = 0;
    while i < docs.len()
        invariant
            h0 == old(ops).requests(),
            l0 == old(log)@,
            dv == docs_v(docs@),
            i <= docs.len(),
            extends(h0, ops.requests()),
            extends(log_views(l0), log_views(log@)),
            forall|tail: Seq<Outcome>|
                #[trigger] write_docs_trace(dv, is_load, new_outs(h0, ops.requests()) + tail) == (Trace {
                    reqs: new_reqs(h0, ops.requests()) + write_docs_trace(dv.skip(i as int), is_load, tail).reqs,
                    logs: new_logs(l0, log@) + write_docs_trace(dv.skip(i as int), is_load, tail).logs,
                    rest: write_docs_trace(dv.skip(i as int), is_load, tail).rest,
                }),
        decreases docs.len() - i,
    {
        let ghost h1 = ops.requests();
        let ghost l1 = log@;
        write_doc(ops, &docs[i], is_load, log);
        proof {
            let h2 = ops.requests();
            let l2 = log@;
            lemma_split_history(h0, h1, h2);
            lemma_split_log(l0, l1, l2);
            lemma_extends_trans(h0, h1, h2);
            lemma_extends_trans(log_views(l0), log_views(l1), log_views(l2));
            assert(dv.skip(i as int)[0] == doc_v(docs@[i as int]));
            assert(dv.skip(i as int).drop_first() =~= dv.skip(i + 1));
            assert forall|tail: Seq<Outcome>| #[trigger] write_docs_trace(dv, is_load, new_outs(h0, h2) + tail)
                == (Trace {
                reqs: new_reqs(h0, h2) + write_docs_trace(dv.skip(i + 1), is_load, tail).reqs,
                logs: new_logs(l0, l2) + write_docs_trace(dv.skip(i + 1), is_load, tail).logs,
                rest: write_docs_trace(dv.skip(i + 1), is_load, tail).rest,
            }) by {
                let tail1 = new_outs(h1, h2) + tail;
                assert(new_outs(h0, h2) + tail =~= new_outs(h0, h1) + tail1);
                let sc = write_doc_trace(doc_v(docs@[i as int]), is_load, tail1);
                assert(sc == (Trace { reqs: new_reqs(h1, h2), logs: new_logs(l1, l2), rest: tail }));
                let rest = write_docs_trace(dv.skip(i + 1), is_load, tail);
                assert(write_docs_trace(dv.skip(i as int), is_load, tail1) == join(sc, rest));
                assert(new_reqs(h0, h1) + (new_reqs(h1, h2) + rest.reqs) =~= new_reqs(h0, h2) + rest.reqs);
                assert(new_logs(l0, l1) + (new_logs(l1, l2) + rest.logs) =~= new_logs(l0, l2) + rest.logs);
            }
        }
        i += 1;
    }
    proof {
        assert(dv.skip(i as int) =~= Seq::<DocV>::empty());
        assert forall|tail: Seq<Outcome>| #[trigger] write_docs_trace(dv, is_load, new_outs(h0, ops.requests()) + tail)
            == (Trace { reqs: new_reqs(h0, ops.requests()), logs: new_logs(l0, log@), rest: tail }) by {
            assert(new_reqs(h0, ops.requests()) + Seq::<Req>::empty() =~= new_reqs(h0, ops.requests()));
            assert(new_logs(l0, log@) + Seq::<(Level, Seq<char>)>::empty() =~= new_logs(l0, log@));
        }
    }
}

/// Write the documents to disk and, for native, run the system actions;
/// returns the log. Native setup needs root and is refused without it.
#[verifier::spinoff_prover]
#[verifier::rlimit(50)]
pub fn run_apply<O: SystemOps>(
    ops: &mut O,
    deployment: Option<Deployment>,
    is_root: bool,
    is_load: bool,
    docs: &Vec<Document>,
    out_dir: &str,
    build: &BuildConfig,
    platform: Platform,
    components: &Components,
    answers: &Answers,
    host: &HostFacts,
) -> (log: Vec<LogLine>)
    ensures
        extends(old(ops).requests(), final(ops).requests()),
        apply_trace(
            deployment,
            is_root,
            is_load,
            docs_v(docs@),
            out_dir@,
            build.install_dir@,
            platform,
            *components,
            *answers,
            *host,
            new_outs(old(ops).requests(), final(ops).requests()),
        ) == (Trace {
            reqs: new_reqs(old(ops).requests(), final(ops).requests()),
            logs: log_views(log@),
            rest: seq![],
        }),
{
    let ghost h0 = ops.requests();
    let mut log: Vec<LogLine> = Vec::new();
    let native = match deployment {
        Some(Deployment::Native) => true,
        _ => false,
    };
    let docker = match deployment {
        Some(Deployment::Docker) => true,
        _ => false,
    };
    if native && !is_root {
        push_line(&mut log, Level::Error, NATIVE_NEEDS_ROOT.to_owned());
        proof {
            lemma_no_more(h0);
            assert(new_outs(h0, h0) =~= Seq::<Outcome>::empty());
            assert(log_views(log@) =~= seq![(Level::Error, NATIVE_NEEDS_ROOT@)]);
        }
        return log;
    }
    let ghost l0 = log@;
    write_docs(ops, docs, is_load, &mut log);
    let ghost h1 = ops.requests();
    let ghost l1 = log@;
    if docker {
        push_line(&mut log, Level::Info, DOCKER_NOT_STARTED.to_owned());
        let ghost l2 = log@;
        let line = cat(cat("    cd ", out_dir).as_str(), " && docker compose up -d");
        push_line(&mut log, Level::Info, line);
        proof {
            lemma_no_more(h1);
            lemma_split_log(l1, l2, log@);
            lemma_extends_trans(log_views(l1), log_views(l2), log_views(log@));
            lemma_split_log(l0, l1, log@);
            let t = write_docs_trace(docs_v(docs@), is_load, new_outs(h0, h1) + Seq::<Outcome>::empty());
            assert(new_outs(h0, h1) + Seq::<Outcome>::empty() =~= new_outs(h0, h1));
            assert(t.rest == Seq::<Outcome>::empty());
            assert(new_reqs(h0, h1) + Seq::<Req>::empty() =~= new_reqs(h0, h1));
            assert(log_views(l0) =~= Seq::<(Level, Seq<char>)>::empty());
            assert(new_logs(l0, log@) =~= log_views(log@));
            assert(new_logs(l0, l1) =~= log_views(l1));
            let at = apply_trace(
                deployment,
                is_root,
                is_load,
                docs_v(docs@),
                out_dir@,
                build.install_dir@,
                platform,
                *components,
                *answers,
                *host,
                new_outs(h0, h1),
            );
            assert(at.reqs =~= new_reqs(h0, h1));
            assert(at.logs =~= log_views(log@));
            assert(at.rest == Seq::<Outcome>::empty());
        }
    } else {
        system_actions(ops, build, platform, components, answers, host, &mut log);
        proof {
            let h2 = ops.requests();
            lemma_split_history(h0, h1, h2);
            lemma_extends_trans(h0, h1, h2);
            lemma_split_log(l0, l1, log@);
            let t = write_docs_trace(docs_v(docs@), is_load, new_outs(h0, h1) + new_outs(h1, h2));
            assert(t == (Trace { reqs: new_reqs(h0, h1), logs: new_logs(l0, l1), rest: new_outs(h1, h2) }));
            assert(log_views(l0) =~= Seq::<(Level, Seq<char>)>::empty());
            assert(new_logs(l0, log@) =~= log_views(log@));
            let nt = native_trace(build.install_dir@, platform, *components, *answers, *host, new_outs(h1, h2));
            assert(nt == (Trace { reqs: new_reqs(h1, h2), logs: new_logs(l1, log@), rest: seq![] }));
            let at = apply_trace(
                deployment,
                is_root,
                is_load,
                docs_v(docs@),
                out_dir@,
                build.install_dir@,
                platform,
                *components,
                *answers,
                *host,
                new_outs(h0, h2),
            );
            assert(at == join(t, nt));
            assert(at.reqs =~= new_reqs(h0, h2));
            assert(at.logs =~= log_views(log@));
        }
    }
    log
}


// ---------------------------------------------------------------------------
// Loading existing files
// ---------------------------------------------------------------------------

/// The service prefixes of a loaded compose file: the one managed, all found
/// (managed first) and the ones left untouched.
pub struct PrefixState {
    pub service_prefix: String,
    pub detected: Vec<String>,
    pub others: Vec<String>,
}

/// The prefix state a loaded compose text gives: the detected dominant
/// prefix and the others, or the default prefix when none is found.
pub open spec fn prefix_state_of(text: Seq<char>, st: PrefixState) -> bool {
    let found = match crate::yaml::yaml_parse(text) {
        Some(doc) => match compose_services(doc) {
            Some(sm) => exists|p: Seq<char>| #[trigger] crate::docset::stem_count(sm, p) > 0,
            None => false,
        },
        None => false,
    };
    if found {
        &&& detection_of(
            compose_services(crate::yaml::yaml_parse(text).unwrap()).unwrap(),
            st.service_prefix@,
            string_views(st.others@),
        )
        &&& string_views(st.detected@) == seq![st.service_prefix@] + string_views(st.others@)
    } else {
        &&& st.service_prefix@ == DEFAULT_PREFIX@
        &&& st.detected@.len() == 0
        &&& st.others@.len() == 0
    }
}

fn copy_strings(v: &Vec<String>) -> (c: Vec<String>)
    ensures
        string_views(c@) == string_views(v@),
{
    let mut c: Vec<String> = Vec::new();
    let mut i: usize = 0;
    while i < v.len()
        invariant
            i <= v.len(),
            string_views(c@) == string_views(v@).take(i as int),
        decreases v.len() - i,
    {
        let ghost before = string_views(c@);
        c.push(v[i].as_str().to_owned());
        proof {
            assert(string_views(c@) =~= before.push(v@[i as int]@));
            assert(string_views(v@).take(i + 1) =~= string_views(v@).take(i as int).push(v@[i as int]@));
        }
        i += 1;
    }
    proof {
        assert(string_views(v@).take(v@.len() as int) =~= string_views(v@));
    }
    c
}

/// The compose text read under `prefix` (when it parses), then the env
/// text, into the components, answers and mounts.
pub open spec fn docker_read(
    compose_text: Seq<char>,
    env_text: Seq<char>,
    prefix: Seq<char>,
    c0: Components,
    a0: Answers,
    m0: MountSelection,
    c1: Components,
    a1: Answers,
    m1: MountSelection,
) -> bool {
    exists|mid: Answers| {
        &&& match crate::yaml::yaml_parse(compose_text) {
            Some(doc) => read_compose_spec(doc, prefix, c0, a0, m0, c1, mid, m1),
            None => c1 == c0 && mid == a0 && m1 == m0,
        }
        &&& #[trigger] parsed_env(env_text, mid, a1)
    }
}

/// Load a docker deployment from its compose text and the env text beside it
/// (empty when there is none): detect the service prefixes, read the compose
/// file under the managed prefix, then the env file, and keep both as
/// documents.
pub fn load_docker(
    compose_path: &str,
    compose_text: &str,
    env_path: &str,
    env_text: &str,
    components: &mut Components,
    answers: &mut Answers,
    mounts: &mut MountSelection,
) -> (r: (PrefixState, Vec<Document>))
    ensures
        prefix_state_of(compose_text@, r.0),
        docs_v(r.1@) == seq![
            DocV { kind: DocKind::Compose, path: compose_path@, text: compose_text@, original: compose_text@ },
            DocV { kind: DocKind::Env, path: env_path@, text: env_text@, original: env_text@ },
        ],
        docker_read(
            compose_text@,
            env_text@,
            r.0.service_prefix@,
            *old(components),
            *old(answers),
            *old(mounts),
            *final(components),
            *final(answers),
            *final(mounts),
        ),
{
    let st = match detect_prefix(compose_text) {
        Some(det) => {
            let mut detected: Vec<String> = Vec::new();
            detected.push(det.prefix.as_str().to_owned());
            let mut i: usize = 0;
            while i < det.others.len()
                invariant
                    i <= det.others.len(),
                    string_views(detected@) == seq![det.prefix@] + string_views(det.others@).take(i as int),
                decreases det.others.len() - i,
            {
                let ghost before = string_views(detected@);
                detected.push(det.others[i].as_str().to_owned());
                proof {
                    assert(string_views(detected@) =~= before.push(det.others@[i as int]@));
                    assert(string_views(det.others@).take(i + 1) =~= string_views(det.others@).take(i as int).push(
                        det.others@[i as int]@,
                    ));
                }
                i += 1;
            }
            proof {
                assert(string_views(det.others@).take(det.others@.len() as int) =~= string_views(det.others@));
                let sm = compose_services(crate::yaml::yaml_parse(compose_text@).unwrap()).unwrap();
                assert(crate::docset::stem_count(sm, det.prefix@) > 0);
            }
            let others = copy_strings(&det.others);
            PrefixState { service_prefix: det.prefix, detected, others }
        },
        None => {
            proof {
                assert(string_views(Seq::<String>::empty()) =~= Seq::<Seq<char>>::empty());
            }
            PrefixState { service_prefix: DEFAULT_PREFIX.to_owned(), detected: Vec::new(), others: Vec::new() }
        },
    };
    parse_compose(compose_text, st.service_prefix.as_str(), components, answers, mounts);
    let ghost mid = *answers;
    parse_env(env_text, answers);
    let mut docs: Vec<Document> = Vec::new();
    docs.push(
        Document {
            kind: DocKind::Compose,
            path: compose_path.to_owned(),
            text: compose_text.to_owned(),
            original: compose_text.to_owned(),
        },
    );
    docs.push(
        Document {
            kind: DocKind::Env,
            path: env_path.to_owned(),
            text: env_text.to_owned(),
            original: env_text.to_owned(),
        },
    );
    proof {
        assert(docs_v(docs@) =~= seq![
            DocV { kind: DocKind::Compose, path: compose_path@, text: compose_text@, original: compose_text@ },
            DocV { kind: DocKind::Env, path: env_path@, text: env_text@, original: env_text@ },
        ]);
    }
    (st, docs)
}

/// The ini kinds a native load reads, in order.
pub open spec fn native_kinds() -> Seq<DocKind> {
    seq![DocKind::ConfigIni, DocKind::WiseIni, DocKind::Cont3xtIni]
}

/// What reading one found ini does to the components: config.ini means
/// capture and viewer; wise.ini and cont3xt.ini their service.
pub open spec fn components_after_load(c: Components, found: Seq<bool>) -> Components {
    Components {
        capture: c.capture || found[0],
        viewer: c.viewer || found[0],
        wise: c.wise || found[1],
        parliament: c.parliament,
        cont3xt: c.cont3xt || found[2],
    }
}

/// One ini read into the answers (or none, when it was not found).
pub open spec fn ini_step(t: Option<String>, kind: DocKind, a: Answers, b: Answers) -> bool {
    match t {
        Some(text) => parsed_ini(kind, text@, a, b),
        None => b == a,
    }
}

/// The document kept for the ini found at position `i` of a native load.
pub open spec fn native_doc(dir: Seq<char>, texts: Seq<Option<String>>, i: int) -> DocV {
    DocV {
        kind: native_kinds()[i],
        path: path_join(dir, native_kinds()[i].spec_filename()),
        text: texts[i].unwrap()@,
        original: texts[i].unwrap()@,
    }
}

pub const NO_INI_FOUND: &'static str = "no ini files found in ";

/// Which of config.ini, wise.ini and cont3xt.ini were found.
pub open spec fn native_found(texts: Seq<Option<String>>) -> Seq<bool> {
    Seq::new(3, |i: int| texts[i] is Some)
}

/// The found ini texts read into the answers, in order.
pub open spec fn native_read(texts: Seq<Option<String>>, a0: Answers, a3: Answers) -> bool {
    exists|a1: Answers, a2: Answers|
        #[trigger] ini_step(texts[0], DocKind::ConfigIni, a0, a1) && #[trigger] ini_step(
            texts[1],
            DocKind::WiseIni,
            a1,
            a2,
        ) && ini_step(texts[2], DocKind::Cont3xtIni, a2, a3)
}

/// The documents of the found ini files, in order; an error naming the
/// directory when none was found.
pub open spec fn native_result(dir: Seq<char>, texts: Seq<Option<String>>) -> Result<Seq<DocV>, Seq<char>> {
    let found = native_found(texts);
    if found[0] || found[1] || found[2] {
        Ok(Seq::new(3, |i: int| i).filter(|i: int| found[i]).map_values(|i: int| native_doc(dir, texts, i)))
    } else {
        Err(NO_INI_FOUND@ + dir)
    }
}

/// Load a native deployment: `texts` are the contents of config.ini,
/// wise.ini and cont3xt.ini in `dir`, where found. Each found file is read
/// into the answers and components, in that order, and kept as a document;
/// an error when none is found.
pub fn load_native(
    dir: &str,
    texts: &Vec<Option<String>>,
    components: &mut Components,
    answers: &mut Answers,
) -> (r: Result<Vec<Document>, String>)
    requires
        texts@.len() == 3,
    ensures
        *final(components) == components_after_load(*old(components), native_found(texts@)),
        native_read(texts@, *old(answers), *final(answers)),
        match r {
            Ok(docs) => native_result(dir@, texts@) == Ok::<Seq<DocV>, Seq<char>>(docs_v(docs@)),
            Err(e) => native_result(dir@, texts@) == Err::<Seq<DocV>, Seq<char>>(e@),
        },
{
    let kinds = vec![DocKind::ConfigIni, DocKind::WiseIni, DocKind::Cont3xtIni];
    let ghost found = Seq::new(3, |i: int| texts@[i] is Some);
    let ghost a0 = *answers;
    let ghost c0 = *components;
    let mut docs: Vec<Document> = Vec::new();
    let mut i: usize = 0;
    let ghost mut steps: Seq<Answers> = seq![a0];
    while i < 3
        invariant
            kinds@ == native_kinds(),
            texts@.len() == 3,
            found == Seq::new(3, |i: int| texts@[i] is Some),
            i <= 3,
            steps.len() == i + 1,
            steps[0] == a0,
            steps[i as int] == *answers,
            forall|k: int| 0 <= k < i ==> ini_step(texts@[k], native_kinds()[k], #[trigger] steps[k], steps[k + 1]),
            *components == components_after_load(c0, Seq::new(3, |k: int| k < i && found[k])),
            docs_v(docs@) == Seq::new(i as nat, |k: int| k).filter(|k: int| found[k]).map_values(
                |k: int| native_doc(dir@, texts@, k),
            ),
        decreases 3 - i,
    {
        let ghost before = docs_v(docs@);
        let kind = kinds[i];
        match &texts[i] {
            Some(text) => {
                parse_ini(kind, text.as_str(), answers);
                match kind {
                    DocKind::ConfigIni => {
                        components.capture = true;
                        components.viewer = true;
                    },
                    DocKind::WiseIni => {
                        components.wise = true;
                    },
                    _ => {
                        components.cont3xt = true;
                    },
                }
                let path = join_path(dir, kind.filename());
                docs.push(
                    Document {
                        kind,
                        path,
                        text: text.as_str().to_owned(),
                        original: text.as_str().to_owned(),
                    },
                );
                proof {
                    reveal(Seq::filter);
                    assert(kind == native_kinds()[i as int]);
                    assert(doc_v(docs@.last()) == native_doc(dir@, texts@, i as int));
                    assert(docs_v(docs@) =~= before.push(native_doc(dir@, texts@, i as int)));
                    assert(Seq::new((i + 1) as nat, |k: int| k).drop_last() =~= Seq::new(i as nat, |k: int| k));
                    assert(Seq::new((i + 1) as nat, |k: int| k).filter(|k: int| found[k]) =~= Seq::new(
                        i as nat,
                        |k: int| k,
                    ).filter(|k: int| found[k]).push(i as int));
                }
            },
            None => {
                proof {
                    reveal(Seq::filter);
                    assert(Seq::new((i + 1) as nat, |k: int| k).drop_last() =~= Seq::new(i as nat, |k: int| k));
                    assert(Seq::new((i + 1) as nat, |k: int| k).filter(|k: int| found[k]) =~= Seq::new(
                        i as nat,
                        |k: int| k,
                    ).filter(|k: int| found[k]));
                }
            },
        }
        proof {
            steps = steps.push(*answers);
            assert(Seq::new(3, |k: int| k < i + 1 && found[k]) =~= Seq::new(3, |k: int| k < i && found[k]).update(
                i as int,
                found[i as int],
            ));
        }
        i += 1;
    }
    proof {
        assert(Seq::new(3, |k: int| k < 3 && found[k]) =~= found);
        assert(Seq::new(3nat, |k: int| k) =~= Seq::new(3, |i: int| i));
        assert(ini_step(texts@[0], DocKind::ConfigIni, a0, steps[1]));
        assert(ini_step(texts@[1], DocKind::WiseIni, steps[1], steps[2]));
        assert(ini_step(texts@[2], DocKind::Cont3xtIni, steps[2], *answers));
    }
    if docs.len() == 0 {
        proof {
            reveal(Seq::filter);
            if found[0] || found[1] || found[2] {
                let j: int = if found[0] { 0 } else if found[1] { 1 } else { 2 };
                let idx = Seq::new(3, |i: int| i);
                let pred = |k: int| found[k];
                idx.lemma_filter_contains(pred, j);
                assert(idx.filter(pred).len() > 0);
            }
        }
        return Err(cat(NO_INI_FOUND, dir));
    }
    proof {
        let idx = Seq::new(3, |i: int| i);
        let pred = |k: int| found[k];
        assert(idx.filter(pred).len() > 0);
        idx.lemma_filter_pred(pred, 0);
        idx.lemma_filter_contains_rev(pred, idx.filter(pred)[0]);
    }
    Ok(docs)
}

} // verus!
