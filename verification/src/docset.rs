//! In-memory documents and their two-way sync with the wizard.
//!
//! Each output file is held as editable text. `render_*` merges the wizard's
//! understood fields into a document while preserving everything else
//! (unknown ini keys, unknown env vars, comments). `parse_*` reads the
//! understood fields back out, so hand edits flow back into the wizard.

use vstd::prelude::*;
use crate::config::substitute::{
    basic_auth_spec, basic_auth_value, get_key_spec, get_key_value, render, render_spec,
    first_value_line, set_ini_key_opt, set_ini_key_spec, value_line, BasicAuthEncoding, Substitutions,
};
use crate::config::templates::SampleKind;
use crate::domain::answers::{Answers, SINGLE_NODE_ES_URL, UPLOAD_COMMAND};
use crate::domain::components::{Component, Components};
use crate::domain::es_backend::EsBackend;
use crate::domain::answers::DEFAULT_ES_DATA_DIR;
use crate::domain::components::all_components;
use crate::interfaces::strictly_sorted;
use crate::domain::mounts::{all_mounts, MountKind, MountSelection};
use crate::text::{
    chars_lt, lex_lt, lemma_lex_irreflexive, lemma_lex_transitive, lemma_lex_trichotomy,
    strip_suffix, strip_suffix_of, trim_start, trim_start_at, cat, chars_of, copy_range, extend, join_lines, lines, push_joined, split_lines, split_once,
    split_once_spec, string_from, string_views, trim, views,
};
use crate::yaml::{
    key_is, empty_mapping, lemma_view_mapping, lemma_view_sequence, as_mapping, as_sequence, as_str, clone_yaml, emit_yaml, entries_view, find_key, get_entry,
    has_key, items_view, key_at, key_index, map_del, map_get, map_set, mapping_of, parse_yaml,
    remove_entry, sequence_of, set_entry, str_items, str_of, untag, yaml_emit, yaml_parse, ystr,
    ystr_items, Yaml, YamlV,
};

verus! {

/// Container images used when materializing docker services.
pub struct Images {
    pub arkime: String,
    pub elasticsearch: String,
}

impl Default for Images {
    fn default() -> (i: Images)
        ensures
            i.arkime@ == "arkime/arkime:latest"@,
            i.elasticsearch@ == "elasticsearch:8.19.19"@,
    {
        Images {
            arkime: "arkime/arkime:latest".to_owned(),
            elasticsearch: "elasticsearch:8.19.19".to_owned(),
        }
    }
}

#[derive(Debug, Clone, Copy, PartialEq, Eq, Structural)]
pub enum DocKind {
    ConfigIni,
    WiseIni,
    Cont3xtIni,
    Compose,
    Env,
}

impl DocKind {
    pub open spec fn spec_filename(self) -> Seq<char> {
        match self {
            DocKind::ConfigIni => "config.ini"@,
            DocKind::WiseIni => "wise.ini"@,
            DocKind::Cont3xtIni => "cont3xt.ini"@,
            DocKind::Compose => "docker-compose.yml"@,
            DocKind::Env => "arkime.env"@,
        }
    }

    pub fn filename(self) -> (s: &'static str)
        ensures
            s@ == self.spec_filename(),
    {
        match self {
            DocKind::ConfigIni => "config.ini",
            DocKind::WiseIni => "wise.ini",
            DocKind::Cont3xtIni => "cont3xt.ini",
            DocKind::Compose => "docker-compose.yml",
            DocKind::Env => "arkime.env",
        }
    }

    pub open spec fn spec_sample(self) -> Option<SampleKind> {
        match self {
            DocKind::ConfigIni => Some(SampleKind::Config),
            DocKind::WiseIni => Some(SampleKind::Wise),
            DocKind::Cont3xtIni => Some(SampleKind::Cont3xt),
            _ => None,
        }
    }

    /// The sample an ini document starts from.
    pub fn sample(self) -> (k: Option<SampleKind>)
        ensures
            k == self.spec_sample(),
    {
        match self {
            DocKind::ConfigIni => Some(SampleKind::Config),
            DocKind::WiseIni => Some(SampleKind::Wise),
            DocKind::Cont3xtIni => Some(SampleKind::Cont3xt),
            _ => None,
        }
    }
}

/// One in-memory output file.
pub struct Document {
    pub kind: DocKind,
    /// Where it will be written (native: <etc>/x.ini; docker: <out_dir>/x).
    pub path: String,
    pub text: String,
    /// The text at load/creation time — the baseline for a diff view.
    pub original: String,
}

pub const ENV_FILE: &'static str = "arkime.env";

// ---------------------------------------------------------------------------
// INI
// ---------------------------------------------------------------------------

/// Fresh ini base: the sample with ARKIME_INSTALL_DIR substituted and field
/// placeholders blanked, ready for `render_ini` to fill. `sample` is the text
/// of `kind`'s sample (as loaded by the caller).
pub fn fresh_ini_base(kind: DocKind, sample: &str, install_dir: &str) -> (base: String)
    requires
        kind.spec_sample() is Some,
    ensures
        base@ == render_spec(sample@, seq![], seq![], seq![], install_dir@),
{
    let blank = "";
    proof {
        reveal_strlit("");
        assert(blank@ =~= Seq::<char>::empty());
    }
    render(
        sample,
        &Substitutions { interface: blank, elasticsearch: blank, password: blank, install_dir },
    )
}

/// Apply `set_ini_key_spec` only when `b` holds.
pub open spec fn set_if(b: bool, t: Seq<char>, key: Seq<char>, value: Seq<char>, append: bool) -> Seq<
    char,
> {
    if b {
        set_ini_key_spec(t, key, value, append)
    } else {
        t
    }
}

/// What `render_ini` produces: for config.ini the interface, elasticsearch and
/// passwordSecret keys are set (appended when absent), plugins/wiseURL/
/// uploadCommand/basic auth only when present in the answers; for wise.ini and
/// cont3xt.ini only keys already in the file are touched.
pub open spec fn render_ini_spec(kind: DocKind, base: Seq<char>, a: Answers, enc: BasicAuthEncoding) -> Seq<
    char,
> {
    let auth = basic_auth_spec(a.es_user@, a.es_password@, enc);
    let es = a.spec_elasticsearch_or_default();
    match kind {
        DocKind::ConfigIni => {
            let t = set_ini_key_spec(base, "interface"@, a.interfaces@, true);
            let t = set_ini_key_spec(t, "elasticsearch"@, es, true);
            let t = set_ini_key_spec(t, "passwordSecret"@, a.s2s_password@, true);
            let t = set_if(a.plugins@.len() > 0, t, "plugins"@, a.plugins@, true);
            let t = set_if(a.wise_url@.len() > 0, t, "wiseURL"@, a.wise_url@, true);
            let t = set_if(a.enable_uploads, t, "uploadCommand"@, UPLOAD_COMMAND@, true);
            set_if(a.spec_has_es_user(), t, "elasticsearchBasicAuth"@, auth, true)
        },
        DocKind::WiseIni | DocKind::Cont3xtIni => {
            let t = set_ini_key_spec(base, "elasticsearch"@, es, false);
            let t = set_ini_key_spec(t, "passwordSecret"@, a.s2s_password@, false);
            set_if(a.spec_has_es_user(), t, "elasticsearchBasicAuth"@, auth, false)
        },
        _ => base,
    }
}

/// Merge understood fields into an ini document, preserving unknown keys.
pub fn render_ini(kind: DocKind, base: &str, answers: &Answers, basic_auth: BasicAuthEncoding) -> (out:
    String)
    ensures
        out@ == render_ini_spec(kind, base@, *answers, basic_auth),
{
    let auth = basic_auth_value(answers.es_user.as_str(), answers.es_password.as_str(), basic_auth);
    let has_user = answers.has_es_user();
    let es = answers.elasticsearch_or_default();
    match kind {
        DocKind::ConfigIni => {
            let t = set_ini_key_opt(base, "interface", answers.interfaces.as_str(), true);
            let t = set_ini_key_opt(t.as_str(), "elasticsearch", es, true);
            let t = set_ini_key_opt(t.as_str(), "passwordSecret", answers.s2s_password.as_str(), true);
            let t = if !answers.plugins.as_str().is_empty() {
                set_ini_key_opt(t.as_str(), "plugins", answers.plugins.as_str(), true)
            } else {
                t
            };
            let t = if !answers.wise_url.as_str().is_empty() {
                set_ini_key_opt(t.as_str(), "wiseURL", answers.wise_url.as_str(), true)
            } else {
                t
            };
            let t = if answers.enable_uploads {
                set_ini_key_opt(t.as_str(), "uploadCommand", UPLOAD_COMMAND, true)
            } else {
                t
            };
            if has_user {
                set_ini_key_opt(t.as_str(), "elasticsearchBasicAuth", auth.as_str(), true)
            } else {
                t
            }
        },
        DocKind::WiseIni | DocKind::Cont3xtIni => {
            // Only touch keys already present; never append unrelated keys.
            let t = set_ini_key_opt(base, "elasticsearch", es, false);
            let t = set_ini_key_opt(t.as_str(), "passwordSecret", answers.s2s_password.as_str(), false);
            if has_user {
                set_ini_key_opt(t.as_str(), "elasticsearchBasicAuth", auth.as_str(), false)
            } else {
                t
            }
        },
        _ => base.to_owned(),
    }
}

/// `old` replaced by the value read, when one was read.
pub open spec fn or_keep(old: Seq<char>, read: Option<Seq<char>>) -> Seq<char> {
    match read {
        Some(v) => v,
        None => old,
    }
}

/// The user read from a `user:pass` basic-auth value, when there is one.
pub open spec fn auth_user(old: Seq<char>, read: Option<Seq<char>>) -> Seq<char> {
    match read {
        Some(v) => match split_once_spec(v, ':') {
            Some(p) => p.0,
            None => old,
        },
        None => old,
    }
}

/// The password read from a `user:pass` basic-auth value, when there is one.
pub open spec fn auth_pass(old: Seq<char>, read: Option<Seq<char>>) -> Seq<char> {
    match read {
        Some(v) => match split_once_spec(v, ':') {
            Some(p) => p.1,
            None => old,
        },
        None => old,
    }
}

/// The fields of `a` other than the ones the document parsers write.
pub open spec fn same_unparsed_fields(a: Answers, b: Answers) -> bool {
    &&& a.es_backend == b.es_backend
    &&& a.es_data_dir@ == b.es_data_dir@
    &&& a.download_geoip == b.download_geoip
    &&& a.maxmind_account@ == b.maxmind_account@
    &&& a.maxmind_key@ == b.maxmind_key@
    &&& a.init_db == b.init_db
    &&& a.create_admin == b.create_admin
    &&& a.admin_user@ == b.admin_user@
    &&& a.admin_password@ == b.admin_password@
    &&& a.viewer_plugins@ == b.viewer_plugins@
}

/// How `parse_ini` changes the answers: each understood key that is present
/// (uncommented) overwrites its field; in config.ini, uploads are enabled
/// exactly when `uploadCommand` is set; a `user:pass` basic-auth value sets
/// user and password.
pub open spec fn parsed_ini(kind: DocKind, text: Seq<char>, a: Answers, b: Answers) -> bool {
    let cfg = kind == DocKind::ConfigIni;
    let auth = get_key_spec(text, "elasticsearchBasicAuth"@);
    &&& b.interfaces@ == if cfg {
        or_keep(a.interfaces@, get_key_spec(text, "interface"@))
    } else {
        a.interfaces@
    }
    &&& b.plugins@ == if cfg {
        or_keep(a.plugins@, get_key_spec(text, "plugins"@))
    } else {
        a.plugins@
    }
    &&& b.wise_url@ == if cfg {
        or_keep(a.wise_url@, get_key_spec(text, "wiseURL"@))
    } else {
        a.wise_url@
    }
    &&& b.enable_uploads == if cfg {
        get_key_spec(text, "uploadCommand"@) is Some
    } else {
        a.enable_uploads
    }
    &&& b.elasticsearch@ == or_keep(a.elasticsearch@, get_key_spec(text, "elasticsearch"@))
    &&& b.s2s_password@ == or_keep(a.s2s_password@, get_key_spec(text, "passwordSecret"@))
    &&& b.es_user@ == auth_user(a.es_user@, auth)
    &&& b.es_password@ == auth_pass(a.es_password@, auth)
    &&& same_unparsed_fields(a, b)
}

/// Overwrite `field` with the value of `key` in `text`, when present.
fn read_key(text: &str, key: &str, field: &mut String)
    ensures
        final(field)@ == or_keep(old(field)@, get_key_spec(text@, key@)),
{
    if let Some(v) = get_key_value(text, key) {
        *field = v;
    }
}

/// Set user and password from a `user:pass` basic-auth value under `key`.
fn read_auth(text: &str, key: &str, user: &mut String, pass: &mut String)
    ensures
        final(user)@ == auth_user(old(user)@, get_key_spec(text@, key@)),
        final(pass)@ == auth_pass(old(pass)@, get_key_spec(text@, key@)),
{
    if let Some(v) = get_key_value(text, key) {
        if let Some((u, p)) = split_once(v.as_str(), ':') {
            *user = u;
            *pass = p;
        }
    }
}

/// Read understood fields out of an ini document into `answers`.
pub fn parse_ini(kind: DocKind, text: &str, answers: &mut Answers)
    ensures
        parsed_ini(kind, text@, *old(answers), *final(answers)),
{
    if kind == DocKind::ConfigIni {
        read_key(text, "interface", &mut answers.interfaces);
        read_key(text, "plugins", &mut answers.plugins);
        read_key(text, "wiseURL", &mut answers.wise_url);
        answers.enable_uploads = get_key_value(text, "uploadCommand").is_some();
    }
    read_key(text, "elasticsearch", &mut answers.elasticsearch);
    read_key(text, "passwordSecret", &mut answers.s2s_password);
    read_auth(text, "elasticsearchBasicAuth", &mut answers.es_user, &mut answers.es_password);
}

// ---------------------------------------------------------------------------
// ENV (docker)
// ---------------------------------------------------------------------------

/// The `ARKIME__*` variables managed in the env file, in the order they are
/// merged.
pub open spec fn env_key(i: int) -> Seq<char> {
    if i == 0 {
        "ARKIME__dropUser"@
    } else if i == 1 {
        "ARKIME__uploadCommand"@
    } else if i == 2 {
        "ARKIME__interface"@
    } else if i == 3 {
        "ARKIME__elasticsearch"@
    } else if i == 4 {
        "ARKIME__elasticsearchBasicAuth"@
    } else if i == 5 {
        "ARKIME__passwordSecret"@
    } else if i == 6 {
        "ARKIME__plugins"@
    } else {
        "ARKIME__wiseURL"@
    }
}

/// `v` when `b` holds.
pub open spec fn some_if(b: bool, v: Seq<char>) -> Option<Seq<char>> {
    if b {
        Some(v)
    } else {
        None
    }
}

/// The value of the `i`-th managed variable (None = remove it): the containers
/// always drop privileges to `nobody`; the ES URL points at the single-node
/// backend when one is run.
pub open spec fn env_value(i: int, a: Answers, enc: BasicAuthEncoding) -> Option<Seq<char>> {
    if i == 0 {
        Some("nobody"@)
    } else if i == 1 {
        some_if(a.enable_uploads, UPLOAD_COMMAND@)
    } else if i == 2 {
        some_if(a.interfaces@.len() > 0, a.interfaces@)
    } else if i == 3 {
        if a.es_backend != EsBackend::External {
            Some(SINGLE_NODE_ES_URL@)
        } else {
            Some(a.spec_elasticsearch_or_default())
        }
    } else if i == 4 {
        some_if(a.spec_has_es_user(), basic_auth_spec(a.es_user@, a.es_password@, enc))
    } else if i == 5 {
        some_if(a.s2s_password@.len() > 0, a.s2s_password@)
    } else if i == 6 {
        some_if(a.plugins@.len() > 0, a.plugins@)
    } else {
        some_if(a.wise_url@.len() > 0, a.wise_url@)
    }
}

/// The managed variables with their values, in merge order.
pub fn env_pairs(a: &Answers, enc: BasicAuthEncoding) -> (pairs: Vec<(&'static str, Option<String>)>)
    ensures
        pairs@.len() == 8,
        forall|i: int|
            0 <= i < 8 ==> {
                &&& (#[trigger] pairs@[i]).0@ == env_key(i)
                &&& pairs@[i].1 is None <==> env_value(i, *a, enc) is None
                &&& pairs@[i].1 matches Some(v) ==> env_value(i, *a, enc) == Some(v@)
            },
{
    let mut pairs: Vec<(&'static str, Option<String>)> = Vec::new();
    pairs.push(("ARKIME__dropUser", Some("nobody".to_owned())));
    pairs.push(
        (
            "ARKIME__uploadCommand",
            if a.enable_uploads {
                Some(UPLOAD_COMMAND.to_owned())
            } else {
                None
            },
        ),
    );
    pairs.push(
        (
            "ARKIME__interface",
            if !a.interfaces.as_str().is_empty() {
                Some(a.interfaces.as_str().to_owned())
            } else {
                None
            },
        ),
    );
    let es = if a.es_backend.is_some() {
        SINGLE_NODE_ES_URL.to_owned()
    } else {
        a.elasticsearch_or_default().to_owned()
    };
    pairs.push(("ARKIME__elasticsearch", Some(es)));
    pairs.push(
        (
            "ARKIME__elasticsearchBasicAuth",
            if a.has_es_user() {
                Some(basic_auth_value(a.es_user.as_str(), a.es_password.as_str(), enc))
            } else {
                None
            },
        ),
    );
    pairs.push(
        (
            "ARKIME__passwordSecret",
            if !a.s2s_password.as_str().is_empty() {
                Some(a.s2s_password.as_str().to_owned())
            } else {
                None
            },
        ),
    );
    pairs.push(
        (
            "ARKIME__plugins",
            if !a.plugins.as_str().is_empty() {
                Some(a.plugins.as_str().to_owned())
            } else {
                None
            },
        ),
    );
    pairs.push(
        (
            "ARKIME__wiseURL",
            if !a.wise_url.as_str().is_empty() {
                Some(a.wise_url.as_str().to_owned())
            } else {
                None
            },
        ),
    );
    pairs
}

/// The lines kept by `set_env_key`: each uncommented `key=` line becomes
/// `key=value`, or is dropped when there is no value; other lines stay.
pub open spec fn env_kept(ls: Seq<Seq<char>>, needle: Seq<char>, value: Option<Seq<char>>) -> Seq<
    Seq<char>,
>
    decreases ls.len(),
{
    if ls.len() == 0 {
        seq![]
    } else {
        let r = env_kept(ls.drop_last(), needle, value);
        let l = ls.last();
        if value_line(l, needle) {
            match value {
                Some(v) => r.push(needle + v),
                None => r,
            }
        } else {
            r.push(l)
        }
    }
}

/// What `set_env_key` produces: the kept lines joined with `\n` and ended with
/// a newline when non-empty; `key=value\n` appended when no line set the key.
pub open spec fn set_env_spec(text: Seq<char>, key: Seq<char>, value: Option<Seq<char>>) -> Seq<char> {
    let ls = lines(text);
    let needle = key + seq!['='];
    let body = join_lines(env_kept(ls, needle, value));
    let body = if body.len() > 0 { body.push('\n') } else { body };
    let found = exists|k: int| 0 <= k < ls.len() && value_line(#[trigger] ls[k], needle);
    match value {
        Some(v) => if found {
            body
        } else {
            body + (needle + v).push('\n')
        },
        None => body,
    }
}

/// The value of an uncommented `key=` line in an env file.
pub fn get_env_key(text: &str, key: &str) -> (r: Option<String>)
    ensures
        r matches Some(s) ==> get_key_spec(text@, key@) == Some(s@),
        r is None ==> get_key_spec(text@, key@) is None,
{
    get_key_value(text, key)
}

fn value_line_exec(line: &Vec<char>, needle: &Vec<char>) -> (b: bool)
    ensures
        b == value_line(line@, needle@),
{
    let n = line.len();
    let a = crate::text::trim_start_at(line, 0, n);
    proof {
        assert(line@.subrange(0, n as int) == line@);
    }
    let commented = a < n && line[a] == '#';
    !commented && crate::text::has_prefix_at(line, a, n, needle)
}

/// Set (`Some`), or remove (`None`), every uncommented `key=value` env line.
/// Unknown lines and comments are preserved in place.
pub fn set_env_key(text: &str, key: &str, value: Option<&str>) -> (out: String)
    ensures
        out@ == set_env_spec(
            text@,
            key@,
            match value {
                Some(v) => Some(v@),
                None => None,
            },
        ),
{
    let ghost val: Option<Seq<char>> = match value {
        Some(v) => Some(v@),
        None => None,
    };
    let tv = chars_of(text);
    let mut needle = chars_of(key);
    needle.push('=');
    let mut nl = copy_range(&needle, 0, needle.len());
    proof {
        assert(needle@.subrange(0, needle@.len() as int) == needle@);
    }
    if let Some(v) = value {
        let vv = chars_of(v);
        extend(&mut nl, &vv);
    }
    let ls = split_lines(&tv);
    let ghost lsv = lines(text@);
    let mut kept: Vec<Vec<char>> = Vec::new();
    let mut done = false;
    let mut j: usize = 0;
    while j < ls.len()
        invariant
            views(ls@) == lsv,
            lsv == lines(text@),
            needle@ == key@ + seq!['='],
            val is Some ==> nl@ == needle@ + val->0,
            val is Some <==> value is Some,
            j <= ls.len(),
            views(kept@) == env_kept(lsv.take(j as int), needle@, val),
            done == exists|k: int| 0 <= k < j && value_line(#[trigger] lsv[k], needle@),
        decreases ls.len() - j,
    {
        let line = &ls[j];
        proof {
            assert(lsv[j as int] == line@);
            assert(lsv.take(j + 1).drop_last() == lsv.take(j as int));
            assert(lsv.take(j + 1).last() == line@);
        }
        let hit = value_line_exec(line, &needle);
        let ghost before = views(kept@);
        if hit {
            done = true;
            if value.is_some() {
                let c = copy_range(&nl, 0, nl.len());
                proof {
                    assert(nl@.subrange(0, nl@.len() as int) == nl@);
                }
                kept.push(c);
                proof {
                    assert(views(kept@) == before.push(nl@));
                }
            }
        } else {
            let c = copy_range(line, 0, line.len());
            proof {
                assert(line@.subrange(0, line@.len() as int) == line@);
            }
            kept.push(c);
            proof {
                assert(views(kept@) == before.push(line@));
            }
        }
        proof {
            if !hit {
                assert forall|k: int| 0 <= k < j + 1 && value_line(#[trigger] lsv[k], needle@) implies k
                    < j by {}
            } else {
                assert(value_line(lsv[j as int], needle@));
            }
        }
        j += 1;
    }
    proof {
        assert(lsv.take(lsv.len() as int) == lsv);
    }
    let mut out: Vec<char> = Vec::new();
    let mut k: usize = 0;
    while k < kept.len()
        invariant
            k <= kept.len(),
            out@ == join_lines(views(kept@).take(k as int)),
        decreases kept.len() - k,
    {
        proof {
            assert(views(kept@).take(k + 1) == views(kept@).take(k as int).push(kept@[k as int]@));
        }
        push_joined(&mut out, k, &kept[k], Ghost(views(kept@).take(k as int)));
        k += 1;
    }
    proof {
        assert(views(kept@).take(kept@.len() as int) == views(kept@));
    }
    if out.len() > 0 {
        out.push('\n');
    }
    if !done && value.is_some() {
        extend(&mut out, &nl);
        out.push('\n');
    }
    string_from(&out)
}

/// The env file after merging the first `n` managed variables into `t`.
pub open spec fn env_fold(t: Seq<char>, a: Answers, enc: BasicAuthEncoding, n: nat) -> Seq<char>
    decreases n,
{
    if n == 0 {
        t
    } else {
        set_env_spec(env_fold(t, a, enc, (n - 1) as nat), env_key(n - 1), env_value(n - 1, a, enc))
    }
}

/// Merge understood `ARKIME__*` vars into an env file, preserving unknown vars:
/// the eight managed variables are set or removed in order.
pub fn render_env(base: &str, answers: &Answers, basic_auth: BasicAuthEncoding) -> (out: String)
    ensures
        out@ == env_fold(base@, *answers, basic_auth, 8),
{
    let pairs = env_pairs(answers, basic_auth);
    let mut t = base.to_owned();
    let mut i: usize = 0;
    while i < pairs.len()
        invariant
            pairs@.len() == 8,
            forall|k: int|
                0 <= k < 8 ==> {
                    &&& (#[trigger] pairs@[k]).0@ == env_key(k)
                    &&& pairs@[k].1 is None <==> env_value(k, *answers, basic_auth) is None
                    &&& pairs@[k].1 matches Some(v) ==> env_value(k, *answers, basic_auth) == Some(
                        v@,
                    )
                },
            i <= 8,
            t@ == env_fold(base@, *answers, basic_auth, i as nat),
        decreases 8 - i,
    {
        let (key, val) = &pairs[i];
        let next = match val {
            Some(v) => set_env_key(t.as_str(), key, Some(v.as_str())),
            None => set_env_key(t.as_str(), key, None),
        };
        proof {
            assert(pairs@[i as int].0@ == env_key(i as int));
        }
        t = next;
        i += 1;
    }
    t
}

/// How `parse_env` changes the answers: each understood variable that is set
/// overwrites its field; uploads are enabled exactly when
/// `ARKIME__uploadCommand` is set; a `user:pass` basic-auth value sets user and
/// password.
pub open spec fn parsed_env(text: Seq<char>, a: Answers, b: Answers) -> bool {
    let auth = get_key_spec(text, "ARKIME__elasticsearchBasicAuth"@);
    &&& b.interfaces@ == or_keep(a.interfaces@, get_key_spec(text, "ARKIME__interface"@))
    &&& b.elasticsearch@ == or_keep(a.elasticsearch@, get_key_spec(text, "ARKIME__elasticsearch"@))
    &&& b.s2s_password@ == or_keep(a.s2s_password@, get_key_spec(text, "ARKIME__passwordSecret"@))
    &&& b.plugins@ == or_keep(a.plugins@, get_key_spec(text, "ARKIME__plugins"@))
    &&& b.wise_url@ == or_keep(a.wise_url@, get_key_spec(text, "ARKIME__wiseURL"@))
    &&& b.enable_uploads == (get_key_spec(text, "ARKIME__uploadCommand"@) is Some)
    &&& b.es_user@ == auth_user(a.es_user@, auth)
    &&& b.es_password@ == auth_pass(a.es_password@, auth)
    &&& same_unparsed_fields(a, b)
}

/// Read understood `ARKIME__*` vars back into `answers`.
pub fn parse_env(text: &str, answers: &mut Answers)
    ensures
        parsed_env(text@, *old(answers), *final(answers)),
{
    read_key(text, "ARKIME__interface", &mut answers.interfaces);
    read_key(text, "ARKIME__elasticsearch", &mut answers.elasticsearch);
    read_key(text, "ARKIME__passwordSecret", &mut answers.s2s_password);
    read_key(text, "ARKIME__plugins", &mut answers.plugins);
    read_key(text, "ARKIME__wiseURL", &mut answers.wise_url);
    answers.enable_uploads = get_key_value(text, "ARKIME__uploadCommand").is_some();
    read_auth(
        text,
        "ARKIME__elasticsearchBasicAuth",
        &mut answers.es_user,
        &mut answers.es_password,
    );
}

// ---------------------------------------------------------------------------
// COMPOSE service naming
// ---------------------------------------------------------------------------

/// The default service-name prefix (`arkime-viewer`, `arkime-capture`, …).
pub const DEFAULT_PREFIX: &'static str = "arkime-";

/// The compose service name of component `c` under `prefix`.
pub fn arkime_service_name(prefix: &str, c: Component) -> (s: String)
    ensures
        s@ == prefix@ + c.spec_label(),
{
    let mut s = prefix.to_owned();
    s.append(c.label());
    s
}

/// Turn component `c` on or off, leaving the others as they were.
pub fn set_component(components: &mut Components, c: Component, on: bool)
    ensures
        final(components).has(c) == on,
        forall|d: Component| d != c ==> final(components).has(d) == old(components).has(d),
{
    if components.contains(c) != on {
        components.toggle(c);
    }
}

/// What was learned about the arkime service naming in a loaded compose.
pub struct PrefixDetection {
    /// The prefix to manage (the one used by the most services).
    pub prefix: String,
    /// Any other prefixes also present — left untouched.
    pub others: Vec<String>,
}


// ---------------------------------------------------------------------------
// COMPOSE documents
// ---------------------------------------------------------------------------

/// `v` with the value under its `!tag`s replaced by `inner` (tags kept).
pub open spec fn with_inner(v: YamlV, inner: YamlV) -> YamlV
    decreases v,
{
    match v {
        YamlV::Tagged(t, b) => YamlV::Tagged(t, Box::new(with_inner(*b, inner))),
        _ => inner,
    }
}

/// The `!tag`s of `v`, outermost first.
pub open spec fn tags_of(v: YamlV) -> Seq<Seq<char>>
    decreases v,
{
    match v {
        YamlV::Tagged(t, b) => seq![t] + tags_of(*b),
        _ => seq![],
    }
}

/// `inner` under the `!tag`s `tags`, outermost first.
pub open spec fn wrap(tags: Seq<Seq<char>>, inner: YamlV) -> YamlV
    decreases tags.len(),
{
    if tags.len() == 0 {
        inner
    } else {
        YamlV::Tagged(tags[0], Box::new(wrap(tags.drop_first(), inner)))
    }
}

proof fn lemma_with_inner_wrap(v: YamlV, inner: YamlV)
    ensures
        with_inner(v, inner) == wrap(tags_of(v), inner),
    decreases v,
{
    if let YamlV::Tagged(t, b) = v {
        lemma_with_inner_wrap(*b, inner);
        assert((seq![t] + tags_of(*b)).drop_first() =~= tags_of(*b));
    }
}

/// Split a value into its `!tag`s (outermost first) and the value under them.
fn peel(y: Yaml) -> (r: (Vec<String>, Yaml))
    ensures
        string_views(r.0@) == tags_of(y@),
        r.1@ == untag(y@),
{
    let ghost orig = y@;
    let mut tags: Vec<String> = Vec::new();
    let mut cur = y;
    loop
        invariant
            tags_of(orig) == string_views(tags@) + tags_of(cur@),
            untag(orig) == untag(cur@),
        ensures
            tags_of(orig) == string_views(tags@),
            untag(orig) == cur@,
        decreases cur@,
    {
        match cur {
            Yaml::Tagged(t, b) => {
                let ghost before = string_views(tags@);
                proof {
                    assert(cur@ == YamlV::Tagged(t@, Box::new(b@)));
                    assert(decreases_to!(cur@ => b@));
                }
                let ghost tv = t@;
                tags.push(t);
                proof {
                    assert(string_views(tags@) =~= before.push(tv));
                    assert(before + (seq![tv] + tags_of(b@)) =~= before.push(tv) + tags_of(b@));
                }
                cur = *b;
            },
            _ => {
                proof {
                    assert(string_views(tags@) + Seq::<Seq<char>>::empty() =~= string_views(tags@));
                }
                break ;
            },
        }
    }
    (tags, cur)
}

/// `inner` under the `!tag`s `tags`, outermost first.
fn rewrap(tags: Vec<String>, inner: Yaml) -> (y: Yaml)
    ensures
        y@ == wrap(string_views(tags@), inner@),
{
    let ghost tv = string_views(tags@);
    let mut tags = tags;
    let mut cur = inner;
    proof {
        assert(tv.skip(tv.len() as int) =~= Seq::<Seq<char>>::empty());
    }
    while tags.len() > 0
        invariant
            tags@.len() <= tv.len(),
            string_views(tags@) == tv.take(tags@.len() as int),
            cur@ == wrap(tv.skip(tags@.len() as int), inner@),
        decreases tags.len(),
    {
        let n = tags.len();
        let ghost old_tags = tags@;
        let t = tags.pop().unwrap();
        proof {
            assert(string_views(old_tags)[n - 1] == old_tags[n - 1]@);
            assert(tv.take(n as int)[n - 1] == tv[n - 1]);
            assert(t@ == tv[n - 1]);
            assert(string_views(tags@) =~= tv.take(n - 1));
            assert(tv.skip(n - 1).drop_first() =~= tv.skip(n as int));
            assert(tv.skip(n - 1)[0] == tv[n - 1]);
        }
        cur = Yaml::Tagged(t, Box::new(cur));
    }
    proof {
        assert(tv.skip(0) =~= tv);
    }
    cur
}

/// The compose service name of component `c` under `prefix`.
pub open spec fn service_name(prefix: Seq<char>, c: Component) -> Seq<char> {
    prefix + c.spec_label()
}

/// The service's host port mapping, replacing host networking.
pub open spec fn with_port(s: Seq<(YamlV, YamlV)>, p: Seq<char>) -> Seq<(YamlV, YamlV)> {
    map_set(map_del(map_del(s, "network_mode"@), "cap_add"@), "ports"@, str_items(seq![p]))
}

/// Our standard fields of component `c`'s service, merged into its existing
/// entries `svc`.
pub open spec fn fill_spec(
    svc: Seq<(YamlV, YamlV)>,
    c: Component,
    images: Images,
    es_depends: bool,
    mounts: MountSelection,
    components: Components,
) -> Seq<(YamlV, YamlV)> {
    let s1 = map_set(svc, "image"@, YamlV::Str(images.arkime@));
    let s2 = map_set(s1, "command"@, YamlV::Str(c.spec_label()));
    let s3 = map_set(s2, "env_file"@, str_items(seq![ENV_FILE@]));
    let s4 = map_set(s3, "restart"@, YamlV::Str("unless-stopped"@));
    let binds = mounts.spec_specs_for(c, components);
    let s5 = if binds.len() == 0 {
        map_del(s4, "volumes"@)
    } else {
        map_set(s4, "volumes"@, str_items(binds))
    };
    let s6 = if es_depends {
        map_set(s5, "depends_on"@, str_items(seq!["elasticsearch"@]))
    } else {
        map_del(s5, "depends_on"@)
    };
    match c {
        Component::Capture => map_del(
            map_set(
                map_set(s6, "network_mode"@, YamlV::Str("host"@)),
                "cap_add"@,
                str_items(seq!["NET_ADMIN"@, "NET_RAW"@]),
            ),
            "ports"@,
        ),
        Component::Viewer => map_del(
            map_del(map_set(s6, "network_mode"@, YamlV::Str("host"@)), "cap_add"@),
            "ports"@,
        ),
        Component::Wise => with_port(s6, "8081:8081"@),
        Component::Parliament => with_port(s6, "8008:8008"@),
        Component::Cont3xt => with_port(s6, "3218:3218"@),
    }
}

fn set_str(m: &mut Vec<(Yaml, Yaml)>, key: &str, value: &str)
    ensures
        entries_view(final(m)@) == map_set(entries_view(old(m)@), key@, YamlV::Str(value@)),
{
    set_entry(m, key, ystr(value));
}

fn set_strs(m: &mut Vec<(Yaml, Yaml)>, key: &str, items: &Vec<String>)
    ensures
        entries_view(final(m)@) == map_set(entries_view(old(m)@), key@, str_items(string_views(items@))),
{
    set_entry(m, key, ystr_items(items));
}

fn one_string(a: &str) -> (v: Vec<String>)
    ensures
        string_views(v@) == seq![a@],
{
    let v = vec![a.to_owned()];
    proof {
        assert(string_views(v@) =~= seq![a@]);
    }
    v
}

fn port(svc: &mut Vec<(Yaml, Yaml)>, p: &str)
    ensures
        entries_view(final(svc)@) == with_port(entries_view(old(svc)@), p@),
{
    remove_entry(svc, "network_mode");
    remove_entry(svc, "cap_add");
    set_strs(svc, "ports", &one_string(p));
}

/// Merge our standard fields of component `c`'s service into `svc`.
fn fill_arkime_service(
    svc: &mut Vec<(Yaml, Yaml)>,
    c: Component,
    images: &Images,
    es_depends: bool,
    mounts: &MountSelection,
    components: &Components,
)
    ensures
        entries_view(final(svc)@) == fill_spec(
            entries_view(old(svc)@),
            c,
            *images,
            es_depends,
            *mounts,
            *components,
        ),
{
    set_str(svc, "image", images.arkime.as_str());
    set_str(svc, "command", c.label());
    set_strs(svc, "env_file", &one_string(ENV_FILE));
    set_str(svc, "restart", "unless-stopped");
    let binds = mounts.specs_for(c, components);
    if binds.len() == 0 {
        remove_entry(svc, "volumes");
    } else {
        set_strs(svc, "volumes", &binds);
    }
    if es_depends {
        set_strs(svc, "depends_on", &one_string("elasticsearch"));
    } else {
        remove_entry(svc, "depends_on");
    }
    match c {
        Component::Capture => {
            set_str(svc, "network_mode", "host");
            let mut caps = one_string("NET_ADMIN");
            let ghost before = string_views(caps@);
            caps.push("NET_RAW".to_owned());
            proof {
                assert(string_views(caps@) =~= before.push("NET_RAW"@));
                assert(string_views(caps@) =~= seq!["NET_ADMIN"@, "NET_RAW"@]);
            }
            set_strs(svc, "cap_add", &caps);
            remove_entry(svc, "ports");
        },
        Component::Viewer => {
            set_str(svc, "network_mode", "host");
            remove_entry(svc, "cap_add");
            remove_entry(svc, "ports");
        },
        Component::Wise => port(svc, "8081:8081"),
        Component::Parliament => port(svc, "8008:8008"),
        Component::Cont3xt => port(svc, "3218:3218"),
    }
}



/// The host data directory of the single-node datastore.
pub open spec fn es_data_dir(a: Answers) -> Seq<char> {
    if a.es_data_dir@.len() == 0 {
        DEFAULT_ES_DATA_DIR@
    } else {
        a.es_data_dir@
    }
}

pub open spec fn ystr_v(s: Seq<char>) -> YamlV {
    YamlV::Str(s)
}

/// The single-node Elasticsearch service: host networking, security off,
/// memlock unlimited, and the data dir bind-mounted. The heap is left to size
/// itself.
pub open spec fn es_service_spec(images: Images, data_dir: Seq<char>) -> YamlV {
    YamlV::Mapping(
        seq![
            (ystr_v("container_name"@), ystr_v("elasticsearch"@)),
            (ystr_v("image"@), ystr_v(images.elasticsearch@)),
            (ystr_v("network_mode"@), ystr_v("host"@)),
            (
                ystr_v("environment"@),
                str_items(
                    seq![
                        "discovery.type=single-node"@,
                        "xpack.security.enabled=false"@,
                        "xpack.security.enrollment.enabled=false"@,
                        "xpack.security.transport.ssl.enabled=false"@,
                        "xpack.security.http.ssl.enabled=false"@,
                    ],
                ),
            ),
            (
                ystr_v("ulimits"@),
                YamlV::Mapping(
                    seq![
                        (
                            ystr_v("memlock"@),
                            YamlV::Mapping(
                                seq![
                                    (ystr_v("soft"@), YamlV::Number("-1"@)),
                                    (ystr_v("hard"@), YamlV::Number("-1"@)),
                                ],
                            ),
                        ),
                    ],
                ),
            ),
            (ystr_v("volumes"@), str_items(seq![data_dir + ":/usr/share/elasticsearch/data"@])),
            (ystr_v("restart"@), ystr_v("unless-stopped"@)),
        ],
    )
}

fn push_entry(m: &mut Vec<(Yaml, Yaml)>, key: &str, v: Yaml)
    ensures
        entries_view(final(m)@) == entries_view(old(m)@).push((YamlV::Str(key@), v@)),
{
    m.push((ystr(key), v));
    proof {
        assert(entries_view(final(m)@) =~= entries_view(old(m)@).push((YamlV::Str(key@), v@)));
    }
}

fn elasticsearch_service(images: &Images, data_dir: &str) -> (y: Yaml)
    ensures
        y@ == es_service_spec(*images, data_dir@),
{
    let mut m: Vec<(Yaml, Yaml)> = Vec::new();
    push_entry(&mut m, "container_name", ystr("elasticsearch"));
    push_entry(&mut m, "image", ystr(images.elasticsearch.as_str()));
    push_entry(&mut m, "network_mode", ystr("host"));
    let env = vec![
        "discovery.type=single-node".to_owned(),
        "xpack.security.enabled=false".to_owned(),
        "xpack.security.enrollment.enabled=false".to_owned(),
        "xpack.security.transport.ssl.enabled=false".to_owned(),
        "xpack.security.http.ssl.enabled=false".to_owned(),
    ];
    proof {
        assert(string_views(env@) =~= seq![
            "discovery.type=single-node"@,
            "xpack.security.enabled=false"@,
            "xpack.security.enrollment.enabled=false"@,
            "xpack.security.transport.ssl.enabled=false"@,
            "xpack.security.http.ssl.enabled=false"@,
        ]);
    }
    push_entry(&mut m, "environment", ystr_items(&env));
    let mut memlock: Vec<(Yaml, Yaml)> = Vec::new();
    push_entry(&mut memlock, "soft", Yaml::Number("-1".to_owned()));
    push_entry(&mut memlock, "hard", Yaml::Number("-1".to_owned()));
    let mut ulimits: Vec<(Yaml, Yaml)> = Vec::new();
    let ghost mem_e = entries_view(memlock@);
    proof {
        lemma_view_mapping(memlock);
        assert(mem_e =~= seq![
            (ystr_v("soft"@), YamlV::Number("-1"@)),
            (ystr_v("hard"@), YamlV::Number("-1"@)),
        ]);
    }
    push_entry(&mut ulimits, "memlock", Yaml::Mapping(memlock));
    let ghost ul_e = entries_view(ulimits@);
    proof {
        lemma_view_mapping(ulimits);
        assert(ul_e =~= seq![(ystr_v("memlock"@), YamlV::Mapping(mem_e))]);
    }
    push_entry(&mut m, "ulimits", Yaml::Mapping(ulimits));
    let vol = cat(data_dir, ":/usr/share/elasticsearch/data");
    push_entry(&mut m, "volumes", ystr_items(&one_string(vol.as_str())));
    push_entry(&mut m, "restart", ystr("unless-stopped"));
    proof {
        lemma_view_mapping(m);
        let e = entries_view(m@);
        let want = seq![
            (ystr_v("container_name"@), ystr_v("elasticsearch"@)),
            (ystr_v("image"@), ystr_v(images.elasticsearch@)),
            (ystr_v("network_mode"@), ystr_v("host"@)),
            (
                ystr_v("environment"@),
                str_items(
                    seq![
                        "discovery.type=single-node"@,
                        "xpack.security.enabled=false"@,
                        "xpack.security.enrollment.enabled=false"@,
                        "xpack.security.transport.ssl.enabled=false"@,
                        "xpack.security.http.ssl.enabled=false"@,
                    ],
                ),
            ),
            (
                ystr_v("ulimits"@),
                YamlV::Mapping(
                    seq![
                        (
                            ystr_v("memlock"@),
                            YamlV::Mapping(
                                seq![
                                    (ystr_v("soft"@), YamlV::Number("-1"@)),
                                    (ystr_v("hard"@), YamlV::Number("-1"@)),
                                ],
                            ),
                        ),
                    ],
                ),
            ),
            (ystr_v("volumes"@), str_items(seq![data_dir@ + ":/usr/share/elasticsearch/data"@])),
            (ystr_v("restart"@), ystr_v("unless-stopped"@)),
        ];
        assert(e.len() == 7);
        assert(e[4] == (ystr_v("ulimits"@), YamlV::Mapping(ul_e)));
        assert(e[4] == want[4]);
        assert(e =~= want);
    }
    Yaml::Mapping(m)
}

/// One component's service after a render: ours filled in when selected,
/// removed otherwise.
pub open spec fn service_step(
    s: Seq<(YamlV, YamlV)>,
    c: Component,
    prefix: Seq<char>,
    comps: Components,
    images: Images,
    es_depends: bool,
    mounts: MountSelection,
) -> Seq<(YamlV, YamlV)> {
    let name = service_name(prefix, c);
    if comps.has(c) {
        let existing = match map_get(s, name) {
            Some(v) => match as_mapping(v) {
                Some(m) => m,
                None => seq![],
            },
            None => seq![],
        };
        map_set(s, name, YamlV::Mapping(fill_spec(existing, c, images, es_depends, mounts, comps)))
    } else {
        map_del(s, name)
    }
}

pub open spec fn services_fold(
    s: Seq<(YamlV, YamlV)>,
    cs: Seq<Component>,
    prefix: Seq<char>,
    comps: Components,
    images: Images,
    es_depends: bool,
    mounts: MountSelection,
) -> Seq<(YamlV, YamlV)>
    decreases cs.len(),
{
    if cs.len() == 0 {
        s
    } else {
        services_fold(
            service_step(s, cs[0], prefix, comps, images, es_depends, mounts),
            cs.drop_first(),
            prefix,
            comps,
            images,
            es_depends,
            mounts,
        )
    }
}

/// The `services:` entries after a render: each component's service in
/// component order, then the single-node datastore when one is wanted and
/// none is there.
pub open spec fn render_services_spec(
    s: Seq<(YamlV, YamlV)>,
    prefix: Seq<char>,
    comps: Components,
    a: Answers,
    mounts: MountSelection,
    images: Images,
) -> Seq<(YamlV, YamlV)> {
    let single = a.es_backend != EsBackend::External;
    let es_depends = single || has_key(s, "elasticsearch"@);
    let s1 = services_fold(s, all_components(), prefix, comps, images, es_depends, mounts);
    if single && !has_key(s1, "elasticsearch"@) {
        map_set(s1, "elasticsearch"@, es_service_spec(images, es_data_dir(a)))
    } else {
        s1
    }
}

/// A copy of mapping entries.
fn clone_entries(m: &Vec<(Yaml, Yaml)>) -> (c: Vec<(Yaml, Yaml)>)
    ensures
        entries_view(c@) == entries_view(m@),
{
    let mut out: Vec<(Yaml, Yaml)> = Vec::new();
    let mut i: usize = 0;
    while i < m.len()
        invariant
            i <= m.len(),
            entries_view(out@) == entries_view(m@).take(i as int),
        decreases m.len() - i,
    {
        let k = clone_yaml(&m[i].0);
        let v = clone_yaml(&m[i].1);
        let ghost before = entries_view(out@);
        let ghost kv = (k@, v@);
        out.push((k, v));
        proof {
            assert(entries_view(out@) =~= before.push(kv));
            assert(entries_view(out@) =~= entries_view(m@).take(i + 1));
        }
        i += 1;
    }
    proof {
        assert(entries_view(m@).take(m@.len() as int) =~= entries_view(m@));
    }
    out
}

fn render_services(
    sm: &mut Vec<(Yaml, Yaml)>,
    prefix: &str,
    components: &Components,
    answers: &Answers,
    mounts: &MountSelection,
    images: &Images,
)
    ensures
        entries_view(final(sm)@) == render_services_spec(
            entries_view(old(sm)@),
            prefix@,
            *components,
            *answers,
            *mounts,
            *images,
        ),
{
    let ghost s0 = entries_view(sm@);
    let single = match answers.es_backend {
        EsBackend::External => false,
        _ => true,
    };
    let es_depends = single || find_key(sm, "elasticsearch").is_some();
    let all = Component::all();
    let mut i: usize = 0;
    let ghost pv = prefix@;
    proof {
        assert(all@.skip(0) =~= all@);
    }
    while i < all.len()
        invariant
            all@ == all_components(),
            pv == prefix@,
            i <= all.len(),
            services_fold(s0, all@, pv, *components, *images, es_depends, *mounts) == services_fold(
                entries_view(sm@),
                all@.skip(i as int),
                pv,
                *components,
                *images,
                es_depends,
                *mounts,
            ),
        decreases all.len() - i,
    {
        let c = all[i];
        let ghost cur = entries_view(sm@);
        proof {
            assert(all@.skip(i as int)[0] == c);
            assert(all@.skip(i as int).drop_first() =~= all@.skip(i + 1));
        }
        let name = arkime_service_name(prefix, c);
        if components.contains(c) {
            let ghost existing = match map_get(cur, name@) {
                Some(v) => match as_mapping(v) {
                    Some(m) => m,
                    None => seq![],
                },
                None => seq![],
            };
            let mut svc: Vec<(Yaml, Yaml)> = Vec::new();
            match get_entry(sm, name.as_str()) {
                Some(v) => match mapping_of(v) {
                    Some(m) => {
                        svc = clone_entries(m);
                    },
                    None => {},
                },
                None => {},
            }
            proof {
                assert(entries_view(svc@) =~= existing);
            }
            fill_arkime_service(&mut svc, c, images, es_depends, mounts, components);
            let ghost filled = entries_view(svc@);
            proof {
                lemma_view_mapping(svc);
                assert(filled == fill_spec(existing, c, *images, es_depends, *mounts, *components));
            }
            set_entry(sm, name.as_str(), Yaml::Mapping(svc));
            proof {
                assert(entries_view(sm@) == map_set(cur, name@, YamlV::Mapping(filled)));
                assert(components.has(c));
                assert(name@ == service_name(pv, c));
            }
        } else {
            remove_entry(sm, name.as_str());
        }
        proof {
            assert(entries_view(sm@) == service_step(cur, c, pv, *components, *images, es_depends, *mounts));
        }
        i += 1;
    }
    proof {
        assert(all@.skip(i as int) =~= Seq::<Component>::empty());
    }
    if single && find_key(sm, "elasticsearch").is_none() {
        let dir = if answers.es_data_dir.as_str().is_empty() {
            DEFAULT_ES_DATA_DIR
        } else {
            answers.es_data_dir.as_str()
        };
        set_entry(sm, "elasticsearch", elasticsearch_service(images, dir));
    }
}

/// `v` when it is a mapping (under any tags), else an empty mapping.
pub open spec fn mapping_or_empty(v: YamlV) -> YamlV {
    if as_mapping(v) is Some {
        v
    } else {
        YamlV::Mapping(seq![])
    }
}

/// The compose document after a render of `root`: the `services:` mapping
/// (added at the end when missing, replaced when not a mapping) has our
/// services merged in; everything else is kept.
pub open spec fn compose_doc(
    root: YamlV,
    prefix: Seq<char>,
    comps: Components,
    a: Answers,
    mounts: MountSelection,
    images: Images,
) -> YamlV {
    let r = mapping_or_empty(root);
    let m = as_mapping(r).unwrap();
    let m1 = if has_key(m, "services"@) {
        m
    } else {
        m.push((YamlV::Str("services"@), YamlV::Mapping(seq![])))
    };
    let i = key_index(m1, "services"@);
    let sv = m1[i].1;
    let new_sv = match as_mapping(sv) {
        Some(sm) => with_inner(sv, YamlV::Mapping(render_services_spec(sm, prefix, comps, a, mounts, images))),
        None => YamlV::Mapping(render_services_spec(seq![], prefix, comps, a, mounts, images)),
    };
    with_inner(r, YamlV::Mapping(m1.update(i, (m1[i].0, new_sv))))
}


/// The services value after a render: merged into when it is a mapping
/// (its tags kept), else replaced by a mapping of our services.
fn render_services_value(
    sv: Yaml,
    prefix: &str,
    components: &Components,
    answers: &Answers,
    mounts: &MountSelection,
    images: &Images,
) -> (out: Yaml)
    ensures
        out@ == match as_mapping(sv@) {
            Some(sm) => with_inner(
                sv@,
                YamlV::Mapping(render_services_spec(sm, prefix@, *components, *answers, *mounts, *images)),
            ),
            None => YamlV::Mapping(
                render_services_spec(seq![], prefix@, *components, *answers, *mounts, *images),
            ),
        },
{
    let ghost orig = sv@;
    let (tags, inner) = peel(sv);
    match inner {
        Yaml::Mapping(sm) => {
            let mut sm = sm;
            proof {
                lemma_view_mapping(sm);
            }
            render_services(&mut sm, prefix, components, answers, mounts, images);
            let ghost e = entries_view(sm@);
            proof {
                lemma_view_mapping(sm);
                lemma_with_inner_wrap(orig, YamlV::Mapping(e));
            }
            rewrap(tags, Yaml::Mapping(sm))
        },
        _ => {
            let mut sm: Vec<(Yaml, Yaml)> = Vec::new();
            proof {
                assert(entries_view(sm@) =~= Seq::<(YamlV, YamlV)>::empty());
            }
            render_services(&mut sm, prefix, components, answers, mounts, images);
            proof {
                lemma_view_mapping(sm);
            }
            Yaml::Mapping(sm)
        },
    }
}

/// Merge our services into a compose document, preserving unknown services
/// and top-level keys. The five `<prefix><component>` services are ours (their
/// standard fields); the single-node `elasticsearch` service is added when one
/// is wanted and none exists. A document that is not a mapping is replaced.
pub fn render_compose_doc(
    root: Yaml,
    prefix: &str,
    components: &Components,
    answers: &Answers,
    mounts: &MountSelection,
    images: &Images,
) -> (doc: Yaml)
    ensures
        doc@ == compose_doc(root@, prefix@, *components, *answers, *mounts, *images),
{
    let root = if mapping_of(&root).is_some() {
        root
    } else {
        empty_mapping()
    };
    let ghost r = root@;
    proof {
        if as_mapping(r) is None {
            assert(entries_view(Seq::<(Yaml, Yaml)>::empty()) =~= Seq::<(YamlV, YamlV)>::empty());
        }
    }
    let (tags, inner) = peel(root);
    let mut m: Vec<(Yaml, Yaml)> = match inner {
        Yaml::Mapping(m) => m,
        _ => Vec::new(),
    };
    proof {
        lemma_view_mapping(m);
        assert(entries_view(m@) == as_mapping(r).unwrap());
    }
    let ghost m0 = entries_view(m@);
    let i = match find_key(&m, "services") {
        Some(i) => i,
        None => {
            push_entry(&mut m, "services", empty_mapping());
            proof {
                let m1 = entries_view(m@);
                assert forall|j: int| 0 <= j < m1.len() - 1 implies !key_is(#[trigger] m1[j].0, "services"@) by {
                    assert(m1[j] == m0[j]);
                    if key_is(m0[j].0, "services"@) {
                        crate::yaml::lemma_has_key_of(m0, "services"@, j);
                    }
                }
                assert(key_at(m1, "services"@, m1.len() - 1));
            }
            m.len() - 1
        },
    };
    let ghost m1 = entries_view(m@);
    proof {
        assert(m1 == if has_key(m0, "services"@) {
            m0
        } else {
            m0.push((YamlV::Str("services"@), YamlV::Mapping(seq![])))
        });
        crate::yaml::lemma_key_at_unique(m1, "services"@, i as int, key_index(m1, "services"@));
    }
    let (k, sv) = m.remove(i);
    proof {
        assert(k@ == m1[i as int].0);
        assert(sv@ == m1[i as int].1);
    }
    let new_sv = render_services_value(sv, prefix, components, answers, mounts, images);
    let ghost nv = new_sv@;
    let ghost kv = k@;
    m.insert(i, (k, new_sv));
    proof {
        assert(entries_view(m@) =~= m1.update(i as int, (kv, nv)));
        lemma_view_mapping(m);
        lemma_with_inner_wrap(r, YamlV::Mapping(entries_view(m@)));
    }
    rewrap(tags, Yaml::Mapping(m))
}

/// The document a render starts from: an empty mapping for blank text,
/// else what the text parses to (an empty mapping when it does not parse).
pub open spec fn base_doc(base: Seq<char>) -> YamlV {
    if trim_start(base).len() == 0 {
        YamlV::Mapping(seq![])
    } else {
        match yaml_parse(base) {
            Some(v) => v,
            None => YamlV::Mapping(seq![]),
        }
    }
}

/// The text a render of a compose document gives: the document's YAML, or a
/// comment line with the serialization error.
pub open spec fn emitted(doc: YamlV, out: Seq<char>) -> bool {
    match yaml_emit(doc) {
        Some(t) => out == t,
        None => exists|e: Seq<char>| out == "# serialization error: "@ + e + "\n"@,
    }
}

/// The text of `doc`, or a comment with the serialization error.
fn emit_or_comment(doc: Yaml) -> (out: String)
    ensures
        emitted(doc@, out@),
{
    let ghost d = doc@;
    match emit_yaml(doc) {
        Ok(t) => t,
        Err(e) => {
            let out = cat(cat("# serialization error: ", e.as_str()).as_str(), "\n");
            proof {
                assert(out@ == "# serialization error: "@ + e@ + "\n"@);
            }
            out
        },
    }
}

/// Merge our services into the compose text `base` (see
/// `render_compose_doc`); blank or unparsable text starts from an empty
/// document.
pub fn render_compose(
    base: &str,
    prefix: &str,
    components: &Components,
    answers: &Answers,
    mounts: &MountSelection,
    images: &Images,
) -> (out: String)
    ensures
        emitted(compose_doc(base_doc(base@), prefix@, *components, *answers, *mounts, *images), out@),
{
    let v = chars_of(base);
    let start = trim_start_at(&v, 0, v.len());
    proof {
        assert(v@.subrange(0, v@.len() as int) =~= base@);
        assert(v@.subrange(start as int, v@.len() as int).len() == v@.len() - start);
    }
    let root = if start == v.len() {
        empty_mapping()
    } else {
        match parse_yaml(base) {
            Some(doc) => doc,
            None => empty_mapping(),
        }
    };
    let doc = render_compose_doc(root, prefix, components, answers, mounts, images);
    emit_or_comment(doc)
}


/// The `services:` entries of a compose document, when it has a mapping
/// there.
pub open spec fn compose_services(doc: YamlV) -> Option<Seq<(YamlV, YamlV)>> {
    match as_mapping(doc) {
        Some(m) => match map_get(m, "services"@) {
            Some(v) => as_mapping(v),
            None => None,
        },
        None => None,
    }
}

/// The strings among `items`, in order.
pub open spec fn strs_of(items: Seq<YamlV>) -> Seq<Seq<char>>
    decreases items.len(),
{
    if items.len() == 0 {
        seq![]
    } else {
        (match as_str(items[0]) {
            Some(s) => seq![s],
            None => seq![],
        }) + strs_of(items.drop_first())
    }
}

/// The strings of a mapping's `volumes` sequence (none when it is missing or
/// not a sequence).
pub open spec fn volume_strs(m: Seq<(YamlV, YamlV)>) -> Seq<Seq<char>> {
    match map_get(m, "volumes"@) {
        Some(v) => match as_sequence(v) {
            Some(items) => strs_of(items),
            None => seq![],
        },
        None => seq![],
    }
}

pub const ES_DATA_MOUNT: &'static str = ":/usr/share/elasticsearch/data";

/// The single-node datastore's host data dir, from the first string of its
/// service's volumes.
pub open spec fn es_dir_from(sm: Seq<(YamlV, YamlV)>) -> Option<Seq<char>> {
    match map_get(sm, "elasticsearch"@) {
        Some(v) => match as_mapping(v) {
            Some(esm) => {
                let vols = volume_strs(esm);
                if vols.len() > 0 {
                    strip_suffix(vols[0], ES_DATA_MOUNT@)
                } else {
                    None
                }
            },
            None => None,
        },
        None => None,
    }
}

/// The volumes of the capture service, or else of the viewer service, when
/// that service is a mapping.
pub open spec fn mount_vols(sm: Seq<(YamlV, YamlV)>, prefix: Seq<char>) -> Option<Seq<Seq<char>>> {
    let svc = match map_get(sm, service_name(prefix, Component::Capture)) {
        Some(v) => Some(v),
        None => map_get(sm, service_name(prefix, Component::Viewer)),
    };
    match svc {
        Some(v) => match as_mapping(v) {
            Some(m) => Some(volume_strs(m)),
            None => None,
        },
        None => None,
    }
}

/// Some volume entry mounts `kind`'s container path.
pub open spec fn mounted(vols: Seq<Seq<char>>, kind: MountKind) -> bool {
    exists|j: int| 0 <= j < vols.len() && (#[trigger] kind.spec_host_of(vols[j])) is Some
}

/// What reading a compose document sets: which of our services exist, the
/// single-node datastore and its data dir, and the capture/viewer mounts. A
/// document without a `services:` mapping changes nothing.
pub open spec fn read_compose_spec(
    doc: YamlV,
    prefix: Seq<char>,
    c0: Components,
    a0: Answers,
    m0: MountSelection,
    c: Components,
    a: Answers,
    m: MountSelection,
) -> bool {
    match compose_services(doc) {
        None => c == c0 && a == a0 && m == m0,
        Some(sm) => {
            &&& forall|x: Component| #[trigger] c.has(x) == has_key(sm, service_name(prefix, x))
            &&& a.es_backend == (if has_key(sm, "elasticsearch"@) {
                EsBackend::Elasticsearch
            } else {
                EsBackend::External
            })
            &&& a.es_data_dir@ == match es_dir_from(sm) {
                Some(d) => d,
                None => a0.es_data_dir@,
            }
            &&& a == Answers { es_backend: a.es_backend, es_data_dir: a.es_data_dir, ..a0 }
            &&& match mount_vols(sm, prefix) {
                Some(vols) => forall|k: MountKind| #[trigger] m.enabled(k) == mounted(vols, k),
                None => m == m0,
            }
        },
    }
}

/// The strings among the items of a sequence value.
fn strings_in(items: &Vec<Yaml>) -> (out: Vec<String>)
    ensures
        string_views(out@) == strs_of(items_view(items@)),
{
    let ghost iv = items_view(items@);
    let mut out: Vec<String> = Vec::new();
    let mut i: usize = items.len();
    proof {
        assert(iv.skip(iv.len() as int) =~= Seq::<YamlV>::empty());
    }
    let mut rev: Vec<String> = Vec::new();
    let mut k: usize = 0;
    while k < items.len()
        invariant
            iv == items_view(items@),
            k <= items.len(),
            string_views(rev@) == strs_of(iv.take(k as int)),
        decreases items.len() - k,
    {
        proof {
            lemma_strs_of_push(iv.take(k as int), iv[k as int]);
            assert(iv.take(k + 1) =~= iv.take(k as int).push(iv[k as int]));
        }
        match str_of(&items[k]) {
            Some(s) => {
                let ghost before = string_views(rev@);
                rev.push(s.as_str().to_owned());
                proof {
                    assert(string_views(rev@) =~= before + seq![s@]);
                }
            },
            None => {
                proof {
                    assert(string_views(rev@) + Seq::<Seq<char>>::empty() =~= string_views(rev@));
                }
            },
        }
        k += 1;
    }
    proof {
        assert(iv.take(iv.len() as int) =~= iv);
    }
    rev
}

proof fn lemma_strs_of_push(items: Seq<YamlV>, x: YamlV)
    ensures
        strs_of(items.push(x)) == strs_of(items) + match as_str(x) {
            Some(s) => seq![s],
            None => seq![],
        },
    decreases items.len(),
{
    if items.len() == 0 {
        let t = match as_str(x) {
            Some(s) => seq![s],
            None => Seq::<Seq<char>>::empty(),
        };
        assert(items.push(x).drop_first() =~= Seq::<YamlV>::empty());
        assert(strs_of(items.push(x).drop_first()) =~= Seq::<Seq<char>>::empty());
        assert(items.push(x)[0] == x);
        assert(strs_of(items.push(x)) == t + Seq::<Seq<char>>::empty());
        assert(strs_of(items) =~= Seq::<Seq<char>>::empty());
        assert(strs_of(items.push(x)) =~= strs_of(items) + t);
    } else {
        lemma_strs_of_push(items.drop_first(), x);
        assert(items.push(x).drop_first() =~= items.drop_first().push(x));
        let h = match as_str(items[0]) {
            Some(s) => seq![s],
            None => Seq::<Seq<char>>::empty(),
        };
        let t = match as_str(x) {
            Some(s) => seq![s],
            None => Seq::<Seq<char>>::empty(),
        };
        assert(h + (strs_of(items.drop_first()) + t) =~= (h + strs_of(items.drop_first())) + t);
    }
}

/// The strings of a mapping's `volumes` sequence.
fn volume_strings(m: &Vec<(Yaml, Yaml)>) -> (out: Vec<String>)
    ensures
        string_views(out@) == volume_strs(entries_view(m@)),
{
    match get_entry(m, "volumes") {
        Some(v) => match sequence_of(v) {
            Some(items) => strings_in(items),
            None => Vec::new(),
        },
        None => Vec::new(),
    }
}

/// Read the understood structure out of a compose document: which of our
/// services exist (the components), whether the single-node datastore is
/// there and its data dir, and the capture/viewer mounts.
pub fn read_compose(
    doc: &Yaml,
    prefix: &str,
    components: &mut Components,
    answers: &mut Answers,
    mounts: &mut MountSelection,
)
    ensures
        read_compose_spec(
            doc@,
            prefix@,
            *old(components),
            *old(answers),
            *old(mounts),
            *final(components),
            *final(answers),
            *final(mounts),
        ),
{
    let root = match mapping_of(doc) {
        Some(m) => m,
        None => return ,
    };
    let services = match get_entry(root, "services") {
        Some(v) => match mapping_of(v) {
            Some(m) => m,
            None => return ,
        },
        None => return ,
    };
    let ghost sm = entries_view(services@);
    let all = Component::all();
    let mut i: usize = 0;
    while i < all.len()
        invariant
            all@ == all_components(),
            sm == entries_view(services@),
            i <= all.len(),
            forall|k: int| 0 <= k < i ==> components.has(#[trigger] all@[k]) == has_key(sm, service_name(prefix@, all@[k])),
            forall|x: Component| !all@.take(i as int).contains(x) ==> components.has(x) == old(components).has(x),
        decreases all.len() - i,
    {
        let c = all[i];
        let name = arkime_service_name(prefix, c);
        let present = find_key(services, name.as_str()).is_some();
        set_component(components, c, present);
        proof {
            assert forall|x: Component| !all@.take(i + 1).contains(x) implies components.has(x) == old(components).has(x) by {
                assert(all@.take(i + 1)[i as int] == c);
                assert forall|j: int| 0 <= j < i implies all@.take(i + 1)[j] == all@.take(i as int)[j] by {}
                if all@.take(i as int).contains(x) {
                    let j = choose|j: int| 0 <= j < i && all@.take(i as int)[j] == x;
                    assert(all@.take(i + 1)[j] == x);
                }
            }
        }
        i += 1;
    }
    proof {
        assert forall|x: Component| #[trigger] components.has(x) == has_key(sm, service_name(prefix@, x)) by {
            let j: int = match x {
                Component::Capture => 0,
                Component::Viewer => 1,
                Component::Wise => 2,
                Component::Parliament => 3,
                Component::Cont3xt => 4,
            };
            assert(all@[j] == x);
        }
    }
    answers.es_backend = if find_key(services, "elasticsearch").is_some() {
        EsBackend::Elasticsearch
    } else {
        EsBackend::External
    };
    let es_dir: Option<String> = match get_entry(services, "elasticsearch") {
        Some(v) => match mapping_of(v) {
            Some(esm) => {
                let vols = volume_strings(esm);
                if vols.len() > 0 {
                    strip_suffix_of(vols[0].as_str(), ES_DATA_MOUNT)
                } else {
                    None
                }
            },
            None => None,
        },
        None => None,
    };
    match es_dir {
        Some(d) => {
            answers.es_data_dir = d;
        },
        None => {},
    }
    let cap = arkime_service_name(prefix, Component::Capture);
    let view = arkime_service_name(prefix, Component::Viewer);
    let svc = match get_entry(services, cap.as_str()) {
        Some(v) => Some(v),
        None => get_entry(services, view.as_str()),
    };
    let svc_map = match svc {
        Some(v) => mapping_of(v),
        None => None,
    };
    match svc_map {
        Some(m) => {
            let vols = volume_strings(m);
            let kinds = MountKind::all();
            let mut k: usize = 0;
            while k < kinds.len()
                invariant
                    kinds@ == all_mounts(),
                    k <= kinds.len(),
                    forall|j: int| 0 <= j < k ==> mounts.enabled(#[trigger] kinds@[j]) == mounted(string_views(vols@), kinds@[j]),
                decreases kinds.len() - k,
            {
                let kind = kinds[k];
                let mut found = false;
                let mut j: usize = 0;
                while j < vols.len()
                    invariant
                        j <= vols.len(),
                        found == exists|t: int| 0 <= t < j && (#[trigger] kind.spec_host_of(string_views(vols@)[t])) is Some,
                    decreases vols.len() - j,
                {
                    let h = kind.host_of(vols[j].as_str());
                    proof {
                        assert(string_views(vols@)[j as int] == vols@[j as int]@);
                    }
                    if h.is_some() {
                        found = true;
                    }
                    j += 1;
                }
                let ghost before = *mounts;
                mounts.set_enabled(kind, found);
                proof {
                    assert forall|t: int| 0 <= t < k + 1 implies mounts.enabled(#[trigger] kinds@[t]) == mounted(string_views(vols@), kinds@[t]) by {
                        if t < k {
                            assert(kinds@[t] != kind);
                        }
                    }
                }
                k += 1;
            }
            proof {
                assert forall|x: MountKind| #[trigger] mounts.enabled(x) == mounted(string_views(vols@), x) by {
                    let j: int = match x {
                        MountKind::Etc => 0,
                        MountKind::Pcap => 1,
                        MountKind::GeoIpData => 2,
                        MountKind::GeoIpConf => 3,
                    };
                    assert(kinds@[j] == x);
                }
            }
        },
        None => {},
    }
}


/// Read the understood structure out of compose text (see `read_compose`).
/// Text that does not parse changes nothing.
pub fn parse_compose(
    text: &str,
    prefix: &str,
    components: &mut Components,
    answers: &mut Answers,
    mounts: &mut MountSelection,
)
    ensures
        match yaml_parse(text@) {
            Some(doc) => read_compose_spec(
                doc,
                prefix@,
                *old(components),
                *old(answers),
                *old(mounts),
                *final(components),
                *final(answers),
                *final(mounts),
            ),
            None => *final(components) == *old(components) && *final(answers) == *old(answers)
                && *final(mounts) == *old(mounts),
        },
{
    match parse_yaml(text) {
        Some(doc) => read_compose(&doc, prefix, components, answers, mounts),
        None => {},
    }
}

/// `sm` without the services of `prefix` for the components `cs`, removed in
/// order.
pub open spec fn remove_names(sm: Seq<(YamlV, YamlV)>, prefix: Seq<char>, cs: Seq<Component>) -> Seq<
    (YamlV, YamlV),
>
    decreases cs.len(),
{
    if cs.len() == 0 {
        sm
    } else {
        remove_names(map_del(sm, service_name(prefix, cs[0])), prefix, cs.drop_first())
    }
}

/// The document without the arkime services of `prefix`; everything else is
/// kept. A document without a `services:` mapping is unchanged.
pub open spec fn removed_doc(doc: YamlV, prefix: Seq<char>) -> YamlV {
    match as_mapping(doc) {
        Some(m) => if has_key(m, "services"@) {
            let i = key_index(m, "services"@);
            let sv = m[i].1;
            match as_mapping(sv) {
                Some(sm) => with_inner(
                    doc,
                    YamlV::Mapping(
                        m.update(
                            i,
                            (m[i].0, with_inner(sv, YamlV::Mapping(remove_names(sm, prefix, all_components())))),
                        ),
                    ),
                ),
                None => doc,
            }
        } else {
            doc
        },
        None => doc,
    }
}

/// Remove every arkime service of `prefix` from a compose document.
pub fn remove_prefix_doc(doc: Yaml, prefix: &str) -> (out: Yaml)
    ensures
        out@ == removed_doc(doc@, prefix@),
{
    let ghost d = doc@;
    if mapping_of(&doc).is_none() {
        return doc;
    }
    let has_services = match mapping_of(&doc) {
        Some(m) => match get_entry(m, "services") {
            Some(v) => mapping_of(v).is_some(),
            None => false,
        },
        None => false,
    };
    if !has_services {
        return doc;
    }
    let (tags, inner) = peel(doc);
    let mut m: Vec<(Yaml, Yaml)> = match inner {
        Yaml::Mapping(m) => m,
        _ => Vec::new(),
    };
    proof {
        lemma_view_mapping(m);
    }
    let ghost m0 = entries_view(m@);
    let i = match find_key(&m, "services") {
        Some(i) => i,
        None => 0,
    };
    proof {
        crate::yaml::lemma_key_at_unique(m0, "services"@, i as int, key_index(m0, "services"@));
    }
    let (k, sv) = m.remove(i);
    let ghost svv = sv@;
    let (stags, sinner) = peel(sv);
    let mut sm: Vec<(Yaml, Yaml)> = match sinner {
        Yaml::Mapping(sm) => sm,
        _ => Vec::new(),
    };
    proof {
        lemma_view_mapping(sm);
    }
    let ghost sm0 = entries_view(sm@);
    let all = Component::all();
    let mut j: usize = 0;
    proof {
        assert(all@.skip(0) =~= all@);
    }
    while j < all.len()
        invariant
            all@ == all_components(),
            j <= all.len(),
            remove_names(sm0, prefix@, all@) == remove_names(entries_view(sm@), prefix@, all@.skip(j as int)),
        decreases all.len() - j,
    {
        proof {
            assert(all@.skip(j as int)[0] == all@[j as int]);
            assert(all@.skip(j as int).drop_first() =~= all@.skip(j + 1));
        }
        let name = arkime_service_name(prefix, all[j]);
        remove_entry(&mut sm, name.as_str());
        j += 1;
    }
    proof {
        assert(all@.skip(j as int) =~= Seq::<Component>::empty());
        lemma_view_mapping(sm);
        lemma_with_inner_wrap(svv, YamlV::Mapping(entries_view(sm@)));
    }
    let new_sv = rewrap(stags, Yaml::Mapping(sm));
    let ghost nv = new_sv@;
    let ghost kv = k@;
    m.insert(i, (k, new_sv));
    proof {
        assert(entries_view(m@) =~= m0.update(i as int, (kv, nv)));
        lemma_view_mapping(m);
        lemma_with_inner_wrap(d, YamlV::Mapping(entries_view(m@)));
    }
    rewrap(tags, Yaml::Mapping(m))
}

/// Remove every arkime service of `prefix` from compose text, keeping
/// everything else. Text that does not parse, or whose result cannot be
/// written back, is returned as it was.
pub fn remove_prefix_services(text: &str, prefix: &str) -> (out: String)
    ensures
        match yaml_parse(text@) {
            Some(doc) => match yaml_emit(removed_doc(doc, prefix@)) {
                Some(t) => out@ == t,
                None => out@ == text@,
            },
            None => out@ == text@,
        },
{
    match parse_yaml(text) {
        Some(doc) => {
            let out = remove_prefix_doc(doc, prefix);
            match emit_yaml(out) {
                Ok(t) => t,
                Err(_) => text.to_owned(),
            }
        },
        None => text.to_owned(),
    }
}


/// What may stand before a component label in an arkime service name: nothing,
/// or something ending in `-` or `_`.
pub open spec fn stem_ok(stem: Seq<char>) -> bool {
    stem.len() == 0 || stem.last() == '-' || stem.last() == '_'
}

/// The prefix of an arkime service name: what stands before the first label,
/// in component order, that the name ends with after an acceptable stem.
pub open spec fn stem_for(name: Seq<char>, cs: Seq<Component>) -> Option<Seq<char>>
    decreases cs.len(),
{
    if cs.len() == 0 {
        None
    } else {
        match strip_suffix(name, cs[0].spec_label()) {
            Some(st) => if stem_ok(st) {
                Some(st)
            } else {
                stem_for(name, cs.drop_first())
            },
            None => stem_for(name, cs.drop_first()),
        }
    }
}

/// The prefix of a service key, when it names an arkime service.
pub open spec fn key_stem(k: YamlV) -> Option<Seq<char>> {
    match as_str(k) {
        Some(n) => stem_for(n, all_components()),
        None => None,
    }
}

/// How many services use prefix `p`.
pub open spec fn stem_count(sm: Seq<(YamlV, YamlV)>, p: Seq<char>) -> nat
    decreases sm.len(),
{
    if sm.len() == 0 {
        0
    } else {
        stem_count(sm.drop_last(), p) + if key_stem(sm.last().0) == Some(p) {
            1nat
        } else {
            0nat
        }
    }
}

/// `prefix` is used by the most services (the greatest such prefix, in
/// string order, when several are), and `others` are the other prefixes in
/// use, in string order.
pub open spec fn detection_of(sm: Seq<(YamlV, YamlV)>, prefix: Seq<char>, others: Seq<Seq<char>>) -> bool {
    &&& stem_count(sm, prefix) > 0
    &&& forall|p: Seq<char>| #[trigger] stem_count(sm, p) <= stem_count(sm, prefix)
    &&& forall|p: Seq<char>| #[trigger] stem_count(sm, p) == stem_count(sm, prefix) ==> !lex_lt(prefix, p)
    &&& strictly_sorted(others)
    &&& forall|p: Seq<char>| #[trigger] others.contains(p) <==> (stem_count(sm, p) > 0 && p != prefix)
}

/// The prefix of a service name, if it names an arkime service.
fn stem_of_name(name: &str) -> (r: Option<String>)
    ensures
        match r {
            Some(s) => stem_for(name@, all_components()) == Some(s@),
            None => stem_for(name@, all_components()) is None,
        },
{
    let all = Component::all();
    let mut i: usize = 0;
    proof {
        assert(all@.skip(0) =~= all@);
    }
    while i < all.len()
        invariant
            all@ == all_components(),
            i <= all.len(),
            stem_for(name@, all@) == stem_for(name@, all@.skip(i as int)),
        decreases all.len() - i,
    {
        proof {
            assert(all@.skip(i as int)[0] == all@[i as int]);
            assert(all@.skip(i as int).drop_first() =~= all@.skip(i + 1));
        }
        match strip_suffix_of(name, all[i].label()) {
            Some(st) => {
                let v = chars_of(st.as_str());
                if v.len() == 0 || v[v.len() - 1] == '-' || v[v.len() - 1] == '_' {
                    return Some(st);
                }
            },
            None => {},
        }
        i += 1;
    }
    proof {
        assert(all@.skip(i as int) =~= Seq::<Component>::empty());
    }
    None
}

/// The count recorded for `p`, 0 when it is not recorded.
pub open spec fn count_in(counts: Seq<(Seq<char>, usize)>, p: Seq<char>) -> nat {
    if exists|j: int| 0 <= j < counts.len() && #[trigger] counts[j].0 == p {
        counts[choose|j: int| 0 <= j < counts.len() && #[trigger] counts[j].0 == p].1 as nat
    } else {
        0
    }
}

pub open spec fn counts_view(v: Seq<(Vec<char>, usize)>) -> Seq<(Seq<char>, usize)> {
    Seq::new(v.len(), |i: int| (v[i].0@, v[i].1))
}

pub open spec fn keys_of(c: Seq<(Seq<char>, usize)>) -> Seq<Seq<char>> {
    Seq::new(c.len(), |i: int| c[i].0)
}

/// Well-formed counts: keys strictly sorted, every count positive and at most `bound`.
pub open spec fn counts_ok(c: Seq<(Seq<char>, usize)>, bound: nat) -> bool {
    &&& strictly_sorted(keys_of(c))
    &&& forall|j: int| 0 <= j < c.len() ==> 0 < (#[trigger] c[j]).1 <= bound
}

proof fn lemma_count_at(c: Seq<(Seq<char>, usize)>, at: int)
    requires
        strictly_sorted(keys_of(c)),
        0 <= at < c.len(),
    ensures
        count_in(c, c[at].0) == c[at].1,
{
    let p = c[at].0;
    assert forall|q: int| 0 <= q < c.len() && #[trigger] c[q].0 == p implies q == at by {
        if q != at {
            let a = if q < at { q } else { at };
            let b = if q < at { at } else { q };
            assert(keys_of(c)[a] == c[a].0);
            assert(keys_of(c)[b] == c[b].0);
            assert(lex_lt(keys_of(c)[a], keys_of(c)[b]));
            lemma_lex_irreflexive(p);
        }
    }
    assert(exists|j: int| 0 <= j < c.len() && #[trigger] c[j].0 == p) by {
        assert(c[at].0 == p);
    }
}

/// Count one more use of prefix `p`.
fn bump(counts: &mut Vec<(Vec<char>, usize)>, p: Vec<char>, Ghost(bound): Ghost<nat>)
    requires
        counts_ok(counts_view(old(counts)@), bound),
        bound < usize::MAX,
    ensures
        counts_ok(counts_view(final(counts)@), bound + 1),
        forall|q: Seq<char>|
            #[trigger] count_in(counts_view(final(counts)@), q) == count_in(counts_view(old(counts)@), q) + if q == p@ {
                1nat
            } else {
                0nat
            },
{
    let ghost c0 = counts_view(counts@);
    let mut pos: usize = 0;
    while pos < counts.len() && chars_lt(&counts[pos].0, &p)
        invariant
            pos <= counts.len(),
            counts_view(counts@) == c0,
            forall|k: int| 0 <= k < pos ==> lex_lt(#[trigger] c0[k].0, p@),
        decreases counts.len() - pos,
    {
        pos += 1;
    }
    proof {
        assert forall|k: int| 0 <= k < c0.len() implies (#[trigger] c0[k]).0 != p@ || k >= pos by {
            if k < pos {
                lemma_lex_irreflexive(p@);
            }
        }
    }
    if pos < counts.len() && crate::text::chars_eq(&counts[pos].0, &p) {
        let n = counts[pos].1;
        proof {
            assert(c0[pos as int].1 == n);
            assert(0 < c0[pos as int].1 <= bound);
        }
        let key = copy_chars(&counts[pos].0);
        counts.set(pos, (key, n + 1));
        proof {
            let c1 = counts_view(counts@);
            assert(c1 =~= c0.update(pos as int, (p@, (n + 1) as usize)));
            assert(keys_of(c1) =~= keys_of(c0));
            lemma_count_at(c0, pos as int);
            lemma_count_at(c1, pos as int);
            assert forall|q: Seq<char>| #[trigger] count_in(c1, q) == count_in(c0, q) + if q == p@ {
                1nat
            } else {
                0nat
            } by {
                if q != p@ {
                    if exists|j: int| 0 <= j < c1.len() && #[trigger] c1[j].0 == q {
                        let j = choose|j: int| 0 <= j < c1.len() && #[trigger] c1[j].0 == q;
                        lemma_count_at(c1, j);
                        lemma_count_at(c0, j);
                    } else {
                        assert forall|j: int| 0 <= j < c0.len() implies #[trigger] c0[j].0 != q by {
                            assert(c1[j].0 == c0[j].0);
                        }
                    }
                }
            }
        }
    } else {
        proof {
            if pos < c0.len() {
                lemma_lex_trichotomy(c0[pos as int].0, p@);
            }
        }
        let ghost pv = p@;
        counts.insert(pos, (p, 1));
        proof {
            let c1 = counts_view(counts@);
            assert(c1 =~= c0.insert(pos as int, (pv, 1usize)));
            let k0 = keys_of(c0);
            let k1 = keys_of(c1);
            assert(k1 =~= k0.insert(pos as int, pv));
            assert forall|i: int, j: int| 0 <= i < j < k1.len() implies lex_lt(#[trigger] k1[i], #[trigger] k1[j]) by {
                if j < pos {
                    assert(k1[i] == k0[i] && k1[j] == k0[j]);
                } else if j == pos {
                    assert(k1[i] == k0[i]);
                } else if i == pos {
                    assert(k1[j] == k0[j - 1]);
                    if j - 1 > pos {
                        assert(lex_lt(k0[pos as int], k0[j - 1]));
                        lemma_lex_transitive(pv, k0[pos as int], k0[j - 1]);
                    }
                } else if i < pos {
                    assert(k1[i] == k0[i]);
                    assert(k1[j] == k0[j - 1]);
                    lemma_lex_transitive(k0[i], pv, k0[pos as int]);
                    if j - 1 > pos {
                        lemma_lex_transitive(k0[i], k0[pos as int], k0[j - 1]);
                    }
                } else {
                    assert(k1[i] == k0[i - 1]);
                    assert(k1[j] == k0[j - 1]);
                }
            }
            lemma_count_at(c1, pos as int);
            assert forall|q: Seq<char>| #[trigger] count_in(c1, q) == count_in(c0, q) + if q == pv {
                1nat
            } else {
                0nat
            } by {
                if q == pv {
                    assert forall|j: int| 0 <= j < c0.len() implies #[trigger] c0[j].0 != q by {
                        if j < pos {
                            lemma_lex_irreflexive(q);
                        } else if j == pos {
                        } else {
                            assert(lex_lt(keys_of(c0)[pos as int], keys_of(c0)[j]));
                            lemma_lex_transitive(q, c0[pos as int].0, c0[j].0);
                            lemma_lex_irreflexive(q);
                        }
                    }
                } else {
                    if exists|j: int| 0 <= j < c0.len() && #[trigger] c0[j].0 == q {
                        let j = choose|j: int| 0 <= j < c0.len() && #[trigger] c0[j].0 == q;
                        lemma_count_at(c0, j);
                        let j1 = if j < pos { j } else { j + 1 };
                        assert(c1[j1] == c0[j]);
                        lemma_count_at(c1, j1);
                    } else {
                        assert forall|j: int| 0 <= j < c1.len() implies #[trigger] c1[j].0 != q by {
                            if j < pos {
                                assert(c1[j] == c0[j]);
                            } else if j > pos {
                                assert(c1[j] == c0[j - 1]);
                            }
                        }
                    }
                }
            }
        }
    }
}

fn copy_chars(v: &Vec<char>) -> (c: Vec<char>)
    ensures
        c@ == v@,
{
    let c = copy_range(v, 0, v.len());
    proof {
        assert(v@.subrange(0, v@.len() as int) =~= v@);
    }
    c
}

/// Detect the prefixes the arkime services of a compose document use. A
/// service name counts when it ends with a component label after an empty,
/// `-` or `_` stem (`viewer`, `arkime-viewer` and `arkime6-viewer` all match;
/// `otherwise` does not). The dominant prefix is the one most services use.
pub fn detect_prefix_in(doc: &Yaml) -> (r: Option<PrefixDetection>)
    ensures
        match compose_services(doc@) {
            None => r is None,
            Some(sm) => match r {
                None => forall|p: Seq<char>| #[trigger] stem_count(sm, p) == 0,
                Some(d) => detection_of(sm, d.prefix@, string_views(d.others@)),
            },
        },
{
    let root = match mapping_of(doc) {
        Some(m) => m,
        None => return None,
    };
    let services = match get_entry(root, "services") {
        Some(v) => match mapping_of(v) {
            Some(m) => m,
            None => return None,
        },
        None => return None,
    };
    let ghost sm = entries_view(services@);
    let mut counts: Vec<(Vec<char>, usize)> = Vec::new();
    let mut i: usize = 0;
    proof {
        assert forall|q: Seq<char>| #[trigger] count_in(counts_view(counts@), q) == stem_count(sm.take(0), q) by {
            assert(sm.take(0).len() == 0);
        }
    }
    while i < services.len()
        invariant
            sm == entries_view(services@),
            i <= services.len(),
            counts_ok(counts_view(counts@), i as nat),
            forall|q: Seq<char>| #[trigger] count_in(counts_view(counts@), q) == stem_count(sm.take(i as int), q),
        decreases services.len() - i,
    {
        let ghost before = counts_view(counts@);
        proof {
            assert(sm.take(i + 1).drop_last() =~= sm.take(i as int));
            assert(sm.take(i + 1).last() == sm[i as int]);
            assert(sm[i as int].0 == services@[i as int].0@);
        }
        let stem = match str_of(&services[i].0) {
            Some(name) => stem_of_name(name.as_str()),
            None => None,
        };
        match stem {
            Some(st) => {
                let sv = chars_of(st.as_str());
                bump(&mut counts, sv, Ghost(i as nat));
            },
            None => {
                proof {
                    assert forall|j: int| 0 <= j < counts_view(counts@).len() implies 0 < (
                    #[trigger] counts_view(counts@)[j]).1 <= i + 1 by {}
                }
            },
        }
        i += 1;
    }
    proof {
        assert(sm.take(sm.len() as int) =~= sm);
    }
    let ghost cv = counts_view(counts@);
    if counts.len() == 0 {
        proof {
            assert forall|p: Seq<char>| #[trigger] stem_count(sm, p) == 0 by {
                assert(count_in(cv, p) == 0);
            }
        }
        return None;
    }
    let mut best: usize = 0;
    let mut j: usize = 1;
    while j < counts.len()
        invariant
            cv == counts_view(counts@),
            strictly_sorted(keys_of(cv)),
            counts.len() > 0,
            1 <= j <= counts.len(),
            best < j,
            forall|t: int| 0 <= t < j ==> (#[trigger] cv[t]).1 <= cv[best as int].1,
            forall|t: int| 0 <= t < j && (#[trigger] cv[t]).1 == cv[best as int].1 ==> t <= best,
        decreases counts.len() - j,
    {
        if counts[j].1 >= counts[best].1 {
            best = j;
        }
        j += 1;
    }
    let prefix = string_from(&counts[best].0);
    let mut others: Vec<String> = Vec::new();
    let mut t: usize = 0;
    while t < counts.len()
        invariant
            cv == counts_view(counts@),
            strictly_sorted(keys_of(cv)),
            t <= counts.len(),
            best < counts.len(),
            string_views(others@) == crate::text::without(keys_of(cv).take(t as int), cv[best as int].0),
        decreases counts.len() - t,
    {
        let ghost before = string_views(others@);
        proof {
            reveal(Seq::filter);
            assert(keys_of(cv).take(t + 1).drop_last() =~= keys_of(cv).take(t as int));
            assert(keys_of(cv).take(t + 1).last() == cv[t as int].0);
            assert(crate::text::without(keys_of(cv).take(t + 1), cv[best as int].0) == if cv[t as int].0
                != cv[best as int].0 {
                crate::text::without(keys_of(cv).take(t as int), cv[best as int].0).push(cv[t as int].0)
            } else {
                crate::text::without(keys_of(cv).take(t as int), cv[best as int].0)
            });
        }
        if t != best {
            proof {
                assert(cv[t as int].0 != cv[best as int].0) by {
                    let a: int = if t < best { t as int } else { best as int };
                    let b: int = if t < best { best as int } else { t as int };
                    assert(0 <= a < b < keys_of(cv).len());
                    assert(keys_of(cv)[a] == cv[a].0);
                    assert(keys_of(cv)[b] == cv[b].0);
                    assert(strictly_sorted(keys_of(cv)));
                    assert(lex_lt(keys_of(cv)[a], keys_of(cv)[b]));
                    lemma_lex_irreflexive(cv[t as int].0);
                }
            }
            others.push(string_from(&counts[t].0));
            proof {
                assert(string_views(others@) =~= before.push(cv[t as int].0));
            }
        }
        t += 1;
    }
    proof {
        let k = keys_of(cv);
        let pk = cv[best as int].0;
        let os = string_views(others@);
        assert(k.take(k.len() as int) =~= k);
        assert(os == crate::text::without(k, pk));
        lemma_count_at(cv, best as int);
        assert(count_in(cv, pk) == stem_count(sm, pk));
        // The most-used prefix, and the greatest among the most used.
        assert forall|p: Seq<char>| #[trigger] stem_count(sm, p) <= stem_count(sm, pk) by {
            assert(count_in(cv, p) == stem_count(sm, p));
            if exists|q: int| 0 <= q < cv.len() && #[trigger] cv[q].0 == p {
                let q = choose|q: int| 0 <= q < cv.len() && #[trigger] cv[q].0 == p;
                lemma_count_at(cv, q);
            }
        }
        assert forall|p: Seq<char>| #[trigger] stem_count(sm, p) == stem_count(sm, pk) implies !lex_lt(pk, p) by {
            assert(count_in(cv, p) == stem_count(sm, p));
            if exists|q: int| 0 <= q < cv.len() && #[trigger] cv[q].0 == p {
                let q = choose|q: int| 0 <= q < cv.len() && #[trigger] cv[q].0 == p;
                lemma_count_at(cv, q);
                if q < best {
                    assert(k[q] == cv[q].0);
                    assert(k[best as int] == cv[best as int].0);
                    assert(lex_lt(k[q], k[best as int]));
                    lemma_lex_trichotomy(p, pk);
                } else if q == best {
                    lemma_lex_irreflexive(p);
                }
            } else {
                assert(count_in(cv, p) == 0);
            }
        }
        // The others: the remaining recorded prefixes, in order.
        crate::text::lemma_without_sorted(k, pk);
        assert forall|p: Seq<char>| #[trigger] os.contains(p) <==> (stem_count(sm, p) > 0 && p != pk) by {
            crate::text::lemma_without_contains(k, pk, p);
            assert(count_in(cv, p) == stem_count(sm, p));
            if k.contains(p) {
                let q = choose|q: int| 0 <= q < k.len() && k[q] == p;
                assert(k[q] == cv[q].0);
                assert(cv[q].0 == p);
                lemma_count_at(cv, q);
                assert(0 < cv[q].1);
            } else {
                assert forall|q: int| 0 <= q < cv.len() implies #[trigger] cv[q].0 != p by {
                    assert(k[q] == cv[q].0);
                }
            }
        }
    }
    Some(PrefixDetection { prefix, others })
}

/// Detect the prefixes the arkime services use in compose text (see
/// `detect_prefix_in`); None when the text does not parse.
pub fn detect_prefix(text: &str) -> (r: Option<PrefixDetection>)
    ensures
        match yaml_parse(text@) {
            None => r is None,
            Some(doc) => match compose_services(doc) {
                None => r is None,
                Some(sm) => match r {
                    None => forall|p: Seq<char>| #[trigger] stem_count(sm, p) == 0,
                    Some(d) => detection_of(sm, d.prefix@, string_views(d.others@)),
                },
            },
        },
{
    match parse_yaml(text) {
        Some(doc) => detect_prefix_in(&doc),
        None => None,
    }
}

// ---------------------------------------------------------------------------
// Laws of env editing
// ---------------------------------------------------------------------------

/// The lines `set_env_key` writes, before they are joined (no lines when they
/// would join to nothing).
pub open spec fn env_lines(text: Seq<char>, key: Seq<char>, value: Option<Seq<char>>) -> Seq<Seq<char>> {
    let ls = lines(text);
    let needle = key + seq!['='];
    let k0 = env_kept(ls, needle, value);
    let kept = if join_lines(k0).len() > 0 {
        k0
    } else {
        seq![]
    };
    let found = exists|k: int| 0 <= k < ls.len() && value_line(#[trigger] ls[k], needle);
    match value {
        Some(v) => if found {
            kept
        } else {
            kept.push(needle + v)
        },
        None => kept,
    }
}

/// With a value, every uncommented line for the key becomes `key=value`.
proof fn lemma_env_kept_some(ls: Seq<Seq<char>>, needle: Seq<char>, v: Seq<char>)
    ensures
        env_kept(ls, needle, Some(v)) == Seq::new(
            ls.len(),
            |i: int| if value_line(ls[i], needle) { needle + v } else { ls[i] },
        ),
    decreases ls.len(),
{
    if ls.len() > 0 {
        lemma_env_kept_some(ls.drop_last(), needle, v);
        assert(env_kept(ls, needle, Some(v)) =~= Seq::new(
            ls.len(),
            |i: int| if value_line(ls[i], needle) { needle + v } else { ls[i] },
        ));
    } else {
        assert(env_kept(ls, needle, Some(v)) =~= Seq::new(
            ls.len(),
            |i: int| if value_line(ls[i], needle) { needle + v } else { ls[i] },
        ));
    }
}

/// Without a value, the kept lines are the lines that are not for the key.
proof fn lemma_env_kept_none(ls: Seq<Seq<char>>, needle: Seq<char>)
    ensures
        forall|i: int|
            0 <= i < env_kept(ls, needle, None).len() ==> !value_line(
                #[trigger] env_kept(ls, needle, None)[i],
                needle,
            ) && exists|j: int| 0 <= j < ls.len() && ls[j] == env_kept(ls, needle, None)[i],
    decreases ls.len(),
{
    if ls.len() > 0 {
        lemma_env_kept_none(ls.drop_last(), needle);
        let r = env_kept(ls.drop_last(), needle, None);
        assert forall|i: int| 0 <= i < env_kept(ls, needle, None).len() implies !value_line(
            #[trigger] env_kept(ls, needle, None)[i],
            needle,
        ) && exists|j: int| 0 <= j < ls.len() && ls[j] == env_kept(ls, needle, None)[i] by {
            if i < r.len() {
                assert(env_kept(ls, needle, None)[i] == r[i]);
                let j = choose|j: int| 0 <= j < ls.drop_last().len() && ls.drop_last()[j] == r[i];
                assert(ls[j] == ls.drop_last()[j]);
            } else {
                assert(ls[ls.len() - 1] == ls.last());
            }
        }
    }
}

/// Editing one key keeps what every other key reads.
proof fn lemma_env_kept_other(
    ls: Seq<Seq<char>>,
    key: Seq<char>,
    value: Option<Seq<char>>,
    other: Seq<char>,
)
    requires
        crate::config::substitute::plain_key(key),
        !other.contains('='),
        other != key,
    ensures
        crate::config::substitute::get_lines(env_kept(ls, key + seq!['='], value), other + seq!['='])
            == crate::config::substitute::get_lines(ls, other + seq!['=']),
    decreases ls.len(),
{
    let needle = key + seq!['='];
    let n2 = other + seq!['='];
    if ls.len() == 0 {
    } else {
        let init = ls.drop_last();
        let l = ls.last();
        assert(ls =~= init.push(l));
        lemma_env_kept_other(init, key, value, other);
        let r = env_kept(init, needle, value);
        crate::config::substitute::lemma_get_lines_push(init, l, n2);
        if value_line(l, needle) {
            assert(!value_line(l, n2)) by {
                crate::config::substitute::lemma_needles_apart(trim_start(l), key, other);
            }
            match value {
                Some(v) => {
                    let nl = needle + v;
                    assert(trim_start(nl) == nl);
                    assert(nl.subrange(0, needle.len() as int) =~= needle);
                    crate::config::substitute::lemma_needles_apart(nl, key, other);
                    crate::config::substitute::lemma_get_lines_push(r, nl, n2);
                },
                None => {},
            }
        } else {
            crate::config::substitute::lemma_get_lines_push(r, l, n2);
        }
    }
}

/// The written text splits back into the written lines.
proof fn lemma_env_lines(text: Seq<char>, key: Seq<char>, value: Option<Seq<char>>)
    requires
        !key.contains('\n'),
        value matches Some(v) ==> !v.contains('\n'),
    ensures
        crate::config::substitute::cr_equiv(lines(set_env_spec(text, key, value)), env_lines(text, key, value)),
{
    let ls = lines(text);
    let needle = key + seq!['='];
    let k0 = env_kept(ls, needle, value);
    let out = set_env_spec(text, key, value);
    crate::text::lemma_lines_from_shape(text, seq![]);
    let nl = match value {
        Some(v) => needle + v,
        None => needle,
    };
    assert(!nl.contains('\n')) by {
        if nl.contains('\n') {
            let j = choose|j: int| 0 <= j < nl.len() && nl[j] == '\n';
            if j < key.len() {
                assert(key[j] == '\n');
            } else if j > key.len() {
                assert(value->0[j - key.len() - 1] == '\n');
            }
        }
    }
    assert forall|i: int| 0 <= i < k0.len() implies !(#[trigger] k0[i]).contains('\n') by {
        match value {
            Some(v) => {
                lemma_env_kept_some(ls, needle, v);
                assert(!ls[i].contains('\n'));
            },
            None => {
                lemma_env_kept_none(ls, needle);
                let j = choose|j: int| 0 <= j < ls.len() && ls[j] == k0[i];
                assert(!ls[j].contains('\n'));
            },
        }
    }
    let found = exists|k: int| 0 <= k < ls.len() && value_line(#[trigger] ls[k], needle);
    let appended = value is Some && !found;
    assert(crate::text::lines_from(seq![], seq![]) == Seq::<Seq<char>>::empty());
    if join_lines(k0).len() > 0 {
        assert(k0.len() > 0);
        if appended {
            let l3 = k0.push(nl);
            assert(l3.drop_last() =~= k0);
            assert(join_lines(l3) == join_lines(k0) + seq!['\n'] + nl);
            assert(out =~= join_lines(l3) + seq!['\n'] + seq![]);
            assert forall|i: int| 0 <= i < l3.len() implies !(#[trigger] l3[i]).contains('\n') by {
                if i < k0.len() {
                    assert(l3[i] == k0[i]);
                }
            }
            crate::text::lemma_lines_join_nl(l3, seq![]);
        } else {
            assert(out =~= join_lines(k0) + seq!['\n'] + seq![]);
            crate::text::lemma_lines_join_nl(k0, seq![]);
        }
    } else {
        if appended {
            let l1 = seq![nl];
            assert(join_lines(l1) == nl);
            assert(out =~= join_lines(l1) + seq!['\n'] + seq![]);
            crate::text::lemma_lines_join_nl(l1, seq![]);
            assert(seq![].push(nl) =~= l1);
        } else {
            assert(out.len() == 0);
        }
    }
}

/// An uncommented `key=value` line is read as the value, trimmed.
proof fn lemma_plain_line(key: Seq<char>, v: Seq<char>)
    requires
        crate::config::substitute::plain_key(key),
    ensures
        value_line(key + seq!['='] + v, key + seq!['=']),
        crate::config::substitute::line_value(key + seq!['='] + v, key + seq!['=']) == trim(v),
{
    let needle = key + seq!['='];
    let nl = needle + v;
    assert(trim_start(nl) == nl);
    assert(nl.subrange(0, needle.len() as int) =~= needle);
    assert(nl.skip(needle.len() as int) =~= v);
}

/// Reading an env var back after setting it gives the value set, trimmed;
/// after removing it, nothing.
pub proof fn lemma_env_get_after_set(text: Seq<char>, key: Seq<char>, value: Option<Seq<char>>)
    requires
        crate::config::substitute::plain_key(key),
        value matches Some(v) ==> !v.contains('\n'),
    ensures
        get_key_spec(set_env_spec(text, key, value), key) == match value {
            Some(v) => Some(trim(v)),
            None => None,
        },
{
    let ls = lines(text);
    let needle = key + seq!['='];
    let k0 = env_kept(ls, needle, value);
    let ms = env_lines(text, key, value);
    lemma_env_lines(text, key, value);
    crate::config::substitute::lemma_cr_equiv_get(lines(set_env_spec(text, key, value)), ms, needle);
    crate::config::substitute::lemma_get_key_spec_lines(set_env_spec(text, key, value), key);
    let kept = if join_lines(k0).len() > 0 {
        k0
    } else {
        seq![]
    };
    match value {
        Some(v) => {
            let nl = needle + v;
            lemma_plain_line(key, v);
            lemma_env_kept_some(ls, needle, v);
            if exists|k: int| 0 <= k < ls.len() && value_line(#[trigger] ls[k], needle) {
                let k = choose|k: int| 0 <= k < ls.len() && value_line(#[trigger] ls[k], needle);
                crate::config::substitute::lemma_first_value_exists(ls, needle, k);
                let j = choose|j: int| first_value_line(ls, needle, j);
                assert(k0[j] == nl);
                assert(join_lines(k0).len() > 0) by {
                    crate::text::lemma_join_len(k0);
                }
                assert(first_value_line(k0, needle, j)) by {
                    assert forall|m: int| 0 <= m < j implies !value_line(#[trigger] k0[m], needle) by {
                        assert(!value_line(ls[m], needle));
                    }
                }
                crate::config::substitute::lemma_get_lines_at(k0, needle, j);
            } else {
                assert forall|i: int| 0 <= i < kept.len() implies !value_line(#[trigger] kept[i], needle) by {
                    assert(kept[i] == ls[i]);
                }
                crate::config::substitute::lemma_get_lines_none(kept, needle);
                crate::config::substitute::lemma_get_lines_push(kept, nl, needle);
            }
        },
        None => {
            lemma_env_kept_none(ls, needle);
            assert forall|i: int| 0 <= i < kept.len() implies !value_line(#[trigger] kept[i], needle) by {
                assert(kept[i] == k0[i]);
            }
            crate::config::substitute::lemma_get_lines_none(kept, needle);
        },
    }
}

/// Editing one env var leaves what every other var reads as it was
/// (unknown vars are preserved).
pub proof fn lemma_env_set_keeps_others(
    text: Seq<char>,
    key: Seq<char>,
    value: Option<Seq<char>>,
    other: Seq<char>,
)
    requires
        crate::config::substitute::plain_key(key),
        value matches Some(v) ==> !v.contains('\n'),
        !other.contains('='),
        other != key,
    ensures
        get_key_spec(set_env_spec(text, key, value), other) == get_key_spec(text, other),
{
    let ls = lines(text);
    let needle = key + seq!['='];
    let n2 = other + seq!['='];
    let k0 = env_kept(ls, needle, value);
    let ms = env_lines(text, key, value);
    lemma_env_lines(text, key, value);
    crate::config::substitute::lemma_cr_equiv_get(lines(set_env_spec(text, key, value)), ms, n2);
    crate::config::substitute::lemma_get_key_spec_lines(set_env_spec(text, key, value), other);
    crate::config::substitute::lemma_get_key_spec_lines(text, other);
    lemma_env_kept_other(ls, key, value, other);
    let kept = if join_lines(k0).len() > 0 {
        k0
    } else {
        seq![]
    };
    if join_lines(k0).len() == 0 {
        assert(forall|i: int| 0 <= i < k0.len() ==> (#[trigger] k0[i]).len() == 0) by {
            crate::text::lemma_join_len(k0);
        }
        assert forall|i: int| 0 <= i < k0.len() implies !value_line(#[trigger] k0[i], n2) by {
            assert(k0[i].len() == 0);
        }
        crate::config::substitute::lemma_get_lines_none(k0, n2);
        crate::config::substitute::lemma_get_lines_none(kept, n2);
    }
    match value {
        Some(v) => {
            let nl = needle + v;
            assert(!value_line(nl, n2)) by {
                assert(trim_start(nl) == nl);
                assert(nl.subrange(0, needle.len() as int) =~= needle);
                crate::config::substitute::lemma_needles_apart(nl, key, other);
            }
            crate::config::substitute::lemma_get_lines_push(kept, nl, n2);
        },
        None => {},
    }
}

// ---------------------------------------------------------------------------
// Rendering then reading config.ini
// ---------------------------------------------------------------------------

/// One `set_if` step of the rendering of the keys `all`, setting `all[j]`:
/// that key reads back as its value, and every other key reads as before.
proof fn lemma_render_step(t: Seq<char>, b: bool, all: Seq<Seq<char>>, j: int, v: Seq<char>)
    requires
        0 <= j < all.len(),
        crate::config::substitute::plain_key(all[j]),
        !v.contains('\n'),
        forall|i: int| 0 <= i < all.len() && i != j ==> !(#[trigger] all[i]).contains('=') && all[i] != all[j],
    ensures
        b ==> get_key_spec(set_if(b, t, all[j], v, true), all[j]) == Some(trim(v)),
        forall|i: int|
            0 <= i < all.len() && i != j ==> get_key_spec(set_if(b, t, all[j], v, true), #[trigger] all[i])
                == get_key_spec(t, all[i]),
{
    if b {
        crate::config::substitute::lemma_ini_get_after_set(t, all[j], v);
        assert forall|i: int| 0 <= i < all.len() && i != j implies get_key_spec(
            set_if(b, t, all[j], v, true),
            #[trigger] all[i],
        ) == get_key_spec(t, all[i]) by {
            crate::config::substitute::lemma_ini_set_keeps_others(t, all[j], v, true, all[i]);
        }
    }
}

/// The understood keys of config.ini are plain keys, pairwise different.
proof fn lemma_config_keys()
    ensures
        crate::config::substitute::plain_key("interface"@),
        crate::config::substitute::plain_key("elasticsearch"@),
        crate::config::substitute::plain_key("passwordSecret"@),
        crate::config::substitute::plain_key("plugins"@),
        crate::config::substitute::plain_key("wiseURL"@),
        crate::config::substitute::plain_key("uploadCommand"@),
        crate::config::substitute::plain_key("elasticsearchBasicAuth"@),
        "interface"@ != "elasticsearch"@,
        "interface"@ != "passwordSecret"@,
        "interface"@ != "plugins"@,
        "interface"@ != "wiseURL"@,
        "interface"@ != "uploadCommand"@,
        "interface"@ != "elasticsearchBasicAuth"@,
        "elasticsearch"@ != "passwordSecret"@,
        "elasticsearch"@ != "plugins"@,
        "elasticsearch"@ != "wiseURL"@,
        "elasticsearch"@ != "uploadCommand"@,
        "elasticsearch"@ != "elasticsearchBasicAuth"@,
        "passwordSecret"@ != "plugins"@,
        "passwordSecret"@ != "wiseURL"@,
        "passwordSecret"@ != "uploadCommand"@,
        "passwordSecret"@ != "elasticsearchBasicAuth"@,
        "plugins"@ != "wiseURL"@,
        "plugins"@ != "uploadCommand"@,
        "plugins"@ != "elasticsearchBasicAuth"@,
        "wiseURL"@ != "uploadCommand"@,
        "wiseURL"@ != "elasticsearchBasicAuth"@,
        "uploadCommand"@ != "elasticsearchBasicAuth"@,
        !UPLOAD_COMMAND@.contains('\n'),
{
    reveal_strlit("interface");
    reveal_strlit("elasticsearch");
    reveal_strlit("passwordSecret");
    reveal_strlit("plugins");
    reveal_strlit("wiseURL");
    reveal_strlit("uploadCommand");
    reveal_strlit("elasticsearchBasicAuth");
    reveal_strlit("/opt/arkime/bin/capture --copy -n {NODE} -r {TMPFILE} {TAGS}");
    assert("interface"@[0] != "elasticsearch"@[0]);
    assert("interface"@[0] != "passwordSecret"@[0]);
    assert("interface"@[0] != "plugins"@[0]);
    assert("interface"@[0] != "wiseURL"@[0]);
    assert("interface"@[0] != "uploadCommand"@[0]);
    assert("interface"@[0] != "elasticsearchBasicAuth"@[0]);
    assert("elasticsearch"@.len() != "elasticsearchBasicAuth"@.len());
    assert("elasticsearch"@[0] != "passwordSecret"@[0]);
    assert("elasticsearch"@[0] != "plugins"@[0]);
    assert("elasticsearch"@[0] != "wiseURL"@[0]);
    assert("elasticsearch"@[0] != "uploadCommand"@[0]);
    assert("passwordSecret"@[1] != "plugins"@[1]);
    assert("passwordSecret"@[0] != "wiseURL"@[0]);
    assert("passwordSecret"@[0] != "uploadCommand"@[0]);
    assert("passwordSecret"@[0] != "elasticsearchBasicAuth"@[0]);
    assert("plugins"@[0] != "wiseURL"@[0]);
    assert("plugins"@[0] != "uploadCommand"@[0]);
    assert("plugins"@[0] != "elasticsearchBasicAuth"@[0]);
    assert("wiseURL"@[0] != "uploadCommand"@[0]);
    assert("wiseURL"@[0] != "elasticsearchBasicAuth"@[0]);
    assert("uploadCommand"@[0] != "elasticsearchBasicAuth"@[0]);
}

/// The keys `render_ini` writes into config.ini, in the order it writes them.
pub open spec fn config_ini_keys() -> Seq<Seq<char>> {
    seq![
        "interface"@,
        "elasticsearch"@,
        "passwordSecret"@,
        "plugins"@,
        "wiseURL"@,
        "uploadCommand"@,
        "elasticsearchBasicAuth"@,
    ]
}

/// What the wizard writes into config.ini reads back into the wizard:
/// parsing the rendered text gives the trimmed interfaces, datastore URL and
/// secret, the plugins and WISE URL when they were set, and uploads on
/// exactly when they were asked for or the base already had an
/// `uploadCommand=` line. Values must be single lines.
pub proof fn lemma_config_ini_round_trip(base: Seq<char>, a: Answers, enc: BasicAuthEncoding, a0: Answers, b: Answers)
    requires
        !a.interfaces@.contains('\n'),
        !a.spec_elasticsearch_or_default().contains('\n'),
        !a.s2s_password@.contains('\n'),
        !a.plugins@.contains('\n'),
        !a.wise_url@.contains('\n'),
        a.spec_has_es_user() ==> !basic_auth_spec(a.es_user@, a.es_password@, enc).contains('\n'),
        parsed_ini(DocKind::ConfigIni, render_ini_spec(DocKind::ConfigIni, base, a, enc), a0, b),
    ensures
        b.interfaces@ == trim(a.interfaces@),
        b.elasticsearch@ == trim(a.spec_elasticsearch_or_default()),
        b.s2s_password@ == trim(a.s2s_password@),
        a.plugins@.len() > 0 ==> b.plugins@ == trim(a.plugins@),
        a.wise_url@.len() > 0 ==> b.wise_url@ == trim(a.wise_url@),
        b.enable_uploads == (a.enable_uploads || get_key_spec(base, "uploadCommand"@) is Some),
        plain_auth_back(a, enc) ==> b.es_user@ == a.es_user@ && b.es_password@ == a.es_password@,
{
    lemma_config_keys();
    let es = a.spec_elasticsearch_or_default();
    let auth = basic_auth_spec(a.es_user@, a.es_password@, enc);
    let all = config_ini_keys();
    let k_if = all[0];
    let k_es = all[1];
    let k_pw = all[2];
    let k_pl = all[3];
    let k_wu = all[4];
    let k_up = all[5];
    let k_au = all[6];
    assert(k_if == "interface"@ && k_es == "elasticsearch"@ && k_pw == "passwordSecret"@ && k_pl == "plugins"@
        && k_wu == "wiseURL"@ && k_up == "uploadCommand"@ && k_au == "elasticsearchBasicAuth"@);
    assert forall|i: int, k: int| 0 <= i < 7 && 0 <= k < 7 && i != k implies #[trigger] all[i] != #[trigger] all[k]
        && !all[i].contains('=') by {
        lemma_config_keys();
    }
    let b3 = a.plugins@.len() > 0;
    let b4 = a.wise_url@.len() > 0;
    let b5 = a.enable_uploads;
    let b6 = a.spec_has_es_user();
    lemma_render_step(base, true, all, 0, a.interfaces@);
    let t1 = set_if(true, base, k_if, a.interfaces@, true);
    lemma_render_step(t1, true, all, 1, es);
    let t2 = set_if(true, t1, k_es, es, true);
    lemma_render_step(t2, true, all, 2, a.s2s_password@);
    let t3 = set_if(true, t2, k_pw, a.s2s_password@, true);
    lemma_render_step(t3, b3, all, 3, a.plugins@);
    let t4 = set_if(b3, t3, k_pl, a.plugins@, true);
    lemma_render_step(t4, b4, all, 4, a.wise_url@);
    let t5 = set_if(b4, t4, k_wu, a.wise_url@, true);
    lemma_render_step(t5, b5, all, 5, UPLOAD_COMMAND@);
    let t6 = set_if(b5, t5, k_up, UPLOAD_COMMAND@, true);
    if b6 {
        lemma_render_step(t6, true, all, 6, auth);
    }
    let t7 = set_if(b6, t6, k_au, auth, true);
    assert(t7 == render_ini_spec(DocKind::ConfigIni, base, a, enc));
    // each key read back from the result
    if !b6 {
        assert(t7 == t6);
    }
    assert(get_key_spec(t7, all[0]) == get_key_spec(t6, all[0]));
    assert(get_key_spec(t6, all[0]) == get_key_spec(t5, all[0]));
    assert(get_key_spec(t5, all[0]) == get_key_spec(t4, all[0]));
    assert(get_key_spec(t4, all[0]) == get_key_spec(t3, all[0]));
    assert(get_key_spec(t3, all[0]) == get_key_spec(t2, all[0]));
    assert(get_key_spec(t2, all[0]) == get_key_spec(t1, all[0]));
    assert(get_key_spec(t7, all[1]) == get_key_spec(t6, all[1]));
    assert(get_key_spec(t6, all[1]) == get_key_spec(t5, all[1]));
    assert(get_key_spec(t5, all[1]) == get_key_spec(t4, all[1]));
    assert(get_key_spec(t4, all[1]) == get_key_spec(t3, all[1]));
    assert(get_key_spec(t3, all[1]) == get_key_spec(t2, all[1]));
    assert(get_key_spec(t7, all[2]) == get_key_spec(t6, all[2]));
    assert(get_key_spec(t6, all[2]) == get_key_spec(t5, all[2]));
    assert(get_key_spec(t5, all[2]) == get_key_spec(t4, all[2]));
    assert(get_key_spec(t4, all[2]) == get_key_spec(t3, all[2]));
    assert(get_key_spec(t7, all[3]) == get_key_spec(t6, all[3]));
    assert(get_key_spec(t6, all[3]) == get_key_spec(t5, all[3]));
    assert(get_key_spec(t5, all[3]) == get_key_spec(t4, all[3]));
    assert(get_key_spec(t7, all[4]) == get_key_spec(t6, all[4]));
    assert(get_key_spec(t6, all[4]) == get_key_spec(t5, all[4]));
    assert(get_key_spec(t7, all[5]) == get_key_spec(t6, all[5]));
    if !b5 {
        assert(t6 == t5);
        assert(get_key_spec(t5, all[5]) == get_key_spec(t4, all[5]));
        assert(get_key_spec(t4, all[5]) == get_key_spec(t3, all[5]));
        assert(get_key_spec(t3, all[5]) == get_key_spec(t2, all[5]));
        assert(get_key_spec(t2, all[5]) == get_key_spec(t1, all[5]));
        assert(get_key_spec(t1, all[5]) == get_key_spec(base, all[5]));
    }
    if plain_auth_back(a, enc) {
        crate::text::lemma_split_once_join(a.es_user@, ':', a.es_password@);
    }
}

/// A basic-auth value that reads back as the user and password: plaintext,
/// a user without `:`, and nothing trimmed off the `user:pass` text.
pub open spec fn plain_auth_back(a: Answers, enc: BasicAuthEncoding) -> bool {
    let plain = a.es_user@ + seq![':'] + a.es_password@;
    &&& a.spec_has_es_user()
    &&& enc == BasicAuthEncoding::Plaintext
    &&& !a.es_user@.contains(':')
    &&& trim(plain) == plain
}

/// What the wizard writes into wise.ini or cont3xt.ini reads back into the
/// wizard: each understood key that the base already has a line for
/// (commented out or not) reads back as the value written, trimmed, and the
/// fields only config.ini carries keep their earlier values. Values must be
/// single lines.
pub proof fn lemma_service_ini_round_trip(
    kind: DocKind,
    base: Seq<char>,
    a: Answers,
    enc: BasicAuthEncoding,
    a0: Answers,
    b: Answers,
)
    requires
        kind == DocKind::WiseIni || kind == DocKind::Cont3xtIni,
        !a.spec_elasticsearch_or_default().contains('\n'),
        !a.s2s_password@.contains('\n'),
        a.spec_has_es_user() ==> !basic_auth_spec(a.es_user@, a.es_password@, enc).contains('\n'),
        parsed_ini(kind, render_ini_spec(kind, base, a, enc), a0, b),
    ensures
        crate::config::substitute::has_key_line(base, "elasticsearch"@) ==> b.elasticsearch@ == trim(
            a.spec_elasticsearch_or_default(),
        ),
        crate::config::substitute::has_key_line(base, "passwordSecret"@) ==> b.s2s_password@ == trim(
            a.s2s_password@,
        ),
        plain_auth_back(a, enc) && crate::config::substitute::has_key_line(base, "elasticsearchBasicAuth"@)
            ==> b.es_user@ == a.es_user@ && b.es_password@ == a.es_password@,
        b.interfaces@ == a0.interfaces@,
        b.plugins@ == a0.plugins@,
        b.wise_url@ == a0.wise_url@,
        b.enable_uploads == a0.enable_uploads,
{
    lemma_config_keys();
    let es = a.spec_elasticsearch_or_default();
    let auth = basic_auth_spec(a.es_user@, a.es_password@, enc);
    let k_es = "elasticsearch"@;
    let k_pw = "passwordSecret"@;
    let k_au = "elasticsearchBasicAuth"@;
    let t1 = set_ini_key_spec(base, k_es, es, false);
    let t2 = set_ini_key_spec(t1, k_pw, a.s2s_password@, false);
    let t3 = set_if(a.spec_has_es_user(), t2, k_au, auth, false);
    assert(t3 == render_ini_spec(kind, base, a, enc));
    // later updates leave what earlier keys read
    crate::config::substitute::lemma_ini_set_keeps_others(t1, k_pw, a.s2s_password@, false, k_es);
    if a.spec_has_es_user() {
        crate::config::substitute::lemma_ini_set_keeps_others(t2, k_au, auth, false, k_es);
        crate::config::substitute::lemma_ini_set_keeps_others(t2, k_au, auth, false, k_pw);
    }
    assert(get_key_spec(t3, k_es) == get_key_spec(t1, k_es));
    assert(get_key_spec(t3, k_pw) == get_key_spec(t2, k_pw));
    if crate::config::substitute::has_key_line(base, k_es) {
        crate::config::substitute::lemma_ini_get_after_update(base, k_es, es);
    }
    if crate::config::substitute::has_key_line(base, k_pw) {
        crate::config::substitute::lemma_update_keeps_key_line(base, k_es, es, k_pw);
        crate::config::substitute::lemma_ini_get_after_update(t1, k_pw, a.s2s_password@);
    }
    if plain_auth_back(a, enc) && crate::config::substitute::has_key_line(base, k_au) {
        crate::config::substitute::lemma_update_keeps_key_line(base, k_es, es, k_au);
        crate::config::substitute::lemma_update_keeps_key_line(t1, k_pw, a.s2s_password@, k_au);
        crate::config::substitute::lemma_ini_get_after_update(t2, k_au, auth);
        crate::text::lemma_split_once_join(a.es_user@, ':', a.es_password@);
    }
}

// ---------------------------------------------------------------------------
// Rendering then reading the env file
// ---------------------------------------------------------------------------

/// The managed variable names are plain keys, pairwise different.
proof fn lemma_env_keys()
    ensures
        forall|i: int| 0 <= i < 8 ==> crate::config::substitute::plain_key(#[trigger] env_key(i)),
        forall|i: int, j: int| 0 <= i < 8 && 0 <= j < 8 && i != j ==> #[trigger] env_key(i) != #[trigger] env_key(j),
{
    reveal_strlit("ARKIME__dropUser");
    reveal_strlit("ARKIME__uploadCommand");
    reveal_strlit("ARKIME__interface");
    reveal_strlit("ARKIME__elasticsearch");
    reveal_strlit("ARKIME__elasticsearchBasicAuth");
    reveal_strlit("ARKIME__passwordSecret");
    reveal_strlit("ARKIME__plugins");
    reveal_strlit("ARKIME__wiseURL");
    assert forall|i: int| 0 <= i < 8 implies crate::config::substitute::plain_key(#[trigger] env_key(i)) by {
        assert(env_key(i)[0] == 'A');
    }
    assert forall|i: int, j: int| 0 <= i < 8 && 0 <= j < 8 && i != j implies #[trigger] env_key(i) != #[trigger] env_key(
        j,
    ) by {
        if env_key(i) == env_key(j) {
            assert(env_key(i).len() == env_key(j).len());
            assert(env_key(i)[8] == env_key(j)[8]);
            assert(env_key(i)[9] == env_key(j)[9]);
        }
    }
}

/// After merging the first `n` managed variables, each of them reads back as
/// its value, trimmed, or is absent when it was removed.
proof fn lemma_env_fold(t: Seq<char>, a: Answers, enc: BasicAuthEncoding, n: nat)
    requires
        n <= 8,
        forall|i: int| 0 <= i < 8 ==> (#[trigger] env_value(i, a, enc) matches Some(v) ==> !v.contains('\n')),
    ensures
        forall|i: int|
            0 <= i < n ==> get_key_spec(env_fold(t, a, enc, n), #[trigger] env_key(i)) == match env_value(
                i,
                a,
                enc,
            ) {
                Some(v) => Some(trim(v)),
                None => None,
            },
    decreases n,
{
    if n > 0 {
        lemma_env_keys();
        lemma_env_fold(t, a, enc, (n - 1) as nat);
        let prev = env_fold(t, a, enc, (n - 1) as nat);
        let k = env_key(n - 1);
        assert(env_value(n - 1, a, enc) matches Some(v) ==> !v.contains('\n'));
        lemma_env_get_after_set(prev, k, env_value(n - 1, a, enc));
        assert forall|i: int| 0 <= i < n implies get_key_spec(env_fold(t, a, enc, n), #[trigger] env_key(i))
            == match env_value(i, a, enc) {
            Some(v) => Some(trim(v)),
            None => None,
        } by {
            if i < n - 1 {
                assert(env_key(i) != k);
                lemma_env_set_keeps_others(prev, k, env_value(n - 1, a, enc), env_key(i));
            }
        }
    }
}

/// What the wizard writes into the env file reads back into the wizard:
/// parsing the rendered text gives uploads exactly as chosen, the datastore
/// URL actually used, and the trimmed interfaces, secret, plugins and WISE
/// URL when set (the values removed leave the earlier answers). Values must
/// be single lines.
pub proof fn lemma_env_round_trip(base: Seq<char>, a: Answers, enc: BasicAuthEncoding, a0: Answers, b: Answers)
    requires
        !a.interfaces@.contains('\n'),
        !a.spec_elasticsearch_or_default().contains('\n'),
        !a.s2s_password@.contains('\n'),
        !a.plugins@.contains('\n'),
        !a.wise_url@.contains('\n'),
        a.spec_has_es_user() ==> !basic_auth_spec(a.es_user@, a.es_password@, enc).contains('\n'),
        parsed_env(env_fold(base, a, enc, 8), a0, b),
    ensures
        b.enable_uploads == a.enable_uploads,
        b.interfaces@ == if a.interfaces@.len() > 0 {
            trim(a.interfaces@)
        } else {
            a0.interfaces@
        },
        b.elasticsearch@ == trim(
            if a.es_backend != EsBackend::External {
                SINGLE_NODE_ES_URL@
            } else {
                a.spec_elasticsearch_or_default()
            },
        ),
        b.s2s_password@ == if a.s2s_password@.len() > 0 {
            trim(a.s2s_password@)
        } else {
            a0.s2s_password@
        },
        b.plugins@ == if a.plugins@.len() > 0 {
            trim(a.plugins@)
        } else {
            a0.plugins@
        },
        b.wise_url@ == if a.wise_url@.len() > 0 {
            trim(a.wise_url@)
        } else {
            a0.wise_url@
        },
        plain_auth_back(a, enc) ==> b.es_user@ == a.es_user@ && b.es_password@ == a.es_password@,
{
    reveal_strlit("nobody");
    reveal_strlit("/opt/arkime/bin/capture --copy -n {NODE} -r {TMPFILE} {TAGS}");
    reveal_strlit("http://localhost:9200");
    assert forall|i: int| 0 <= i < 8 implies (#[trigger] env_value(i, a, enc) matches Some(v) ==> !v.contains(
        '\n',
    )) by {
    }
    lemma_env_fold(base, a, enc, 8);
    reveal_strlit("ARKIME__uploadCommand");
    reveal_strlit("ARKIME__interface");
    reveal_strlit("ARKIME__elasticsearch");
    reveal_strlit("ARKIME__passwordSecret");
    reveal_strlit("ARKIME__plugins");
    reveal_strlit("ARKIME__wiseURL");
    assert(env_key(1) == "ARKIME__uploadCommand"@);
    assert(env_key(2) == "ARKIME__interface"@);
    assert(env_key(3) == "ARKIME__elasticsearch"@);
    assert(env_key(5) == "ARKIME__passwordSecret"@);
    assert(env_key(6) == "ARKIME__plugins"@);
    assert(env_key(7) == "ARKIME__wiseURL"@);
    reveal_strlit("ARKIME__elasticsearchBasicAuth");
    assert(env_key(4) == "ARKIME__elasticsearchBasicAuth"@);
    if plain_auth_back(a, enc) {
        crate::text::lemma_split_once_join(a.es_user@, ':', a.es_password@);
    }
}

// ---------------------------------------------------------------------------
// Rendering keeps the services that are not ours
// ---------------------------------------------------------------------------

/// `name` is none of the services this prefix manages.
pub open spec fn foreign_service(prefix: Seq<char>, name: Seq<char>) -> bool {
    &&& name != "elasticsearch"@
    &&& forall|c: Component| name != #[trigger] service_name(prefix, c)
}

proof fn lemma_fold_keeps_others(
    s: Seq<(YamlV, YamlV)>,
    cs: Seq<Component>,
    prefix: Seq<char>,
    comps: Components,
    images: Images,
    es_depends: bool,
    mounts: MountSelection,
    name: Seq<char>,
)
    requires
        crate::yaml::unique_keys(s),
        forall|c: Component| name != #[trigger] service_name(prefix, c),
    ensures
        crate::yaml::unique_keys(services_fold(s, cs, prefix, comps, images, es_depends, mounts)),
        map_get(services_fold(s, cs, prefix, comps, images, es_depends, mounts), name) == map_get(s, name),
    decreases cs.len(),
{
    if cs.len() > 0 {
        let c = cs[0];
        let own = service_name(prefix, c);
        assert(name != own);
        let existing = match map_get(s, own) {
            Some(v) => match as_mapping(v) {
                Some(m) => m,
                None => seq![],
            },
            None => seq![],
        };
        crate::yaml::lemma_map_edit_others(
            s,
            own,
            YamlV::Mapping(fill_spec(existing, c, images, es_depends, mounts, comps)),
            name,
        );
        let s1 = service_step(s, c, prefix, comps, images, es_depends, mounts);
        lemma_fold_keeps_others(s1, cs.drop_first(), prefix, comps, images, es_depends, mounts, name);
    }
}

/// Merging our services into a `services:` mapping (with unique keys) keeps
/// every other service exactly as it was: unknown services, and those of
/// other prefixes, are left untouched.
pub proof fn lemma_render_keeps_foreign_services(
    s: Seq<(YamlV, YamlV)>,
    prefix: Seq<char>,
    comps: Components,
    a: Answers,
    mounts: MountSelection,
    images: Images,
    name: Seq<char>,
)
    requires
        crate::yaml::unique_keys(s),
        foreign_service(prefix, name),
    ensures
        map_get(render_services_spec(s, prefix, comps, a, mounts, images), name) == map_get(s, name),
{
    let single = a.es_backend != EsBackend::External;
    let es_depends = single || has_key(s, "elasticsearch"@);
    lemma_fold_keeps_others(s, all_components(), prefix, comps, images, es_depends, mounts, name);
    let s1 = services_fold(s, all_components(), prefix, comps, images, es_depends, mounts);
    crate::yaml::lemma_map_edit_others(s1, "elasticsearch"@, es_service_spec(images, es_data_dir(a)), name);
}

/// Deleting a prefix removes exactly its services: with unique keys, every
/// service of the prefix is gone and every other service is kept.
pub proof fn lemma_remove_names(sm: Seq<(YamlV, YamlV)>, prefix: Seq<char>, cs: Seq<Component>, name: Seq<char>)
    requires
        crate::yaml::unique_keys(sm),
    ensures
        crate::yaml::unique_keys(remove_names(sm, prefix, cs)),
        (exists|i: int| 0 <= i < cs.len() && name == service_name(prefix, #[trigger] cs[i])) ==> map_get(
            remove_names(sm, prefix, cs),
            name,
        ) is None,
        (forall|i: int| 0 <= i < cs.len() ==> name != service_name(prefix, #[trigger] cs[i])) ==> map_get(
            remove_names(sm, prefix, cs),
            name,
        ) == map_get(sm, name),
    decreases cs.len(),
{
    if cs.len() > 0 {
        let own = service_name(prefix, cs[0]);
        let s1 = map_del(sm, own);
        if name == own {
            crate::yaml::lemma_map_del_gone(sm, own);
        } else {
            crate::yaml::lemma_map_edit_others(sm, own, YamlV::Null, name);
        }
        lemma_remove_names(s1, prefix, cs.drop_first(), name);
        if name == own {
            lemma_remove_names_absent(s1, prefix, cs.drop_first(), name);
        }
        if exists|i: int| 0 <= i < cs.len() && name == service_name(prefix, #[trigger] cs[i]) {
            let i = choose|i: int| 0 <= i < cs.len() && name == service_name(prefix, #[trigger] cs[i]);
            if i > 0 {
                assert(cs.drop_first()[i - 1] == cs[i]);
            }
        }
        if forall|i: int| 0 <= i < cs.len() ==> name != service_name(prefix, #[trigger] cs[i]) {
            assert forall|i: int| 0 <= i < cs.drop_first().len() implies name != service_name(
                prefix,
                #[trigger] cs.drop_first()[i],
            ) by {
                assert(cs.drop_first()[i] == cs[i + 1]);
            }
        }
    }
}

/// Removing further names keeps an absent name absent.
proof fn lemma_remove_names_absent(sm: Seq<(YamlV, YamlV)>, prefix: Seq<char>, cs: Seq<Component>, name: Seq<char>)
    requires
        crate::yaml::unique_keys(sm),
        map_get(sm, name) is None,
    ensures
        map_get(remove_names(sm, prefix, cs), name) is None,
    decreases cs.len(),
{
    if cs.len() > 0 {
        let own = service_name(prefix, cs[0]);
        if name == own {
            crate::yaml::lemma_map_del_gone(sm, own);
        } else {
            crate::yaml::lemma_map_edit_others(sm, own, YamlV::Null, name);
        }
        lemma_remove_names_absent(map_del(sm, own), prefix, cs.drop_first(), name);
    }
}

// ---------------------------------------------------------------------------
// Rendering then reading the compose document
// ---------------------------------------------------------------------------

/// The services of different components have different names, and none is
/// the single-node datastore's.
proof fn lemma_service_names(prefix: Seq<char>)
    ensures
        forall|c: Component, d: Component| c != d ==> #[trigger] service_name(prefix, c) != #[trigger] service_name(
            prefix,
            d,
        ),
        forall|c: Component| #[trigger] service_name(prefix, c) != "elasticsearch"@,
{
    reveal_strlit("capture");
    reveal_strlit("viewer");
    reveal_strlit("wise");
    reveal_strlit("parliament");
    reveal_strlit("cont3xt");
    reveal_strlit("elasticsearch");
    assert forall|c: Component, d: Component| c != d implies #[trigger] service_name(prefix, c) != #[trigger] service_name(
        prefix,
        d,
    ) by {
        let lc = c.spec_label();
        let ld = d.spec_label();
        if service_name(prefix, c) == service_name(prefix, d) {
            assert(lc =~= service_name(prefix, c).skip(prefix.len() as int));
            assert(ld =~= service_name(prefix, d).skip(prefix.len() as int));
            assert(lc == ld);
            assert(lc.len() == ld.len());
            assert(lc[0] == ld[0]);
            assert(lc[lc.len() - 1] == ld[ld.len() - 1]);
        }
    }
    assert forall|c: Component| #[trigger] service_name(prefix, c) != "elasticsearch"@ by {
        let n = service_name(prefix, c);
        assert(n.last() == c.spec_label().last());
    }
}

/// A mapping has a key exactly when it has a value for it.
proof fn lemma_has_key_get(m: Seq<(YamlV, YamlV)>, name: Seq<char>)
    ensures
        has_key(m, name) == (map_get(m, name) is Some),
{
}

/// After the services fold over distinct components, each of them has its
/// service exactly when selected; other names keep theirs.
proof fn lemma_fold_selected(
    s: Seq<(YamlV, YamlV)>,
    cs: Seq<Component>,
    prefix: Seq<char>,
    comps: Components,
    images: Images,
    es_depends: bool,
    mounts: MountSelection,
    name: Seq<char>,
)
    requires
        crate::yaml::unique_keys(s),
        forall|i: int, j: int| 0 <= i < j < cs.len() ==> cs[i] != cs[j],
    ensures
        crate::yaml::unique_keys(services_fold(s, cs, prefix, comps, images, es_depends, mounts)),
        forall|i: int| 0 <= i < cs.len() && name == service_name(prefix, #[trigger] cs[i]) ==> has_key(
            services_fold(s, cs, prefix, comps, images, es_depends, mounts),
            name,
        ) == comps.has(cs[i]),
        (forall|i: int| 0 <= i < cs.len() ==> name != service_name(prefix, #[trigger] cs[i])) ==> has_key(
            services_fold(s, cs, prefix, comps, images, es_depends, mounts),
            name,
        ) == has_key(s, name),
    decreases cs.len(),
{
    if cs.len() > 0 {
        lemma_service_names(prefix);
        let c = cs[0];
        let own = service_name(prefix, c);
        let existing = match map_get(s, own) {
            Some(v) => match as_mapping(v) {
                Some(m) => m,
                None => seq![],
            },
            None => seq![],
        };
        let v = YamlV::Mapping(fill_spec(existing, c, images, es_depends, mounts, comps));
        let s1 = service_step(s, c, prefix, comps, images, es_depends, mounts);
        let rest = cs.drop_first();
        assert forall|i: int, j: int| 0 <= i < j < rest.len() implies rest[i] != rest[j] by {
            assert(rest[i] == cs[i + 1]);
            assert(rest[j] == cs[j + 1]);
        }
        crate::yaml::lemma_map_edit_unique(s, own, v);
        if name != own {
            crate::yaml::lemma_map_edit_others(s, own, v, name);
        }
        crate::yaml::lemma_map_del_gone(s, own);
        lemma_has_key_get(s, name);
        lemma_has_key_get(s1, name);
        if comps.has(c) {
            assert(s1 == map_set(s, own, v));
            if name == own {
                if has_key(s, own) {
                    let i = key_index(s, own);
                    assert(key_at(s, own, i));
                    assert(key_is(s1[i].0, own));
                    crate::yaml::lemma_has_key_of(s1, own, i);
                } else {
                    assert(key_is(s1[s.len() as int].0, own));
                    crate::yaml::lemma_has_key_of(s1, own, s.len() as int);
                }
            }
        } else {
            assert(s1 == map_del(s, own));
        }
        lemma_fold_selected(s1, rest, prefix, comps, images, es_depends, mounts, name);
        if name == own {
            assert forall|i: int| 0 <= i < rest.len() implies name != service_name(prefix, #[trigger] rest[i]) by {
                assert(rest[i] == cs[i + 1]);
                assert(cs[i + 1] != cs[0]);
            }
        }
        assert forall|i: int| 0 <= i < cs.len() && name == service_name(prefix, #[trigger] cs[i]) implies has_key(
            services_fold(s, cs, prefix, comps, images, es_depends, mounts),
            name,
        ) == comps.has(cs[i]) by {
            if i > 0 {
                assert(rest[i - 1] == cs[i]);
                assert(cs[i] != cs[0]);
            }
        }
        if forall|i: int| 0 <= i < cs.len() ==> name != service_name(prefix, #[trigger] cs[i]) {
            assert(name != service_name(prefix, cs[0]));
            assert forall|i: int| 0 <= i < rest.len() implies name != service_name(prefix, #[trigger] rest[i]) by {
                assert(rest[i] == cs[i + 1]);
            }
        }
    }
}

/// What the rendered compose document reads back as: each component's
/// service is there exactly when the component is selected, and the
/// datastore reads as a single-node one when one is wanted or the document
/// already had one. `s0` are the services the document had (none when it
/// had no `services:` mapping), with unique names.
pub proof fn lemma_compose_round_trip(
    root: YamlV,
    prefix: Seq<char>,
    comps: Components,
    a: Answers,
    mounts: MountSelection,
    images: Images,
    s0: Seq<(YamlV, YamlV)>,
    c0: Components,
    a0: Answers,
    m0: MountSelection,
    c1: Components,
    a1: Answers,
    m1: MountSelection,
)
    requires
        s0 == match as_mapping(root) {
            Some(m) => match map_get(m, "services"@) {
                Some(v) => match as_mapping(v) {
                    Some(sm) => sm,
                    None => seq![],
                },
                None => seq![],
            },
            None => seq![],
        },
        crate::yaml::unique_keys(s0),
        read_compose_spec(compose_doc(root, prefix, comps, a, mounts, images), prefix, c0, a0, m0, c1, a1, m1),
    ensures
        compose_services(compose_doc(root, prefix, comps, a, mounts, images)) == Some(
            render_services_spec(s0, prefix, comps, a, mounts, images),
        ),
        forall|x: Component| #[trigger] c1.has(x) == comps.has(x),
        a1.es_backend == if a.es_backend != EsBackend::External || has_key(s0, "elasticsearch"@) {
            EsBackend::Elasticsearch
        } else {
            EsBackend::External
        },
        a.es_backend != EsBackend::External && !has_key(s0, "elasticsearch"@) ==> a1.es_data_dir@ == es_data_dir(
            a,
        ),
{
    lemma_compose_services_of(root, prefix, comps, a, mounts, images, s0);
    let r = render_services_spec(s0, prefix, comps, a, mounts, images);
    let single = a.es_backend != EsBackend::External;
    let es_depends = single || has_key(s0, "elasticsearch"@);
    let cs = all_components();
    let s1 = services_fold(s0, cs, prefix, comps, images, es_depends, mounts);
    lemma_service_names(prefix);
    assert forall|i: int, j: int| 0 <= i < j < cs.len() implies cs[i] != cs[j] by {
    }
    lemma_fold_selected(s0, cs, prefix, comps, images, es_depends, mounts, "elasticsearch"@);
    assert forall|x: Component| #[trigger] c1.has(x) == comps.has(x) by {
        let k: int = match x {
            Component::Capture => 0,
            Component::Viewer => 1,
            Component::Wise => 2,
            Component::Parliament => 3,
            Component::Cont3xt => 4,
        };
        assert(cs[k] == x);
        lemma_fold_selected(s0, cs, prefix, comps, images, es_depends, mounts, service_name(prefix, x));
        crate::yaml::lemma_map_edit_others(
            s1,
            "elasticsearch"@,
            es_service_spec(images, es_data_dir(a)),
            service_name(prefix, x),
        );
        lemma_has_key_get(s1, service_name(prefix, x));
        lemma_has_key_get(r, service_name(prefix, x));
    }
    assert forall|i: int| 0 <= i < cs.len() implies "elasticsearch"@ != service_name(prefix, #[trigger] cs[i]) by {
    }
    lemma_fold_selected(s0, cs, prefix, comps, images, es_depends, mounts, "elasticsearch"@);
    if single && !has_key(s1, "elasticsearch"@) {
        let m2 = map_set(s1, "elasticsearch"@, es_service_spec(images, es_data_dir(a)));
        assert(key_is(m2[s1.len() as int].0, "elasticsearch"@));
        crate::yaml::lemma_has_key_of(m2, "elasticsearch"@, s1.len() as int);
        lemma_map_set_get(s1, "elasticsearch"@, es_service_spec(images, es_data_dir(a)));
        lemma_es_service_dir(images, es_data_dir(a));
    }
}

/// The single-node datastore service keeps its data under the directory it
/// was made with.
proof fn lemma_es_service_dir(images: Images, dir: Seq<char>)
    ensures
        es_dir_from(seq![(YamlV::Str("elasticsearch"@), es_service_spec(images, dir))]) == Some(dir),
        ({
            let esm = as_mapping(es_service_spec(images, dir)).unwrap();
            &&& as_mapping(es_service_spec(images, dir)) is Some
            &&& volume_strs(esm) == seq![dir + ES_DATA_MOUNT@]
        }),
{
    reveal_strlit("volumes");
    reveal_strlit("container_name");
    reveal_strlit("image");
    reveal_strlit("network_mode");
    reveal_strlit("environment");
    reveal_strlit("ulimits");
    reveal_strlit(":/usr/share/elasticsearch/data");
    let v = es_service_spec(images, dir);
    let esm = as_mapping(v).unwrap();
    let vol = "volumes"@;
    assert(untag(v) == v);
    assert forall|j: int| 0 <= j < 5 implies !key_is(#[trigger] esm[j].0, vol) by {
        assert(esm[j].0 is Str);
        assert(esm[j].0->Str_0[0] != vol[0]);
    }
    assert(key_at(esm, vol, 5));
    crate::yaml::lemma_key_at_unique(esm, vol, 5, key_index(esm, vol));
    let items = seq![YamlV::Str(dir + ES_DATA_MOUNT@)];
    assert(items =~= Seq::new(1, |i: int| YamlV::Str(seq![dir + ES_DATA_MOUNT@][i])));
    assert(str_items(seq![dir + ES_DATA_MOUNT@]) == YamlV::Sequence(items));
    lemma_strs_of_items(seq![dir + ES_DATA_MOUNT@]);
    let line = dir + ES_DATA_MOUNT@;
    assert(line.subrange(line.len() - ES_DATA_MOUNT@.len(), line.len() as int) =~= ES_DATA_MOUNT@);
    assert(line.subrange(0, line.len() - ES_DATA_MOUNT@.len()) =~= dir);
    let one = seq![(YamlV::Str("elasticsearch"@), v)];
    assert(key_at(one, "elasticsearch"@, 0));
    crate::yaml::lemma_key_at_unique(one, "elasticsearch"@, 0, key_index(one, "elasticsearch"@));
}

/// The `services:` of a rendered document are the merged services.
proof fn lemma_compose_services_of(
    root: YamlV,
    prefix: Seq<char>,
    comps: Components,
    a: Answers,
    mounts: MountSelection,
    images: Images,
    s0: Seq<(YamlV, YamlV)>,
)
    requires
        s0 == match as_mapping(root) {
            Some(m) => match map_get(m, "services"@) {
                Some(v) => match as_mapping(v) {
                    Some(sm) => sm,
                    None => seq![],
                },
                None => seq![],
            },
            None => seq![],
        },
    ensures
        compose_services(compose_doc(root, prefix, comps, a, mounts, images)) == Some(
            render_services_spec(s0, prefix, comps, a, mounts, images),
        ),
{
    let r = mapping_or_empty(root);
    let m = as_mapping(r).unwrap();
    let svc = "services"@;
    let m1 = if has_key(m, svc) {
        m
    } else {
        m.push((YamlV::Str(svc), YamlV::Mapping(seq![])))
    };
    if !has_key(m, svc) {
        assert forall|j: int| 0 <= j < m.len() implies !key_is(#[trigger] m1[j].0, svc) by {
            assert(m1[j] == m[j]);
            if key_is(m[j].0, svc) {
                crate::yaml::lemma_has_key_of(m, svc, j);
            }
        }
        assert(key_at(m1, svc, m.len() as int));
    }
    let i = key_index(m1, svc);
    assert(key_at(m1, svc, i));
    let sv = m1[i].1;
    let new_sv = match as_mapping(sv) {
        Some(sm) => with_inner(sv, YamlV::Mapping(render_services_spec(sm, prefix, comps, a, mounts, images))),
        None => YamlV::Mapping(render_services_spec(seq![], prefix, comps, a, mounts, images)),
    };
    let mm = m1.update(i, (m1[i].0, new_sv));
    lemma_untag_with_inner(r, YamlV::Mapping(mm));
    assert(as_mapping(compose_doc(root, prefix, comps, a, mounts, images)) == Some(mm));
    assert(key_at(mm, svc, i));
    crate::yaml::lemma_key_at_unique(mm, svc, i, key_index(mm, svc));
    assert(map_get(mm, svc) == Some(new_sv));
    if let Some(sm) = as_mapping(sv) {
        lemma_untag_with_inner(sv, YamlV::Mapping(render_services_spec(sm, prefix, comps, a, mounts, images)));
    }
    // the services the document had
    if as_mapping(root) is Some {
        assert(r == root);
        if has_key(m, svc) {
            assert(map_get(m, svc) == Some(sv));
        } else {
            assert(map_get(m, svc) is None);
            assert(sv == YamlV::Mapping(seq![]));
            assert(untag(sv) == sv);
        }
    } else {
        assert(r == YamlV::Mapping(seq![]));
        assert(untag(r) == r);
        assert(m.len() == 0);
        assert(sv == YamlV::Mapping(seq![]));
        assert(untag(sv) == sv);
    }
}

/// The value under the tags of `v` with `inner` put under them.
proof fn lemma_untag_with_inner(v: YamlV, inner: YamlV)
    ensures
        untag(with_inner(v, inner)) == untag(inner),
    decreases v,
{
    if let YamlV::Tagged(t, b) = v {
        lemma_untag_with_inner(*b, inner);
    }
}

// ---------------------------------------------------------------------------
// Mounts read back from the rendered compose document
// ---------------------------------------------------------------------------

/// A volume entry mounts a kind's container path only when it is that
/// kind's entry.
proof fn lemma_volume_of_kind(k1: MountKind, k2: MountKind)
    ensures
        (k2.spec_host_of(k1.spec_volume()) is Some) == (k1 == k2),
{
    reveal_strlit("/arkime/etc");
    reveal_strlit("/arkime/pcap");
    reveal_strlit("/arkime/maxmind");
    reveal_strlit("./GeoIP.conf");
    reveal_strlit("/opt/arkime/etc");
    reveal_strlit("/opt/arkime/raw");
    reveal_strlit("/var/lib/GeoIP");
    reveal_strlit("/etc/GeoIP.conf");
    let v = k1.spec_volume();
    let suf = seq![':'] + k2.spec_container();
    if k1 == k2 {
        assert(v.subrange(v.len() - suf.len(), v.len() as int) =~= suf);
    } else if crate::text::ends_with(v, suf) {
        assert(v.last() == suf.last());
        assert(v.last() == k1.spec_container().last());
    }
}

/// The strings of a sequence of strings.
proof fn lemma_strs_of_items(xs: Seq<Seq<char>>)
    ensures
        strs_of(Seq::new(xs.len(), |i: int| YamlV::Str(xs[i]))) == xs,
    decreases xs.len(),
{
    let items = Seq::new(xs.len(), |i: int| YamlV::Str(xs[i]));
    if xs.len() > 0 {
        lemma_strs_of_items(xs.drop_first());
        assert(items.drop_first() =~= Seq::new(xs.drop_first().len(), |i: int| YamlV::Str(xs.drop_first()[i])));
        assert(as_str(items[0]) == Some(xs[0]));
        assert(seq![xs[0]] + xs.drop_first() =~= xs);
    }
}

/// A kind is mounted by the entries of a service exactly when it is attached
/// to the service.
proof fn lemma_mounted_binds(mounts: MountSelection, c: Component, comps: Components, k: MountKind)
    ensures
        mounted(mounts.spec_specs_for(c, comps), k) == mounts.attached(k, c, comps),
{
    let pred = |x: MountKind| mounts.attached(x, c, comps);
    let f = all_mounts().filter(pred);
    let binds = mounts.spec_specs_for(c, comps);
    assert(binds == f.map_values(|x: MountKind| x.spec_volume()));
    if mounts.attached(k, c, comps) {
        let i: int = k.spec_index() as int;
        assert(all_mounts()[i] == k);
        all_mounts().lemma_filter_contains(pred, i);
        let j = choose|j: int| 0 <= j < f.len() && f[j] == k;
        assert(binds[j] == k.spec_volume());
        lemma_volume_of_kind(k, k);
        assert(mounted(binds, k));
    } else if mounted(binds, k) {
        let j = choose|j: int| 0 <= j < binds.len() && (#[trigger] k.spec_host_of(binds[j])) is Some;
        assert(binds[j] == f[j].spec_volume());
        lemma_volume_of_kind(f[j], k);
        all_mounts().lemma_filter_pred(pred, j);
    }
}

/// The `volumes:` of a filled-in service: the attached mounts, or none.
#[verifier::rlimit(60)]
proof fn lemma_fill_volumes(
    existing: Seq<(YamlV, YamlV)>,
    c: Component,
    images: Images,
    es_depends: bool,
    mounts: MountSelection,
    comps: Components,
)
    requires
        crate::yaml::unique_keys(existing),
    ensures
        map_get(fill_spec(existing, c, images, es_depends, mounts, comps), "volumes"@) == if mounts.spec_specs_for(
            c,
            comps,
        ).len() == 0 {
            None
        } else {
            Some(str_items(mounts.spec_specs_for(c, comps)))
        },
{
    reveal_strlit("volumes");
    reveal_strlit("image");
    reveal_strlit("command");
    reveal_strlit("env_file");
    reveal_strlit("restart");
    reveal_strlit("depends_on");
    reveal_strlit("network_mode");
    reveal_strlit("cap_add");
    reveal_strlit("ports");
    let vol = "volumes"@;
    let binds = mounts.spec_specs_for(c, comps);
    let s1 = map_set(existing, "image"@, YamlV::Str(images.arkime@));
    let s2 = map_set(s1, "command"@, YamlV::Str(c.spec_label()));
    let s3 = map_set(s2, "env_file"@, str_items(seq![ENV_FILE@]));
    let s4 = map_set(s3, "restart"@, YamlV::Str("unless-stopped"@));
    assert("image"@[0] != vol[0] && "command"@[0] != vol[0] && "env_file"@[0] != vol[0] && "restart"@[0] != vol[0]);
    assert("depends_on"@[0] != vol[0] && "network_mode"@[0] != vol[0] && "cap_add"@[0] != vol[0] && "ports"@[0]
        != vol[0]);
    assert("image"@ != vol && "command"@ != vol && "env_file"@ != vol && "restart"@ != vol);
    assert("depends_on"@ != vol && "network_mode"@ != vol && "cap_add"@ != vol && "ports"@ != vol);
    crate::yaml::lemma_map_edit_unique(existing, "image"@, YamlV::Str(images.arkime@));
    crate::yaml::lemma_map_edit_unique(s1, "command"@, YamlV::Str(c.spec_label()));
    crate::yaml::lemma_map_edit_unique(s2, "env_file"@, str_items(seq![ENV_FILE@]));
    crate::yaml::lemma_map_edit_unique(s3, "restart"@, YamlV::Str("unless-stopped"@));
    let s5 = if binds.len() == 0 {
        map_del(s4, vol)
    } else {
        map_set(s4, vol, str_items(binds))
    };
    crate::yaml::lemma_map_edit_unique(s4, vol, str_items(binds));
    if binds.len() == 0 {
        crate::yaml::lemma_map_del_gone(s4, vol);
    } else {
        lemma_map_set_get(s4, vol, str_items(binds));
    }
    let dv = str_items(seq!["elasticsearch"@]);
    let s6 = if es_depends {
        map_set(s5, "depends_on"@, dv)
    } else {
        map_del(s5, "depends_on"@)
    };
    crate::yaml::lemma_map_edit_others(s5, "depends_on"@, dv, vol);
    let nm = YamlV::Str("host"@);
    let ca = str_items(seq!["NET_ADMIN"@, "NET_RAW"@]);
    crate::yaml::lemma_map_edit_others(s6, "network_mode"@, nm, vol);
    let t1 = map_set(s6, "network_mode"@, nm);
    crate::yaml::lemma_map_edit_others(t1, "cap_add"@, ca, vol);
    let t2 = map_set(t1, "cap_add"@, ca);
    crate::yaml::lemma_map_edit_others(t2, "ports"@, ca, vol);
    let u1 = map_del(t1, "cap_add"@);
    crate::yaml::lemma_map_edit_others(u1, "ports"@, ca, vol);
    let w1 = map_del(s6, "network_mode"@);
    crate::yaml::lemma_map_edit_others(s6, "network_mode"@, nm, vol);
    crate::yaml::lemma_map_edit_others(w1, "cap_add"@, ca, vol);
    let w2 = map_del(w1, "cap_add"@);
    let pv = |p: Seq<char>| str_items(seq![p]);
    crate::yaml::lemma_map_edit_others(w2, "ports"@, pv("8081:8081"@), vol);
    crate::yaml::lemma_map_edit_others(w2, "ports"@, pv("8008:8008"@), vol);
    crate::yaml::lemma_map_edit_others(w2, "ports"@, pv("3218:3218"@), vol);
}

/// Setting a key gives it the value set.
proof fn lemma_map_set_get(m: Seq<(YamlV, YamlV)>, name: Seq<char>, v: YamlV)
    ensures
        map_get(map_set(m, name, v), name) == Some(v),
{
    let ms = map_set(m, name, v);
    if has_key(m, name) {
        let i = key_index(m, name);
        assert(key_at(m, name, i));
        assert(key_at(ms, name, i));
        crate::yaml::lemma_key_at_unique(ms, name, i, key_index(ms, name));
    } else {
        assert forall|j: int| 0 <= j < m.len() implies !key_is(#[trigger] ms[j].0, name) by {
            assert(ms[j] == m[j]);
            if key_is(m[j].0, name) {
                crate::yaml::lemma_has_key_of(m, name, j);
            }
        }
        assert(key_at(ms, name, m.len() as int));
        crate::yaml::lemma_key_at_unique(ms, name, m.len() as int, key_index(ms, name));
    }
}

/// The mapping a service had before the render (empty when it had none).
pub open spec fn existing_of(s: Seq<(YamlV, YamlV)>, name: Seq<char>) -> Seq<(YamlV, YamlV)> {
    match map_get(s, name) {
        Some(v) => match as_mapping(v) {
            Some(m) => m,
            None => seq![],
        },
        None => seq![],
    }
}

/// Folding over components whose services are not `name` keeps its value.
proof fn lemma_fold_keeps_name(
    s: Seq<(YamlV, YamlV)>,
    cs: Seq<Component>,
    prefix: Seq<char>,
    comps: Components,
    images: Images,
    es_depends: bool,
    mounts: MountSelection,
    name: Seq<char>,
)
    requires
        crate::yaml::unique_keys(s),
        forall|i: int| 0 <= i < cs.len() ==> name != service_name(prefix, #[trigger] cs[i]),
    ensures
        map_get(services_fold(s, cs, prefix, comps, images, es_depends, mounts), name) == map_get(s, name),
    decreases cs.len(),
{
    if cs.len() > 0 {
        let c = cs[0];
        let own = service_name(prefix, c);
        let v = YamlV::Mapping(fill_spec(existing_of(s, own), c, images, es_depends, mounts, comps));
        assert(name != own);
        crate::yaml::lemma_map_edit_others(s, own, v, name);
        let s1 = service_step(s, c, prefix, comps, images, es_depends, mounts);
        assert forall|i: int| 0 <= i < cs.drop_first().len() implies name != service_name(
            prefix,
            #[trigger] cs.drop_first()[i],
        ) by {
            assert(cs.drop_first()[i] == cs[i + 1]);
        }
        lemma_fold_keeps_name(s1, cs.drop_first(), prefix, comps, images, es_depends, mounts, name);
    }
}

/// A selected component's service after the fold: its old mapping filled in.
proof fn lemma_fold_entry(
    s: Seq<(YamlV, YamlV)>,
    cs: Seq<Component>,
    prefix: Seq<char>,
    comps: Components,
    images: Images,
    es_depends: bool,
    mounts: MountSelection,
    k: int,
)
    requires
        crate::yaml::unique_keys(s),
        forall|i: int, j: int| 0 <= i < j < cs.len() ==> cs[i] != cs[j],
        0 <= k < cs.len(),
        comps.has(cs[k]),
    ensures
        map_get(services_fold(s, cs, prefix, comps, images, es_depends, mounts), service_name(prefix, cs[k]))
            == Some(
            YamlV::Mapping(
                fill_spec(existing_of(s, service_name(prefix, cs[k])), cs[k], images, es_depends, mounts, comps),
            ),
        ),
    decreases cs.len(),
{
    lemma_service_names(prefix);
    let x = cs[k];
    let name = service_name(prefix, x);
    let c = cs[0];
    let own = service_name(prefix, c);
    let v = YamlV::Mapping(fill_spec(existing_of(s, own), c, images, es_depends, mounts, comps));
    let s1 = service_step(s, c, prefix, comps, images, es_depends, mounts);
    let rest = cs.drop_first();
    crate::yaml::lemma_map_edit_unique(s, own, v);
    assert forall|i: int, j: int| 0 <= i < j < rest.len() implies rest[i] != rest[j] by {
        assert(rest[i] == cs[i + 1]);
        assert(rest[j] == cs[j + 1]);
    }
    if k == 0 {
        lemma_map_set_get(s, own, v);
        assert forall|i: int| 0 <= i < rest.len() implies name != service_name(prefix, #[trigger] rest[i]) by {
            assert(rest[i] == cs[i + 1]);
            assert(cs[i + 1] != cs[0]);
        }
        lemma_fold_keeps_name(s1, rest, prefix, comps, images, es_depends, mounts, name);
    } else {
        assert(c != x);
        crate::yaml::lemma_map_edit_others(s, own, v, name);
        assert(existing_of(s1, name) == existing_of(s, name));
        assert(rest[k - 1] == x);
        lemma_fold_entry(s1, rest, prefix, comps, images, es_depends, mounts, k - 1);
    }
}

/// The value found for a key is one of the mapping's values.
proof fn lemma_map_get_value(m: Seq<(YamlV, YamlV)>, name: Seq<char>)
    requires
        map_get(m, name) is Some,
    ensures
        exists|j: int| 0 <= j < m.len() && map_get(m, name) == Some(#[trigger] m[j].1),
{
    let i = key_index(m, name);
    assert(key_at(m, name, i));
}

/// What the rendered compose document reads back as for the mounts: the
/// mounts attached to the capture service when capture is selected, else to
/// the viewer's when the viewer is, else the mounts are left as they were.
/// `s0` are the services the document had, with unique names, each service
/// mapping with unique keys.
pub proof fn lemma_compose_mounts_round_trip(
    root: YamlV,
    prefix: Seq<char>,
    comps: Components,
    a: Answers,
    mounts: MountSelection,
    images: Images,
    s0: Seq<(YamlV, YamlV)>,
    c0: Components,
    a0: Answers,
    m0: MountSelection,
    c1: Components,
    a1: Answers,
    m1: MountSelection,
)
    requires
        s0 == match as_mapping(root) {
            Some(m) => match map_get(m, "services"@) {
                Some(v) => match as_mapping(v) {
                    Some(sm) => sm,
                    None => seq![],
                },
                None => seq![],
            },
            None => seq![],
        },
        crate::yaml::unique_keys(s0),
        forall|j: int|
            0 <= j < s0.len() ==> (#[trigger] as_mapping(s0[j].1) matches Some(m) ==> crate::yaml::unique_keys(m)),
        read_compose_spec(compose_doc(root, prefix, comps, a, mounts, images), prefix, c0, a0, m0, c1, a1, m1),
    ensures
        comps.capture ==> forall|k: MountKind|
            #[trigger] m1.enabled(k) == mounts.attached(k, Component::Capture, comps),
        !comps.capture && comps.viewer ==> forall|k: MountKind|
            #[trigger] m1.enabled(k) == mounts.attached(k, Component::Viewer, comps),
        !comps.capture && !comps.viewer ==> m1 == m0,
{
    lemma_compose_services_of(root, prefix, comps, a, mounts, images, s0);
    lemma_service_names(prefix);
    let r = render_services_spec(s0, prefix, comps, a, mounts, images);
    let single = a.es_backend != EsBackend::External;
    let es_depends = single || has_key(s0, "elasticsearch"@);
    let cs = all_components();
    let s1 = services_fold(s0, cs, prefix, comps, images, es_depends, mounts);
    assert forall|i: int, j: int| 0 <= i < j < cs.len() implies cs[i] != cs[j] by {
    }
    let cap = service_name(prefix, Component::Capture);
    let vie = service_name(prefix, Component::Viewer);
    let esv = es_service_spec(images, es_data_dir(a));
    lemma_fold_selected(s0, cs, prefix, comps, images, es_depends, mounts, cap);
    lemma_fold_selected(s0, cs, prefix, comps, images, es_depends, mounts, vie);
    crate::yaml::lemma_map_edit_others(s1, "elasticsearch"@, esv, cap);
    crate::yaml::lemma_map_edit_others(s1, "elasticsearch"@, esv, vie);
    assert(cs[0] == Component::Capture && cs[1] == Component::Viewer);
    lemma_has_key_get(s1, cap);
    lemma_has_key_get(s1, vie);
    assert(map_get(r, cap) == map_get(s1, cap));
    assert(map_get(r, vie) == map_get(s1, vie));
    if comps.capture || comps.viewer {
        let (c, i): (Component, int) = if comps.capture {
            (Component::Capture, 0)
        } else {
            (Component::Viewer, 1)
        };
        let name = service_name(prefix, c);
        lemma_fold_entry(s0, cs, prefix, comps, images, es_depends, mounts, i);
        let ex = existing_of(s0, name);
        assert(crate::yaml::unique_keys(ex)) by {
            if map_get(s0, name) is Some {
                lemma_map_get_value(s0, name);
                let j = choose|j: int| 0 <= j < s0.len() && map_get(s0, name) == Some(#[trigger] s0[j].1);
                assert(as_mapping(s0[j].1) matches Some(m) ==> crate::yaml::unique_keys(m));
            }
        }
        let fill = fill_spec(ex, c, images, es_depends, mounts, comps);
        lemma_fill_volumes(ex, c, images, es_depends, mounts, comps);
        let binds = mounts.spec_specs_for(c, comps);
        lemma_strs_of_items(binds);
        assert(untag(YamlV::Mapping(fill)) == YamlV::Mapping(fill));
        assert(volume_strs(fill) == binds) by {
            if binds.len() > 0 {
                assert(untag(str_items(binds)) == str_items(binds));
            }
        }
        if comps.capture {
            assert(mount_vols(r, prefix) == Some(binds));
        } else {
            assert(map_get(r, cap) is None);
            assert(mount_vols(r, prefix) == Some(binds));
        }
        assert forall|k: MountKind| #[trigger] m1.enabled(k) == mounts.attached(k, c, comps) by {
            lemma_mounted_binds(mounts, c, comps, k);
        }
    } else {
        assert(map_get(r, cap) is None);
        assert(map_get(r, vie) is None);
        assert(mount_vols(r, prefix) is None);
    }
}

/// How a filled-in service reaches the network, for every component and
/// every service it was merged into: capture and viewer use the host's
/// network, capture with the `NET_ADMIN` and `NET_RAW` capabilities it needs
/// for raw sockets and the viewer with none; wise, parliament and cont3xt
/// publish their own port (8081, 8008, 3218) instead.
pub proof fn lemma_fill_network(
    existing: Seq<(YamlV, YamlV)>,
    c: Component,
    images: Images,
    es_depends: bool,
    mounts: MountSelection,
    comps: Components,
)
    requires
        crate::yaml::unique_keys(existing),
    ensures
        ({
            let svc = fill_spec(existing, c, images, es_depends, mounts, comps);
            &&& map_get(svc, "cap_add"@) == if c == Component::Capture {
                Some(str_items(seq!["NET_ADMIN"@, "NET_RAW"@]))
            } else {
                None
            }
            &&& map_get(svc, "network_mode"@) == if c == Component::Capture || c == Component::Viewer {
                Some(YamlV::Str("host"@))
            } else {
                None
            }
            &&& map_get(svc, "ports"@) == match c {
                Component::Wise => Some(str_items(seq!["8081:8081"@])),
                Component::Parliament => Some(str_items(seq!["8008:8008"@])),
                Component::Cont3xt => Some(str_items(seq!["3218:3218"@])),
                _ => None,
            }
        }),
{
    reveal_strlit("network_mode");
    reveal_strlit("cap_add");
    reveal_strlit("ports");
    let nm = "network_mode"@;
    let ca = "cap_add"@;
    let po = "ports"@;
    assert(nm[0] != ca[0] && nm[0] != po[0] && ca[0] != po[0]);
    assert(nm != ca && nm != po && ca != po);
    let binds = mounts.spec_specs_for(c, comps);
    let s1 = map_set(existing, "image"@, YamlV::Str(images.arkime@));
    let s2 = map_set(s1, "command"@, YamlV::Str(c.spec_label()));
    let s3 = map_set(s2, "env_file"@, str_items(seq![ENV_FILE@]));
    let s4 = map_set(s3, "restart"@, YamlV::Str("unless-stopped"@));
    crate::yaml::lemma_map_edit_unique(existing, "image"@, YamlV::Str(images.arkime@));
    crate::yaml::lemma_map_edit_unique(s1, "command"@, YamlV::Str(c.spec_label()));
    crate::yaml::lemma_map_edit_unique(s2, "env_file"@, str_items(seq![ENV_FILE@]));
    crate::yaml::lemma_map_edit_unique(s3, "restart"@, YamlV::Str("unless-stopped"@));
    crate::yaml::lemma_map_edit_unique(s4, "volumes"@, str_items(binds));
    let s5 = if binds.len() == 0 {
        map_del(s4, "volumes"@)
    } else {
        map_set(s4, "volumes"@, str_items(binds))
    };
    let dv = str_items(seq!["elasticsearch"@]);
    crate::yaml::lemma_map_edit_unique(s5, "depends_on"@, dv);
    let s6 = if es_depends {
        map_set(s5, "depends_on"@, dv)
    } else {
        map_del(s5, "depends_on"@)
    };
    assert(crate::yaml::unique_keys(s6));
    let host = YamlV::Str("host"@);
    let caps = str_items(seq!["NET_ADMIN"@, "NET_RAW"@]);
    match c {
        Component::Capture => {
            let t1 = map_set(s6, nm, host);
            lemma_map_set_get(s6, nm, host);
            crate::yaml::lemma_map_edit_others(s6, nm, host, ca);
            let t2 = map_set(t1, ca, caps);
            lemma_map_set_get(t1, ca, caps);
            crate::yaml::lemma_map_edit_others(t1, ca, caps, nm);
            crate::yaml::lemma_map_edit_others(t2, po, caps, nm);
            crate::yaml::lemma_map_edit_others(t2, po, caps, ca);
            crate::yaml::lemma_map_del_gone(t2, po);
        },
        Component::Viewer => {
            let t1 = map_set(s6, nm, host);
            lemma_map_set_get(s6, nm, host);
            crate::yaml::lemma_map_edit_others(s6, nm, host, ca);
            crate::yaml::lemma_map_del_gone(t1, ca);
            let t2 = map_del(t1, ca);
            crate::yaml::lemma_map_edit_others(t1, ca, host, nm);
            crate::yaml::lemma_map_edit_others(t2, po, host, nm);
            crate::yaml::lemma_map_edit_others(t2, po, host, ca);
            crate::yaml::lemma_map_del_gone(t2, po);
        },
        _ => {
            let p = match c {
                Component::Wise => "8081:8081"@,
                Component::Parliament => "8008:8008"@,
                _ => "3218:3218"@,
            };
            let t1 = map_del(s6, nm);
            crate::yaml::lemma_map_del_gone(s6, nm);
            crate::yaml::lemma_map_edit_others(s6, nm, host, ca);
            let t2 = map_del(t1, ca);
            crate::yaml::lemma_map_del_gone(t1, ca);
            crate::yaml::lemma_map_edit_others(t1, ca, host, nm);
            let v = str_items(seq![p]);
            lemma_map_set_get(t2, po, v);
            crate::yaml::lemma_map_edit_others(t2, po, v, nm);
            crate::yaml::lemma_map_edit_others(t2, po, v, ca);
            assert(fill_spec(existing, c, images, es_depends, mounts, comps) == map_set(t2, po, v));
        },
    }
}

/// In the rendered compose document, each selected component's service of
/// the managed prefix reaches the network as `lemma_fill_network` says:
/// the capture service runs on the host network with the `NET_ADMIN` and
/// `NET_RAW` capabilities.
pub proof fn lemma_compose_network(
    root: YamlV,
    prefix: Seq<char>,
    comps: Components,
    a: Answers,
    mounts: MountSelection,
    images: Images,
    s0: Seq<(YamlV, YamlV)>,
    c: Component,
)
    requires
        s0 == match as_mapping(root) {
            Some(m) => match map_get(m, "services"@) {
                Some(v) => match as_mapping(v) {
                    Some(sm) => sm,
                    None => seq![],
                },
                None => seq![],
            },
            None => seq![],
        },
        crate::yaml::unique_keys(s0),
        forall|j: int|
            0 <= j < s0.len() ==> (#[trigger] as_mapping(s0[j].1) matches Some(m) ==> crate::yaml::unique_keys(m)),
        comps.has(c),
    ensures
        compose_services(compose_doc(root, prefix, comps, a, mounts, images)) matches Some(sm) && map_get(
            sm,
            prefix + c.spec_label(),
        ) matches Some(v) && as_mapping(v) matches Some(svc) && {
            &&& map_get(svc, "cap_add"@) == if c == Component::Capture {
                Some(str_items(seq!["NET_ADMIN"@, "NET_RAW"@]))
            } else {
                None
            }
            &&& map_get(svc, "network_mode"@) == if c == Component::Capture || c == Component::Viewer {
                Some(YamlV::Str("host"@))
            } else {
                None
            }
        },
{
    lemma_compose_services_of(root, prefix, comps, a, mounts, images, s0);
    lemma_service_names(prefix);
    let r = render_services_spec(s0, prefix, comps, a, mounts, images);
    let single = a.es_backend != EsBackend::External;
    let es_depends = single || has_key(s0, "elasticsearch"@);
    let cs = all_components();
    let s1 = services_fold(s0, cs, prefix, comps, images, es_depends, mounts);
    assert forall|i: int, j: int| 0 <= i < j < cs.len() implies cs[i] != cs[j] by {
    }
    let name = service_name(prefix, c);
    lemma_fold_selected(s0, cs, prefix, comps, images, es_depends, mounts, name);
    let esv = es_service_spec(images, es_data_dir(a));
    crate::yaml::lemma_map_edit_others(s1, "elasticsearch"@, esv, name);
    let i: int = match c {
        Component::Capture => 0,
        Component::Viewer => 1,
        Component::Wise => 2,
        Component::Parliament => 3,
        Component::Cont3xt => 4,
    };
    assert(cs[i] == c);
    lemma_fold_entry(s0, cs, prefix, comps, images, es_depends, mounts, i);
    assert(map_get(r, name) == map_get(s1, name));
    let ex = existing_of(s0, name);
    assert(crate::yaml::unique_keys(ex)) by {
        if map_get(s0, name) is Some {
            lemma_map_get_value(s0, name);
            let j = choose|j: int| 0 <= j < s0.len() && map_get(s0, name) == Some(#[trigger] s0[j].1);
            assert(as_mapping(s0[j].1) matches Some(m) ==> crate::yaml::unique_keys(m));
        }
    }
    let fill = fill_spec(ex, c, images, es_depends, mounts, comps);
    lemma_fill_network(ex, c, images, es_depends, mounts, comps);
    assert(untag(YamlV::Mapping(fill)) == YamlV::Mapping(fill));
}

/// The suggested mounts each service gets: a mount's `host:container` entry
/// is among a service's volume entries exactly when the mount is enabled,
/// a selected component uses it (the config dir: any component; the pcap
/// and GeoIP mounts: capture or viewer) and the service is one that uses it
/// (every service the config dir; the capture and viewer services the pcap
/// store and the GeoIP database and config).
pub proof fn lemma_service_mounts(mounts: MountSelection, c: Component, comps: Components, k: MountKind)
    ensures
        mounts.spec_specs_for(c, comps).contains(
            match k {
                MountKind::Etc => "/arkime/etc:/opt/arkime/etc"@,
                MountKind::Pcap => "/arkime/pcap:/opt/arkime/raw"@,
                MountKind::GeoIpData => "/arkime/maxmind:/var/lib/GeoIP"@,
                MountKind::GeoIpConf => "./GeoIP.conf:/etc/GeoIP.conf"@,
            },
        ) <==> (mounts.enabled(k) && match k {
            MountKind::Etc => comps.capture || comps.viewer || comps.wise || comps.parliament || comps.cont3xt,
            _ => (comps.capture || comps.viewer) && (c == Component::Capture || c == Component::Viewer),
        }),
{
    reveal_strlit("/arkime/etc");
    reveal_strlit("/arkime/pcap");
    reveal_strlit("/arkime/maxmind");
    reveal_strlit("./GeoIP.conf");
    reveal_strlit("/opt/arkime/etc");
    reveal_strlit("/opt/arkime/raw");
    reveal_strlit("/var/lib/GeoIP");
    reveal_strlit("/etc/GeoIP.conf");
    reveal_strlit("/arkime/etc:/opt/arkime/etc");
    reveal_strlit("/arkime/pcap:/opt/arkime/raw");
    reveal_strlit("/arkime/maxmind:/var/lib/GeoIP");
    reveal_strlit("./GeoIP.conf:/etc/GeoIP.conf");
    let vol = k.spec_volume();
    assert(vol =~= match k {
        MountKind::Etc => "/arkime/etc:/opt/arkime/etc"@,
        MountKind::Pcap => "/arkime/pcap:/opt/arkime/raw"@,
        MountKind::GeoIpData => "/arkime/maxmind:/var/lib/GeoIP"@,
        MountKind::GeoIpConf => "./GeoIP.conf:/etc/GeoIP.conf"@,
    });
    let binds = mounts.spec_specs_for(c, comps);
    lemma_mounted_binds(mounts, c, comps, k);
    lemma_volume_of_kind(k, k);
    if binds.contains(vol) {
        let j = choose|j: int| 0 <= j < binds.len() && binds[j] == vol;
        assert(k.spec_host_of(binds[j]) is Some);
        assert(mounted(binds, k));
    }
    if mounts.attached(k, c, comps) {
        let pred = |x: MountKind| mounts.attached(x, c, comps);
        let f = all_mounts().filter(pred);
        assert(binds == f.map_values(|x: MountKind| x.spec_volume()));
        let i: int = k.spec_index() as int;
        assert(all_mounts()[i] == k);
        all_mounts().lemma_filter_contains(pred, i);
        let j = choose|j: int| 0 <= j < f.len() && f[j] == k;
        assert(binds[j] == vol);
        assert(binds.contains(vol));
    }
}

/// The standard fields of a filled-in service, for every component and
/// every service it was merged into: the Arkime image, the component's name
/// as its command (`capture`, `viewer`, `wise`, `parliament`, `cont3xt`),
/// the `arkime.env` env file, restart unless stopped, and a dependency on
/// the `elasticsearch` service exactly when one is asked for.
pub proof fn lemma_fill_fields(
    existing: Seq<(YamlV, YamlV)>,
    c: Component,
    images: Images,
    es_depends: bool,
    mounts: MountSelection,
    comps: Components,
)
    requires
        crate::yaml::unique_keys(existing),
    ensures
        ({
            let svc = fill_spec(existing, c, images, es_depends, mounts, comps);
            &&& map_get(svc, "image"@) == Some(YamlV::Str(images.arkime@))
            &&& map_get(svc, "command"@) == Some(
                YamlV::Str(
                    match c {
                        Component::Capture => "capture"@,
                        Component::Viewer => "viewer"@,
                        Component::Wise => "wise"@,
                        Component::Parliament => "parliament"@,
                        Component::Cont3xt => "cont3xt"@,
                    },
                ),
            )
            &&& map_get(svc, "env_file"@) == Some(str_items(seq!["arkime.env"@]))
            &&& map_get(svc, "restart"@) == Some(YamlV::Str("unless-stopped"@))
            &&& map_get(svc, "depends_on"@) == if es_depends {
                Some(str_items(seq!["elasticsearch"@]))
            } else {
                None
            }
        }),
{
    reveal_strlit("image");
    reveal_strlit("command");
    reveal_strlit("env_file");
    reveal_strlit("restart");
    reveal_strlit("volumes");
    reveal_strlit("depends_on");
    reveal_strlit("network_mode");
    reveal_strlit("cap_add");
    reveal_strlit("ports");
    reveal_strlit("arkime.env");
    assert("image"@[0] != "command"@[0] && "image"@[0] != "env_file"@[0] && "image"@[0] != "restart"@[0]);
    assert("command"@[0] != "env_file"@[0] && "command"@[0] != "restart"@[0] && "env_file"@[0] != "restart"@[0]);
    assert("command"@[1] != "cap_add"@[1]);
    assert("depends_on"@[0] != "image"@[0] && "depends_on"@[0] != "command"@[0] && "depends_on"@[0]
        != "env_file"@[0] && "depends_on"@[0] != "restart"@[0]);
    assert("volumes"@[0] != "image"@[0] && "volumes"@[0] != "command"@[0] && "volumes"@[0] != "env_file"@[0]
        && "volumes"@[0] != "restart"@[0] && "volumes"@[0] != "depends_on"@[0]);
    assert("network_mode"@[0] != "image"@[0] && "network_mode"@[0] != "command"@[0] && "network_mode"@[0]
        != "env_file"@[0] && "network_mode"@[0] != "restart"@[0] && "network_mode"@[0] != "depends_on"@[0]);
    assert("cap_add"@ != "command"@ && "cap_add"@[0] != "image"@[0] && "cap_add"@[0] != "env_file"@[0]
        && "cap_add"@[0] != "restart"@[0] && "cap_add"@[0] != "depends_on"@[0]);
    assert("ports"@[0] != "image"@[0] && "ports"@[0] != "command"@[0] && "ports"@[0] != "env_file"@[0]
        && "ports"@[0] != "restart"@[0] && "ports"@[0] != "depends_on"@[0]);
    let binds = mounts.spec_specs_for(c, comps);
    let iv = YamlV::Str(images.arkime@);
    let cv = YamlV::Str(c.spec_label());
    let ev = str_items(seq![ENV_FILE@]);
    let rv = YamlV::Str("unless-stopped"@);
    let dv = str_items(seq!["elasticsearch"@]);
    let s1 = map_set(existing, "image"@, iv);
    let s2 = map_set(s1, "command"@, cv);
    let s3 = map_set(s2, "env_file"@, ev);
    let s4 = map_set(s3, "restart"@, rv);
    crate::yaml::lemma_map_edit_unique(existing, "image"@, iv);
    crate::yaml::lemma_map_edit_unique(s1, "command"@, cv);
    crate::yaml::lemma_map_edit_unique(s2, "env_file"@, ev);
    crate::yaml::lemma_map_edit_unique(s3, "restart"@, rv);
    // each field set stays through the later edits of other keys
    lemma_map_set_get(existing, "image"@, iv);
    crate::yaml::lemma_map_edit_others(s1, "command"@, cv, "image"@);
    lemma_map_set_get(s1, "command"@, cv);
    crate::yaml::lemma_map_edit_others(s2, "env_file"@, ev, "image"@);
    crate::yaml::lemma_map_edit_others(s2, "env_file"@, ev, "command"@);
    lemma_map_set_get(s2, "env_file"@, ev);
    crate::yaml::lemma_map_edit_others(s3, "restart"@, rv, "image"@);
    crate::yaml::lemma_map_edit_others(s3, "restart"@, rv, "command"@);
    crate::yaml::lemma_map_edit_others(s3, "restart"@, rv, "env_file"@);
    lemma_map_set_get(s3, "restart"@, rv);
    let s5 = if binds.len() == 0 {
        map_del(s4, "volumes"@)
    } else {
        map_set(s4, "volumes"@, str_items(binds))
    };
    assert forall|k: Seq<char>|
        k == "image"@ || k == "command"@ || k == "env_file"@ || k == "restart"@ || k == "depends_on"@ implies
        #[trigger] map_get(s5, k) == map_get(s4, k) by {
        crate::yaml::lemma_map_edit_others(s4, "volumes"@, str_items(binds), k);
    }
    crate::yaml::lemma_map_edit_unique(s4, "volumes"@, str_items(binds));
    let s6 = if es_depends {
        map_set(s5, "depends_on"@, dv)
    } else {
        map_del(s5, "depends_on"@)
    };
    assert forall|k: Seq<char>| k == "image"@ || k == "command"@ || k == "env_file"@ || k == "restart"@ implies
        #[trigger] map_get(s6, k) == map_get(s5, k) by {
        crate::yaml::lemma_map_edit_others(s5, "depends_on"@, dv, k);
    }
    if es_depends {
        lemma_map_set_get(s5, "depends_on"@, dv);
    } else {
        crate::yaml::lemma_map_del_gone(s5, "depends_on"@);
    }
    crate::yaml::lemma_map_edit_unique(s5, "depends_on"@, dv);
    let host = YamlV::Str("host"@);
    let caps = str_items(seq!["NET_ADMIN"@, "NET_RAW"@]);
    let nm = "network_mode"@;
    let ca = "cap_add"@;
    let po = "ports"@;
    assert forall|k: Seq<char>|
        k == "image"@ || k == "command"@ || k == "env_file"@ || k == "restart"@ || k == "depends_on"@ implies
        #[trigger] map_get(fill_spec(existing, c, images, es_depends, mounts, comps), k) == map_get(s6, k) by {
        match c {
            Component::Capture => {
                let t1 = map_set(s6, nm, host);
                crate::yaml::lemma_map_edit_others(s6, nm, host, k);
                let t2 = map_set(t1, ca, caps);
                crate::yaml::lemma_map_edit_others(t1, ca, caps, k);
                crate::yaml::lemma_map_edit_others(t2, po, caps, k);
            },
            Component::Viewer => {
                let t1 = map_set(s6, nm, host);
                crate::yaml::lemma_map_edit_others(s6, nm, host, k);
                let t2 = map_del(t1, ca);
                crate::yaml::lemma_map_edit_others(t1, ca, host, k);
                crate::yaml::lemma_map_edit_others(t2, po, host, k);
            },
            _ => {
                let p = match c {
                    Component::Wise => "8081:8081"@,
                    Component::Parliament => "8008:8008"@,
                    _ => "3218:3218"@,
                };
                let t1 = map_del(s6, nm);
                crate::yaml::lemma_map_edit_others(s6, nm, host, k);
                let t2 = map_del(t1, ca);
                crate::yaml::lemma_map_edit_others(t1, ca, host, k);
                let v = str_items(seq![p]);
                crate::yaml::lemma_map_edit_others(t2, po, v, k);
                assert(fill_spec(existing, c, images, es_depends, mounts, comps) == map_set(t2, po, v));
            },
        }
    }
    assert(map_get(fill_spec(existing, c, images, es_depends, mounts, comps), "image"@) == map_get(s6, "image"@));
    assert(map_get(fill_spec(existing, c, images, es_depends, mounts, comps), "command"@) == map_get(s6, "command"@));
    assert(map_get(fill_spec(existing, c, images, es_depends, mounts, comps), "env_file"@) == map_get(s6, "env_file"@));
    assert(map_get(fill_spec(existing, c, images, es_depends, mounts, comps), "restart"@) == map_get(s6, "restart"@));
    assert(map_get(fill_spec(existing, c, images, es_depends, mounts, comps), "depends_on"@) == map_get(s6, "depends_on"@));
    assert(map_get(s6, "image"@) == map_get(s5, "image"@));
    assert(map_get(s6, "command"@) == map_get(s5, "command"@));
    assert(map_get(s6, "env_file"@) == map_get(s5, "env_file"@));
    assert(map_get(s6, "restart"@) == map_get(s5, "restart"@));
    assert(map_get(s5, "image"@) == map_get(s4, "image"@));
    assert(map_get(s5, "command"@) == map_get(s4, "command"@));
    assert(map_get(s5, "env_file"@) == map_get(s4, "env_file"@));
    assert(map_get(s5, "restart"@) == map_get(s4, "restart"@));
    assert(ENV_FILE@ == "arkime.env"@);
}

} // verus!
