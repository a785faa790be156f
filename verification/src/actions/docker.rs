//! Docker-deployment generator: a `docker-compose.yml` plus an `arkime.env`
//! file of `ARKIME__*` variables (the `docker.sh` convention).
//!
//! Docker mode writes no `.ini` files: the containers are configured purely
//! through environment variables.

use vstd::prelude::*;
use crate::actions::native::{extends, log_views, new_logs, new_outs, new_reqs};
use crate::actions::system::{unit_outcome, Outcome, Req, SystemOps};
use crate::config::substitute::{basic_auth_spec, basic_auth_value, BasicAuthEncoding};
use crate::domain::answers::Answers;
use crate::domain::components::{Component, Components};
use crate::domain::es_backend::EsBackend;
use crate::log::{Level, LogLine};
use crate::text::{cat, join_path, path_join, string_views};
use crate::yaml::{
    emit_yaml, empty_mapping, entries_view, lemma_view_mapping, str_items, yaml_emit, ystr,
    ystr_items, Yaml, YamlV,
};

verus! {

/// Container images; sensible defaults, overridable.
pub struct Images {
    pub arkime: String,
    pub opensearch: String,
}

impl Default for Images {
    fn default() -> (i: Images)
        ensures
            i.arkime@ == "arkime/arkime:latest"@,
            i.opensearch@ == "opensearchproject/opensearch:2"@,
    {
        Images {
            arkime: "arkime/arkime:latest".to_owned(),
            opensearch: "opensearchproject/opensearch:2".to_owned(),
        }
    }
}

pub struct GeneratedDocker {
    pub compose_yaml: String,
    pub env_file: String,
}

pub const ENV_FILE: &'static str = "arkime.env";

pub open spec fn sv(s: Seq<char>) -> YamlV {
    YamlV::Str(s)
}

/// `rows` with `(k, v)` added when `b` holds.
pub open spec fn entry_if(rows: Seq<(YamlV, YamlV)>, b: bool, k: Seq<char>, v: YamlV) -> Seq<
    (YamlV, YamlV),
> {
    if b {
        rows.push((sv(k), v))
    } else {
        rows
    }
}

/// The published port of a component that does not use host networking.
pub open spec fn published_port(c: Component) -> Option<Seq<char>> {
    match c {
        Component::Capture => None,
        Component::Viewer => Some("8005:8005"@),
        Component::Wise => Some("8081:8081"@),
        Component::Parliament => Some("8008:8008"@),
        Component::Cont3xt => Some("3218:3218"@),
    }
}

/// The compose service of component `c`. Capture runs on host networking
/// with the raw-socket capabilities and the pcap/log mounts; the others
/// publish their port. Every service reads the env file and depends on the
/// demo backend when there is one.
pub open spec fn arkime_service_spec(c: Component, images: Images, demo: bool) -> YamlV {
    let capture = c == Component::Capture;
    let r1 = seq![(sv("image"@), sv(images.arkime@)), (sv("command"@), sv(c.spec_label()))];
    let r2 = entry_if(r1, capture, "network_mode"@, sv("host"@));
    let r3 = entry_if(r2, capture, "cap_add"@, str_items(seq!["NET_ADMIN"@, "NET_RAW"@]));
    let r4 = r3.push((sv("env_file"@), str_items(seq![ENV_FILE@])));
    let r5 = entry_if(
        r4,
        capture,
        "volumes"@,
        str_items(seq!["./raw:/opt/arkime/raw"@, "./logs:/opt/arkime/logs"@]),
    );
    let r6 = match published_port(c) {
        Some(p) => r5.push((sv("ports"@), str_items(seq![p]))),
        None => r5,
    };
    let r7 = entry_if(r6, demo, "depends_on"@, str_items(seq!["opensearch"@]));
    YamlV::Mapping(r7.push((sv("restart"@), sv("unless-stopped"@))))
}

/// The demo single-node OpenSearch service.
pub open spec fn opensearch_service_spec(images: Images) -> YamlV {
    YamlV::Mapping(
        seq![
            (sv("image"@), sv(images.opensearch@)),
            (
                sv("environment"@),
                YamlV::Mapping(
                    seq![
                        (sv("DISABLE_SECURITY_PLUGIN"@), sv("true"@)),
                        (sv("bootstrap.memory_lock"@), sv("true"@)),
                        (sv("discovery.type"@), sv("single-node"@)),
                    ],
                ),
            ),
            (sv("volumes"@), str_items(seq!["osdata:/usr/share/opensearch/data"@])),
            (sv("ports"@), str_items(seq!["9200:9200"@])),
            (sv("restart"@), sv("unless-stopped"@)),
        ],
    )
}

/// The components in the order of their service names (`arkime-<label>`).
pub open spec fn name_order() -> Seq<Component> {
    seq![
        Component::Capture,
        Component::Cont3xt,
        Component::Parliament,
        Component::Viewer,
        Component::Wise,
    ]
}

/// The services of the enabled components among `cs`, in order.
pub open spec fn arkime_services(cs: Seq<Component>, comps: Components, images: Images, demo: bool) -> Seq<
    (YamlV, YamlV),
>
    decreases cs.len(),
{
    if cs.len() == 0 {
        seq![]
    } else {
        let rest = arkime_services(cs.drop_last(), comps, images, demo);
        let c = cs.last();
        if comps.has(c) {
            rest.push((sv("arkime-"@ + c.spec_label()), arkime_service_spec(c, images, demo)))
        } else {
            rest
        }
    }
}

/// Whether the demo backend is stood up.
pub open spec fn wants_backend(a: Answers) -> bool {
    a.es_backend != EsBackend::External
}

/// The compose document: services by name, then the named volume of the demo
/// backend when there is one.
pub open spec fn compose_spec(comps: Components, a: Answers, images: Images) -> YamlV {
    let demo = wants_backend(a);
    let services = entry_if(
        arkime_services(name_order(), comps, images, demo),
        demo,
        "opensearch"@,
        opensearch_service_spec(images),
    );
    let top = seq![(sv("services"@), YamlV::Mapping(services))];
    YamlV::Mapping(
        entry_if(top, demo, "volumes"@, YamlV::Mapping(seq![(sv("osdata"@), YamlV::Mapping(seq![]))])),
    )
}

/// One `KEY=value` line.
pub open spec fn env_line(k: Seq<char>, v: Seq<char>) -> Seq<char> {
    k + "="@ + v + "\n"@
}

/// The `ARKIME__*` env file, keys in sorted order.
pub open spec fn env_file_spec(c: Components, a: Answers, enc: BasicAuthEncoding) -> Seq<char> {
    let es_part = if c.capture || c.viewer || c.cont3xt {
        let es = if wants_backend(a) {
            "http://opensearch:9200"@
        } else {
            a.spec_elasticsearch_or_default()
        };
        env_line("ARKIME__elasticsearch"@, es) + if a.spec_has_es_user() {
            env_line("ARKIME__elasticsearchBasicAuth"@, basic_auth_spec(a.es_user@, a.es_password@, enc))
        } else {
            seq![]
        }
    } else {
        seq![]
    };
    let iface = if c.capture {
        env_line("ARKIME__interface"@, a.interfaces@)
    } else {
        seq![]
    };
    let secret = if c.capture || c.viewer || c.cont3xt {
        env_line("ARKIME__passwordSecret"@, a.s2s_password@)
    } else {
        seq![]
    };
    es_part + iface + secret
}

fn push_kv(m: &mut Vec<(Yaml, Yaml)>, key: &str, v: Yaml)
    ensures
        entries_view(final(m)@) == entries_view(old(m)@).push((YamlV::Str(key@), v@)),
{
    m.push((ystr(key), v));
    proof {
        assert(entries_view(final(m)@) =~= entries_view(old(m)@).push((YamlV::Str(key@), v@)));
    }
}

fn strings(items: Vec<&str>) -> (v: Vec<String>)
    ensures
        v@.len() == items@.len(),
        forall|i: int| 0 <= i < items@.len() ==> #[trigger] v@[i]@ == items@[i]@,
{
    let mut v: Vec<String> = Vec::new();
    let mut i: usize = 0;
    while i < items.len()
        invariant
            i <= items.len(),
            v@.len() == i,
            forall|k: int| 0 <= k < i ==> #[trigger] v@[k]@ == items@[k]@,
        decreases items.len() - i,
    {
        v.push(items[i].to_owned());
        i += 1;
    }
    v
}

/// The compose service of component `c`, with its name.
fn arkime_service(c: Component, images: &Images, demo: bool) -> (r: (String, Yaml))
    ensures
        r.0@ == "arkime-"@ + c.spec_label(),
        r.1@ == arkime_service_spec(c, *images, demo),
{
    let capture = match c {
        Component::Capture => true,
        _ => false,
    };
    let mut m: Vec<(Yaml, Yaml)> = Vec::new();
    push_kv(&mut m, "image", ystr(images.arkime.as_str()));
    push_kv(&mut m, "command", ystr(c.label()));
    let ghost r1 = seq![(sv("image"@), sv(images.arkime@)), (sv("command"@), sv(c.spec_label()))];
    proof {
        assert(entries_view(m@) =~= r1);
    }
    if capture {
        push_kv(&mut m, "network_mode", ystr("host"));
    }
    let ghost r2 = entry_if(r1, capture, "network_mode"@, sv("host"@));
    if capture {
        let caps = strings(vec!["NET_ADMIN", "NET_RAW"]);
        proof {
            assert(string_views(caps@) =~= seq!["NET_ADMIN"@, "NET_RAW"@]);
        }
        push_kv(&mut m, "cap_add", ystr_items(&caps));
    }
    let ghost r3 = entry_if(r2, capture, "cap_add"@, str_items(seq!["NET_ADMIN"@, "NET_RAW"@]));
    proof {
        assert(entries_view(m@) == r3);
    }
    let envs = strings(vec![ENV_FILE]);
    proof {
        assert(string_views(envs@) =~= seq![ENV_FILE@]);
    }
    push_kv(&mut m, "env_file", ystr_items(&envs));
    let ghost r4 = r3.push((sv("env_file"@), str_items(seq![ENV_FILE@])));
    if capture {
        let vols = strings(vec!["./raw:/opt/arkime/raw", "./logs:/opt/arkime/logs"]);
        proof {
            assert(string_views(vols@) =~= seq!["./raw:/opt/arkime/raw"@, "./logs:/opt/arkime/logs"@]);
        }
        push_kv(&mut m, "volumes", ystr_items(&vols));
    }
    let ghost r5 = entry_if(
        r4,
        capture,
        "volumes"@,
        str_items(seq!["./raw:/opt/arkime/raw"@, "./logs:/opt/arkime/logs"@]),
    );
    proof {
        assert(entries_view(m@) == r5);
    }
    let port: Option<&str> = match c {
        Component::Capture => None,
        Component::Viewer => Some("8005:8005"),
        Component::Wise => Some("8081:8081"),
        Component::Parliament => Some("8008:8008"),
        Component::Cont3xt => Some("3218:3218"),
    };
    match port {
        Some(p) => {
            let ports = strings(vec![p]);
            proof {
                assert(string_views(ports@) =~= seq![p@]);
            }
            push_kv(&mut m, "ports", ystr_items(&ports));
        },
        None => {},
    }
    let ghost r6 = match published_port(c) {
        Some(p) => r5.push((sv("ports"@), str_items(seq![p]))),
        None => r5,
    };
    proof {
        assert(entries_view(m@) == r6);
    }
    if demo {
        let deps = strings(vec!["opensearch"]);
        proof {
            assert(string_views(deps@) =~= seq!["opensearch"@]);
        }
        push_kv(&mut m, "depends_on", ystr_items(&deps));
    }
    let ghost r7 = entry_if(r6, demo, "depends_on"@, str_items(seq!["opensearch"@]));
    proof {
        assert(entries_view(m@) == r7);
    }
    push_kv(&mut m, "restart", ystr("unless-stopped"));
    proof {
        lemma_view_mapping(m);
        reveal_strlit("arkime-");
        assert(entries_view(m@) == r7.push((sv("restart"@), sv("unless-stopped"@))));
    }
    (cat("arkime-", c.label()), Yaml::Mapping(m))
}

/// The demo single-node OpenSearch service.
fn opensearch_service(images: &Images) -> (y: Yaml)
    ensures
        y@ == opensearch_service_spec(*images),
{
    let mut env: Vec<(Yaml, Yaml)> = Vec::new();
    push_kv(&mut env, "DISABLE_SECURITY_PLUGIN", ystr("true"));
    push_kv(&mut env, "bootstrap.memory_lock", ystr("true"));
    push_kv(&mut env, "discovery.type", ystr("single-node"));
    let ghost ev = entries_view(env@);
    proof {
        lemma_view_mapping(env);
    }
    let mut m: Vec<(Yaml, Yaml)> = Vec::new();
    push_kv(&mut m, "image", ystr(images.opensearch.as_str()));
    push_kv(&mut m, "environment", Yaml::Mapping(env));
    let vols = strings(vec!["osdata:/usr/share/opensearch/data"]);
    let ports = strings(vec!["9200:9200"]);
    proof {
        assert(string_views(vols@) =~= seq!["osdata:/usr/share/opensearch/data"@]);
        assert(string_views(ports@) =~= seq!["9200:9200"@]);
    }
    push_kv(&mut m, "volumes", ystr_items(&vols));
    push_kv(&mut m, "ports", ystr_items(&ports));
    push_kv(&mut m, "restart", ystr("unless-stopped"));
    proof {
        lemma_view_mapping(m);
        assert(ev =~= seq![
            (sv("DISABLE_SECURITY_PLUGIN"@), sv("true"@)),
            (sv("bootstrap.memory_lock"@), sv("true"@)),
            (sv("discovery.type"@), sv("single-node"@)),
        ]);
        assert(entries_view(m@) =~= match opensearch_service_spec(*images) {
            YamlV::Mapping(e) => e,
            _ => seq![],
        });
    }
    Yaml::Mapping(m)
}

/// The compose document for the current selections.
pub fn compose_doc(components: &Components, answers: &Answers, images: &Images) -> (y: Yaml)
    ensures
        y@ == compose_spec(*components, *answers, *images),
{
    let demo = match answers.es_backend {
        EsBackend::External => false,
        _ => true,
    };
    let order = vec![
        Component::Capture,
        Component::Cont3xt,
        Component::Parliament,
        Component::Viewer,
        Component::Wise,
    ];
    let mut services: Vec<(Yaml, Yaml)> = Vec::new();
    let mut i: usize = 0;
    while i < order.len()
        invariant
            order@ == name_order(),
            i <= order.len(),
            entries_view(services@) == arkime_services(order@.take(i as int), *components, *images, demo),
        decreases order.len() - i,
    {
        let c = order[i];
        proof {
            assert(order@.take(i + 1).drop_last() =~= order@.take(i as int));
            assert(order@.take(i + 1).last() == c);
        }
        if components.contains(c) {
            let (name, svc) = arkime_service(c, images, demo);
            push_kv(&mut services, name.as_str(), svc);
        }
        i += 1;
    }
    proof {
        assert(order@.take(order@.len() as int) =~= order@);
    }
    let ghost arks = entries_view(services@);
    if demo {
        push_kv(&mut services, "opensearch", opensearch_service(images));
    }
    let ghost sv_e = entries_view(services@);
    proof {
        assert(sv_e == entry_if(arks, demo, "opensearch"@, opensearch_service_spec(*images)));
        lemma_view_mapping(services);
    }
    let mut top: Vec<(Yaml, Yaml)> = Vec::new();
    push_kv(&mut top, "services", Yaml::Mapping(services));
    let ghost top1 = entries_view(top@);
    proof {
        assert(top1 =~= seq![(sv("services"@), YamlV::Mapping(sv_e))]);
    }
    if demo {
        let mut vols: Vec<(Yaml, Yaml)> = Vec::new();
        push_kv(&mut vols, "osdata", empty_mapping());
        let ghost ve = entries_view(vols@);
        proof {
            lemma_view_mapping(vols);
            assert(ve =~= seq![(sv("osdata"@), YamlV::Mapping(seq![]))]);
        }
        push_kv(&mut top, "volumes", Yaml::Mapping(vols));
    }
    proof {
        lemma_view_mapping(top);
        assert(entries_view(top@) == entry_if(
            top1,
            demo,
            "volumes"@,
            YamlV::Mapping(seq![(sv("osdata"@), YamlV::Mapping(seq![]))]),
        ));
    }
    Yaml::Mapping(top)
}

fn push_env_line(out: &mut String, k: &str, v: &str)
    ensures
        final(out)@ == old(out)@ + env_line(k@, v@),
{
    out.append(k);
    out.append("=");
    out.append(v);
    out.append("\n");
    proof {
        reveal_strlit("=");
        reveal_strlit("\n");
    }
}

/// The `ARKIME__*` env file, keys in sorted order.
pub fn env_file(components: &Components, answers: &Answers, basic_auth: BasicAuthEncoding) -> (out: String)
    ensures
        out@ == env_file_spec(*components, *answers, basic_auth),
{
    let c = components;
    let a = answers;
    let mut out = String::new();
    let demo = match a.es_backend {
        EsBackend::External => false,
        _ => true,
    };
    if c.needs_elasticsearch() {
        if demo {
            push_env_line(&mut out, "ARKIME__elasticsearch", "http://opensearch:9200");
        } else {
            push_env_line(&mut out, "ARKIME__elasticsearch", a.elasticsearch_or_default());
        }
        if a.has_es_user() {
            let auth = basic_auth_value(a.es_user.as_str(), a.es_password.as_str(), basic_auth);
            push_env_line(&mut out, "ARKIME__elasticsearchBasicAuth", auth.as_str());
        }
    }
    let ghost after_es = out@;
    if c.needs_interfaces() {
        push_env_line(&mut out, "ARKIME__interface", a.interfaces.as_str());
    }
    let ghost after_if = out@;
    if c.needs_s2s_password() {
        push_env_line(&mut out, "ARKIME__passwordSecret", a.s2s_password.as_str());
    }
    proof {
        assert(out@ =~= env_file_spec(*c, *a, basic_auth));
    }
    out
}

/// The text a generated document gets: its YAML, or a comment line with the
/// serialization error.
pub open spec fn emitted_text(doc: YamlV, out: Seq<char>) -> bool {
    match yaml_emit(doc) {
        Some(t) => out == t,
        None => exists|e: Seq<char>| out == "# serialization error: "@ + e + "\n"@,
    }
}

/// Build the compose and env text for the current selections.
pub fn generate(
    components: &Components,
    answers: &Answers,
    images: &Images,
    basic_auth: BasicAuthEncoding,
) -> (g: GeneratedDocker)
    ensures
        emitted_text(compose_spec(*components, *answers, *images), g.compose_yaml@),
        g.env_file@ == env_file_spec(*components, *answers, basic_auth),
{
    let doc = compose_doc(components, answers, images);
    let compose_yaml = match emit_yaml(doc) {
        Ok(t) => t,
        Err(e) => cat(cat("# serialization error: ", e.as_str()).as_str(), "\n"),
    };
    GeneratedDocker { compose_yaml, env_file: env_file(components, answers, basic_auth) }
}

/// The log line of a docker file write.
pub open spec fn write_line(o: Outcome, path: Seq<char>, what: Seq<char>) -> (Level, Seq<char>) {
    match o {
        Outcome::Failed(e) => (Level::Error, "writing "@ + what + ": "@ + e),
        _ => (Level::Info, "Wrote "@ + path),
    }
}

/// Write the generated files into `out_dir`, logging each. Docker mode never
/// writes `.ini` files.
pub fn apply<O: SystemOps>(ops: &mut O, out_dir: &str, generated: &GeneratedDocker) -> (log: Vec<LogLine>)
    ensures
        extends(old(ops).requests(), final(ops).requests()),
        new_reqs(old(ops).requests(), final(ops).requests()) == seq![
            Req::WriteFile(path_join(out_dir@, "docker-compose.yml"@), generated.compose_yaml@, 0o644),
            Req::WriteFile(path_join(out_dir@, ENV_FILE@), generated.env_file@, 0o600),
        ],
        log_views(log@) == seq![
            write_line(
                new_outs(old(ops).requests(), final(ops).requests())[0],
                path_join(out_dir@, "docker-compose.yml"@),
                "compose"@,
            ),
            write_line(
                new_outs(old(ops).requests(), final(ops).requests())[1],
                path_join(out_dir@, ENV_FILE@),
                "env"@,
            ),
            (Level::Info, "Run `docker compose up -d` from "@ + out_dir@),
        ],
{
    let ghost h0 = ops.requests();
    let mut log: Vec<LogLine> = Vec::new();
    let compose_path = join_path(out_dir, "docker-compose.yml");
    let env_path = join_path(out_dir, ENV_FILE);
    proof {
        reveal_strlit("docker-compose.yml");
    }
    let r1 = ops.write_file(compose_path.as_str(), generated.compose_yaml.as_str(), 0o644);
    let ghost o1 = unit_outcome(r1);
    match r1 {
        Ok(()) => log.push(LogLine::new(Level::Info, cat("Wrote ", compose_path.as_str()))),
        Err(e) => log.push(LogLine::new(Level::Error, cat("writing compose: ", e.as_str()))),
    }
    let r2 = ops.write_file(env_path.as_str(), generated.env_file.as_str(), 0o600);
    let ghost o2 = unit_outcome(r2);
    match r2 {
        Ok(()) => log.push(LogLine::new(Level::Info, cat("Wrote ", env_path.as_str()))),
        Err(e) => log.push(LogLine::new(Level::Error, cat("writing env: ", e.as_str()))),
    }
    log.push(
        LogLine::new(Level::Info, cat("Run `docker compose up -d` from ", out_dir)),
    );
    proof {
        let h2 = ops.requests();
        let d = h2.skip(h0.len() as int);
        assert(h2.take(h0.len() as int) =~= h0);
        assert(d =~= seq![
            (Req::WriteFile(compose_path@, generated.compose_yaml@, 0o644), o1),
            (Req::WriteFile(env_path@, generated.env_file@, 0o600), o2),
        ]);
        assert(new_reqs(h0, h2) =~= seq![
            Req::WriteFile(compose_path@, generated.compose_yaml@, 0o644),
            Req::WriteFile(env_path@, generated.env_file@, 0o600),
        ]);
        assert(new_outs(h0, h2) =~= seq![o1, o2]);
        reveal_strlit("writing compose: ");
        reveal_strlit("writing env: ");
        reveal_strlit("compose");
        reveal_strlit("env");
        assert("writing compose: "@ =~= "writing "@ + "compose"@ + ": "@) by {
            reveal_strlit("writing ");
            reveal_strlit(": ");
        }
        assert("writing env: "@ =~= "writing "@ + "env"@ + ": "@) by {
            reveal_strlit("writing ");
            reveal_strlit(": ");
        }
        assert(log_views(log@) =~= seq![
            write_line(o1, compose_path@, "compose"@),
            write_line(o2, env_path@, "env"@),
            (Level::Info, "Run `docker compose up -d` from "@ + out_dir@),
        ]);
    }
    log
}

/// The env file of a docker deployment. With capture, viewer or cont3xt it
/// starts with the `ARKIME__elasticsearch` line (the compose OpenSearch
/// service when a single-node backend is deployed, else the datastore URL),
/// followed by the `ARKIME__elasticsearchBasicAuth` line when a user is set,
/// and it ends with the `ARKIME__passwordSecret` line, just after the
/// `ARKIME__interface` line when capture is selected. With none of them it
/// is empty.
pub proof fn lemma_env_file_lines(c: Components, a: Answers, enc: BasicAuthEncoding)
    ensures
        ({
            let env = env_file_spec(c, a, enc);
            let needs = c.capture || c.viewer || c.cont3xt;
            let url = if a.es_backend != EsBackend::External {
                "http://opensearch:9200"@
            } else {
                a.spec_elasticsearch_or_default()
            };
            let es_line = "ARKIME__elasticsearch"@ + "="@ + url + "\n"@;
            let auth_line = "ARKIME__elasticsearchBasicAuth"@ + "="@ + basic_auth_spec(
                a.es_user@,
                a.es_password@,
                enc,
            ) + "\n"@;
            let iface_line = "ARKIME__interface"@ + "="@ + a.interfaces@ + "\n"@;
            let secret_line = "ARKIME__passwordSecret"@ + "="@ + a.s2s_password@ + "\n"@;
            &&& !needs ==> env.len() == 0
            &&& needs ==> crate::text::starts_with(env, es_line)
            &&& needs && a.spec_has_es_user() ==> crate::text::starts_with(env, es_line + auth_line)
            &&& needs ==> crate::text::ends_with(env, secret_line)
            &&& c.capture ==> crate::text::ends_with(env, iface_line + secret_line)
        }),
{
    let needs = c.capture || c.viewer || c.cont3xt;
    let url = if a.es_backend != EsBackend::External {
        "http://opensearch:9200"@
    } else {
        a.spec_elasticsearch_or_default()
    };
    let es_line = "ARKIME__elasticsearch"@ + "="@ + url + "\n"@;
    let auth_line = "ARKIME__elasticsearchBasicAuth"@ + "="@ + basic_auth_spec(a.es_user@, a.es_password@, enc) + "\n"@;
    let iface_line = "ARKIME__interface"@ + "="@ + a.interfaces@ + "\n"@;
    let secret_line = "ARKIME__passwordSecret"@ + "="@ + a.s2s_password@ + "\n"@;
    let auth = if a.spec_has_es_user() {
        auth_line
    } else {
        seq![]
    };
    let iface = if c.capture {
        iface_line
    } else {
        seq![]
    };
    let env = env_file_spec(c, a, enc);
    if needs {
        assert(env =~= es_line + auth + iface + secret_line);
        let x = es_line + (auth + iface + secret_line);
        assert(env =~= x);
        assert(x.subrange(0, es_line.len() as int) =~= es_line);
        if a.spec_has_es_user() {
            let p = es_line + auth_line;
            assert((p + (iface + secret_line)).subrange(0, p.len() as int) =~= p);
            assert(env =~= p + (iface + secret_line));
        }
        let y = es_line + auth + iface;
        assert((y + secret_line).subrange(env.len() - secret_line.len(), env.len() as int) =~= secret_line);
        if c.capture {
            let q = iface_line + secret_line;
            let z = es_line + auth;
            assert(env =~= z + q);
            assert((z + q).subrange(env.len() - q.len(), env.len() as int) =~= q);
        }
    } else {
        assert(env =~= Seq::<char>::empty());
    }
}

} // verus!
