//! Native-deployment system actions: create the data dirs, install the demo
//! datastore, write limits.d, download GeoIP, initialize the database, add the
//! admin user, and enable/start the services. The `.ini` files themselves are
//! written from the in-memory documents by the caller; this handles only the
//! other side effects.
//!
//! Each action logs its own outcome, so one failure does not abort the rest.
//! What is requested of the host depends on how the earlier requests went (a
//! service is only started once it was enabled); the contract states the
//! requests and the log for every sequence of outcomes.

use vstd::prelude::*;
use crate::actions::system::{Outcome, Req, SystemOps};
use crate::domain::answers::Answers;
use crate::domain::build_config::BuildConfig;
use crate::domain::components::{Component, Components};
use crate::domain::es_backend::EsBackend;
use crate::domain::platform::{Os, Platform, ServiceManagerKind};
use crate::log::{Level, LogLine};
use crate::text::{cat, join_path, path_join, str_eq, string_views};

verus! {

/// The limits.d contents.
pub const LIMITS_CONF: &'static str = "nobody  -       core    unlimited
root    -       core    unlimited
nobody  -       memlock    unlimited
root    -       memlock    unlimited
";

pub const LIMITS_PATH: &'static str = "/etc/security/limits.d/99-arkime.conf";

/// The OSS Elasticsearch release of the demo install. Not for production.
pub const ES_VERSION: &'static str = "7.10.2";

pub const ES_DOWNLOADS: &'static str = "https://artifacts.elastic.co/downloads/elasticsearch";

/// Facts about the host that the native actions depend on.
pub struct HostFacts {
    /// `/etc/security/limits.d` is a directory.
    pub limits_dir_present: bool,
    /// The CPU architecture (`std::env::consts::ARCH`).
    pub arch: String,
    /// The distribution uses RPM (`/etc/redhat-release` or
    /// `/etc/system-release` exists).
    pub is_rpm: bool,
}

// ---------------------------------------------------------------------------
// What is requested and logged, for each sequence of outcomes
// ---------------------------------------------------------------------------

/// The requests made and the lines logged by some actions, and the outcomes
/// left over for the actions after them.
pub struct Trace {
    pub reqs: Seq<Req>,
    pub logs: Seq<(Level, Seq<char>)>,
    pub rest: Seq<Outcome>,
}

pub open spec fn idle(outs: Seq<Outcome>) -> Trace {
    Trace { reqs: seq![], logs: seq![], rest: outs }
}

pub open spec fn note(outs: Seq<Outcome>, level: Level, text: Seq<char>) -> Trace {
    Trace { reqs: seq![], logs: seq![(level, text)], rest: outs }
}

/// `a`, then `b` (which ran on what `a` left over).
pub open spec fn join(a: Trace, b: Trace) -> Trace {
    Trace { reqs: a.reqs + b.reqs, logs: a.logs + b.logs, rest: b.rest }
}

/// How an outcome is logged: `ok` on success, else `err_prefix` and the error.
pub open spec fn report_line(o: Outcome, ok: Seq<char>, err_prefix: Seq<char>) -> (Level, Seq<char>) {
    match o {
        Outcome::Failed(e) => (Level::Warn, err_prefix + e),
        _ => (Level::Info, ok),
    }
}

/// One request whose outcome is logged.
pub open spec fn reported(req: Req, outs: Seq<Outcome>, ok: Seq<char>, err_prefix: Seq<char>) -> Trace {
    Trace {
        reqs: seq![req],
        logs: seq![report_line(outs[0], ok, err_prefix)],
        rest: outs.drop_first(),
    }
}

/// Requests made in order until one fails: those made, the outcome of the
/// chain (the failure, or success), and the outcomes left over.
pub open spec fn chain(reqs: Seq<Req>, outs: Seq<Outcome>) -> (Seq<Req>, Outcome, Seq<Outcome>)
    decreases reqs.len(),
{
    if reqs.len() == 0 {
        (seq![], Outcome::Done(false), outs)
    } else {
        match outs[0] {
            Outcome::Failed(e) => (seq![reqs[0]], Outcome::Failed(e), outs.drop_first()),
            _ => {
                let r = chain(reqs.drop_first(), outs.drop_first());
                (seq![reqs[0]] + r.0, r.1, r.2)
            },
        }
    }
}

/// Data dirs `logs` and `raw`, owned by `nobody` (capture/viewer only).
pub open spec fn dirs_trace(install: Seq<char>, c: Components, outs: Seq<Outcome>) -> Trace {
    if c.capture || c.viewer {
        let logs = path_join(install, "logs"@);
        let raw = path_join(install, "raw"@);
        let a = reported(
            Req::Mkdir(logs, 0o700, "nobody"@),
            outs,
            "Ensured "@ + logs,
            "mkdir "@ + logs + ": "@,
        );
        join(
            a,
            reported(Req::Mkdir(raw, 0o700, "nobody"@), a.rest, "Ensured "@ + raw, "mkdir "@ + raw + ": "@),
        )
    } else {
        idle(outs)
    }
}

/// The rpm and deb architecture names of a supported architecture.
pub open spec fn arch_names(arch: Seq<char>) -> Option<(Seq<char>, Seq<char>)> {
    if arch == "x86_64"@ {
        Some(("x86_64"@, "amd64"@))
    } else if arch == "aarch64"@ {
        Some(("aarch64"@, "arm64"@))
    } else {
        None
    }
}

pub open spec fn rpm_url(arch_rpm: Seq<char>) -> Seq<char> {
    ES_DOWNLOADS@ + "/elasticsearch-oss-"@ + ES_VERSION@ + "-"@ + arch_rpm + ".rpm"@
}

pub open spec fn deb_file(arch_deb: Seq<char>) -> Seq<char> {
    "elasticsearch-oss-"@ + ES_VERSION@ + "-"@ + arch_deb + ".deb"@
}

/// RPM distributions install the package with `yum`; others download the
/// `.deb`, install it with `dpkg` and remove the download.
pub open spec fn demo_reqs(names: (Seq<char>, Seq<char>), is_rpm: bool) -> Seq<Req> {
    if is_rpm {
        seq![Req::Run("yum"@, seq!["install"@, "-y"@, rpm_url(names.0)])]
    } else {
        let file = deb_file(names.1);
        seq![
            Req::Run("curl"@, seq!["-sSfLO"@, ES_DOWNLOADS@ + "/"@ + file]),
            Req::Run("dpkg"@, seq!["-i"@, file]),
            Req::Run("rm"@, seq!["-f"@, file]),
        ]
    }
}

pub open spec fn demo_trace(arch: Seq<char>, is_rpm: bool, outs: Seq<Outcome>) -> Trace {
    match arch_names(arch) {
        None => note(outs, Level::Warn, "Demo ES: unsupported arch "@ + arch + ", skipping"@),
        Some(names) => {
            let r = chain(demo_reqs(names, is_rpm), outs);
            Trace {
                reqs: r.0,
                logs: seq![
                    (Level::Info, "Installing demo OSS Elasticsearch (not for production)"@),
                    report_line(r.1, "Demo Elasticsearch installed"@, "Demo ES install: "@),
                ],
                rest: r.2,
            }
        },
    }
}

/// Linux only, and only when the limits.d directory exists.
pub open spec fn limits_trace(os: Os, present: bool, outs: Seq<Outcome>) -> Trace {
    if os == Os::Linux && present {
        Trace {
            reqs: seq![Req::WriteNew(LIMITS_PATH@, LIMITS_CONF@)],
            logs: seq![
                match outs[0] {
                    Outcome::Done(true) => (Level::Info, "limits.d/99-arkime.conf already present"@),
                    Outcome::Failed(e) => (Level::Warn, "limits.d: "@ + e),
                    _ => (Level::Info, "Installed limits.d/99-arkime.conf"@),
                },
            ],
            rest: outs.drop_first(),
        }
    } else {
        idle(outs)
    }
}

pub open spec fn geo_script(install: Seq<char>) -> Seq<char> {
    path_join(install, "bin/arkime_update_geo.sh"@)
}

pub open spec fn db_script(install: Seq<char>) -> Seq<char> {
    path_join(install, "db/db.pl"@)
}

pub open spec fn add_user_script(install: Seq<char>) -> Seq<char> {
    path_join(install, "bin/arkime_add_user.sh"@)
}

pub open spec fn geo_trace(install: Seq<char>, c: Components, a: Answers, outs: Seq<Outcome>) -> Trace {
    if a.download_geoip && (c.capture || c.viewer) {
        reported(Req::Run(geo_script(install), seq![]), outs, "Downloaded GEO files"@, "GEO update: "@)
    } else {
        idle(outs)
    }
}

/// `db.pl init` asks for the word INIT; it is fed on stdin.
pub open spec fn db_init_command(install: Seq<char>, a: Answers) -> Seq<char> {
    "echo INIT | "@ + db_script(install) + " "@ + a.spec_elasticsearch_or_default() + " init"@
}

pub open spec fn db_trace(install: Seq<char>, a: Answers, outs: Seq<Outcome>) -> Trace {
    if a.init_db {
        reported(
            Req::Run("sh"@, seq!["-c"@, db_init_command(install, a)]),
            outs,
            "Initialized the database"@,
            "db init: "@,
        )
    } else {
        idle(outs)
    }
}

pub open spec fn admin_trace(install: Seq<char>, a: Answers, outs: Seq<Outcome>) -> Trace {
    if a.create_admin && a.admin_user@.len() > 0 {
        reported(
            Req::Run(
                add_user_script(install),
                seq![a.admin_user@, a.admin_user@, a.admin_password@, "--admin"@],
            ),
            outs,
            "Created admin user '"@ + a.admin_user@ + "'"@,
            "add user: "@,
        )
    } else {
        idle(outs)
    }
}

/// Enable, then start, a service with the platform's service manager.
pub open spec fn service_reqs(mgr: ServiceManagerKind, svc: Seq<char>) -> Seq<Req> {
    match mgr {
        ServiceManagerKind::Systemd => seq![
            Req::Run("systemctl"@, seq!["enable"@, svc]),
            Req::Run("systemctl"@, seq!["start"@, svc]),
        ],
        ServiceManagerKind::FreeBsdRc => seq![
            Req::Run("sysrc"@, seq![svc + "_enable=YES"@]),
            Req::Run("service"@, seq![svc, "start"@]),
        ],
        ServiceManagerKind::NoManager => seq![],
    }
}

pub open spec fn service_trace(mgr: ServiceManagerKind, c: Component, outs: Seq<Outcome>) -> Trace {
    let svc = c.spec_service_name();
    match mgr {
        ServiceManagerKind::NoManager => note(
            outs,
            Level::Warn,
            "No service manager detected; not starting "@ + svc,
        ),
        _ => {
            let r = chain(service_reqs(mgr, svc), outs);
            Trace {
                reqs: r.0,
                logs: seq![report_line(r.1, "Enabled + started "@ + svc, svc + ": "@)],
                rest: r.2,
            }
        },
    }
}

pub open spec fn services_trace(mgr: ServiceManagerKind, comps: Seq<Component>, outs: Seq<Outcome>) -> Trace
    decreases comps.len(),
{
    if comps.len() == 0 {
        idle(outs)
    } else {
        let a = service_trace(mgr, comps[0], outs);
        join(a, services_trace(mgr, comps.drop_first(), a.rest))
    }
}

/// The closing lines: what is left to do by hand.
pub open spec fn trailer_logs(install: Seq<char>, a: Answers) -> Seq<(Level, Seq<char>)> {
    let l1 = seq![(Level::Info, "Done. Next steps:"@)];
    let l2 = if !a.init_db {
        l1.push(
            (
                Level::Info,
                "  Initialize the DB once:  "@ + db_script(install) + " "@
                    + a.spec_elasticsearch_or_default() + " init"@,
            ),
        )
    } else {
        l1
    };
    let l3 = if !a.create_admin {
        l2.push(
            (Level::Info, "  Add a user:  "@ + add_user_script(install) + " <user> <name> <pass> --admin"@),
        )
    } else {
        l2
    };
    l3.push((Level::Info, "  Then open the viewer (default http://<host>:8005)."@))
}

/// Whether the demo datastore is installed: a single-node backend was chosen
/// and something will talk to it.
pub open spec fn wants_demo(c: Components, a: Answers) -> bool {
    a.es_backend != EsBackend::External && (c.capture || c.viewer)
}

/// Everything the native actions request and log, for the outcomes `outs`.
pub open spec fn native_trace(
    install: Seq<char>,
    platform: Platform,
    c: Components,
    a: Answers,
    h: HostFacts,
    outs: Seq<Outcome>,
) -> Trace {
    let t1 = dirs_trace(install, c, outs);
    let t2 = if wants_demo(c, a) {
        demo_trace(h.arch@, h.is_rpm, t1.rest)
    } else {
        idle(t1.rest)
    };
    let t3 = limits_trace(platform.os, h.limits_dir_present, t2.rest);
    let t4 = geo_trace(install, c, a, t3.rest);
    let t5 = db_trace(install, a, t4.rest);
    let t6 = admin_trace(install, a, t5.rest);
    let t7 = services_trace(platform.service_manager, c.spec_enabled(), t6.rest);
    join(
        t1,
        join(
            t2,
            join(
                t3,
                join(
                    t4,
                    join(
                        t5,
                        join(
                            t6,
                            join(t7, Trace { reqs: seq![], logs: trailer_logs(install, a), rest: t7.rest }),
                        ),
                    ),
                ),
            ),
        ),
    )
}

// ---------------------------------------------------------------------------
// Histories
// ---------------------------------------------------------------------------

/// `after` is `before` with more entries at the end.
pub open spec fn extends<A>(before: Seq<A>, after: Seq<A>) -> bool {
    before.len() <= after.len() && after.take(before.len() as int) == before
}

/// The requests made between two points of a history.
pub open spec fn new_reqs(before: Seq<(Req, Outcome)>, after: Seq<(Req, Outcome)>) -> Seq<Req> {
    after.skip(before.len() as int).map_values(|x: (Req, Outcome)| x.0)
}

/// The outcomes of the requests made between two points of a history.
pub open spec fn new_outs(before: Seq<(Req, Outcome)>, after: Seq<(Req, Outcome)>) -> Seq<Outcome> {
    after.skip(before.len() as int).map_values(|x: (Req, Outcome)| x.1)
}

/// The `(level, text)` views of log lines.
pub open spec fn log_views(v: Seq<LogLine>) -> Seq<(Level, Seq<char>)> {
    Seq::new(v.len(), |i: int| (v[i].level, v[i].text@))
}

/// The lines logged between two points of a log.
pub open spec fn new_logs(before: Seq<LogLine>, after: Seq<LogLine>) -> Seq<(Level, Seq<char>)> {
    log_views(after).skip(before.len() as int)
}

pub(crate) proof fn lemma_extends_trans<A>(a: Seq<A>, b: Seq<A>, c: Seq<A>)
    requires
        extends(a, b),
        extends(b, c),
    ensures
        extends(a, c),
{
    assert(c.take(a.len() as int) =~= c.take(b.len() as int).take(a.len() as int));
}

pub(crate) proof fn lemma_split_history(a: Seq<(Req, Outcome)>, b: Seq<(Req, Outcome)>, c: Seq<(Req, Outcome)>)
    requires
        extends(a, b),
        extends(b, c),
    ensures
        new_reqs(a, c) == new_reqs(a, b) + new_reqs(b, c),
        new_outs(a, c) == new_outs(a, b) + new_outs(b, c),
{
    assert(c.skip(a.len() as int) =~= b.skip(a.len() as int) + c.skip(b.len() as int)) by {
        assert forall|k: int| 0 <= k < b.len() - a.len() implies #[trigger] c.skip(
            a.len() as int,
        )[k] == b.skip(a.len() as int)[k] by {
            assert(c.take(b.len() as int)[a.len() + k] == b[a.len() + k]);
        }
    }
    assert(new_reqs(a, c) =~= new_reqs(a, b) + new_reqs(b, c));
    assert(new_outs(a, c) =~= new_outs(a, b) + new_outs(b, c));
}

pub(crate) proof fn lemma_split_log(a: Seq<LogLine>, b: Seq<LogLine>, c: Seq<LogLine>)
    requires
        extends(log_views(a), log_views(b)),
        extends(log_views(b), log_views(c)),
    ensures
        new_logs(a, c) == new_logs(a, b) + new_logs(b, c),
{
    let (va, vb, vc) = (log_views(a), log_views(b), log_views(c));
    assert forall|k: int| 0 <= k < vb.len() - va.len() implies #[trigger] vc.skip(va.len() as int)[k]
        == vb.skip(va.len() as int)[k] by {
        assert(vc.take(vb.len() as int)[va.len() + k] == vb[va.len() + k]);
    }
    assert(new_logs(a, c) =~= new_logs(a, b) + new_logs(b, c));
}

/// The history after one more request.
pub(crate) proof fn lemma_one_more(before: Seq<(Req, Outcome)>, x: (Req, Outcome))
    ensures
        extends(before, before.push(x)),
        new_reqs(before, before.push(x)) == seq![x.0],
        new_outs(before, before.push(x)) == seq![x.1],
{
    let after = before.push(x);
    assert(after.take(before.len() as int) =~= before);
    assert(new_reqs(before, after) =~= seq![x.0]);
    assert(new_outs(before, after) =~= seq![x.1]);
}

pub(crate) proof fn lemma_no_more(h: Seq<(Req, Outcome)>)
    ensures
        extends(h, h),
        new_reqs(h, h) == Seq::<Req>::empty(),
        new_outs(h, h) == Seq::<Outcome>::empty(),
{
    assert(h.take(h.len() as int) =~= h);
    assert(new_reqs(h, h) =~= Seq::<Req>::empty());
    assert(new_outs(h, h) =~= Seq::<Outcome>::empty());
}

pub(crate) proof fn lemma_log_unchanged(l: Seq<LogLine>)
    ensures
        extends(log_views(l), log_views(l)),
        new_logs(l, l) == Seq::<(Level, Seq<char>)>::empty(),
{
    assert(log_views(l).take(l.len() as int) =~= log_views(l));
    assert(new_logs(l, l) =~= Seq::<(Level, Seq<char>)>::empty());
}

// ---------------------------------------------------------------------------
// Executing the actions
// ---------------------------------------------------------------------------

fn log_push(log: &mut Vec<LogLine>, level: Level, text: String)
    ensures
        log_views(final(log)@) == log_views(old(log)@).push((level, text@)),
        extends(log_views(old(log)@), log_views(final(log)@)),
        new_logs(old(log)@, final(log)@) == seq![(level, text@)],
{
    log.push(LogLine::new(level, text));
    proof {
        assert(log_views(final(log)@) =~= log_views(old(log)@).push((level, text@)));
        assert(log_views(final(log)@).take(old(log)@.len() as int) =~= log_views(old(log)@));
        assert(new_logs(old(log)@, final(log)@) =~= seq![(level, text@)]);
    }
}

/// Log the outcome of a finished request: `ok`, or `err_prefix` and the error.
fn log_report(log: &mut Vec<LogLine>, r: Result<(), String>, ok: &str, err_prefix: &str)
    ensures
        extends(log_views(old(log)@), log_views(final(log)@)),
        new_logs(old(log)@, final(log)@) == seq![
            report_line(crate::actions::system::unit_outcome(r), ok@, err_prefix@),
        ],
{
    match r {
        Ok(()) => log_push(log, Level::Info, ok.to_owned()),
        Err(e) => log_push(log, Level::Warn, cat(err_prefix, e.as_str())),
    }
}


proof fn lemma_reported(req: Req, o: Outcome, ok: Seq<char>, ep: Seq<char>, tail: Seq<Outcome>)
    ensures
        reported(req, seq![o] + tail, ok, ep) == (Trace {
            reqs: seq![req],
            logs: seq![report_line(o, ok, ep)],
            rest: tail,
        }),
{
    assert((seq![o] + tail).drop_first() =~= tail);
}

/// Run a command and log how it went.
fn run_reported<O: SystemOps>(
    ops: &mut O,
    program: &str,
    args: &Vec<String>,
    ok: &str,
    err_prefix: &str,
    log: &mut Vec<LogLine>,
)
    ensures
        extends(old(ops).requests(), final(ops).requests()),
        extends(log_views(old(log)@), log_views(final(log)@)),
        forall|tail: Seq<Outcome>|
            #[trigger] reported(
                Req::Run(program@, string_views(args@)),
                new_outs(old(ops).requests(), final(ops).requests()) + tail,
                ok@,
                err_prefix@,
            ) == (Trace {
                reqs: new_reqs(old(ops).requests(), final(ops).requests()),
                logs: new_logs(old(log)@, final(log)@),
                rest: tail,
            }),
{
    let ghost h0 = ops.requests();
    let r = ops.run(program, args);
    proof {
        lemma_one_more(
            h0,
            (Req::Run(program@, string_views(args@)), crate::actions::system::unit_outcome(r)),
        );
    }
    let ghost o = crate::actions::system::unit_outcome(r);
    log_report(log, r, ok, err_prefix);
    proof {
        assert forall|tail: Seq<Outcome>| #[trigger] reported(
            Req::Run(program@, string_views(args@)),
            new_outs(h0, ops.requests()) + tail,
            ok@,
            err_prefix@,
        ) == (Trace {
            reqs: new_reqs(h0, ops.requests()),
            logs: new_logs(old(log)@, log@),
            rest: tail,
        }) by {
            lemma_reported(Req::Run(program@, string_views(args@)), o, ok@, err_prefix@, tail);
        }
    }
}

/// Create a data directory and log how it went.
fn mkdir_reported<O: SystemOps>(ops: &mut O, dir: &str, log: &mut Vec<LogLine>)
    ensures
        extends(old(ops).requests(), final(ops).requests()),
        extends(log_views(old(log)@), log_views(final(log)@)),
        forall|tail: Seq<Outcome>|
            #[trigger] reported(
                Req::Mkdir(dir@, 0o700, "nobody"@),
                new_outs(old(ops).requests(), final(ops).requests()) + tail,
                "Ensured "@ + dir@,
                "mkdir "@ + dir@ + ": "@,
            ) == (Trace {
                reqs: new_reqs(old(ops).requests(), final(ops).requests()),
                logs: new_logs(old(log)@, final(log)@),
                rest: tail,
            }),
{
    let ghost h0 = ops.requests();
    proof {
        reveal_strlit("nobody");
        reveal_strlit("Ensured ");
        reveal_strlit("mkdir ");
        reveal_strlit(": ");
    }
    let r = ops.mkdir_mode_chown(dir, 0o700, "nobody");
    proof {
        lemma_one_more(
            h0,
            (Req::Mkdir(dir@, 0o700, "nobody"@), crate::actions::system::unit_outcome(r)),
        );
    }
    let ghost o = crate::actions::system::unit_outcome(r);
    let ok = cat("Ensured ", dir);
    let ep = cat(cat("mkdir ", dir).as_str(), ": ");
    log_report(log, r, ok.as_str(), ep.as_str());
    proof {
        assert forall|tail: Seq<Outcome>| #[trigger] reported(
            Req::Mkdir(dir@, 0o700, "nobody"@),
            new_outs(h0, ops.requests()) + tail,
            "Ensured "@ + dir@,
            "mkdir "@ + dir@ + ": "@,
        ) == (Trace {
            reqs: new_reqs(h0, ops.requests()),
            logs: new_logs(old(log)@, log@),
            rest: tail,
        }) by {
            lemma_reported(Req::Mkdir(dir@, 0o700, "nobody"@), o, ok@, ep@, tail);
        }
    }
}

/// Create `logs` and `raw` under the install dir (capture/viewer only).
fn ensure_dirs<O: SystemOps>(ops: &mut O, install: &str, c: &Components, log: &mut Vec<LogLine>)
    ensures
        extends(old(ops).requests(), final(ops).requests()),
        extends(log_views(old(log)@), log_views(final(log)@)),
        forall|tail: Seq<Outcome>|
            #[trigger] dirs_trace(install@, *c, new_outs(old(ops).requests(), final(ops).requests()) + tail)
                == (Trace {
                reqs: new_reqs(old(ops).requests(), final(ops).requests()),
                logs: new_logs(old(log)@, final(log)@),
                rest: tail,
            }),
{
    let ghost h0 = ops.requests();
    let ghost l0 = log@;
    if c.capture || c.viewer {
        let logs = join_path(install, "logs");
        let raw = join_path(install, "raw");
        proof {
            reveal_strlit("logs");
            reveal_strlit("raw");
        }
        mkdir_reported(ops, logs.as_str(), log);
        let ghost h1 = ops.requests();
        let ghost l1 = log@;
        mkdir_reported(ops, raw.as_str(), log);
        proof {
            let h2 = ops.requests();
            lemma_split_history(h0, h1, h2);
            lemma_split_log(l0, l1, log@);
            lemma_extends_trans(h0, h1, h2);
            lemma_extends_trans(log_views(l0), log_views(l1), log_views(log@));
            assert forall|tail: Seq<Outcome>| #[trigger] dirs_trace(install@, *c, new_outs(h0, h2) + tail)
                == (Trace { reqs: new_reqs(h0, h2), logs: new_logs(l0, log@), rest: tail }) by {
                assert(new_outs(h0, h2) + tail =~= new_outs(h0, h1) + (new_outs(h1, h2) + tail));
                let t1 = reported(
                    Req::Mkdir(logs@, 0o700, "nobody"@),
                    new_outs(h0, h1) + (new_outs(h1, h2) + tail),
                    "Ensured "@ + logs@,
                    "mkdir "@ + logs@ + ": "@,
                );
                let t2 = reported(
                    Req::Mkdir(raw@, 0o700, "nobody"@),
                    new_outs(h1, h2) + tail,
                    "Ensured "@ + raw@,
                    "mkdir "@ + raw@ + ": "@,
                );
                assert(t1.rest == new_outs(h1, h2) + tail);
                assert(t2.rest == tail);
            }
        }
    } else {
        proof {
            lemma_no_more(h0);
            lemma_log_unchanged(l0);
            assert forall|tail: Seq<Outcome>| #[trigger] dirs_trace(install@, *c, new_outs(h0, h0) + tail)
                == (Trace { reqs: new_reqs(h0, h0), logs: new_logs(l0, l0), rest: tail }) by {
                assert(new_outs(h0, h0) + tail =~= tail);
            }
        }
    }
}


/// The requests of a list of commands.
pub open spec fn run_reqs(cmds: Seq<(String, Vec<String>)>) -> Seq<Req> {
    Seq::new(cmds.len(), |i: int| Req::Run(cmds[i].0@, string_views(cmds[i].1@)))
}

/// Run the commands in order until one fails; the first failure, if any.
fn run_chain<O: SystemOps>(ops: &mut O, cmds: &Vec<(String, Vec<String>)>) -> (r: Result<(), String>)
    ensures
        extends(old(ops).requests(), final(ops).requests()),
        forall|tail: Seq<Outcome>|
            #[trigger] chain(run_reqs(cmds@), new_outs(old(ops).requests(), final(ops).requests()) + tail)
                == (new_reqs(old(ops).requests(), final(ops).requests()), crate::actions::system::unit_outcome(r), tail),
{
    let ghost h0 = ops.requests();
    let ghost all = run_reqs(cmds@);
    let mut i: usize = 0;
    proof {
        lemma_no_more(h0);
        assert(all.skip(0) =~= all);
        assert forall|tail: Seq<Outcome>| #[trigger] chain(all, new_outs(h0, h0) + tail)
            == (new_reqs(h0, h0) + chain(all.skip(0), tail).0, chain(all.skip(0), tail).1, chain(all.skip(0), tail).2) by {
            assert(new_outs(h0, h0) + tail =~= tail);
            assert(new_reqs(h0, h0) + chain(all, tail).0 =~= chain(all, tail).0);
        }
    }
    while i < cmds.len()
        invariant
            all == run_reqs(cmds@),
            h0 == old(ops).requests(),
            i <= cmds.len(),
            extends(h0, ops.requests()),
            forall|tail: Seq<Outcome>|
                #[trigger] chain(all, new_outs(h0, ops.requests()) + tail) == (
                    new_reqs(h0, ops.requests()) + chain(all.skip(i as int), tail).0,
                    chain(all.skip(i as int), tail).1,
                    chain(all.skip(i as int), tail).2,
                ),
        decreases cmds.len() - i,
    {
        let ghost h1 = ops.requests();
        let r = ops.run(cmds[i].0.as_str(), &cmds[i].1);
        let ghost x = (Req::Run(cmds@[i as int].0@, string_views(cmds@[i as int].1@)), crate::actions::system::unit_outcome(r));
        proof {
            lemma_one_more(h1, x);
            lemma_split_history(h0, h1, ops.requests());
            lemma_extends_trans(h0, h1, ops.requests());
            assert(all.skip(i as int)[0] == x.0);
            assert(all.skip(i as int).drop_first() =~= all.skip(i + 1));
        }
        match r {
            Err(e) => {
                proof {
                    assert forall|tail: Seq<Outcome>| #[trigger] chain(all, new_outs(h0, ops.requests()) + tail)
                        == (new_reqs(h0, ops.requests()), crate::actions::system::unit_outcome(Err::<(), String>(e)), tail) by {
                        assert(new_outs(h0, ops.requests()) + tail =~= new_outs(h0, h1) + (seq![x.1] + tail));
                        assert((seq![x.1] + tail).drop_first() =~= tail);
                        assert(new_reqs(h0, h1) + seq![x.0] =~= new_reqs(h0, ops.requests()));
                    }
                }
                return Err(e);
            },
            Ok(()) => {
                proof {
                    assert forall|tail: Seq<Outcome>| #[trigger] chain(all, new_outs(h0, ops.requests()) + tail)
                        == (
                        new_reqs(h0, ops.requests()) + chain(all.skip(i + 1), tail).0,
                        chain(all.skip(i + 1), tail).1,
                        chain(all.skip(i + 1), tail).2,
                    ) by {
                        assert(new_outs(h0, ops.requests()) + tail =~= new_outs(h0, h1) + (seq![x.1] + tail));
                        assert((seq![x.1] + tail).drop_first() =~= tail);
                        assert(new_reqs(h0, h1) + (seq![x.0] + chain(all.skip(i + 1), tail).0)
                            =~= new_reqs(h0, ops.requests()) + chain(all.skip(i + 1), tail).0);
                    }
                }
            },
        }
        i += 1;
    }
    proof {
        assert(all.skip(i as int) =~= Seq::<Req>::empty());
        assert forall|tail: Seq<Outcome>| #[trigger] chain(all, new_outs(h0, ops.requests()) + tail)
            == (new_reqs(h0, ops.requests()), crate::actions::system::unit_outcome(Ok::<(), String>(())), tail) by {
            assert(new_reqs(h0, ops.requests()) + Seq::<Req>::empty() =~= new_reqs(h0, ops.requests()));
        }
    }
    Ok(())
}


fn strings2(a: &str, b: &str) -> (v: Vec<String>)
    ensures
        string_views(v@) == seq![a@, b@],
{
    let v = vec![a.to_owned(), b.to_owned()];
    proof {
        assert(string_views(v@) =~= seq![a@, b@]);
    }
    v
}

fn strings1(a: &str) -> (v: Vec<String>)
    ensures
        string_views(v@) == seq![a@],
{
    let v = vec![a.to_owned()];
    proof {
        assert(string_views(v@) =~= seq![a@]);
    }
    v
}

/// Install the demo OSS Elasticsearch. Not for production.
fn install_demo_es<O: SystemOps>(ops: &mut O, host: &HostFacts, log: &mut Vec<LogLine>)
    ensures
        extends(old(ops).requests(), final(ops).requests()),
        extends(log_views(old(log)@), log_views(final(log)@)),
        forall|tail: Seq<Outcome>|
            #[trigger] demo_trace(host.arch@, host.is_rpm, new_outs(old(ops).requests(), final(ops).requests()) + tail)
                == (Trace {
                reqs: new_reqs(old(ops).requests(), final(ops).requests()),
                logs: new_logs(old(log)@, final(log)@),
                rest: tail,
            }),
{
    let ghost h0 = ops.requests();
    let ghost l0 = log@;
    proof {
        reveal_strlit("x86_64");
        reveal_strlit("aarch64");
        reveal_strlit("amd64");
        reveal_strlit("arm64");
        lemma_no_more(h0);
    }
    let (arch_rpm, arch_deb) = if str_eq(host.arch.as_str(), "x86_64") {
        ("x86_64", "amd64")
    } else if str_eq(host.arch.as_str(), "aarch64") {
        ("aarch64", "arm64")
    } else {
        let msg = cat(cat("Demo ES: unsupported arch ", host.arch.as_str()).as_str(), ", skipping");
        log_push(log, Level::Warn, msg);
        proof {
            assert forall|tail: Seq<Outcome>| #[trigger] demo_trace(host.arch@, host.is_rpm, new_outs(h0, h0) + tail)
                == (Trace { reqs: new_reqs(h0, h0), logs: new_logs(l0, log@), rest: tail }) by {
                assert(new_outs(h0, h0) + tail =~= tail);
            }
        }
        return;
    };
    let ghost names = (arch_rpm@, arch_deb@);
    log_push(log, Level::Info, "Installing demo OSS Elasticsearch (not for production)".to_owned());
    let ghost l1 = log@;
    let mut cmds: Vec<(String, Vec<String>)> = Vec::new();
    if host.is_rpm {
        let url = cat(cat(cat(cat(ES_DOWNLOADS, "/elasticsearch-oss-").as_str(), ES_VERSION).as_str(), "-").as_str(), arch_rpm);
        let url = cat(url.as_str(), ".rpm");
        let mut args = strings2("install", "-y");
        let ghost before = string_views(args@);
        let ghost u = url@;
        args.push(url);
        proof {
            assert(string_views(args@) =~= before.push(u));
            assert(u == rpm_url(names.0));
            assert(string_views(args@) =~= seq!["install"@, "-y"@, rpm_url(names.0)]);
        }
        cmds.push(("yum".to_owned(), args));
    } else {
        let file = cat(cat(cat(cat("elasticsearch-oss-", ES_VERSION).as_str(), "-").as_str(), arch_deb).as_str(), ".deb");
        let url = cat(cat(ES_DOWNLOADS, "/").as_str(), file.as_str());
        cmds.push(("curl".to_owned(), strings2("-sSfLO", url.as_str())));
        cmds.push(("dpkg".to_owned(), strings2("-i", file.as_str())));
        cmds.push(("rm".to_owned(), strings2("-f", file.as_str())));
    }
    proof {
        assert(run_reqs(cmds@) =~= demo_reqs(names, host.is_rpm));
    }
    let r = run_chain(ops, &cmds);
    log_report(log, r, "Demo Elasticsearch installed", "Demo ES install: ");
    proof {
        lemma_split_log(l0, l1, log@);
        lemma_extends_trans(log_views(l0), log_views(l1), log_views(log@));
        assert forall|tail: Seq<Outcome>| #[trigger] demo_trace(host.arch@, host.is_rpm, new_outs(h0, ops.requests()) + tail)
            == (Trace { reqs: new_reqs(h0, ops.requests()), logs: new_logs(l0, log@), rest: tail }) by {
            assert(arch_names(host.arch@) == Some(names));
            assert(new_logs(l0, log@) =~= seq![
                (Level::Info, "Installing demo OSS Elasticsearch (not for production)"@),
                report_line(crate::actions::system::unit_outcome(r), "Demo Elasticsearch installed"@, "Demo ES install: "@),
            ]);
        }
    }
}


/// Install limits.d/99-arkime.conf (Linux, when the directory exists).
fn write_limits<O: SystemOps>(ops: &mut O, os: Os, present: bool, log: &mut Vec<LogLine>)
    ensures
        extends(old(ops).requests(), final(ops).requests()),
        extends(log_views(old(log)@), log_views(final(log)@)),
        forall|tail: Seq<Outcome>|
            #[trigger] limits_trace(os, present, new_outs(old(ops).requests(), final(ops).requests()) + tail)
                == (Trace {
                reqs: new_reqs(old(ops).requests(), final(ops).requests()),
                logs: new_logs(old(log)@, final(log)@),
                rest: tail,
            }),
{
    let ghost h0 = ops.requests();
    let ghost l0 = log@;
    let linux = match os {
        Os::Linux => true,
        _ => false,
    };
    if linux && present {
        let r = ops.write_new(LIMITS_PATH, LIMITS_CONF);
        let ghost x = (Req::WriteNew(LIMITS_PATH@, LIMITS_CONF@), crate::actions::system::flag_outcome(r));
        proof {
            lemma_one_more(h0, x);
        }
        match r {
            Ok(true) => log_push(log, Level::Info, "limits.d/99-arkime.conf already present".to_owned()),
            Ok(false) => log_push(log, Level::Info, "Installed limits.d/99-arkime.conf".to_owned()),
            Err(e) => log_push(log, Level::Warn, cat("limits.d: ", e.as_str())),
        }
        proof {
            assert forall|tail: Seq<Outcome>| #[trigger] limits_trace(os, present, new_outs(h0, ops.requests()) + tail)
                == (Trace { reqs: new_reqs(h0, ops.requests()), logs: new_logs(l0, log@), rest: tail }) by {
                assert((seq![x.1] + tail).drop_first() =~= tail);
            }
        }
    } else {
        proof {
            lemma_no_more(h0);
            lemma_log_unchanged(l0);
            assert forall|tail: Seq<Outcome>| #[trigger] limits_trace(os, present, new_outs(h0, h0) + tail)
                == (Trace { reqs: new_reqs(h0, h0), logs: new_logs(l0, l0), rest: tail }) by {
                assert(new_outs(h0, h0) + tail =~= tail);
            }
        }
    }
}

/// Nothing requested or logged: the trace of a skipped action.
pub(crate) proof fn lemma_idle(h0: Seq<(Req, Outcome)>, l0: Seq<LogLine>)
    ensures
        extends(h0, h0),
        extends(log_views(l0), log_views(l0)),
        forall|tail: Seq<Outcome>|
            #[trigger] idle(new_outs(h0, h0) + tail) == (Trace {
                reqs: new_reqs(h0, h0),
                logs: new_logs(l0, l0),
                rest: tail,
            }),
{
    lemma_no_more(h0);
    lemma_log_unchanged(l0);
    assert forall|tail: Seq<Outcome>| #[trigger] idle(new_outs(h0, h0) + tail) == (Trace {
        reqs: new_reqs(h0, h0),
        logs: new_logs(l0, l0),
        rest: tail,
    }) by {
        assert(new_outs(h0, h0) + tail =~= tail);
    }
}

/// Download the GeoIP files (capture/viewer, when asked for).
fn download_geo<O: SystemOps>(ops: &mut O, install: &str, c: &Components, a: &Answers, log: &mut Vec<LogLine>)
    ensures
        extends(old(ops).requests(), final(ops).requests()),
        extends(log_views(old(log)@), log_views(final(log)@)),
        forall|tail: Seq<Outcome>|
            #[trigger] geo_trace(install@, *c, *a, new_outs(old(ops).requests(), final(ops).requests()) + tail)
                == (Trace {
                reqs: new_reqs(old(ops).requests(), final(ops).requests()),
                logs: new_logs(old(log)@, final(log)@),
                rest: tail,
            }),
{
    proof {
        lemma_idle(ops.requests(), log@);
    }
    if a.download_geoip && (c.capture || c.viewer) {
        let script = join_path(install, "bin/arkime_update_geo.sh");
        let args: Vec<String> = Vec::new();
        proof {
            reveal_strlit("bin/arkime_update_geo.sh");
            assert(string_views(args@) =~= Seq::<Seq<char>>::empty());
        }
        run_reported(ops, script.as_str(), &args, "Downloaded GEO files", "GEO update: ", log);
    }
}

/// Initialize the database (when asked for).
fn init_db<O: SystemOps>(ops: &mut O, install: &str, a: &Answers, log: &mut Vec<LogLine>)
    ensures
        extends(old(ops).requests(), final(ops).requests()),
        extends(log_views(old(log)@), log_views(final(log)@)),
        forall|tail: Seq<Outcome>|
            #[trigger] db_trace(install@, *a, new_outs(old(ops).requests(), final(ops).requests()) + tail)
                == (Trace {
                reqs: new_reqs(old(ops).requests(), final(ops).requests()),
                logs: new_logs(old(log)@, final(log)@),
                rest: tail,
            }),
{
    proof {
        lemma_idle(ops.requests(), log@);
    }
    if a.init_db {
        let db = join_path(install, "db/db.pl");
        let cmd = cat(
            cat(cat(cat("echo INIT | ", db.as_str()).as_str(), " ").as_str(), a.elasticsearch_or_default()).as_str(),
            " init",
        );
        proof {
            reveal_strlit("db/db.pl");
        }
        let args = strings2("-c", cmd.as_str());
        run_reported(ops, "sh", &args, "Initialized the database", "db init: ", log);
    }
}

/// Create the admin viewer user (when asked for and a user was named).
fn add_admin<O: SystemOps>(ops: &mut O, install: &str, a: &Answers, log: &mut Vec<LogLine>)
    ensures
        extends(old(ops).requests(), final(ops).requests()),
        extends(log_views(old(log)@), log_views(final(log)@)),
        forall|tail: Seq<Outcome>|
            #[trigger] admin_trace(install@, *a, new_outs(old(ops).requests(), final(ops).requests()) + tail)
                == (Trace {
                reqs: new_reqs(old(ops).requests(), final(ops).requests()),
                logs: new_logs(old(log)@, final(log)@),
                rest: tail,
            }),
{
    proof {
        lemma_idle(ops.requests(), log@);
    }
    if a.create_admin && !a.admin_user.as_str().is_empty() {
        let add_user = join_path(install, "bin/arkime_add_user.sh");
        proof {
            reveal_strlit("bin/arkime_add_user.sh");
        }
        let mut args = strings2(a.admin_user.as_str(), a.admin_user.as_str());
        let ghost s2 = string_views(args@);
        args.push(a.admin_password.as_str().to_owned());
        let ghost s3 = string_views(args@);
        args.push("--admin".to_owned());
        proof {
            assert(s3 =~= s2.push(a.admin_password@));
            assert(string_views(args@) =~= s3.push("--admin"@));
        }
        let ok = cat(cat("Created admin user '", a.admin_user.as_str()).as_str(), "'");
        let ghost h0 = ops.requests();
        let ghost l0 = log@;
        run_reported(ops, add_user.as_str(), &args, ok.as_str(), "add user: ", log);
        proof {
            assert(string_views(args@) == seq![a.admin_user@, a.admin_user@, a.admin_password@, "--admin"@]);
            assert forall|tail: Seq<Outcome>| #[trigger] admin_trace(install@, *a, new_outs(h0, ops.requests()) + tail)
                == (Trace { reqs: new_reqs(h0, ops.requests()), logs: new_logs(l0, log@), rest: tail }) by {
                assert(reported(
                    Req::Run(add_user@, string_views(args@)),
                    new_outs(h0, ops.requests()) + tail,
                    ok@,
                    "add user: "@,
                ) == (Trace { reqs: new_reqs(h0, ops.requests()), logs: new_logs(l0, log@), rest: tail }));
            }
        }
    }
}


/// Log how enabling and starting `svc` went.
fn report_service(log: &mut Vec<LogLine>, svc: &str, r: Result<(), String>)
    ensures
        extends(log_views(old(log)@), log_views(final(log)@)),
        new_logs(old(log)@, final(log)@) == seq![
            report_line(crate::actions::system::unit_outcome(r), "Enabled + started "@ + svc@, svc@ + ": "@),
        ],
{
    let ok = cat("Enabled + started ", svc);
    let ep = cat(svc, ": ");
    log_report(log, r, ok.as_str(), ep.as_str());
}

/// Enable and start one component's service with the platform's manager.
fn enable_start_service<O: SystemOps>(ops: &mut O, platform: Platform, c: Component, log: &mut Vec<LogLine>)
    ensures
        extends(old(ops).requests(), final(ops).requests()),
        extends(log_views(old(log)@), log_views(final(log)@)),
        forall|tail: Seq<Outcome>|
            #[trigger] service_trace(platform.service_manager, c, new_outs(old(ops).requests(), final(ops).requests()) + tail)
                == (Trace {
                reqs: new_reqs(old(ops).requests(), final(ops).requests()),
                logs: new_logs(old(log)@, final(log)@),
                rest: tail,
            }),
{
    let ghost h0 = ops.requests();
    let ghost l0 = log@;
    let svc = c.service_name();
    let mut cmds: Vec<(String, Vec<String>)> = Vec::new();
    match platform.service_manager {
        ServiceManagerKind::Systemd => {
            cmds.push(("systemctl".to_owned(), strings2("enable", svc)));
            cmds.push(("systemctl".to_owned(), strings2("start", svc)));
        },
        ServiceManagerKind::FreeBsdRc => {
            let enable = cat(svc, "_enable=YES");
            cmds.push(("sysrc".to_owned(), strings1(enable.as_str())));
            cmds.push(("service".to_owned(), strings2(svc, "start")));
        },
        ServiceManagerKind::NoManager => {
            let msg = cat("No service manager detected; not starting ", svc);
            log_push(log, Level::Warn, msg);
            proof {
                lemma_no_more(h0);
                assert forall|tail: Seq<Outcome>| #[trigger] service_trace(platform.service_manager, c, new_outs(h0, h0) + tail)
                    == (Trace { reqs: new_reqs(h0, h0), logs: new_logs(l0, log@), rest: tail }) by {
                    assert(new_outs(h0, h0) + tail =~= tail);
                }
            }
            return;
        },
    }
    proof {
        assert(run_reqs(cmds@) =~= service_reqs(platform.service_manager, c.spec_service_name()));
    }
    let r = run_chain(ops, &cmds);
    report_service(log, svc, r);
}

/// Enable and start the services of the given components, in order.
fn start_services<O: SystemOps>(ops: &mut O, platform: Platform, comps: &Vec<Component>, log: &mut Vec<LogLine>)
    ensures
        extends(old(ops).requests(), final(ops).requests()),
        extends(log_views(old(log)@), log_views(final(log)@)),
        forall|tail: Seq<Outcome>|
            #[trigger] services_trace(platform.service_manager, comps@, new_outs(old(ops).requests(), final(ops).requests()) + tail)
                == (Trace {
                reqs: new_reqs(old(ops).requests(), final(ops).requests()),
                logs: new_logs(old(log)@, final(log)@),
                rest: tail,
            }),
{
    let ghost h0 = ops.requests();
    let ghost l0 = log@;
    let ghost mgr = platform.service_manager;
    proof {
        lemma_no_more(h0);
        lemma_log_unchanged(l0);
        assert(comps@.skip(0) =~= comps@);
        assert forall|tail: Seq<Outcome>| #[trigger] services_trace(mgr, comps@, new_outs(h0, h0) + tail)
            == (Trace {
            reqs: new_reqs(h0, h0) + services_trace(mgr, comps@.skip(0), tail).reqs,
            logs: new_logs(l0, l0) + services_trace(mgr, comps@.skip(0), tail).logs,
            rest: services_trace(mgr, comps@.skip(0), tail).rest,
        }) by {
            let t = services_trace(mgr, comps@, tail);
            assert(new_outs(h0, h0) + tail =~= tail);
            assert(new_reqs(h0, h0) + t.reqs =~= t.reqs);
            assert(new_logs(l0, l0) + t.logs =~= t.logs);
        }
    }
    let mut i: usize = 0;
    while i < comps.len()
        invariant
            h0 == old(ops).requests(),
            l0 == old(log)@,
            mgr == platform.service_manager,
            i <= comps.len(),
            extends(h0, ops.requests()),
            extends(log_views(l0), log_views(log@)),
            forall|tail: Seq<Outcome>|
                #[trigger] services_trace(mgr, comps@, new_outs(h0, ops.requests()) + tail) == (Trace {
                    reqs: new_reqs(h0, ops.requests()) + services_trace(mgr, comps@.skip(i as int), tail).reqs,
                    logs: new_logs(l0, log@) + services_trace(mgr, comps@.skip(i as int), tail).logs,
                    rest: services_trace(mgr, comps@.skip(i as int), tail).rest,
                }),
        decreases comps.len() - i,
    {
        let ghost h1 = ops.requests();
        let ghost l1 = log@;
        enable_start_service(ops, platform, comps[i], log);
        proof {
            let h2 = ops.requests();
            let l2 = log@;
            lemma_split_history(h0, h1, h2);
            lemma_split_log(l0, l1, l2);
            lemma_extends_trans(h0, h1, h2);
            lemma_extends_trans(log_views(l0), log_views(l1), log_views(l2));
            assert(comps@.skip(i as int)[0] == comps@[i as int]);
            assert(comps@.skip(i as int).drop_first() =~= comps@.skip(i + 1));
            assert forall|tail: Seq<Outcome>| #[trigger] services_trace(mgr, comps@, new_outs(h0, h2) + tail)
                == (Trace {
                reqs: new_reqs(h0, h2) + services_trace(mgr, comps@.skip(i + 1), tail).reqs,
                logs: new_logs(l0, l2) + services_trace(mgr, comps@.skip(i + 1), tail).logs,
                rest: services_trace(mgr, comps@.skip(i + 1), tail).rest,
            }) by {
                let tail1 = new_outs(h1, h2) + tail;
                assert(new_outs(h0, h2) + tail =~= new_outs(h0, h1) + tail1);
                let sc = service_trace(mgr, comps@[i as int], tail1);
                assert(sc == (Trace { reqs: new_reqs(h1, h2), logs: new_logs(l1, l2), rest: tail }));
                let rest = services_trace(mgr, comps@.skip(i + 1), tail);
                assert(services_trace(mgr, comps@.skip(i as int), tail1) == join(sc, rest));
                assert(new_reqs(h0, h1) + (new_reqs(h1, h2) + rest.reqs) =~= new_reqs(h0, h2) + rest.reqs);
                assert(new_logs(l0, l1) + (new_logs(l1, l2) + rest.logs) =~= new_logs(l0, l2) + rest.logs);
            }
        }
        i += 1;
    }
    proof {
        assert(comps@.skip(i as int) =~= Seq::<Component>::empty());
        assert forall|tail: Seq<Outcome>| #[trigger] services_trace(mgr, comps@, new_outs(h0, ops.requests()) + tail)
            == (Trace { reqs: new_reqs(h0, ops.requests()), logs: new_logs(l0, log@), rest: tail }) by {
            assert(new_reqs(h0, ops.requests()) + Seq::<Req>::empty() =~= new_reqs(h0, ops.requests()));
            assert(new_logs(l0, log@) + Seq::<(Level, Seq<char>)>::empty() =~= new_logs(l0, log@));
        }
    }
}


/// Log what is left to do by hand.
fn log_next_steps(log: &mut Vec<LogLine>, install: &str, a: &Answers)
    ensures
        extends(log_views(old(log)@), log_views(final(log)@)),
        new_logs(old(log)@, final(log)@) == trailer_logs(install@, *a),
{
    let ghost l0 = log@;
    let db = join_path(install, "db/db.pl");
    let add_user = join_path(install, "bin/arkime_add_user.sh");
    proof {
        reveal_strlit("db/db.pl");
        reveal_strlit("bin/arkime_add_user.sh");
    }
    log_push(log, Level::Info, "Done. Next steps:".to_owned());
    let ghost l1 = log@;
    if !a.init_db {
        let line = cat(
            cat(cat(cat("  Initialize the DB once:  ", db.as_str()).as_str(), " ").as_str(), a.elasticsearch_or_default()).as_str(),
            " init",
        );
        log_push(log, Level::Info, line);
    } else {
        proof {
            lemma_log_unchanged(l1);
        }
    }
    let ghost l2 = log@;
    if !a.create_admin {
        let line = cat(cat("  Add a user:  ", add_user.as_str()).as_str(), " <user> <name> <pass> --admin");
        log_push(log, Level::Info, line);
    } else {
        proof {
            lemma_log_unchanged(l2);
        }
    }
    let ghost l3 = log@;
    log_push(log, Level::Info, "  Then open the viewer (default http://<host>:8005).".to_owned());
    proof {
        lemma_split_log(l0, l1, l2);
        lemma_extends_trans(log_views(l0), log_views(l1), log_views(l2));
        lemma_split_log(l0, l2, l3);
        lemma_extends_trans(log_views(l0), log_views(l2), log_views(l3));
        lemma_split_log(l0, l3, log@);
        lemma_extends_trans(log_views(l0), log_views(l3), log_views(log@));
        assert(new_logs(l0, log@) =~= trailer_logs(install@, *a));
    }
}

/// Run the native side effects (everything except writing the `.ini` files)
/// and log each outcome. No failure stops the later actions.
pub fn system_actions<O: SystemOps>(
    ops: &mut O,
    build: &BuildConfig,
    platform: Platform,
    components: &Components,
    answers: &Answers,
    host: &HostFacts,
    log: &mut Vec<LogLine>,
)
    ensures
        extends(old(ops).requests(), final(ops).requests()),
        extends(log_views(old(log)@), log_views(final(log)@)),
        native_trace(
            build.install_dir@,
            platform,
            *components,
            *answers,
            *host,
            new_outs(old(ops).requests(), final(ops).requests()),
        ) == (Trace {
            reqs: new_reqs(old(ops).requests(), final(ops).requests()),
            logs: new_logs(old(log)@, final(log)@),
            rest: seq![],
        }),
{
    let install = build.install_dir.as_str();
    let c = components;
    let a = answers;
    let ghost h0 = ops.requests();
    let ghost l0 = log@;
    ensure_dirs(ops, install, c, log);
    let ghost h1 = ops.requests();
    let ghost l1 = log@;
    let demo = match a.es_backend {
        EsBackend::External => false,
        _ => true,
    } && (c.capture || c.viewer);
    if demo {
        install_demo_es(ops, host, log);
    } else {
        proof {
            lemma_idle(h1, l1);
        }
    }
    let ghost h2 = ops.requests();
    let ghost l2 = log@;
    write_limits(ops, platform.os, host.limits_dir_present, log);
    let ghost h3 = ops.requests();
    let ghost l3 = log@;
    download_geo(ops, install, c, a, log);
    let ghost h4 = ops.requests();
    let ghost l4 = log@;
    init_db(ops, install, a, log);
    let ghost h5 = ops.requests();
    let ghost l5 = log@;
    add_admin(ops, install, a, log);
    let ghost h6 = ops.requests();
    let ghost l6 = log@;
    let enabled = c.enabled();
    start_services(ops, platform, &enabled, log);
    let ghost h7 = ops.requests();
    let ghost l7 = log@;
    log_next_steps(log, install, a);
    proof {
        let l8 = log@;
        lemma_no_more(h7);
        lemma_split_history(h6, h7, h7);
        lemma_split_history(h5, h6, h7);
        lemma_extends_trans(h5, h6, h7);
        lemma_split_history(h4, h5, h7);
        lemma_extends_trans(h4, h5, h7);
        lemma_split_history(h3, h4, h7);
        lemma_extends_trans(h3, h4, h7);
        lemma_split_history(h2, h3, h7);
        lemma_extends_trans(h2, h3, h7);
        lemma_split_history(h1, h2, h7);
        lemma_extends_trans(h1, h2, h7);
        lemma_split_history(h0, h1, h7);
        lemma_extends_trans(h0, h1, h7);
        lemma_split_log(l6, l7, l8);
        lemma_extends_trans(log_views(l6), log_views(l7), log_views(l8));
        lemma_split_log(l5, l6, l8);
        lemma_extends_trans(log_views(l5), log_views(l6), log_views(l8));
        lemma_split_log(l4, l5, l8);
        lemma_extends_trans(log_views(l4), log_views(l5), log_views(l8));
        lemma_split_log(l3, l4, l8);
        lemma_extends_trans(log_views(l3), log_views(l4), log_views(l8));
        lemma_split_log(l2, l3, l8);
        lemma_extends_trans(log_views(l2), log_views(l3), log_views(l8));
        lemma_split_log(l1, l2, l8);
        lemma_extends_trans(log_views(l1), log_views(l2), log_views(l8));
        lemma_split_log(l0, l1, l8);
        lemma_extends_trans(log_views(l0), log_views(l1), log_views(l8));

        let inst = build.install_dir@;
        let empty = Seq::<Outcome>::empty();
        assert(new_outs(h6, h7) + empty =~= new_outs(h6, h7));
        let t1 = dirs_trace(inst, *c, new_outs(h0, h7));
        assert(t1 == (Trace { reqs: new_reqs(h0, h1), logs: new_logs(l0, l1), rest: new_outs(h1, h7) }));
        let t2 = if wants_demo(*c, *a) {
            demo_trace(host.arch@, host.is_rpm, t1.rest)
        } else {
            idle(t1.rest)
        };
        assert(t2 == (Trace { reqs: new_reqs(h1, h2), logs: new_logs(l1, l2), rest: new_outs(h2, h7) }));
        let t3 = limits_trace(platform.os, host.limits_dir_present, t2.rest);
        assert(t3 == (Trace { reqs: new_reqs(h2, h3), logs: new_logs(l2, l3), rest: new_outs(h3, h7) }));
        let t4 = geo_trace(inst, *c, *a, t3.rest);
        assert(t4 == (Trace { reqs: new_reqs(h3, h4), logs: new_logs(l3, l4), rest: new_outs(h4, h7) }));
        let t5 = db_trace(inst, *a, t4.rest);
        assert(t5 == (Trace { reqs: new_reqs(h4, h5), logs: new_logs(l4, l5), rest: new_outs(h5, h7) }));
        let t6 = admin_trace(inst, *a, t5.rest);
        assert(t6 == (Trace { reqs: new_reqs(h5, h6), logs: new_logs(l5, l6), rest: new_outs(h6, h7) }));
        let t7 = services_trace(platform.service_manager, c.spec_enabled(), t6.rest);
        assert(t7 == (Trace { reqs: new_reqs(h6, h7), logs: new_logs(l6, l7), rest: empty }));
        assert(new_reqs(h6, h7) + Seq::<Req>::empty() =~= new_reqs(h6, h7));
    }
}

/// A native install with capture or viewer first creates the data
/// directories `<install>/logs` and then `<install>/raw`, mode 0700 and
/// owned by `nobody`, whatever the host answers, and logs each as ensured
/// when it succeeded.
pub proof fn lemma_native_data_dirs(
    install: Seq<char>,
    platform: Platform,
    c: Components,
    a: Answers,
    h: HostFacts,
    outs: Seq<Outcome>,
)
    requires
        c.capture || c.viewer,
    ensures
        ({
            let t = native_trace(install, platform, c, a, h, outs);
            let logs = path_join(install, "logs"@);
            let raw = path_join(install, "raw"@);
            &&& t.reqs.len() >= 2
            &&& t.reqs[0] == Req::Mkdir(logs, 0o700, "nobody"@)
            &&& t.reqs[1] == Req::Mkdir(raw, 0o700, "nobody"@)
            &&& t.logs.len() >= 2
            &&& outs.len() >= 2 && !(outs[0] is Failed) ==> t.logs[0] == (Level::Info, "Ensured "@ + logs)
            &&& outs.len() >= 2 && !(outs[1] is Failed) ==> t.logs[1] == (Level::Info, "Ensured "@ + raw)
        }),
{
    let t1 = dirs_trace(install, c, outs);
    assert(t1.reqs.len() == 2);
    assert(t1.logs.len() == 2);
    let t = native_trace(install, platform, c, a, h, outs);
    assert(t.reqs == t1.reqs + (t.reqs.subrange(2, t.reqs.len() as int)));
    assert(t.reqs[0] == t1.reqs[0]);
    assert(t.reqs[1] == t1.reqs[1]);
    assert(t.logs[0] == t1.logs[0]);
    assert(t.logs[1] == t1.logs[1]);
    if outs.len() >= 2 {
        assert(outs.drop_first()[0] == outs[1]);
    }
}

} // verus!
