//! The side-effect boundary. Every file write and process spawn of the apply
//! step goes through `SystemOps`, so the native and docker flows can run
//! against a recording double that captures the intended operations without
//! touching the host. The production implementation lives in the application.

use vstd::prelude::*;
use crate::text::{str_eq, string_views};

verus! {

/// An operation as recorded by `RecordingOps`.
#[derive(Debug, Clone, PartialEq, Eq)]
pub enum Op {
    Run { program: String, args: Vec<String> },
    WriteNew { path: String, existed: bool },
    WriteFile { path: String, mode: u32 },
    Mkdir { path: String, mode: u32, owner: String },
    Backup { path: String },
}

/// A request made of the host, with what was handed over.
pub enum Req {
    /// Run `program` with `args`.
    Run(Seq<char>, Seq<Seq<char>>),
    /// Write `contents` to `path` unless a file is there.
    WriteNew(Seq<char>, Seq<char>),
    /// Write `contents` to `path` with the given mode.
    WriteFile(Seq<char>, Seq<char>, u32),
    /// Create the directory `path` with the given mode and owner.
    Mkdir(Seq<char>, u32, Seq<char>),
    /// Copy `path` aside before it is overwritten.
    Backup(Seq<char>),
}

/// How the host answered a request.
pub enum Outcome {
    /// It succeeded; the flag is what `write_new` reports (the file was
    /// already there) and is `false` otherwise.
    Done(bool),
    /// A backup was made, at this path.
    Saved(Seq<char>),
    /// It failed with this message.
    Failed(Seq<char>),
}

pub open spec fn unit_outcome(r: Result<(), String>) -> Outcome {
    match r {
        Ok(()) => Outcome::Done(false),
        Err(e) => Outcome::Failed(e@),
    }
}

pub open spec fn flag_outcome(r: Result<bool, String>) -> Outcome {
    match r {
        Ok(b) => Outcome::Done(b),
        Err(e) => Outcome::Failed(e@),
    }
}

pub open spec fn backup_outcome(r: Result<Option<String>, String>) -> Outcome {
    match r {
        Ok(Some(p)) => Outcome::Saved(p@),
        Ok(None) => Outcome::Done(false),
        Err(e) => Outcome::Failed(e@),
    }
}

/// The host operations the apply step needs. Implementations report each
/// request, with its outcome, in `requests`.
pub trait SystemOps {
    /// Every request made so far, in order, with how it went.
    spec fn requests(&self) -> Seq<(Req, Outcome)>;

    /// Run a command; an error on a non-zero exit.
    fn run(&mut self, program: &str, args: &Vec<String>) -> (r: Result<(), String>)
        ensures
            final(self).requests() == old(self).requests().push(
                (Req::Run(program@, string_views(args@)), unit_outcome(r)),
            ),
    ;

    /// Write only if the file is absent. Returns whether it already existed.
    fn write_new(&mut self, path: &str, contents: &str) -> (r: Result<bool, String>)
        ensures
            final(self).requests() == old(self).requests().push(
                (Req::WriteNew(path@, contents@), flag_outcome(r)),
            ),
    ;

    /// Write or overwrite a file with an explicit unix mode.
    fn write_file(&mut self, path: &str, contents: &str, mode: u32) -> (r: Result<(), String>)
        ensures
            final(self).requests() == old(self).requests().push(
                (Req::WriteFile(path@, contents@, mode), unit_outcome(r)),
            ),
    ;

    /// `mkdir -m <mode> -p <path>` then `chown <owner> <path>`, when the
    /// directory does not exist yet.
    fn mkdir_mode_chown(&mut self, path: &str, mode: u32, owner: &str) -> (r: Result<(), String>)
        ensures
            final(self).requests() == old(self).requests().push(
                (Req::Mkdir(path@, mode, owner@), unit_outcome(r)),
            ),
    ;

    /// Copy an existing file to a timestamped `.bak` before it is overwritten.
    /// Returns the backup path, or None when there was nothing to back up.
    fn backup(&mut self, path: &str) -> (r: Result<Option<String>, String>)
        ensures
            final(self).requests() == old(self).requests().push(
                (Req::Backup(path@), backup_outcome(r)),
            ),
    ;
}

/// The operation `RecordingOps` records for a request, with the answer it
/// gave: runs, writes and directories succeed; `write_new` reports, and a
/// backup is made for, exactly the paths in `existing`.
pub open spec fn records(op: Op, entry: (Req, Outcome), existing: Seq<Seq<char>>) -> bool {
    match op {
        Op::Run { program, args } => entry.0 == Req::Run(program@, string_views(args@)) && entry.1
            == Outcome::Done(false),
        Op::WriteNew { path, existed } => (entry.0 matches Req::WriteNew(p, _) && p == path@) && existed
            == existing.contains(path@) && entry.1 == Outcome::Done(existed),
        Op::WriteFile { path, mode } => (entry.0 matches Req::WriteFile(p, _, m) && p == path@ && m == mode)
            && entry.1 == Outcome::Done(false),
        Op::Mkdir { path, mode, owner } => entry.0 == Req::Mkdir(path@, mode, owner@) && entry.1
            == Outcome::Done(false),
        Op::Backup { path } => entry.0 == Req::Backup(path@) && if existing.contains(path@) {
            entry.1 is Saved
        } else {
            entry.1 == Outcome::Done(false)
        },
    }
}

/// Test double: records every operation and never touches the filesystem.
/// Paths in `existing` report as already present to `write_new` and `backup`.
pub struct RecordingOps {
    ops: Vec<Op>,
    existing: Vec<String>,
    history: Ghost<Seq<(Req, Outcome)>>,
}

impl RecordingOps {
    /// One recorded operation for each request, in the same order.
    #[verifier::type_invariant]
    spec fn one_op_per_request(self) -> bool {
        &&& self.ops@.len() == self.history@.len()
        &&& forall|i: int|
            0 <= i < self.ops@.len() ==> records(
                #[trigger] self.ops@[i],
                self.history@[i],
                string_views(self.existing@),
            )
    }

    /// Each recorded operation stands for the request at the same place,
    /// with the answer the double gave it.
    pub open spec fn faithful(&self) -> bool {
        &&& self.recorded().len() == self.requests().len()
        &&& forall|i: int|
            0 <= i < self.recorded().len() ==> records(
                #[trigger] self.recorded()[i],
                self.requests()[i],
                self.existing_paths(),
            )
    }

    /// The operations recorded so far.
    pub closed spec fn recorded(&self) -> Seq<Op> {
        self.ops@
    }

    /// The paths that report as already present.
    pub closed spec fn existing_paths(&self) -> Seq<Seq<char>> {
        string_views(self.existing@)
    }

    pub fn new() -> (r: RecordingOps)
        ensures
            r.faithful(),
            r.recorded().len() == 0,
            r.existing_paths().len() == 0,
            r.requests().len() == 0,
    {
        RecordingOps { ops: Vec::new(), existing: Vec::new(), history: Ghost(Seq::empty()) }
    }

    /// A double on which the given paths already exist.
    pub fn with_existing(existing: Vec<String>) -> (r: RecordingOps)
        ensures
            r.faithful(),
            r.recorded().len() == 0,
            r.existing_paths() == string_views(existing@),
            r.requests().len() == 0,
    {
        RecordingOps { ops: Vec::new(), existing, history: Ghost(Seq::empty()) }
    }

    /// The recorded operations, in order: one for each request made so far,
    /// in the same order, each with the answer the double gave.
    pub fn ops(&self) -> (v: Vec<Op>)
        ensures
            v@.len() == self.recorded().len(),
            forall|i: int| 0 <= i < v@.len() ==> same_op(#[trigger] v@[i], self.recorded()[i]),
            self.recorded().len() == self.requests().len(),
            forall|i: int|
                0 <= i < self.recorded().len() ==> records(
                    #[trigger] self.recorded()[i],
                    self.requests()[i],
                    self.existing_paths(),
                ),
    {
        proof {
            use_type_invariant(self);
        }
        let mut v: Vec<Op> = Vec::new();
        let mut i: usize = 0;
        while i < self.ops.len()
            invariant
                i <= self.ops.len(),
                v@.len() == i,
                forall|k: int| 0 <= k < i ==> same_op(#[trigger] v@[k], self.ops@[k]),
            decreases self.ops.len() - i,
        {
            v.push(copy_op(&self.ops[i]));
            i += 1;
        }
        v
    }

    /// Whether `path` is one of the existing paths.
    pub fn has_path(&self, path: &str) -> (b: bool)
        ensures
            b == self.existing_paths().contains(path@),
    {
        let mut i: usize = 0;
        while i < self.existing.len()
            invariant
                i <= self.existing.len(),
                forall|k: int| 0 <= k < i ==> self.existing@[k]@ != path@,
            decreases self.existing.len() - i,
        {
            if str_eq(self.existing[i].as_str(), path) {
                proof {
                    assert(string_views(self.existing@)[i as int] == path@);
                }
                return true;
            }
            i += 1;
        }
        proof {
            assert forall|k: int| 0 <= k < string_views(self.existing@).len() implies string_views(
                self.existing@,
            )[k] != path@ by {
                assert(string_views(self.existing@)[k] == self.existing@[k]@);
            }
        }
        false
    }

    /// Record one operation together with the request and answer it stands for.
    fn record(&mut self, op: Op, entry: Ghost<(Req, Outcome)>)
        requires
            records(op, entry@, string_views(old(self).existing@)),
        ensures
            final(self).recorded() == old(self).recorded().push(op),
            final(self).requests() == old(self).requests().push(entry@),
            final(self).existing_paths() == old(self).existing_paths(),
            final(self).faithful(),
    {
        proof {
            use_type_invariant(&*self);
        }
        let mut taken = RecordingOps::new();
        std::mem::swap(self, &mut taken);
        let RecordingOps { mut ops, existing, mut history } = taken;
        let ghost ex = string_views(existing@);
        push_entry(&mut ops, &mut history, op, entry, Ghost(ex));
        *self = RecordingOps { ops, existing, history };
        proof {
            use_type_invariant(&*self);
        }
    }
}

/// The recording law: a `RecordingOps` made by `new` or `with_existing` and
/// then handed any sequence of calls holds one operation per call, in call
/// order (each call adds exactly one request, see `SystemOps`), each
/// determined by its call: `run` records the program and arguments,
/// `write_new` the path and whether it was among the existing paths,
/// `write_file` the path and mode, `mkdir_mode_chown` the path, mode and
/// owner, `backup` the path. Reading the record (`ops`) takes `&self` and so
/// changes nothing.
pub proof fn lemma_recording_law(r: RecordingOps)
    requires
        r.faithful(),
    ensures
        r.recorded().len() == r.requests().len(),
        forall|i: int|
            0 <= i < r.recorded().len() ==> records(
                #[trigger] r.recorded()[i],
                r.requests()[i],
                r.existing_paths(),
            ),
        forall|i: int, o: Op| #![trigger r.recorded()[i], same_op(o, r.recorded()[i])]
            0 <= i < r.recorded().len() && same_op(o, r.recorded()[i]) ==> records(
                o,
                r.requests()[i],
                r.existing_paths(),
            ),
{
    assert forall|i: int, o: Op| 0 <= i < r.recorded().len() && same_op(o, r.recorded()[i]) implies records(
        o,
        r.requests()[i],
        r.existing_paths(),
    ) by {
        assert(records(r.recorded()[i], r.requests()[i], r.existing_paths()));
    }
}

/// Append an operation and its request to the two parallel records.
fn push_entry(
    ops: &mut Vec<Op>,
    history: &mut Ghost<Seq<(Req, Outcome)>>,
    op: Op,
    entry: Ghost<(Req, Outcome)>,
    existing: Ghost<Seq<Seq<char>>>,
)
    requires
        old(ops)@.len() == old(history)@.len(),
        forall|i: int|
            0 <= i < old(ops)@.len() ==> records(#[trigger] old(ops)@[i], old(history)@[i], existing@),
        records(op, entry@, existing@),
    ensures
        final(ops)@ == old(ops)@.push(op),
        final(history)@ == old(history)@.push(entry@),
        final(ops)@.len() == final(history)@.len(),
        forall|i: int|
            0 <= i < final(ops)@.len() ==> records(#[trigger] final(ops)@[i], final(history)@[i], existing@),
{
    ops.push(op);
    proof {
        history@ = history@.push(entry@);
        assert forall|i: int| 0 <= i < ops@.len() implies records(#[trigger] ops@[i], history@[i], existing@) by {
            if i < ops@.len() - 1 {
                assert(ops@[i] == old(ops)@[i]);
                assert(history@[i] == old(history)@[i]);
            }
        }
    }
}


/// Two operations record the same thing (their texts compared as text).
pub open spec fn same_op(a: Op, b: Op) -> bool {
    match (a, b) {
        (Op::Run { program: p1, args: a1 }, Op::Run { program: p2, args: a2 }) => p1@ == p2@ && string_views(a1@)
            == string_views(a2@),
        (Op::WriteNew { path: p1, existed: e1 }, Op::WriteNew { path: p2, existed: e2 }) => p1@ == p2@ && e1 == e2,
        (Op::WriteFile { path: p1, mode: m1 }, Op::WriteFile { path: p2, mode: m2 }) => p1@ == p2@ && m1 == m2,
        (Op::Mkdir { path: p1, mode: m1, owner: o1 }, Op::Mkdir { path: p2, mode: m2, owner: o2 }) => p1@ == p2@ && m1
            == m2 && o1@ == o2@,
        (Op::Backup { path: p1 }, Op::Backup { path: p2 }) => p1@ == p2@,
        _ => false,
    }
}

fn copy_op(o: &Op) -> (c: Op)
    ensures
        same_op(c, *o),
{
    match o {
        Op::Run { program, args } => Op::Run { program: program.as_str().to_owned(), args: copy_args(args) },
        Op::WriteNew { path, existed } => Op::WriteNew { path: path.as_str().to_owned(), existed: *existed },
        Op::WriteFile { path, mode } => Op::WriteFile { path: path.as_str().to_owned(), mode: *mode },
        Op::Mkdir { path, mode, owner } => Op::Mkdir {
            path: path.as_str().to_owned(),
            mode: *mode,
            owner: owner.as_str().to_owned(),
        },
        Op::Backup { path } => Op::Backup { path: path.as_str().to_owned() },
    }
}

fn copy_args(args: &Vec<String>) -> (v: Vec<String>)
    ensures
        string_views(v@) == string_views(args@),
{
    let mut v: Vec<String> = Vec::new();
    let mut i: usize = 0;
    while i < args.len()
        invariant
            i <= args.len(),
            string_views(v@) == string_views(args@).take(i as int),
        decreases args.len() - i,
    {
        let ghost before = string_views(v@);
        v.push(args[i].as_str().to_owned());
        proof {
            assert(string_views(v@) =~= before.push(args@[i as int]@));
            assert(string_views(args@).take(i + 1) =~= string_views(args@).take(i as int).push(
                args@[i as int]@,
            ));
        }
        i += 1;
    }
    proof {
        assert(string_views(args@).take(args@.len() as int) =~= string_views(args@));
    }
    v
}

/// The start of the extension of the last path component of `v` (the index
/// of its last `.`, when that is not the component's first character).
pub open spec fn extension_dot(v: Seq<char>, d: int) -> bool {
    0 < d < v.len() && v[d] == '.' && v[d - 1] != '/' && forall|k: int|
        d < k < v.len() ==> #[trigger] v[k] != '.' && v[k] != '/'
}

/// `Path::with_extension("bak")`: the extension of the file name replaced by
/// `bak`, or `.bak` added when it has none.
fn with_bak_extension(path: &str) -> (out: String)
    ensures
        (exists|d: int| extension_dot(path@, d)) ==> exists|d: int|
            extension_dot(path@, d) && out@ == path@.take(d) + ".bak"@,
        !(exists|d: int| extension_dot(path@, d)) ==> out@ == path@ + ".bak"@,
{
    let v = crate::text::chars_of(path);
    let mut i: usize = v.len();
    while i > 0 && v[i - 1] != '.' && v[i - 1] != '/'
        invariant
            i <= v.len(),
            forall|k: int| i <= k < v.len() ==> v@[k] != '.' && v@[k] != '/',
        decreases i,
    {
        i -= 1;
    }
    let bak = crate::text::chars_of(".bak");
    proof {
        reveal_strlit(".bak");
    }
    if i >= 2 && v[i - 1] == '.' && v[i - 2] != '/' {
        let mut out = crate::text::copy_range(&v, 0, i - 1);
        crate::text::extend(&mut out, &bak);
        proof {
            assert(extension_dot(path@, i - 1));
            assert(v@.subrange(0, i - 1) =~= v@.take(i - 1));
        }
        crate::text::string_from(&out)
    } else {
        let mut out = crate::text::copy_range(&v, 0, v.len());
        crate::text::extend(&mut out, &bak);
        proof {
            assert(v@.subrange(0, v@.len() as int) =~= v@);
            assert forall|d: int| !extension_dot(path@, d) by {
                if extension_dot(path@, d) {
                    if d < i - 1 {
                        assert(v@[i - 1] == '.' || v@[i - 1] == '/');
                    }
                }
            }
        }
        crate::text::string_from(&out)
    }
}

impl SystemOps for RecordingOps {
    closed spec fn requests(&self) -> Seq<(Req, Outcome)> {
        self.history@
    }

    fn run(&mut self, program: &str, args: &Vec<String>) -> (r: Result<(), String>)
        ensures
            final(self).recorded().drop_last() == old(self).recorded(),
            final(self).recorded().last() matches Op::Run { program: p, args: a } && p@ == program@
                && string_views(a@) == string_views(args@),
            final(self).existing_paths() == old(self).existing_paths(),
            final(self).faithful(),
            r is Ok,
    {
        let op = Op::Run { program: program.to_owned(), args: copy_args(args) };
        self.record(op, Ghost((Req::Run(program@, string_views(args@)), Outcome::Done(false))));
        proof {
            assert(self.recorded().drop_last() =~= old(self).recorded());
        }
        Ok(())
    }

    fn write_new(&mut self, path: &str, contents: &str) -> (r: Result<bool, String>)
        ensures
            final(self).recorded().drop_last() == old(self).recorded(),
            final(self).recorded().last() matches Op::WriteNew { path: p, existed: e } && p@ == path@ && e
                == old(self).existing_paths().contains(path@),
            final(self).existing_paths() == old(self).existing_paths(),
            final(self).faithful(),
            r == Ok::<bool, String>(old(self).existing_paths().contains(path@)),
    {
        let existed = self.has_path(path);
        let op = Op::WriteNew { path: path.to_owned(), existed };
        self.record(op, Ghost((Req::WriteNew(path@, contents@), Outcome::Done(existed))));
        proof {
            assert(self.recorded().drop_last() =~= old(self).recorded());
        }
        Ok(existed)
    }

    fn write_file(&mut self, path: &str, contents: &str, mode: u32) -> (r: Result<(), String>)
        ensures
            final(self).recorded().drop_last() == old(self).recorded(),
            final(self).recorded().last() matches Op::WriteFile { path: p, mode: m } && p@ == path@ && m == mode,
            final(self).existing_paths() == old(self).existing_paths(),
            final(self).faithful(),
            r is Ok,
    {
        let op = Op::WriteFile { path: path.to_owned(), mode };
        self.record(op, Ghost((Req::WriteFile(path@, contents@, mode), Outcome::Done(false))));
        proof {
            assert(self.recorded().drop_last() =~= old(self).recorded());
        }
        Ok(())
    }

    fn mkdir_mode_chown(&mut self, path: &str, mode: u32, owner: &str) -> (r: Result<(), String>)
        ensures
            final(self).recorded().drop_last() == old(self).recorded(),
            final(self).recorded().last() matches Op::Mkdir { path: p, mode: m, owner: o } && p@ == path@ && m
                == mode && o@ == owner@,
            final(self).existing_paths() == old(self).existing_paths(),
            final(self).faithful(),
            r is Ok,
    {
        let op = Op::Mkdir { path: path.to_owned(), mode, owner: owner.to_owned() };
        self.record(op, Ghost((Req::Mkdir(path@, mode, owner@), Outcome::Done(false))));
        proof {
            assert(self.recorded().drop_last() =~= old(self).recorded());
        }
        Ok(())
    }

    fn backup(&mut self, path: &str) -> (r: Result<Option<String>, String>)
        ensures
            final(self).recorded().drop_last() == old(self).recorded(),
            final(self).recorded().last() matches Op::Backup { path: p } && p@ == path@,
            final(self).existing_paths() == old(self).existing_paths(),
            final(self).faithful(),
            (r matches Ok(Some(_))) == old(self).existing_paths().contains(path@),
            r is Ok,
    {
        let existed = self.has_path(path);
        let op = Op::Backup { path: path.to_owned() };
        if existed {
            let bak = with_bak_extension(path);
            self.record(op, Ghost((Req::Backup(path@), Outcome::Saved(bak@))));
            proof {
                assert(self.recorded().drop_last() =~= old(self).recorded());
            }
            Ok(Some(bak))
        } else {
            self.record(op, Ghost((Req::Backup(path@), Outcome::Done(false))));
            proof {
                assert(self.recorded().drop_last() =~= old(self).recorded());
            }
            Ok(None)
        }
    }
}

// ---------------------------------------------------------------------------
// A real host, with the record of what was asked of it
// ---------------------------------------------------------------------------

/// The host's side of the operations (the filesystem and processes), for
/// the application to provide. Nothing is assumed of what the calls do.
pub trait Host {
    fn run(&mut self, program: &str, args: &Vec<String>) -> Result<(), String>;

    fn write_new(&mut self, path: &str, contents: &str) -> Result<bool, String>;

    fn write_file(&mut self, path: &str, contents: &str, mode: u32) -> Result<(), String>;

    fn mkdir_mode_chown(&mut self, path: &str, mode: u32, owner: &str) -> Result<(), String>;

    fn backup(&mut self, path: &str) -> Result<Option<String>, String>;
}

/// A host and the record of every request made of it, with how it went.
pub struct Logged<H: Host> {
    pub host: H,
    pub history: Ghost<Seq<(Req, Outcome)>>,
}

impl<H: Host> Logged<H> {
    pub fn new(host: H) -> (l: Logged<H>)
        ensures
            l.host == host,
            l.history@.len() == 0,
    {
        Logged { host, history: Ghost(Seq::empty()) }
    }
}

impl<H: Host> SystemOps for Logged<H> {
    open spec fn requests(&self) -> Seq<(Req, Outcome)> {
        self.history@
    }

    fn run(&mut self, program: &str, args: &Vec<String>) -> (r: Result<(), String>) {
        let r = self.host.run(program, args);
        proof {
            self.history@ = self.history@.push((Req::Run(program@, string_views(args@)), unit_outcome(r)));
        }
        r
    }

    fn write_new(&mut self, path: &str, contents: &str) -> (r: Result<bool, String>) {
        let r = self.host.write_new(path, contents);
        proof {
            self.history@ = self.history@.push((Req::WriteNew(path@, contents@), flag_outcome(r)));
        }
        r
    }

    fn write_file(&mut self, path: &str, contents: &str, mode: u32) -> (r: Result<(), String>) {
        let r = self.host.write_file(path, contents, mode);
        proof {
            self.history@ = self.history@.push((Req::WriteFile(path@, contents@, mode), unit_outcome(r)));
        }
        r
    }

    fn mkdir_mode_chown(&mut self, path: &str, mode: u32, owner: &str) -> (r: Result<(), String>) {
        let r = self.host.mkdir_mode_chown(path, mode, owner);
        proof {
            self.history@ = self.history@.push((Req::Mkdir(path@, mode, owner@), unit_outcome(r)));
        }
        r
    }

    fn backup(&mut self, path: &str) -> (r: Result<Option<String>, String>) {
        let r = self.host.backup(path);
        proof {
            self.history@ = self.history@.push((Req::Backup(path@), backup_outcome(r)));
        }
        r
    }
}

} // verus!
