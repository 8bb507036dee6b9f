//! The boot wrapper: mount cgroup2, attach the hooks, become the real init.
use vstd::prelude::*;
use vstd::string::*;

use crate::bpffs::Outcome;
use crate::path::{join, joined_path};
use crate::sys::{
    all_c_bytes, all_nul_free, byte_views, c_bytes, execve, lemma_ascii_nul_free, mount, nul_free,
    ExecveCall, MountCall, NulError,
};
use crate::text::texts;

verus! {

/// Where things are at boot.
pub struct Ctx {
    /// Path of the real init.
    pub real_init: String,
    /// Directory below which the boot-time mounts hang.
    pub mount_base: String,
}

impl Ctx {
    /// Where cgroup2 is mounted.
    pub fn cgroup_mount(&self) -> (r: String)
        ensures
            r@ == joined_path(self.mount_base@, "cgroup"@),
    {
        join(self.mount_base.as_str(), "cgroup")
    }

    /// The call that mounts cgroup2.
    pub fn mount_call(&self) -> (r: Result<MountCall, NulError>)
        ensures
            r is Ok <==> nul_free(joined_path(self.mount_base@, "cgroup"@)),
            r matches Ok(call) ==> {
                &&& call.source@ == c_bytes("none"@)
                &&& call.target@ == c_bytes(joined_path(self.mount_base@, "cgroup"@))
                &&& call.fstype@ == c_bytes("cgroup2"@)
                &&& call.flags == 0
            },
    {
        proof {
            reveal_strlit("none");
            reveal_strlit("cgroup2");
            lemma_ascii_nul_free("none"@);
            lemma_ascii_nul_free("cgroup2"@);
        }
        mount("none", self.cgroup_mount().as_str(), "cgroup2", 0)
    }
}

/// The call that mounts procfs, which the kernel command line is read from.
pub fn procfs_mount() -> (r: Result<MountCall, NulError>)
    ensures
        r matches Ok(call) && {
            &&& call.source@ == c_bytes("proc"@)
            &&& call.target@ == c_bytes("/proc"@)
            &&& call.fstype@ == c_bytes("proc"@)
            &&& call.flags == 0
        },
{
    proof {
        reveal_strlit("proc");
        reveal_strlit("/proc");
        lemma_ascii_nul_free("proc"@);
        lemma_ascii_nul_free("/proc"@);
    }
    mount("proc", "/proc", "proc", 0)
}

/// What is to be done next.
#[derive(Clone, Copy, PartialEq, Eq, Debug, Structural)]
pub enum RunAction {
    /// Create the mount point and its parents.
    CreateMountPoint,
    /// Mount cgroup2 at the mount point.
    Mount,
    /// Open the mount point.
    Open,
    /// Load the hooks and attach them to the root cgroup.
    Attach,
    /// Become the real init.
    ExecReal,
}

/// What came of an action.
#[derive(Clone, Copy, PartialEq, Eq, Debug, Structural)]
pub enum RunEvent {
    Io(Outcome),
    /// So many hooks are attached.
    Attached(usize),
    AttachFailed,
}

/// Something worth telling the user.
#[derive(Clone, Copy, PartialEq, Eq, Debug, Structural)]
pub enum RunNote {
    CreateFailed,
    MountDone,
    Sharing,
    MountFailed,
    OpenFailed,
    Attached(usize),
    AttachFailed,
}

/// Whether `event` can come of the action `pending`.
pub open spec fn run_awaits(pending: RunAction, event: RunEvent) -> bool {
    match pending {
        RunAction::CreateMountPoint | RunAction::Mount | RunAction::Open => event is Io,
        RunAction::Attach => event is Attached || event is AttachFailed,
        RunAction::ExecReal => false,
    }
}

/// The action that follows `event`.
pub open spec fn run_next(pending: RunAction, event: RunEvent) -> RunAction {
    match (pending, event) {
        (RunAction::CreateMountPoint, RunEvent::Io(Outcome::Done)) => RunAction::Mount,
        (RunAction::Mount, RunEvent::Io(Outcome::Done))
        | (RunAction::Mount, RunEvent::Io(Outcome::Exists))
        | (RunAction::Mount, RunEvent::Io(Outcome::Busy)) => RunAction::Open,
        (RunAction::Open, RunEvent::Io(Outcome::Done)) => RunAction::Attach,
        _ => RunAction::ExecReal,
    }
}

/// What the user is told when `event` has come.
pub open spec fn run_note(pending: RunAction, event: RunEvent) -> Option<RunNote> {
    match (pending, event) {
        (RunAction::CreateMountPoint, RunEvent::Io(Outcome::Done)) => None,
        (RunAction::CreateMountPoint, _) => Some(RunNote::CreateFailed),
        (RunAction::Mount, RunEvent::Io(Outcome::Done)) => Some(RunNote::MountDone),
        (RunAction::Mount, RunEvent::Io(Outcome::Failed)) => Some(RunNote::MountFailed),
        (RunAction::Mount, _) => Some(RunNote::Sharing),
        (RunAction::Open, RunEvent::Io(Outcome::Done)) => None,
        (RunAction::Open, _) => Some(RunNote::OpenFailed),
        (RunAction::Attach, RunEvent::Attached(n)) => Some(RunNote::Attached(n)),
        (RunAction::Attach, _) => Some(RunNote::AttachFailed),
        (RunAction::ExecReal, _) => None,
    }
}

impl RunAction {
    /// Whether `event` can come of the action.
    pub fn awaits(self, event: RunEvent) -> (r: bool)
        ensures
            r == run_awaits(self, event),
    {
        match (self, event) {
            (RunAction::CreateMountPoint, RunEvent::Io(_)) => true,
            (RunAction::Mount, RunEvent::Io(_)) => true,
            (RunAction::Open, RunEvent::Io(_)) => true,
            (RunAction::Attach, RunEvent::Attached(_)) => true,
            (RunAction::Attach, RunEvent::AttachFailed) => true,
            _ => false,
        }
    }
}

/// One step of the boot wrapper: the next action, and what is worth telling
/// the user. It starts with [`RunAction::CreateMountPoint`].
pub fn run(pending: RunAction, event: RunEvent) -> (r: (RunAction, Option<RunNote>))
    requires
        run_awaits(pending, event),
    ensures
        r.0 == run_next(pending, event),
        r.1 == run_note(pending, event),
{
    match (pending, event) {
        (RunAction::CreateMountPoint, RunEvent::Io(Outcome::Done)) => (RunAction::Mount, None),
        (RunAction::CreateMountPoint, _) => (RunAction::ExecReal, Some(RunNote::CreateFailed)),
        (RunAction::Mount, RunEvent::Io(outcome)) => match outcome {
            Outcome::Done => (RunAction::Open, Some(RunNote::MountDone)),
            Outcome::Exists | Outcome::Busy => (RunAction::Open, Some(RunNote::Sharing)),
            Outcome::Failed => (RunAction::ExecReal, Some(RunNote::MountFailed)),
        },
        (RunAction::Open, RunEvent::Io(Outcome::Done)) => (RunAction::Attach, None),
        (RunAction::Open, _) => (RunAction::ExecReal, Some(RunNote::OpenFailed)),
        (RunAction::Attach, RunEvent::Attached(n)) => (
            RunAction::ExecReal,
            Some(RunNote::Attached(n)),
        ),
        (RunAction::Attach, _) => (RunAction::ExecReal, Some(RunNote::AttachFailed)),
        _ => (RunAction::ExecReal, None),
    }
}

/// A program to become: its path, its arguments, program name first, and its
/// environment.
pub struct ExecReal {
    pub path: String,
    pub argv: Vec<String>,
    pub envp: Vec<String>,
}

/// How the real init is started: its own path as program name, then the
/// arguments that this program was started with, unchanged, and no
/// environment.
pub fn exec_real(path: &str, args: &Vec<String>) -> (r: ExecReal)
    ensures
        r.path@ == path@,
        texts(r.argv@) == seq![path@] + texts(args@),
        r.envp@.len() == 0,
{
    let mut argv: Vec<String> = Vec::new();
    argv.push(path.to_owned());
    let mut i: usize = 0;
    while i < args.len()
        invariant
            i <= args@.len(),
            argv@.len() == i + 1,
            argv@[0]@ == path@,
            forall|k: int| 0 <= k < i ==> (#[trigger] argv@[k + 1])@ == args@[k]@,
        decreases args@.len() - i,
    {
        argv.push(args[i].clone());
        i += 1;
    }
    assert(texts(argv@) =~= seq![path@] + texts(args@)) by {
        assert forall|k: int| 0 <= k < argv@.len() implies texts(argv@)[k] == (seq![path@] + texts(
            args@,
        ))[k] by {
            if k > 0 {
                assert(argv@[(k - 1) + 1]@ == args@[k - 1]@);
            }
        }
    }
    ExecReal { path: path.to_owned(), argv, envp: Vec::new() }
}

/// The call that becomes the real init.
pub fn exec_call(path: &str, args: &Vec<String>) -> (r: Result<ExecveCall, NulError>)
    ensures
        r is Ok <==> nul_free(path@) && all_nul_free(texts(args@)),
        r matches Ok(call) ==> {
            &&& call.path@ == c_bytes(path@)
            &&& byte_views(call.argv@) == all_c_bytes(seq![path@] + texts(args@))
            &&& call.envp@.len() == 0
        },
{
    let program = exec_real(path, args);
    proof {
        let all = seq![path@] + texts(args@);
        assert(all[0] == path@);
        assert(all_nul_free(all) <==> nul_free(path@) && all_nul_free(texts(args@))) by {
            if all_nul_free(all) {
                assert(nul_free(all[0]));
                assert forall|i: int| 0 <= i < args@.len() implies nul_free(
                    #[trigger] texts(args@)[i],
                ) by {
                    assert(nul_free(all[i + 1]));
                    assert(all[i + 1] == texts(args@)[i]);
                }
            }
        }
    }
    let r = execve(program.path.as_str(), &program.argv, &program.envp);
    assert(r matches Ok(call) ==> byte_views(call.envp@).len() == 0);
    r
}

/// The message of a failed start of the real init, given the message of the
/// system call.
pub fn exec_error(path: &str, cause: &str) -> (r: String)
    ensures
        r@ == "exec "@ + path@ + ": "@ + cause@,
{
    let mut out = "exec ".to_owned();
    out.append(path);
    out.append(": ");
    out.append(cause);
    out
}

/// What leads to each action of the boot: the hooks are attached only on the
/// straight way, and any failure leads to the real init.
pub proof fn law_each_boot_action_has_its_cause(pending: RunAction, event: RunEvent)
    requires
        run_awaits(pending, event),
    ensures
        ({
            let t = run_next(pending, event);
            &&& t != RunAction::CreateMountPoint
            &&& t == RunAction::Mount <==> pending == RunAction::CreateMountPoint && event
                == RunEvent::Io(Outcome::Done)
            &&& t == RunAction::Open <==> pending == RunAction::Mount && event != RunEvent::Io(
                Outcome::Failed,
            )
            &&& t == RunAction::Attach <==> pending == RunAction::Open && event == RunEvent::Io(
                Outcome::Done,
            )
        }),
{
}

/// Which actions each event can come of.
pub proof fn law_boot_events_and_their_actions(pending: RunAction, outcome: Outcome, n: usize)
    ensures
        run_awaits(pending, RunEvent::Io(outcome)) <==> pending == RunAction::CreateMountPoint
            || pending == RunAction::Mount || pending == RunAction::Open,
        run_awaits(pending, RunEvent::Attached(n)) <==> pending == RunAction::Attach,
        run_awaits(pending, RunEvent::AttachFailed) <==> pending == RunAction::Attach,
{
}

/// What the notes of the boot say: the number of attached hooks as it was
/// reported, how the mount went, and what failed.
pub proof fn law_boot_notes(pending: RunAction, event: RunEvent, n: usize)
    requires
        run_awaits(pending, event),
    ensures
        ({
            let note = run_note(pending, event);
            &&& note == Some(RunNote::Attached(n)) <==> event == RunEvent::Attached(n)
            &&& note == Some(RunNote::AttachFailed) <==> event == RunEvent::AttachFailed
            &&& note == Some(RunNote::MountDone) <==> pending == RunAction::Mount && event
                == RunEvent::Io(Outcome::Done)
            &&& note == Some(RunNote::Sharing) <==> pending == RunAction::Mount && (event
                == RunEvent::Io(Outcome::Exists) || event == RunEvent::Io(Outcome::Busy))
            &&& note == Some(RunNote::MountFailed) <==> pending == RunAction::Mount && event
                == RunEvent::Io(Outcome::Failed)
            &&& note == Some(RunNote::CreateFailed) <==> pending == RunAction::CreateMountPoint
                && event != RunEvent::Io(Outcome::Done)
            &&& note == Some(RunNote::OpenFailed) <==> pending == RunAction::Open && event
                != RunEvent::Io(Outcome::Done)
        }),
{
}

/// How far an action is from the start of the real init.
pub open spec fn run_left(a: RunAction) -> int {
    match a {
        RunAction::CreateMountPoint => 4,
        RunAction::Mount => 3,
        RunAction::Open => 2,
        RunAction::Attach => 1,
        RunAction::ExecReal => 0,
    }
}

/// Whatever fails on the way, the wrapper gets to the real init within four
/// steps.
pub proof fn law_real_init_is_reached(pending: RunAction, event: RunEvent)
    requires
        run_awaits(pending, event),
    ensures
        0 <= run_left(run_next(pending, event)) < run_left(pending) <= 4,
        run_left(run_next(pending, event)) == 0 ==> run_next(pending, event)
            == RunAction::ExecReal,
{
}

/// The action at which the wrapper stops where the events are those of
/// `world`.
pub open spec fn boot(pending: RunAction, world: spec_fn(RunAction) -> RunEvent) -> RunAction
    decreases run_left(pending),
{
    if !run_awaits(pending, world(pending)) {
        pending
    } else {
        boot(run_next(pending, world(pending)), world)
    }
}

/// Whatever comes of the actions, the boot ends in the real init.
pub proof fn law_boot_ends_in_real_init(world: spec_fn(RunAction) -> RunEvent)
    requires
        forall|a: RunAction| a != RunAction::ExecReal ==> run_awaits(a, #[trigger] world(a)),
    ensures
        boot(RunAction::CreateMountPoint, world) == RunAction::ExecReal,
{
    reveal_with_fuel(boot, 5);
    let a = RunAction::CreateMountPoint;
    let b = run_next(a, world(a));
    let c = run_next(b, world(b));
    let d = run_next(c, world(c));
    let e = run_next(d, world(d));
}

/// A cgroup2 hierarchy that is mounted already is shared: the hooks are
/// attached to it all the same.
pub proof fn law_mounted_hierarchy_is_shared(outcome: Outcome)
    ensures
        run_next(RunAction::Mount, RunEvent::Io(outcome)) == RunAction::Open <==> outcome
            != Outcome::Failed,
{
}

/// Hooks are attached only after the mount point was created, mounted or
/// shared, and opened.
pub proof fn law_attach_needs_the_mount(
    create: Outcome,
    mount: Outcome,
    open: Outcome,
)
    ensures
        ({
            let a = run_next(RunAction::CreateMountPoint, RunEvent::Io(create));
            let b = run_next(a, RunEvent::Io(mount));
            let c = run_next(b, RunEvent::Io(open));
            c == RunAction::Attach <==> create == Outcome::Done && mount != Outcome::Failed && open
                == Outcome::Done
        }),
{
}

} // verus!
