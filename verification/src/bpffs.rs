//! Preparing the BPF file system: the mount and the pin directory.
use vstd::prelude::*;
use vstd::string::*;

use crate::path::{join, joined_path, path_eq, same_path};
use crate::sys::{c_bytes, lemma_ascii_nul_free, mount, nul_free, MountCall, NulError};
use crate::text::str_eq;

verus! {

/// A mounted file system.
pub struct Mount {
    pub mount_point: String,
    pub fs_type: String,
}

/// Whether `m` is a file system of the given type at the given path.
pub open spec fn is_mount(m: Mount, fs: Seq<char>, target: Seq<char>) -> bool {
    same_path(m.mount_point@, target) && m.fs_type@ == fs
}

/// Whether a file system of the given type is mounted at `target_path`.
pub fn is_fs_mounted_at(expected_fs: &str, target_path: &str, mounts: &Vec<Mount>) -> (r: bool)
    ensures
        r == (exists|i: int|
            0 <= i < mounts@.len() && is_mount(#[trigger] mounts@[i], expected_fs@, target_path@)),
{
    let mut i: usize = 0;
    while i < mounts.len()
        invariant
            i <= mounts@.len(),
            forall|k: int|
                0 <= k < i ==> !is_mount(#[trigger] mounts@[k], expected_fs@, target_path@),
        decreases mounts@.len() - i,
    {
        if path_eq(mounts[i].mount_point.as_str(), target_path) && str_eq(
            mounts[i].fs_type.as_str(),
            expected_fs,
        ) {
            assert(is_mount(mounts@[i as int], expected_fs@, target_path@));
            return true;
        }
        i += 1;
    }
    false
}

/// The pin directory below a BPF file system.
pub fn pin_path(parent: &str) -> (r: String)
    ensures
        r@ == joined_path(parent@, "dns_sockaddr"@),
{
    join(parent, "dns_sockaddr")
}

/// The call that mounts the BPF file system at `target`.
pub fn mount_call(target: &str) -> (r: Result<MountCall, NulError>)
    ensures
        r is Ok <==> nul_free(target@),
        r matches Ok(call) ==> {
            &&& call.source@ == c_bytes("bpffs"@)
            &&& call.target@ == c_bytes(target@)
            &&& call.fstype@ == c_bytes("bpf"@)
            &&& call.flags == 0
        },
{
    proof {
        reveal_strlit("bpffs");
        reveal_strlit("bpf");
        lemma_ascii_nul_free("bpffs"@);
        lemma_ascii_nul_free("bpf"@);
    }
    mount("bpffs", target, "bpf", 0)
}

/// The message of a directory that could not be created, given the message of
/// the system call.
pub fn mkdir_error(path: &str, cause: &str) -> (r: String)
    ensures
        r@ == "mkdir "@ + path@ + ": "@ + cause@,
{
    let mut out = "mkdir ".to_owned();
    out.append(path);
    out.append(": ");
    out.append(cause);
    out
}

/// What came of creating a directory or mounting a file system.
#[derive(Clone, Copy, PartialEq, Eq, Debug, Structural)]
pub enum Outcome {
    Done,
    /// Refused because something exists already.
    Exists,
    /// Refused because something is busy.
    Busy,
    Failed,
}

/// Which step of the preparation failed for good.
#[derive(Clone, Copy, PartialEq, Eq, Debug, Structural)]
pub enum PrepError {
    /// The mount point could not be created.
    Target,
    /// The pin directory could not be created.
    PinDir,
}

/// What is to be done next.
#[derive(Clone, Copy, PartialEq, Eq, Debug, Structural)]
pub enum PrepAction {
    /// Find out what is mounted at the target.
    Probe,
    /// Create the target directory and its parents.
    CreateTarget,
    /// Mount the BPF file system at the target.
    Mount,
    /// Create the pin directory.
    CreatePinDir,
    /// The pin directory is there.
    Ready,
    /// Give up.
    Abort(PrepError),
}

/// What came of an action.
#[derive(Clone, Copy, PartialEq, Eq, Debug, Structural)]
pub enum PrepEvent {
    /// Whether the BPF file system is mounted at the target.
    Mounted(bool),
    /// What is mounted could not be found out.
    Unknown,
    Io(Outcome),
}

/// Something worth telling the user.
#[derive(Clone, Copy, PartialEq, Eq, Debug, Structural)]
pub enum PrepNote {
    AlreadyMounted,
    NotMounted,
    StateUnknown,
    MountDone,
    Sharing,
    /// Pins will fail, so the redirect will not be in effect.
    MountFailed,
    PinDirExists,
}

/// Whether `event` can come of the action `pending`.
pub open spec fn prep_awaits(pending: PrepAction, event: PrepEvent) -> bool {
    match pending {
        PrepAction::Probe => event is Mounted || event is Unknown,
        PrepAction::CreateTarget | PrepAction::Mount | PrepAction::CreatePinDir => event is Io,
        PrepAction::Ready | PrepAction::Abort(_) => false,
    }
}

/// The action that follows `event`.
pub open spec fn prep_next(pending: PrepAction, event: PrepEvent) -> PrepAction {
    match (pending, event) {
        (PrepAction::Probe, PrepEvent::Mounted(true)) => PrepAction::CreatePinDir,
        (PrepAction::Probe, _) => PrepAction::CreateTarget,
        (PrepAction::CreateTarget, PrepEvent::Io(Outcome::Done)) => PrepAction::Mount,
        (PrepAction::CreateTarget, _) => PrepAction::Abort(PrepError::Target),
        (PrepAction::Mount, _) => PrepAction::CreatePinDir,
        (PrepAction::CreatePinDir, PrepEvent::Io(Outcome::Done))
        | (PrepAction::CreatePinDir, PrepEvent::Io(Outcome::Exists)) => PrepAction::Ready,
        (PrepAction::CreatePinDir, _) => PrepAction::Abort(PrepError::PinDir),
        _ => pending,
    }
}

/// What the user is told when `event` has come.
pub open spec fn prep_note(verbose: bool, pending: PrepAction, event: PrepEvent) -> Option<
    PrepNote,
> {
    match (pending, event) {
        (PrepAction::Probe, PrepEvent::Mounted(true)) => Some(PrepNote::AlreadyMounted),
        (PrepAction::Probe, PrepEvent::Mounted(false)) => if verbose {
            Some(PrepNote::NotMounted)
        } else {
            None
        },
        (PrepAction::Probe, _) => Some(PrepNote::StateUnknown),
        (PrepAction::Mount, PrepEvent::Io(Outcome::Done)) => Some(PrepNote::MountDone),
        (PrepAction::Mount, PrepEvent::Io(Outcome::Failed)) => Some(PrepNote::MountFailed),
        (PrepAction::Mount, _) => Some(PrepNote::Sharing),
        (PrepAction::CreatePinDir, PrepEvent::Io(Outcome::Exists)) => if verbose {
            Some(PrepNote::PinDirExists)
        } else {
            None
        },
        _ => None,
    }
}

impl PrepAction {
    /// Whether `event` can come of the action.
    pub fn awaits(self, event: PrepEvent) -> (r: bool)
        ensures
            r == prep_awaits(self, event),
    {
        match (self, event) {
            (PrepAction::Probe, PrepEvent::Mounted(_)) => true,
            (PrepAction::Probe, PrepEvent::Unknown) => true,
            (PrepAction::CreateTarget, PrepEvent::Io(_)) => true,
            (PrepAction::Mount, PrepEvent::Io(_)) => true,
            (PrepAction::CreatePinDir, PrepEvent::Io(_)) => true,
            _ => false,
        }
    }
}

/// One step of the preparation: the next action, and what is worth telling
/// the user. It starts with [`PrepAction::Probe`].
pub fn ensure_bpffs(verbose: bool, pending: PrepAction, event: PrepEvent) -> (r: (
    PrepAction,
    Option<PrepNote>,
))
    requires
        prep_awaits(pending, event),
    ensures
        r.0 == prep_next(pending, event),
        r.1 == prep_note(verbose, pending, event),
{
    match (pending, event) {
        (PrepAction::Probe, PrepEvent::Mounted(mounted)) => {
            if mounted {
                (PrepAction::CreatePinDir, Some(PrepNote::AlreadyMounted))
            } else if verbose {
                (PrepAction::CreateTarget, Some(PrepNote::NotMounted))
            } else {
                (PrepAction::CreateTarget, None)
            }
        },
        (PrepAction::Probe, _) => (PrepAction::CreateTarget, Some(PrepNote::StateUnknown)),
        (PrepAction::CreateTarget, PrepEvent::Io(Outcome::Done)) => (PrepAction::Mount, None),
        (PrepAction::CreateTarget, _) => (PrepAction::Abort(PrepError::Target), None),
        (PrepAction::Mount, PrepEvent::Io(outcome)) => {
            let note = match outcome {
                Outcome::Done => PrepNote::MountDone,
                Outcome::Exists | Outcome::Busy => PrepNote::Sharing,
                Outcome::Failed => PrepNote::MountFailed,
            };
            (PrepAction::CreatePinDir, Some(note))
        },
        (PrepAction::CreatePinDir, PrepEvent::Io(outcome)) => ensure_pin_path(verbose, outcome),
        _ => (pending, None),
    }
}

/// The last step: the pin directory is ready if it was created or is there
/// from an earlier run.
pub fn ensure_pin_path(verbose: bool, outcome: Outcome) -> (r: (PrepAction, Option<PrepNote>))
    ensures
        r.0 == prep_next(PrepAction::CreatePinDir, PrepEvent::Io(outcome)),
        r.1 == prep_note(verbose, PrepAction::CreatePinDir, PrepEvent::Io(outcome)),
{
    match outcome {
        Outcome::Done => (PrepAction::Ready, None),
        Outcome::Exists => {
            if verbose {
                (PrepAction::Ready, Some(PrepNote::PinDirExists))
            } else {
                (PrepAction::Ready, None)
            }
        },
        Outcome::Busy | Outcome::Failed => (PrepAction::Abort(PrepError::PinDir), None),
    }
}

/// What counts as a mount: the right type at the right path, and nothing else.
pub proof fn law_mount_by_type_and_path(m: Mount, fs: Seq<char>, target: Seq<char>)
    ensures
        is_mount(m, fs, target) ==> m.fs_type@ == fs && same_path(m.mount_point@, target),
        m.fs_type@ == fs && same_path(m.mount_point@, target) ==> is_mount(m, fs, target),
        same_path(target, target),
{
}

/// What leads to each step of the preparation.
pub proof fn law_each_step_has_its_cause(pending: PrepAction, event: PrepEvent)
    requires
        prep_awaits(pending, event),
    ensures
        ({
            let t = prep_next(pending, event);
            &&& t != PrepAction::Probe
            &&& t == PrepAction::CreateTarget <==> pending == PrepAction::Probe && event
                != PrepEvent::Mounted(true)
            &&& t == PrepAction::Mount <==> pending == PrepAction::CreateTarget && event
                == PrepEvent::Io(Outcome::Done)
            &&& t == PrepAction::CreatePinDir <==> pending == PrepAction::Mount || event
                == PrepEvent::Mounted(true)
            &&& t == PrepAction::Ready <==> pending == PrepAction::CreatePinDir && (event
                == PrepEvent::Io(Outcome::Done) || event == PrepEvent::Io(Outcome::Exists))
            &&& t == PrepAction::Abort(PrepError::Target) <==> pending == PrepAction::CreateTarget
                && event != PrepEvent::Io(Outcome::Done)
            &&& t == PrepAction::Abort(PrepError::PinDir) <==> pending == PrepAction::CreatePinDir
                && event != PrepEvent::Io(Outcome::Done) && event != PrepEvent::Io(Outcome::Exists)
        }),
{
}

/// Which steps each event can come of.
pub proof fn law_prep_events_and_their_steps(pending: PrepAction, mounted: bool, outcome: Outcome)
    ensures
        prep_awaits(pending, PrepEvent::Mounted(mounted)) <==> pending == PrepAction::Probe,
        prep_awaits(pending, PrepEvent::Unknown) <==> pending == PrepAction::Probe,
        prep_awaits(pending, PrepEvent::Io(outcome)) <==> pending == PrepAction::CreateTarget
            || pending == PrepAction::Mount || pending == PrepAction::CreatePinDir,
{
}

/// What each note says, and that only two of them are for those who want to
/// know everything.
pub proof fn law_prep_notes(verbose: bool, pending: PrepAction, event: PrepEvent)
    requires
        prep_awaits(pending, event),
    ensures
        ({
            let n = prep_note(verbose, pending, event);
            &&& n == Some(PrepNote::AlreadyMounted) <==> event == PrepEvent::Mounted(true)
            &&& n == Some(PrepNote::NotMounted) <==> event == PrepEvent::Mounted(false) && verbose
            &&& n == Some(PrepNote::StateUnknown) <==> event == PrepEvent::Unknown
            &&& n == Some(PrepNote::MountDone) <==> pending == PrepAction::Mount && event
                == PrepEvent::Io(Outcome::Done)
            &&& n == Some(PrepNote::Sharing) <==> pending == PrepAction::Mount && (event
                == PrepEvent::Io(Outcome::Exists) || event == PrepEvent::Io(Outcome::Busy))
            &&& n == Some(PrepNote::MountFailed) <==> pending == PrepAction::Mount && event
                == PrepEvent::Io(Outcome::Failed)
            &&& n == Some(PrepNote::PinDirExists) <==> pending == PrepAction::CreatePinDir && event
                == PrepEvent::Io(Outcome::Exists) && verbose
        }),
{
}

/// How far an action is from the end.
pub open spec fn prep_left(a: PrepAction) -> int {
    match a {
        PrepAction::Probe => 4,
        PrepAction::CreateTarget => 3,
        PrepAction::Mount => 2,
        PrepAction::CreatePinDir => 1,
        PrepAction::Ready | PrepAction::Abort(_) => 0,
    }
}

/// The preparation ends after at most four steps.
pub proof fn law_prep_ends(pending: PrepAction, event: PrepEvent)
    requires
        prep_awaits(pending, event),
    ensures
        0 <= prep_left(prep_next(pending, event)) < prep_left(pending) <= 4,
{
}

/// A mounted BPF file system is used as it is: nothing is created or mounted
/// but the pin directory.
pub proof fn law_mounted_is_left_alone()
    ensures
        prep_next(PrepAction::Probe, PrepEvent::Mounted(true)) == PrepAction::CreatePinDir,
{
}

/// A mount that fails, for whatever reason, does not stop the preparation:
/// the pin directory is still created.
pub proof fn law_mount_failure_is_not_fatal(outcome: Outcome)
    ensures
        prep_next(PrepAction::Mount, PrepEvent::Io(outcome)) == PrepAction::CreatePinDir,
{
}

/// The action at which the preparation stops where the events are those of
/// `world`.
pub open spec fn prepared(
    pending: PrepAction,
    world: spec_fn(PrepAction) -> PrepEvent,
) -> PrepAction
    decreases prep_left(pending),
{
    if !prep_awaits(pending, world(pending)) {
        pending
    } else {
        prepared(prep_next(pending, world(pending)), world)
    }
}

/// The pin directory is ready exactly if it was created or is there already,
/// and the file system was mounted before or its mount point was created. So
/// a second preparation, which finds everything in place, is ready too.
pub proof fn law_ready_exactly_if(world: spec_fn(PrepAction) -> PrepEvent)
    requires
        forall|a: PrepAction|
            !(a is Ready) && !(a is Abort) ==> prep_awaits(a, #[trigger] world(a)),
    ensures
        prepared(PrepAction::Probe, world) == PrepAction::Ready <==> {
            &&& world(PrepAction::CreatePinDir) == PrepEvent::Io(Outcome::Done) || world(
                PrepAction::CreatePinDir,
            ) == PrepEvent::Io(Outcome::Exists)
            &&& world(PrepAction::Probe) == PrepEvent::Mounted(true) || world(
                PrepAction::CreateTarget,
            ) == PrepEvent::Io(Outcome::Done)
        },
        prepared(PrepAction::Probe, world) is Ready || prepared(
            PrepAction::Probe,
            world,
        ) is Abort,
{
    reveal_with_fuel(prepared, 5);
    let a = PrepAction::Probe;
    let b = prep_next(a, world(a));
    let c = prep_next(b, world(b));
    let d = prep_next(c, world(c));
    let e = prep_next(d, world(d));
}

} // verus!
