//! Loading and attaching the hooks: which step follows which outcome.
//!
//! A [`Loader`] names the next [`Action`]; its user performs it and reports
//! what came of it, until the action is [`Action::Finish`] or
//! [`Action::Fail`].
use vstd::prelude::*;

use crate::path::{join, joined_path};
use crate::text::{str_eq, texts};

pub use crate::rule::Rule;

pub mod laws;
pub mod steps;

verus! {

/// A cgroup socket-address hook.
#[derive(Clone, Copy, PartialEq, Eq, Debug, Structural)]
pub enum Hook {
    Connect,
    Sendmsg,
    Recvmsg,
}

/// The name of the program that implements a hook.
pub open spec fn hook_name(h: Hook) -> Seq<char> {
    match h {
        Hook::Connect => "redirect_dns_query_connect"@,
        Hook::Sendmsg => "redirect_dns_query_sendmsg"@,
        Hook::Recvmsg => "rewrite_dns_answer_recvmsg"@,
    }
}

/// The label under which the hits of a hook are shown.
pub open spec fn hook_label(h: Hook) -> Seq<char> {
    match h {
        Hook::Connect => "connect4"@,
        Hook::Sendmsg => "sendmsg4"@,
        Hook::Recvmsg => "recvmsg4"@,
    }
}

/// The place of a hook among the hooks, which is also its key in the hit
/// counter map.
pub open spec fn hook_index(h: Hook) -> int {
    match h {
        Hook::Connect => 0,
        Hook::Sendmsg => 1,
        Hook::Recvmsg => 2,
    }
}

/// The hook with a given program name.
pub open spec fn hook_named(name: Seq<char>) -> Option<Hook> {
    if name == hook_name(Hook::Connect) {
        Some(Hook::Connect)
    } else if name == hook_name(Hook::Sendmsg) {
        Some(Hook::Sendmsg)
    } else if name == hook_name(Hook::Recvmsg) {
        Some(Hook::Recvmsg)
    } else {
        None
    }
}

/// The hooks among programs of the given names, in that order.
pub open spec fn hooks_among(names: Seq<Seq<char>>) -> Seq<Hook>
    decreases names.len(),
{
    if names.len() == 0 {
        Seq::empty()
    } else {
        let init = hooks_among(names.drop_last());
        match hook_named(names.last()) {
            Some(h) => init.push(h),
            None => init,
        }
    }
}

impl Hook {
    /// All hooks, in order.
    pub fn all() -> (r: [Hook; 3])
        ensures
            r@ == seq![Hook::Connect, Hook::Sendmsg, Hook::Recvmsg],
    {
        [Hook::Connect, Hook::Sendmsg, Hook::Recvmsg]
    }

    /// The name of the program that implements the hook.
    pub fn name(self) -> (r: &'static str)
        ensures
            r@ == hook_name(self),
    {
        match self {
            Hook::Connect => "redirect_dns_query_connect",
            Hook::Sendmsg => "redirect_dns_query_sendmsg",
            Hook::Recvmsg => "rewrite_dns_answer_recvmsg",
        }
    }

    /// The label under which the hits of the hook are shown.
    pub fn label(self) -> (r: &'static str)
        ensures
            r@ == hook_label(self),
    {
        match self {
            Hook::Connect => "connect4",
            Hook::Sendmsg => "sendmsg4",
            Hook::Recvmsg => "recvmsg4",
        }
    }

    /// The key of the hook in the hit counter map.
    pub fn key(self) -> (r: u32)
        ensures
            r == hook_index(self),
    {
        match self {
            Hook::Connect => 0,
            Hook::Sendmsg => 1,
            Hook::Recvmsg => 2,
        }
    }

    /// The hook that the program of the given name implements.
    pub fn named(name: &str) -> (r: Option<Hook>)
        ensures
            r == hook_named(name@),
    {
        if str_eq(name, "redirect_dns_query_connect") {
            Some(Hook::Connect)
        } else if str_eq(name, "redirect_dns_query_sendmsg") {
            Some(Hook::Sendmsg)
        } else if str_eq(name, "rewrite_dns_answer_recvmsg") {
            Some(Hook::Recvmsg)
        } else {
            None
        }
    }
}

/// Where the link of a hook is pinned below the pin directory.
pub fn link_pin_path(pin_dir: &str, h: Hook) -> (r: String)
    ensures
        r@ == joined_path(pin_dir@, hook_name(h)),
{
    join(pin_dir, h.name())
}

/// Where the rule map is pinned below the pin directory.
pub fn cfg_pin_path(pin_dir: &str) -> (r: String)
    ensures
        r@ == joined_path(pin_dir@, "cfg_map"@),
{
    join(pin_dir, "cfg_map")
}

/// Where the hit counter map is pinned below the pin directory.
pub fn hit_pin_path(pin_dir: &str) -> (r: String)
    ensures
        r@ == joined_path(pin_dir@, "hit_cnt"@),
{
    join(pin_dir, "hit_cnt")
}

/// What a look at the place of a pinned link shows.
#[derive(Clone, Copy, PartialEq, Eq, Debug, Structural)]
pub enum PinProbe {
    /// There is no pin.
    Absent,
    /// The pinned link belongs to the program with this id.
    Link(u32),
    /// There is a pin, but its link tells nothing of itself.
    NoInfo,
}

/// What is known of the pin of a hook.
#[derive(Clone, Copy, PartialEq, Eq, Debug, Structural)]
pub enum Pin {
    /// There is none.
    Absent,
    /// There is one whose program tag cannot be recovered.
    Stale,
    /// There is one whose program has this tag.
    Tagged(u64),
}

/// The tag of the first loaded program with the given id.
pub open spec fn tag_of(table: Seq<(u32, u64)>, id: u32) -> Option<u64>
    decreases table.len(),
{
    if table.len() == 0 {
        None
    } else if table[0].0 == id {
        Some(table[0].1)
    } else {
        tag_of(table.drop_first(), id)
    }
}

/// What a probe tells of a pin, given the ids and tags of the loaded
/// programs.
pub open spec fn pin_of(probe: PinProbe, table: Seq<(u32, u64)>) -> Pin {
    match probe {
        PinProbe::Absent => Pin::Absent,
        PinProbe::NoInfo => Pin::Stale,
        PinProbe::Link(id) => match tag_of(table, id) {
            Some(tag) => Pin::Tagged(tag),
            None => Pin::Stale,
        },
    }
}

/// Why loading failed.
#[derive(Clone, Copy, PartialEq, Eq, Debug, Structural)]
pub enum LoadError {
    /// The action that was reported as failed.
    Reported,
    NoCfgMap,
    NoHooks,
    NoHitMap,
}

impl LoadError {
    /// The message of an error that the loader found itself; the one of a
    /// reported error comes with the report.
    pub fn message(self) -> (r: Option<&'static str>)
        ensures
            match self {
                LoadError::Reported => r is None,
                LoadError::NoCfgMap => r is Some && r->0@ == "no cfg_map in object"@,
                LoadError::NoHooks => r is Some && r->0@
                    == "load_and_attach: no hook programs found in object"@,
                LoadError::NoHitMap => r is Some && r->0@ == "no hit_cnt in object"@,
            },
    {
        match self {
            LoadError::Reported => None,
            LoadError::NoCfgMap => Some("no cfg_map in object"),
            LoadError::NoHooks => Some("load_and_attach: no hook programs found in object"),
            LoadError::NoHitMap => Some("no hit_cnt in object"),
        }
    }
}

/// What is to be done next.
#[derive(Clone, Copy, PartialEq, Eq, Debug, Structural)]
pub enum Action {
    /// Look at the pinned link of a hook.
    ProbePin(Hook),
    /// Load the object and create or reuse its pinned maps.
    LoadObject,
    /// Take the rule map out of the object.
    TakeCfgMap,
    /// Write one of the rules into the rule map.
    WriteRule(usize),
    /// List the programs of the object.
    ListPrograms,
    /// Load the program of a hook and read its tag.
    LoadProgram(Hook),
    /// Remove the pin of a hook, if there is one.
    RemovePin(Hook),
    /// Attach the program of a hook to the cgroup and take the link.
    AttachProgram(Hook),
    /// Pin the link of a hook.
    PinLink(Hook),
    /// Take the hit counter map out of the object.
    TakeHitMap,
    /// The hooks are attached.
    Finish,
    /// Give up.
    Fail(LoadError),
}

/// What came of an action.
#[derive(Clone, Copy, PartialEq, Eq, Debug, Structural)]
pub enum Event {
    Pin(PinProbe),
    Done,
    Failed,
    /// The object has no map of that name.
    Missing,
    /// The program is loaded and has this tag.
    Tag(u64),
    /// The program is attached by a link that can be pinned.
    FdLink,
    /// The program is attached in a way that lasts without a pin.
    DurableLink,
}

/// Something worth telling the user.
#[derive(Clone, Copy, PartialEq, Eq, Debug, Structural)]
pub enum Note {
    NoPin(Hook),
    PinTag(Hook, u64),
    PinWithoutProgram(Hook, u32),
    PinWithoutInfo(Hook),
    RuleWritten(usize),
    ProgramTag(Hook, u64),
    /// The pinned tag is unknown, the new one given.
    RelinkStale(Hook, u64),
    /// The old and the new tag.
    RelinkChanged(Hook, u64, u64),
    TagMatch(Hook),
    LinkPinned(Hook),
    /// The hook will not be in effect.
    LinkNotPinned(Hook),
    LinkDurable(Hook),
}

/// Where a load stands.
pub struct LoadState {
    /// The action to be performed.
    pub pending: Action,
    pub verbose: bool,
    /// How many rules there are.
    pub rules: int,
    /// Id and tag of the programs that were loaded before.
    pub table: Seq<(u32, u64)>,
    /// What is known of the pins, in the order of the hooks.
    pub pins: Seq<Pin>,
    /// The hooks whose programs the object holds.
    pub queue: Seq<Hook>,
    /// How many of them are dealt with.
    pub at: int,
}

/// `note` where notes are wanted.
pub open spec fn told(verbose: bool, note: Note) -> Seq<Note> {
    if verbose {
        seq![note]
    } else {
        Seq::empty()
    }
}

/// The note on a probed pin.
pub open spec fn probe_note(h: Hook, probe: PinProbe, table: Seq<(u32, u64)>) -> Note {
    match probe {
        PinProbe::Absent => Note::NoPin(h),
        PinProbe::NoInfo => Note::PinWithoutInfo(h),
        PinProbe::Link(id) => match tag_of(table, id) {
            Some(tag) => Note::PinTag(h, tag),
            None => Note::PinWithoutProgram(h, id),
        },
    }
}

/// The notes on a loaded program, given what is known of its pin.
pub open spec fn tag_notes(verbose: bool, h: Hook, pin: Pin, tag: u64) -> Seq<Note> {
    told(verbose, Note::ProgramTag(h, tag)) + (match pin {
        Pin::Absent => Seq::empty(),
        Pin::Stale => told(verbose, Note::RelinkStale(h, tag)),
        Pin::Tagged(before) => if before == tag {
            told(verbose, Note::TagMatch(h))
        } else {
            told(verbose, Note::RelinkChanged(h, before, tag))
        },
    })
}

impl LoadState {
    /// The state in which a load begins.
    pub open spec fn initial(verbose: bool, rules: int, table: Seq<(u32, u64)>) -> LoadState {
        LoadState {
            pending: Action::ProbePin(Hook::Connect),
            verbose,
            rules,
            table,
            pins: Seq::empty(),
            queue: Seq::empty(),
            at: 0,
        }
    }

    /// The rules can be counted; the pins are known once all hooks were
    /// probed; a rule that is to be written exists; a hook that is dealt with
    /// is the next of the queue; at the end the queue is done and was not
    /// empty.
    pub open spec fn wf(self) -> bool {
        &&& 0 <= self.rules <= usize::MAX
        &&& match self.pending {
            Action::ProbePin(h) => {
                &&& self.pins.len() == hook_index(h)
                &&& self.queue.len() == 0
                &&& self.at == 0
            },
            Action::LoadObject | Action::TakeCfgMap | Action::ListPrograms => {
                &&& self.pins.len() == 3
                &&& self.queue.len() == 0
                &&& self.at == 0
            },
            Action::WriteRule(i) => {
                &&& self.pins.len() == 3
                &&& self.queue.len() == 0
                &&& self.at == 0
                &&& i < self.rules
            },
            Action::LoadProgram(h)
            | Action::RemovePin(h)
            | Action::AttachProgram(h)
            | Action::PinLink(h) => {
                &&& self.pins.len() == 3
                &&& 0 <= self.at < self.queue.len()
                &&& self.queue[self.at] == h
            },
            Action::TakeHitMap | Action::Finish => {
                &&& self.pins.len() == 3
                &&& 0 < self.queue.len()
                &&& self.at == self.queue.len()
            },
            Action::Fail(_) => 0 <= self.at <= self.queue.len(),
        }
    }

    /// Whether `event` can come of the pending action.
    pub open spec fn awaits(self, event: Event) -> bool {
        match self.pending {
            Action::ProbePin(_) => event is Pin,
            Action::LoadObject
            | Action::WriteRule(_)
            | Action::RemovePin(_)
            | Action::PinLink(_) => event is Done || event is Failed,
            Action::TakeCfgMap | Action::TakeHitMap => event is Done || event is Missing
                || event is Failed,
            Action::LoadProgram(_) => event is Tag || event is Failed,
            Action::AttachProgram(_) => event is FdLink || event is DurableLink || event is Failed,
            Action::ListPrograms | Action::Finish | Action::Fail(_) => false,
        }
    }

    /// The same state with another pending action.
    pub open spec fn to(self, pending: Action) -> LoadState {
        LoadState { pending, ..self }
    }

    /// The next rule from `i` on, or the programs where there is none.
    pub open spec fn write_from(self, i: int) -> LoadState {
        if i < self.rules {
            self.to(Action::WriteRule(i as usize))
        } else {
            self.to(Action::ListPrograms)
        }
    }

    /// The current hook is dealt with: the next one, or the hit counter map.
    pub open spec fn hook_done(self) -> LoadState {
        let next = LoadState { at: self.at + 1, ..self };
        if self.at + 1 < self.queue.len() {
            next.to(Action::LoadProgram(self.queue[self.at + 1]))
        } else {
            next.to(Action::TakeHitMap)
        }
    }

    /// The state that `event` leads to.
    pub open spec fn next(self, event: Event) -> LoadState {
        let failed = self.to(Action::Fail(LoadError::Reported));
        match (self.pending, event) {
            (Action::ProbePin(h), Event::Pin(probe)) => {
                let probed = LoadState {
                    pins: self.pins.push(pin_of(probe, self.table)),
                    ..self
                };
                match h {
                    Hook::Connect => probed.to(Action::ProbePin(Hook::Sendmsg)),
                    Hook::Sendmsg => probed.to(Action::ProbePin(Hook::Recvmsg)),
                    Hook::Recvmsg => probed.to(Action::LoadObject),
                }
            },
            (Action::LoadObject, Event::Done) => self.to(Action::TakeCfgMap),
            (Action::TakeCfgMap, Event::Done) => self.write_from(0),
            (Action::TakeCfgMap, Event::Missing) => self.to(Action::Fail(LoadError::NoCfgMap)),
            (Action::WriteRule(i), Event::Done) => self.write_from(i + 1),
            (Action::LoadProgram(h), Event::Tag(tag)) => if self.pins[hook_index(h)]
                == Pin::Tagged(tag) {
                self.hook_done()
            } else {
                self.to(Action::RemovePin(h))
            },
            (Action::RemovePin(h), _) => self.to(Action::AttachProgram(h)),
            (Action::AttachProgram(h), Event::FdLink) => self.to(Action::PinLink(h)),
            (Action::AttachProgram(_), Event::DurableLink) => self.hook_done(),
            (Action::PinLink(_), _) => self.hook_done(),
            (Action::TakeHitMap, Event::Done) => self.to(Action::Finish),
            (Action::TakeHitMap, Event::Missing) => self.to(Action::Fail(LoadError::NoHitMap)),
            _ => failed,
        }
    }

    /// What the user is told when `event` has come.
    pub open spec fn notes(self, event: Event) -> Seq<Note> {
        match (self.pending, event) {
            (Action::ProbePin(h), Event::Pin(probe)) => told(
                self.verbose,
                probe_note(h, probe, self.table),
            ),
            (Action::WriteRule(i), Event::Done) => told(self.verbose, Note::RuleWritten(i)),
            (Action::LoadProgram(h), Event::Tag(tag)) => tag_notes(
                self.verbose,
                h,
                self.pins[hook_index(h)],
                tag,
            ),
            (Action::AttachProgram(h), Event::DurableLink) => told(
                self.verbose,
                Note::LinkDurable(h),
            ),
            (Action::PinLink(h), Event::Done) => told(self.verbose, Note::LinkPinned(h)),
            (Action::PinLink(h), Event::Failed) => seq![Note::LinkNotPinned(h)],
            _ => Seq::empty(),
        }
    }

    /// The state after the object turned out to hold programs of the given
    /// names.
    pub open spec fn listed(self, names: Seq<Seq<char>>) -> LoadState {
        let queue = hooks_among(names);
        if queue.len() == 0 {
            self.to(Action::Fail(LoadError::NoHooks))
        } else {
            LoadState { pending: Action::LoadProgram(queue[0]), queue, at: 0, ..self }
        }
    }
}

/// A load in progress.
pub struct Loader {
    pending: Action,
    verbose: bool,
    rules: usize,
    table: Vec<(u32, u64)>,
    pins: Vec<Pin>,
    queue: Vec<Hook>,
    at: usize,
}

impl View for Loader {
    type V = LoadState;

    closed spec fn view(&self) -> LoadState {
        LoadState {
            pending: self.pending,
            verbose: self.verbose,
            rules: self.rules as int,
            table: self.table@,
            pins: self.pins@,
            queue: self.queue@,
            at: self.at as int,
        }
    }
}

impl Loader {
    /// Begins a load that writes `rules` rules. `table` holds id and tag of
    /// the programs that are loaded already.
    pub fn new(verbose: bool, rules: usize, table: Vec<(u32, u64)>) -> (r: Self)
        ensures
            r@ == LoadState::initial(verbose, rules as int, table@),
            r@.wf(),
    {
        let r = Loader {
            pending: Action::ProbePin(Hook::Connect),
            verbose,
            rules,
            table,
            pins: Vec::new(),
            queue: Vec::new(),
            at: 0,
        };
        assert(r@.pins =~= Seq::empty());
        assert(r@.queue =~= Seq::empty());
        r
    }

    /// The action to be performed next.
    pub fn pending(&self) -> (r: Action)
        ensures
            r == self@.pending,
    {
        self.pending
    }

    /// Whether `event` can come of the pending action.
    pub fn awaits(&self, event: Event) -> (r: bool)
        ensures
            r == self@.awaits(event),
    {
        match (self.pending, event) {
            (Action::ProbePin(_), Event::Pin(_)) => true,
            (Action::LoadObject, Event::Done) | (Action::LoadObject, Event::Failed) => true,
            (Action::WriteRule(_), Event::Done) | (Action::WriteRule(_), Event::Failed) => true,
            (Action::RemovePin(_), Event::Done) | (Action::RemovePin(_), Event::Failed) => true,
            (Action::PinLink(_), Event::Done) | (Action::PinLink(_), Event::Failed) => true,
            (Action::TakeCfgMap, Event::Done)
            | (Action::TakeCfgMap, Event::Missing)
            | (Action::TakeCfgMap, Event::Failed) => true,
            (Action::TakeHitMap, Event::Done)
            | (Action::TakeHitMap, Event::Missing)
            | (Action::TakeHitMap, Event::Failed) => true,
            (Action::LoadProgram(_), Event::Tag(_)) | (Action::LoadProgram(_), Event::Failed) => {
                true
            },
            (Action::AttachProgram(_), Event::FdLink)
            | (Action::AttachProgram(_), Event::DurableLink)
            | (Action::AttachProgram(_), Event::Failed) => true,
            _ => false,
        }
    }

    /// The names of the hook programs that are dealt with.
    pub fn hooks(&self) -> (r: Vec<String>)
        requires
            self@.wf(),
        ensures
            texts(r@) == self@.queue.take(self@.at).map_values(|h: Hook| hook_name(h)),
    {
        let mut out: Vec<String> = Vec::new();
        let mut i: usize = 0;
        while i < self.at
            invariant
                i <= self.at <= self.queue@.len(),
                out@.len() == i,
                forall|k: int| 0 <= k < i ==> (#[trigger] out@[k])@ == hook_name(self.queue@[k]),
            decreases self.at - i,
        {
            out.push(self.queue[i].name().to_owned());
            i += 1;
        }
        assert(texts(out@) =~= self@.queue.take(self@.at).map_values(|h: Hook| hook_name(h)));
        out
    }

    fn find_tag(&self, id: u32) -> (r: Option<u64>)
        ensures
            r == tag_of(self@.table, id),
    {
        let mut i: usize = 0;
        assert(self.table@.skip(0) =~= self.table@);
        while i < self.table.len()
            invariant
                i <= self.table@.len(),
                tag_of(self.table@, id) == tag_of(self.table@.skip(i as int), id),
            decreases self.table@.len() - i,
        {
            assert(self.table@.skip(i as int).drop_first() =~= self.table@.skip(i + 1));
            assert(self.table@.skip(i as int)[0] == self.table@[i as int]);
            if self.table[i].0 == id {
                return Some(self.table[i].1);
            }
            i += 1;
        }
        None
    }

    fn advance(&mut self)
        requires
            old(self)@.wf(),
            0 <= old(self)@.at < old(self)@.queue.len(),
        ensures
            final(self)@ == old(self)@.hook_done(),
    {
        assert(self.at < self.queue.len());
        self.at = self.at + 1;
        if self.at < self.queue.len() {
            self.pending = Action::LoadProgram(self.queue[self.at]);
        } else {
            self.pending = Action::TakeHitMap;
        }
    }

    fn write_from(&mut self, i: usize)
        ensures
            final(self)@ == old(self)@.write_from(i as int),
    {
        if i < self.rules {
            self.pending = Action::WriteRule(i);
        } else {
            self.pending = Action::ListPrograms;
        }
    }

    /// Takes note of what came of the pending action. Returns what is worth
    /// telling the user; the next action is then pending.
    pub fn step(&mut self, event: Event) -> (r: Vec<Note>)
        requires
            old(self)@.wf(),
            old(self)@.awaits(event),
        ensures
            final(self)@ == old(self)@.next(event),
            r@ == old(self)@.notes(event),
            final(self)@.wf(),
    {
        let ghost before = self@;
        let mut notes: Vec<Note> = Vec::new();
        match (self.pending, event) {
            (Action::ProbePin(h), Event::Pin(probe)) => {
                let (pin, note) = match probe {
                    PinProbe::Absent => (Pin::Absent, Note::NoPin(h)),
                    PinProbe::NoInfo => (Pin::Stale, Note::PinWithoutInfo(h)),
                    PinProbe::Link(id) => match self.find_tag(id) {
                        Some(tag) => (Pin::Tagged(tag), Note::PinTag(h, tag)),
                        None => (Pin::Stale, Note::PinWithoutProgram(h, id)),
                    },
                };
                if self.verbose {
                    notes.push(note);
                }
                self.pins.push(pin);
                self.pending = match h {
                    Hook::Connect => Action::ProbePin(Hook::Sendmsg),
                    Hook::Sendmsg => Action::ProbePin(Hook::Recvmsg),
                    Hook::Recvmsg => Action::LoadObject,
                };
            },
            (Action::LoadObject, Event::Done) => {
                self.pending = Action::TakeCfgMap;
            },
            (Action::TakeCfgMap, Event::Done) => {
                self.write_from(0);
            },
            (Action::TakeCfgMap, Event::Missing) => {
                self.pending = Action::Fail(LoadError::NoCfgMap);
            },
            (Action::WriteRule(i), Event::Done) => {
                if self.verbose {
                    notes.push(Note::RuleWritten(i));
                }
                self.write_from(i + 1);
            },
            (Action::LoadProgram(h), Event::Tag(tag)) => {
                if self.verbose {
                    notes.push(Note::ProgramTag(h, tag));
                }
                let k: usize = match h {
                    Hook::Connect => 0,
                    Hook::Sendmsg => 1,
                    Hook::Recvmsg => 2,
                };
                match self.pins[k] {
                    Pin::Absent => {
                        self.pending = Action::RemovePin(h);
                    },
                    Pin::Stale => {
                        if self.verbose {
                            notes.push(Note::RelinkStale(h, tag));
                        }
                        self.pending = Action::RemovePin(h);
                    },
                    Pin::Tagged(old_tag) => {
                        if old_tag == tag {
                            if self.verbose {
                                notes.push(Note::TagMatch(h));
                            }
                            self.advance();
                        } else {
                            if self.verbose {
                                notes.push(Note::RelinkChanged(h, old_tag, tag));
                            }
                            self.pending = Action::RemovePin(h);
                        }
                    },
                }
            },
            (Action::RemovePin(h), _) => {
                self.pending = Action::AttachProgram(h);
            },
            (Action::AttachProgram(h), Event::FdLink) => {
                self.pending = Action::PinLink(h);
            },
            (Action::AttachProgram(h), Event::DurableLink) => {
                if self.verbose {
                    notes.push(Note::LinkDurable(h));
                }
                self.advance();
            },
            (Action::PinLink(h), Event::Done) => {
                if self.verbose {
                    notes.push(Note::LinkPinned(h));
                }
                self.advance();
            },
            (Action::PinLink(h), _) => {
                notes.push(Note::LinkNotPinned(h));
                self.advance();
            },
            (Action::TakeHitMap, Event::Done) => {
                self.pending = Action::Finish;
            },
            (Action::TakeHitMap, Event::Missing) => {
                self.pending = Action::Fail(LoadError::NoHitMap);
            },
            _ => {
                self.pending = Action::Fail(LoadError::Reported);
            },
        }
        assert(notes@ =~= before.notes(event));
        assert(self@.pins =~= before.next(event).pins);
        notes
    }

    /// Takes note of the names of the programs in the object: those that
    /// implement a hook are dealt with in this order.
    pub fn list(&mut self, names: &Vec<String>)
        requires
            old(self)@.wf(),
            old(self)@.pending == Action::ListPrograms,
        ensures
            final(self)@ == old(self)@.listed(texts(names@)),
            final(self)@.wf(),
    {
        let ghost all = texts(names@);
        let mut queue: Vec<Hook> = Vec::new();
        let mut i: usize = 0;
        assert(queue@ =~= hooks_among(all.take(0)));
        while i < names.len()
            invariant
                i <= names@.len(),
                all == texts(names@),
                queue@ == hooks_among(all.take(i as int)),
            decreases names@.len() - i,
        {
            assert(all.take(i + 1).drop_last() =~= all.take(i as int));
            assert(all.take(i + 1).last() == names@[i as int]@);
            if let Some(h) = Hook::named(names[i].as_str()) {
                queue.push(h);
            }
            i += 1;
        }
        assert(all.take(i as int) =~= all);
        if queue.len() == 0 {
            self.pending = Action::Fail(LoadError::NoHooks);
        } else {
            self.pending = Action::LoadProgram(queue[0]);
            self.queue = queue;
            self.at = 0;
        }
    }
}

} // verus!
