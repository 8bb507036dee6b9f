//! What leads to each action of a load, and what a load knows of its pins.
use vstd::prelude::*;

use crate::loader::laws::{
    after, attached, is_run, law_attached_exactly_if_the_tag_differs,
    law_hook_is_found_by_its_name, tags_seen, Input,
};
use crate::loader::{
    hook_index, hook_label, hook_name, hook_named, hooks_among, pin_of, tag_of, Action, Event, Hook,
    LoadError, LoadState, Note, Pin, PinProbe,
};

verus! {

/// Whether `tag` stands in the table of loaded programs beside `id`, in the
/// first entry with that id.
pub open spec fn is_listed(table: Seq<(u32, u64)>, id: u32, tag: u64) -> bool {
    exists|i: int|
        0 <= i < table.len() && #[trigger] table[i] == (id, tag) && forall|j: int|
            0 <= j < i ==> (#[trigger] table[j]).0 != id
}

/// The tag of a program is the one that the first entry with its id holds,
/// unchanged; there is none exactly if no entry has the id.
pub proof fn law_tag_is_of_the_first_entry(table: Seq<(u32, u64)>, id: u32, tag: u64)
    ensures
        tag_of(table, id) == Some(tag) <==> exists|i: int|
            0 <= i < table.len() && #[trigger] table[i] == (id, tag) && forall|j: int|
                0 <= j < i ==> (#[trigger] table[j]).0 != id,
        tag_of(table, id) is None <==> forall|j: int|
            0 <= j < table.len() ==> (#[trigger] table[j]).0 != id,
    decreases table.len(),
{
    if table.len() > 0 {
        let rest = table.drop_first();
        law_tag_is_of_the_first_entry(rest, id, tag);
        if table[0].0 != id {
            if is_listed(rest, id, tag) {
                let i = choose|i: int|
                    0 <= i < rest.len() && #[trigger] rest[i] == (id, tag) && forall|j: int|
                        0 <= j < i ==> (#[trigger] rest[j]).0 != id;
                assert(table[i + 1] == (id, tag));
                assert forall|j: int| 0 <= j < i + 1 implies (#[trigger] table[j]).0 != id by {
                    if j > 0 {
                        assert(table[j] == rest[j - 1]);
                    }
                }
            }
            if is_listed(table, id, tag) {
                let i = choose|i: int|
                    0 <= i < table.len() && #[trigger] table[i] == (id, tag) && forall|j: int|
                        0 <= j < i ==> (#[trigger] table[j]).0 != id;
                assert(rest[i - 1] == (id, tag));
                assert forall|j: int| 0 <= j < i - 1 implies (#[trigger] rest[j]).0 != id by {
                    assert(rest[j] == table[j + 1]);
                }
            }
            if forall|j: int| 0 <= j < rest.len() ==> (#[trigger] rest[j]).0 != id {
                assert forall|j: int| 0 <= j < table.len() implies (#[trigger] table[j]).0
                    != id by {
                    if j > 0 {
                        assert(table[j] == rest[j - 1]);
                    }
                }
            }
            if forall|j: int| 0 <= j < table.len() ==> (#[trigger] table[j]).0 != id {
                assert forall|j: int| 0 <= j < rest.len() implies (#[trigger] rest[j]).0
                    != id by {
                    assert(rest[j] == table[j + 1]);
                }
            }
        } else {
            assert(table[0] == (id, table[0].1));
            if is_listed(table, id, tag) {
                let i = choose|i: int|
                    0 <= i < table.len() && #[trigger] table[i] == (id, tag) && forall|j: int|
                        0 <= j < i ==> (#[trigger] table[j]).0 != id;
                assert(i == 0);
            }
        }
    }
}

/// What is recorded of a probed pin: the tag that the table lists for the
/// program of the link, or that the pin is stale where the table lists none or
/// the link tells nothing of itself, or that there is no pin.
pub proof fn law_probe_is_recorded_by_the_table(table: Seq<(u32, u64)>, id: u32, tag: u64)
    ensures
        pin_of(PinProbe::Link(id), table) == Pin::Tagged(tag) <==> exists|i: int|
            0 <= i < table.len() && #[trigger] table[i] == (id, tag) && forall|j: int|
                0 <= j < i ==> (#[trigger] table[j]).0 != id,
        pin_of(PinProbe::Link(id), table) == Pin::Stale <==> forall|j: int|
            0 <= j < table.len() ==> (#[trigger] table[j]).0 != id,
        pin_of(PinProbe::Link(id), table) != Pin::Absent,
        pin_of(PinProbe::NoInfo, table) == Pin::Stale,
        pin_of(PinProbe::Absent, table) == Pin::Absent,
{
    law_tag_is_of_the_first_entry(table, id, tag);
    if let Some(t) = tag_of(table, id) {
        law_tag_is_of_the_first_entry(table, id, t);
    }
}

proof fn lemma_probes(s: LoadState, inputs: Seq<Input>)
    requires
        s.wf(),
        s.pending == Action::ProbePin(Hook::Connect),
        is_run(s, inputs),
    ensures
        after(s, inputs).wf(),
        after(s, inputs).table == s.table,
        inputs.len() == 0 ==> after(s, inputs).pending == Action::ProbePin(Hook::Connect),
        inputs.len() == 1 ==> after(s, inputs).pending == Action::ProbePin(Hook::Sendmsg),
        inputs.len() == 2 ==> after(s, inputs).pending == Action::ProbePin(Hook::Recvmsg),
        inputs.len() >= 3 ==> !(after(s, inputs).pending is ProbePin),
        after(s, inputs).pins.len() == (if inputs.len() < 3 {
            inputs.len() as int
        } else {
            3
        }),
        forall|k: int|
            #![trigger inputs[k]]
            #![trigger after(s, inputs).pins[k]]
            0 <= k < inputs.len() && k < 3 ==> (inputs[k] matches Input::Event(Event::Pin(probe))
                && after(s, inputs).pins[k] == pin_of(probe, s.table)),
    decreases inputs.len(),
{
    if inputs.len() > 0 {
        let init = inputs.drop_last();
        lemma_probes(s, init);
        let before = after(s, init);
        let now = after(s, inputs);
        assert forall|k: int|
            #![trigger inputs[k]]
            #![trigger now.pins[k]]
            0 <= k < inputs.len() && k < 3 implies (inputs[k] matches Input::Event(
            Event::Pin(probe),
        ) && now.pins[k] == pin_of(probe, s.table)) by {
            if k < init.len() {
                assert(inputs[k] == init[k]);
                assert(before.pins[k] == now.pins[k]);
            }
        }
    }
}

/// A load begins with a look at the pin of each hook, in their order, and what
/// it finds there is what it goes by to its end.
pub proof fn law_pins_are_as_probed(
    verbose: bool,
    rules: usize,
    table: Seq<(u32, u64)>,
    inputs: Seq<Input>,
    k: int,
)
    requires
        is_run(LoadState::initial(verbose, rules as int, table), inputs),
        0 <= k < 3,
        k < inputs.len(),
    ensures
        inputs[k] matches Input::Event(Event::Pin(probe)) && after(
            LoadState::initial(verbose, rules as int, table),
            inputs,
        ).pins[k] == pin_of(probe, table),
{
    lemma_probes(LoadState::initial(verbose, rules as int, table), inputs);
}

/// A hook whose pinned link belongs to a listed program is attached exactly if
/// the tag that is listed for that program is not the one that the new program
/// reports: a working link is kept.
pub proof fn law_working_link_is_kept(
    verbose: bool,
    rules: usize,
    table: Seq<(u32, u64)>,
    inputs: Seq<Input>,
    i: int,
    id: u32,
    e: int,
)
    requires
        is_run(LoadState::initial(verbose, rules as int, table), inputs),
        ({
            let t = after(LoadState::initial(verbose, rules as int, table), inputs);
            &&& 0 <= i < t.at
            &&& match t.queue[i] {
                Hook::Connect => inputs[0],
                Hook::Sendmsg => inputs[1],
                Hook::Recvmsg => inputs[2],
            } == Input::Event(Event::Pin(PinProbe::Link(id)))
        }),
        0 <= e < table.len(),
        table[e].0 == id,
        forall|j: int| 0 <= j < e ==> (#[trigger] table[j]).0 != id,
    ensures
        ({
            let s = LoadState::initial(verbose, rules as int, table);
            &&& tags_seen(s, inputs).contains_key(i)
            &&& attached(s, inputs).contains(i) <==> tags_seen(s, inputs)[i] != table[e].1
        }),
{
    let s = LoadState::initial(verbose, rules as int, table);
    let t = after(s, inputs);
    law_attached_exactly_if_the_tag_differs(verbose, rules, table, inputs, i);
    lemma_probes(s, inputs);
    lemma_enough_inputs(s, inputs);
    let k = hook_index(t.queue[i]);
    assert(inputs[k] == Input::Event(Event::Pin(PinProbe::Link(id))));
    assert(t.pins[k] == pin_of(PinProbe::Link(id), table));
    assert(table[e] == (id, table[e].1));
    law_probe_is_recorded_by_the_table(table, id, table[e].1);
}

/// A hook without a pin, with a link that tells nothing, or with a link of a
/// program that is not listed, is attached.
pub proof fn law_other_hooks_are_attached(
    verbose: bool,
    rules: usize,
    table: Seq<(u32, u64)>,
    inputs: Seq<Input>,
    i: int,
    probe: PinProbe,
)
    requires
        is_run(LoadState::initial(verbose, rules as int, table), inputs),
        ({
            let t = after(LoadState::initial(verbose, rules as int, table), inputs);
            &&& 0 <= i < t.at
            &&& match t.queue[i] {
                Hook::Connect => inputs[0],
                Hook::Sendmsg => inputs[1],
                Hook::Recvmsg => inputs[2],
            } == Input::Event(Event::Pin(probe))
        }),
        probe matches PinProbe::Link(id) ==> forall|j: int|
            0 <= j < table.len() ==> (#[trigger] table[j]).0 != id,
    ensures
        attached(LoadState::initial(verbose, rules as int, table), inputs).contains(i),
{
    let s = LoadState::initial(verbose, rules as int, table);
    let t = after(s, inputs);
    law_attached_exactly_if_the_tag_differs(verbose, rules, table, inputs, i);
    lemma_probes(s, inputs);
    lemma_enough_inputs(s, inputs);
    let k = hook_index(t.queue[i]);
    assert(inputs[k] == Input::Event(Event::Pin(probe)));
    assert(t.pins[k] == pin_of(probe, table));
    if let PinProbe::Link(id) = probe {
        law_probe_is_recorded_by_the_table(table, id, 0);
    }
}

proof fn lemma_enough_inputs(s: LoadState, inputs: Seq<Input>)
    requires
        s.wf(),
        s.pending == Action::ProbePin(Hook::Connect),
        is_run(s, inputs),
        after(s, inputs).at > 0,
    ensures
        inputs.len() >= 3,
{
    lemma_probes(s, inputs);
}

/// What leads to each action: the one before it and its outcome, and nothing
/// else.
pub proof fn law_each_action_has_its_cause(s: LoadState, event: Event, h: Hook, i: usize)
    requires
        s.wf(),
        s.awaits(event),
    ensures
        ({
            let t = s.next(event).pending;
            &&& t == Action::ProbePin(h) <==> {
                ||| s.pending == Action::ProbePin(Hook::Connect) && h == Hook::Sendmsg
                ||| s.pending == Action::ProbePin(Hook::Sendmsg) && h == Hook::Recvmsg
            }
            &&& t == Action::LoadObject <==> s.pending == Action::ProbePin(Hook::Recvmsg)
            &&& t == Action::TakeCfgMap <==> s.pending == Action::LoadObject && event == Event::Done
            &&& t == Action::WriteRule(i) <==> event == Event::Done && i < s.rules && {
                ||| s.pending == Action::TakeCfgMap && i == 0
                ||| i > 0 && s.pending == Action::WriteRule((i - 1) as usize)
            }
            &&& t == Action::ListPrograms <==> event == Event::Done && {
                ||| s.pending == Action::TakeCfgMap && s.rules == 0
                ||| s.rules > 0 && s.pending == Action::WriteRule((s.rules - 1) as usize)
            }
            &&& t == Action::RemovePin(h) <==> s.pending == Action::LoadProgram(h) && (
            event matches Event::Tag(tag) && s.pins[hook_index(h)] != Pin::Tagged(tag))
            &&& t == Action::AttachProgram(h) <==> s.pending == Action::RemovePin(h)
            &&& t == Action::PinLink(h) <==> s.pending == Action::AttachProgram(h) && event
                == Event::FdLink
            &&& t == Action::Finish <==> s.pending == Action::TakeHitMap && event == Event::Done
        }),
{
}

/// A hook is done with when its pin has the tag of its program, when it is
/// attached for good, or when its new link was to be pinned, whatever came of
/// that. Then, and only then, comes the next hook of the queue, or the hit
/// counter map after the last.
pub proof fn law_hooks_are_done_in_turn(s: LoadState, event: Event)
    requires
        s.wf(),
        s.awaits(event),
    ensures
        ({
            let t = s.next(event);
            let done = match s.pending {
                Action::LoadProgram(h) => event matches Event::Tag(tag) && s.pins[hook_index(h)]
                    == Pin::Tagged(tag),
                Action::AttachProgram(_) => event == Event::DurableLink,
                Action::PinLink(_) => true,
                _ => false,
            };
            &&& t.at == s.at + (if done {
                1int
            } else {
                0
            })
            &&& t.pending is LoadProgram || t.pending is TakeHitMap ==> done
            &&& done && s.at + 1 < s.queue.len() ==> t.pending == Action::LoadProgram(
                s.queue[s.at + 1],
            )
            &&& done && s.at + 1 == s.queue.len() ==> t.pending == Action::TakeHitMap
        }),
{
}

/// A step leaves alone what it is not about: the rules and the table never
/// change, the queue only when the programs are listed, and the pins only when
/// one is probed.
pub proof fn law_steps_leave_the_rest(s: LoadState, event: Event, names: Seq<Seq<char>>)
    ensures
        s.next(event).verbose == s.verbose,
        s.next(event).rules == s.rules,
        s.next(event).table == s.table,
        s.next(event).queue == s.queue,
        !(s.pending is ProbePin) ==> s.next(event).pins == s.pins,
        s.next(event).pins.take(s.pins.len() as int) == s.pins,
        s.listed(names).verbose == s.verbose,
        s.listed(names).rules == s.rules,
        s.listed(names).table == s.table,
        s.listed(names).pins == s.pins,
{
    assert(s.next(event).pins.take(s.pins.len() as int) =~= s.pins);
}

/// A load fails exactly if something is missing or an action other than those
/// on pins fails, with the error that says so.
pub proof fn law_fails_exactly_if(s: LoadState, event: Event)
    requires
        s.wf(),
        s.awaits(event),
    ensures
        s.next(event).pending is Fail <==> event == Event::Missing || (event == Event::Failed
            && !(s.pending is RemovePin) && !(s.pending is PinLink)),
        s.next(event).pending matches Action::Fail(e) ==> {
            &&& e == LoadError::Reported <==> event == Event::Failed
            &&& e == LoadError::NoCfgMap <==> event == Event::Missing && s.pending
                == Action::TakeCfgMap
            &&& e == LoadError::NoHitMap <==> event == Event::Missing && s.pending
                == Action::TakeHitMap
            &&& e != LoadError::NoHooks
        },
{
}

/// Which actions each event can come of.
pub proof fn law_events_and_their_actions(s: LoadState, probe: PinProbe, tag: u64)
    ensures
        s.awaits(Event::Pin(probe)) <==> s.pending is ProbePin,
        s.awaits(Event::Tag(tag)) <==> s.pending is LoadProgram,
        s.awaits(Event::FdLink) <==> s.pending is AttachProgram,
        s.awaits(Event::DurableLink) <==> s.pending is AttachProgram,
        s.awaits(Event::Missing) <==> s.pending is TakeCfgMap || s.pending is TakeHitMap,
        s.awaits(Event::Done) <==> s.pending is LoadObject || s.pending is WriteRule
            || s.pending is RemovePin || s.pending is PinLink || s.pending is TakeCfgMap
            || s.pending is TakeHitMap,
        s.awaits(Event::Failed) <==> s.awaits(Event::Done) || s.pending is LoadProgram
            || s.pending is AttachProgram,
{
}

/// A load begins with nothing known.
pub proof fn law_initial_state(verbose: bool, rules: int, table: Seq<(u32, u64)>)
    ensures
        ({
            let s = LoadState::initial(verbose, rules, table);
            &&& s.pending == Action::ProbePin(Hook::Connect)
            &&& s.verbose == verbose
            &&& s.rules == rules
            &&& s.table == table
            &&& s.pins.len() == 0
            &&& s.queue.len() == 0
            &&& s.at == 0
        }),
{
}

/// Whoever wants no notes is told of failed pins only, and is told of each.
pub proof fn law_quiet_load_tells_of_failed_pins(s: LoadState, event: Event, h: Hook)
    requires
        s.awaits(event),
    ensures
        s.notes(event).contains(Note::LinkNotPinned(h)) <==> s.pending == Action::PinLink(h)
            && event == Event::Failed,
        !s.verbose ==> forall|n: Note| s.notes(event).contains(n) ==> n is LinkNotPinned,
{
    let notes = s.notes(event);
    if s.pending == Action::PinLink(h) && event == Event::Failed {
        assert(notes[0] == Note::LinkNotPinned(h));
    }
    assert forall|n: Note| notes.contains(n) implies s.verbose || n is LinkNotPinned by {
        let i = choose|i: int| 0 <= i < notes.len() && notes[i] == n;
    }
}

/// The notes on a probed pin say what is recorded of it.
pub proof fn law_probe_notes(s: LoadState, h: Hook, probe: PinProbe, tag: u64)
    requires
        s.pending == Action::ProbePin(h),
        s.verbose,
    ensures
        ({
            let notes = s.notes(Event::Pin(probe));
            let pin = s.next(Event::Pin(probe)).pins.last();
            &&& notes.len() == 1
            &&& notes[0] == Note::NoPin(h) <==> pin == Pin::Absent
            &&& notes[0] == Note::PinTag(h, tag) <==> pin == Pin::Tagged(tag)
            &&& pin == Pin::Stale ==> match probe {
                PinProbe::Link(id) => notes[0] == Note::PinWithoutProgram(h, id),
                _ => notes[0] == Note::PinWithoutInfo(h),
            }
        }),
{
}

/// The notes on a loaded program give its tag, and then say whether its link
/// is kept, replaced because of another tag or replaced as stale.
pub proof fn law_program_notes(s: LoadState, h: Hook, tag: u64, before: u64)
    requires
        s.wf(),
        s.pending == Action::LoadProgram(h),
        s.verbose,
    ensures
        ({
            let notes = s.notes(Event::Tag(tag));
            let pin = s.pins[hook_index(h)];
            &&& 1 <= notes.len() <= 2
            &&& notes[0] == Note::ProgramTag(h, tag)
            &&& notes.len() == 1 <==> pin == Pin::Absent
            &&& notes.len() == 2 ==> {
                &&& notes[1] == Note::TagMatch(h) <==> pin == Pin::Tagged(tag)
                &&& notes[1] == Note::RelinkChanged(h, before, tag) <==> pin == Pin::Tagged(before)
                    && before != tag
                &&& notes[1] == Note::RelinkStale(h, tag) <==> pin == Pin::Stale
            }
        }),
{
}

/// What else is told: a written rule, a pinned link and a link that lasts
/// without a pin, each by itself; other steps pass in silence.
pub proof fn law_other_notes(s: LoadState, event: Event)
    requires
        s.awaits(event),
        s.verbose,
        !(s.pending is ProbePin),
        !(s.pending is LoadProgram && event is Tag),
    ensures
        s.pending matches Action::WriteRule(i) ==> s.notes(event) == (if event == Event::Done {
            seq![Note::RuleWritten(i)]
        } else {
            Seq::empty()
        }),
        s.pending matches Action::PinLink(h) ==> s.notes(event) == (if event == Event::Done {
            seq![Note::LinkPinned(h)]
        } else {
            seq![Note::LinkNotPinned(h)]
        }),
        s.pending matches Action::AttachProgram(h) ==> s.notes(event) == (if event
            == Event::DurableLink {
            seq![Note::LinkDurable(h)]
        } else {
            Seq::empty()
        }),
        !(s.pending is WriteRule) && !(s.pending is PinLink) && !(s.pending is AttachProgram)
            ==> s.notes(event).len() == 0,
{
}

/// The hooks of an object are found program by program: those of two lists one
/// after the other are those of the first and then those of the second, and a
/// program is a hook exactly if it has the name of one.
pub proof fn law_hooks_by_name(
    a: Seq<Seq<char>>,
    b: Seq<Seq<char>>,
    name: Seq<char>,
    h: Hook,
)
    ensures
        hooks_among(Seq::empty()) == Seq::<Hook>::empty(),
        hooks_among(seq![hook_name(h)]) == seq![h],
        (forall|g: Hook| name != #[trigger] hook_name(g)) ==> hooks_among(seq![name]) == Seq::<
            Hook,
        >::empty(),
        hooks_among(a + b) == hooks_among(a) + hooks_among(b),
        hook_named(name) == Some(h) <==> name == hook_name(h),
    decreases b.len(),
{
    reveal_with_fuel(hooks_among, 2);
    law_hook_is_found_by_its_name(h);
    if let Some(g) = hook_named(name) {
        assert(name == hook_name(g));
    }
    assert(seq![hook_name(h)].drop_last() =~= Seq::<Seq<char>>::empty());
    assert(seq![name].drop_last() =~= Seq::<Seq<char>>::empty());
    assert(hooks_among(seq![hook_name(h)]) =~= seq![h]);
    if b.len() == 0 {
        assert(a + b =~= a);
        assert(hooks_among(b) =~= Seq::<Hook>::empty());
        assert(hooks_among(a) + hooks_among(b) =~= hooks_among(a));
    } else {
        law_hooks_by_name(a, b.drop_last(), name, h);
        assert((a + b).drop_last() =~= a + b.drop_last());
        assert((a + b).last() == b.last());
        assert(hooks_among(a + b) =~= hooks_among(a) + hooks_among(b));
    }
}

/// A list of programs makes their hooks the queue, and the first of them is
/// loaded.
pub proof fn law_listed_hooks_are_the_queue(s: LoadState, names: Seq<Seq<char>>)
    requires
        hooks_among(names).len() > 0,
    ensures
        s.listed(names).queue == hooks_among(names),
        s.listed(names).at == 0,
        s.listed(names).pending == Action::LoadProgram(hooks_among(names)[0]),
{
}

/// No two hooks share a name, a label or a key, and the keys are the numbers
/// below 3.
pub proof fn law_hooks_are_told_apart(g: Hook, h: Hook)
    ensures
        hook_name(g) == hook_name(h) <==> g == h,
        hook_label(g) == hook_label(h) <==> g == h,
        hook_index(g) == hook_index(h) <==> g == h,
        0 <= hook_index(h) < 3,
        hook_name(Hook::Connect) == "redirect_dns_query_connect"@,
        hook_name(Hook::Sendmsg) == "redirect_dns_query_sendmsg"@,
        hook_name(Hook::Recvmsg) == "rewrite_dns_answer_recvmsg"@,
{
    law_hook_is_found_by_its_name(g);
    law_hook_is_found_by_its_name(h);
    reveal_strlit("connect4");
    reveal_strlit("sendmsg4");
    reveal_strlit("recvmsg4");
    assert("connect4"@[0] == 'c' && "sendmsg4"@[0] == 's' && "recvmsg4"@[0] == 'r');
}

} // verus!
