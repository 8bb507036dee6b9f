//! What holds of every load, whatever the outcomes of its actions are.
use vstd::prelude::*;

use crate::loader::{
    hook_index, hook_name, hook_named, hooks_among, Action, Event, Hook, LoadError, LoadState, Pin,
};

verus! {

/// Something that a load is told of.
pub enum Input {
    Event(Event),
    /// The names of the programs in the object.
    Names(Seq<Seq<char>>),
}

/// Whether a load in this state can be told of `input`.
pub open spec fn accepts(s: LoadState, input: Input) -> bool {
    match input {
        Input::Event(e) => s.awaits(e),
        Input::Names(_) => s.pending == Action::ListPrograms,
    }
}

/// The state that `input` leads to.
pub open spec fn follow(s: LoadState, input: Input) -> LoadState {
    match input {
        Input::Event(e) => s.next(e),
        Input::Names(names) => s.listed(names),
    }
}

/// The state after `inputs`.
pub open spec fn after(s: LoadState, inputs: Seq<Input>) -> LoadState
    decreases inputs.len(),
{
    if inputs.len() == 0 {
        s
    } else {
        follow(after(s, inputs.drop_last()), inputs.last())
    }
}

/// Whether each of `inputs` can come when it comes.
pub open spec fn is_run(s: LoadState, inputs: Seq<Input>) -> bool
    decreases inputs.len(),
{
    inputs.len() > 0 ==> {
        &&& is_run(s, inputs.drop_last())
        &&& accepts(after(s, inputs.drop_last()), inputs.last())
    }
}

/// Whether the load is over.
pub open spec fn is_over(a: Action) -> bool {
    a is Finish || a is Fail
}

/// Every step keeps the state well formed.
pub proof fn law_steps_keep_wf(s: LoadState, input: Input)
    requires
        s.wf(),
        accepts(s, input),
    ensures
        follow(s, input).wf(),
{
}

/// A load that is not over always awaits something: some input is accepted.
pub proof fn law_no_dead_end(s: LoadState)
    requires
        s.wf(),
        !is_over(s.pending),
    ensures
        exists|input: Input| accepts(s, input),
{
    match s.pending {
        Action::ProbePin(_) => {
            assert(accepts(s, Input::Event(Event::Pin(crate::loader::PinProbe::Absent))));
        },
        Action::ListPrograms => {
            assert(accepts(s, Input::Names(Seq::empty())));
        },
        _ => {
            assert(accepts(s, Input::Event(Event::Failed)));
        },
    }
}

/// The phase of an action; later actions have smaller numbers.
pub open spec fn phase(a: Action) -> int {
    match a {
        Action::ProbePin(_) => 7,
        Action::LoadObject => 6,
        Action::TakeCfgMap => 5,
        Action::WriteRule(_) => 4,
        Action::ListPrograms => 3,
        Action::LoadProgram(_)
        | Action::RemovePin(_)
        | Action::AttachProgram(_)
        | Action::PinLink(_) => 2,
        Action::TakeHitMap => 1,
        Action::Finish | Action::Fail(_) => 0,
    }
}

/// How much is left to do within the phase of a state.
pub open spec fn left_in_phase(s: LoadState) -> int {
    match s.pending {
        Action::ProbePin(h) => 3 - hook_index(h),
        Action::WriteRule(i) => s.rules - i,
        Action::LoadProgram(_) => 4 * (s.queue.len() - s.at),
        Action::RemovePin(_) => 4 * (s.queue.len() - s.at) - 1,
        Action::AttachProgram(_) => 4 * (s.queue.len() - s.at) - 2,
        Action::PinLink(_) => 4 * (s.queue.len() - s.at) - 3,
        _ => 0,
    }
}

/// Every step brings a load nearer to its end: it enters a later phase, or
/// less is left to do in the same one. So every load ends.
pub proof fn law_every_step_makes_progress(s: LoadState, input: Input)
    requires
        s.wf(),
        accepts(s, input),
    ensures
        ({
            let t = follow(s, input);
            ||| phase(t.pending) < phase(s.pending)
            ||| phase(t.pending) == phase(s.pending) && 0 <= left_in_phase(t) < left_in_phase(s)
        }),
{
}

/// The state in which a load stops where it is told what `world` says.
pub open spec fn ending(s: LoadState, world: spec_fn(LoadState) -> Input) -> LoadState
    decreases phase(s.pending), left_in_phase(s),
{
    if !s.wf() || !accepts(s, world(s)) {
        s
    } else {
        proof {
            law_every_step_makes_progress(s, world(s));
        }
        ending(follow(s, world(s)), world)
    }
}

/// Whatever comes of the actions, a load ends: finished or failed.
pub proof fn law_every_load_ends(s: LoadState, world: spec_fn(LoadState) -> Input)
    requires
        s.wf(),
        forall|t: LoadState|
            t.wf() && !is_over(t.pending) ==> accepts(t, #[trigger] world(t)),
    ensures
        is_over(ending(s, world).pending),
        ending(s, world).wf(),
    decreases phase(s.pending), left_in_phase(s),
{
    if accepts(s, world(s)) {
        law_steps_keep_wf(s, world(s));
        law_every_step_makes_progress(s, world(s));
        law_every_load_ends(follow(s, world(s)), world);
    } else {
        assert(is_over(s.pending));
    }
}

/// Whether `input` is no failure: nothing is missing, only pins may fail, and
/// a list of programs names a hook.
pub open spec fn is_good(s: LoadState, input: Input) -> bool {
    match input {
        Input::Event(e) => {
            &&& !(e is Missing)
            &&& e is Failed ==> s.pending is RemovePin || s.pending is PinLink
        },
        Input::Names(names) => hooks_among(names).len() > 0,
    }
}

/// A load in which nothing fails but pins, of an object that holds a hook
/// program, finishes.
pub proof fn law_good_load_finishes(s: LoadState, world: spec_fn(LoadState) -> Input)
    requires
        s.wf(),
        !(s.pending is Fail),
        forall|t: LoadState|
            t.wf() && !is_over(t.pending) ==> accepts(t, #[trigger] world(t)) && is_good(
                t,
                world(t),
            ),
    ensures
        ending(s, world).pending == Action::Finish,
    decreases phase(s.pending), left_in_phase(s),
{
    if accepts(s, world(s)) {
        law_steps_keep_wf(s, world(s));
        law_every_step_makes_progress(s, world(s));
        assert(!is_over(s.pending));
        assert(is_good(s, world(s)));
        assert(!(follow(s, world(s)).pending is Fail));
        law_good_load_finishes(follow(s, world(s)), world);
    } else {
        assert(is_over(s.pending));
    }
}

/// Whether rule `r` was written by one of the `inputs`: it was the pending
/// action, and it was reported as done.
pub open spec fn rule_written(s: LoadState, inputs: Seq<Input>, r: int) -> bool {
    exists|j: int|
        0 <= j < inputs.len() && inputs[j] == Input::Event(Event::Done) && (
        #[trigger] after(s, inputs.take(j))).pending == Action::WriteRule(r as usize)
}

/// How many rules must have been written for a state to be reached.
pub open spec fn rules_due(s: LoadState) -> int {
    match s.pending {
        Action::ProbePin(_) | Action::LoadObject | Action::TakeCfgMap | Action::Fail(_) => 0,
        Action::WriteRule(i) => i as int,
        _ => s.rules,
    }
}

/// The rules that are due when a state is reached have been written.
proof fn lemma_rules_written(s: LoadState, inputs: Seq<Input>)
    requires
        s.wf(),
        s.pending == Action::ProbePin(Hook::Connect),
        is_run(s, inputs),
    ensures
        after(s, inputs).wf(),
        after(s, inputs).rules == s.rules,
        forall|r: int|
            0 <= r < rules_due(after(s, inputs)) ==> #[trigger] rule_written(s, inputs, r),
    decreases inputs.len(),
{
    if inputs.len() > 0 {
        let init = inputs.drop_last();
        let before = after(s, init);
        lemma_rules_written(s, init);
        law_steps_keep_wf(before, inputs.last());
        let now = after(s, inputs);
        assert forall|r: int| 0 <= r < rules_due(now) implies #[trigger] rule_written(
            s,
            inputs,
            r,
        ) by {
            if r < rules_due(before) {
                assert(rule_written(s, init, r));
                let j = choose|j: int|
                    0 <= j < init.len() && init[j] == Input::Event(Event::Done) && (
                    #[trigger] after(s, init.take(j))).pending == Action::WriteRule(r as usize);
                assert(inputs.take(j) =~= init.take(j));
                assert(inputs[j] == init[j]);
            } else {
                let j = inputs.len() - 1;
                assert(inputs.take(j) =~= init);
                assert(before.pending == Action::WriteRule(r as usize));
                assert(inputs[j] == Input::Event(Event::Done));
            }
        }
    }
}

/// No hook program is loaded or attached before every rule is in the rule map:
/// a fresh program never runs against stale rules.
pub proof fn law_rules_before_programs(
    verbose: bool,
    rules: usize,
    table: Seq<(u32, u64)>,
    inputs: Seq<Input>,
    r: int,
)
    requires
        is_run(LoadState::initial(verbose, rules as int, table), inputs),
        ({
            let a = after(LoadState::initial(verbose, rules as int, table), inputs).pending;
            a is LoadProgram || a is RemovePin || a is AttachProgram || a is PinLink
                || a is TakeHitMap || a is Finish
        }),
        0 <= r < rules,
    ensures
        rule_written(LoadState::initial(verbose, rules as int, table), inputs, r),
{
    lemma_rules_written(LoadState::initial(verbose, rules as int, table), inputs);
}

/// A program is attached only right after its old pin was removed, so that
/// the new link can take its place.
pub proof fn law_stale_pin_goes_first(s: LoadState, input: Input, h: Hook)
    requires
        s.wf(),
        accepts(s, input),
        follow(s, input).pending == Action::AttachProgram(h),
    ensures
        s.pending == Action::RemovePin(h),
{
}

/// A hook whose pinned link belongs to a program with the tag of the new one
/// is left alone: its pin is not removed and nothing is attached.
pub proof fn law_same_tag_keeps_the_link(s: LoadState, h: Hook, tag: u64)
    requires
        s.wf(),
        s.pending == Action::LoadProgram(h),
        s.pins[hook_index(h)] == Pin::Tagged(tag),
    ensures
        s.next(Event::Tag(tag)) == s.hook_done(),
        s.next(Event::Tag(tag)).at == s.at + 1,
        s.next(Event::Tag(tag)).pending is LoadProgram || s.next(
            Event::Tag(tag),
        ).pending is TakeHitMap,
{
}

/// A hook without a pin, with a stale pin or with the pin of another program
/// is attached anew.
pub proof fn law_other_tag_relinks(s: LoadState, h: Hook, tag: u64)
    requires
        s.wf(),
        s.pending == Action::LoadProgram(h),
        s.pins[hook_index(h)] != Pin::Tagged(tag),
    ensures
        s.next(Event::Tag(tag)).pending == Action::RemovePin(h),
{
}

/// The tags that were reported for the hook programs of the object, by their
/// places in the queue.
pub open spec fn tags_seen(s: LoadState, inputs: Seq<Input>) -> Map<int, u64>
    decreases inputs.len(),
{
    if inputs.len() == 0 {
        Map::empty()
    } else {
        let init = inputs.drop_last();
        let t = after(s, init);
        match (t.pending, inputs.last()) {
            (Action::LoadProgram(_), Input::Event(Event::Tag(tag))) => tags_seen(s, init).insert(
                t.at,
                tag,
            ),
            _ => tags_seen(s, init),
        }
    }
}

/// The places in the queue whose hooks were attached.
pub open spec fn attached(s: LoadState, inputs: Seq<Input>) -> Set<int>
    decreases inputs.len(),
{
    if inputs.len() == 0 {
        Set::empty()
    } else {
        let init = inputs.drop_last();
        let t = after(s, init);
        match (t.pending, inputs.last()) {
            (Action::AttachProgram(_), Input::Event(Event::FdLink))
            | (Action::AttachProgram(_), Input::Event(Event::DurableLink)) => attached(
                s,
                init,
            ).insert(t.at),
            _ => attached(s, init),
        }
    }
}

/// Whether the hook at place `i` of the queue has a pin with exactly the tag
/// that was reported for its program.
pub open spec fn tag_is_pinned(s: LoadState, inputs: Seq<Input>, i: int) -> bool {
    let t = after(s, inputs);
    t.pins[hook_index(t.queue[i])] == Pin::Tagged(tags_seen(s, inputs)[i])
}

/// Whether the hook at place `i` of the queue was attached exactly if its pin
/// does not have the tag of its program.
pub open spec fn linked_by_tag(s: LoadState, inputs: Seq<Input>, i: int) -> bool {
    &&& tags_seen(s, inputs).contains_key(i)
    &&& attached(s, inputs).contains(i) <==> !tag_is_pinned(s, inputs, i)
}

/// What is known of the current hook while it is dealt with.
spec fn current_is_due(s: LoadState, inputs: Seq<Input>) -> bool {
    let t = after(s, inputs);
    match t.pending {
        Action::RemovePin(_) | Action::AttachProgram(_) => {
            &&& !attached(s, inputs).contains(t.at)
            &&& tags_seen(s, inputs).contains_key(t.at)
            &&& !tag_is_pinned(s, inputs, t.at)
        },
        Action::PinLink(_) => linked_by_tag(s, inputs, t.at) && attached(s, inputs).contains(t.at),
        Action::Fail(_) => attached(s, inputs).contains(t.at) ==> linked_by_tag(s, inputs, t.at),
        _ => !attached(s, inputs).contains(t.at),
    }
}

proof fn lemma_attached_by_tag(s: LoadState, inputs: Seq<Input>)
    requires
        s.wf(),
        s.pending == Action::ProbePin(Hook::Connect),
        is_run(s, inputs),
    ensures
        after(s, inputs).wf(),
        forall|i: int| #[trigger]
            attached(s, inputs).contains(i) ==> 0 <= i <= after(s, inputs).at && i < after(
                s,
                inputs,
            ).queue.len(),
        forall|i: int| 0 <= i < after(s, inputs).at ==> #[trigger] linked_by_tag(s, inputs, i),
        current_is_due(s, inputs),
    decreases inputs.len(),
{
    if inputs.len() > 0 {
        let init = inputs.drop_last();
        let before = after(s, init);
        let now = after(s, inputs);
        lemma_attached_by_tag(s, init);
        law_steps_keep_wf(before, inputs.last());
        assert forall|i: int| 0 <= i < now.at implies #[trigger] linked_by_tag(s, inputs, i) by {
            if i < before.at {
                assert(linked_by_tag(s, init, i));
            }
        }
        assert forall|i: int| #[trigger] attached(s, inputs).contains(i) implies 0 <= i <= now.at
            && i < now.queue.len() by {
            if i != before.at {
                assert(attached(s, init).contains(i));
            }
        }
    }
}

/// Over a whole load, whatever its events are, a hook that was dealt with was
/// attached exactly if it had no pin with the tag of its new program.
pub proof fn law_attached_exactly_if_the_tag_differs(
    verbose: bool,
    rules: usize,
    table: Seq<(u32, u64)>,
    inputs: Seq<Input>,
    i: int,
)
    requires
        is_run(LoadState::initial(verbose, rules as int, table), inputs),
        0 <= i < after(LoadState::initial(verbose, rules as int, table), inputs).at,
    ensures
        linked_by_tag(LoadState::initial(verbose, rules as int, table), inputs, i),
{
    lemma_attached_by_tag(LoadState::initial(verbose, rules as int, table), inputs);
}

/// A second load of the same object attaches nothing, in whatever order its
/// programs are listed: where they implement hooks of the first load, and each
/// such hook is found pinned with the tag that the first load saw, which is
/// its tag again, no hook is attached anew.
pub proof fn law_second_load_attaches_nothing(
    first: LoadState,
    first_inputs: Seq<Input>,
    second: LoadState,
    inputs: Seq<Input>,
)
    requires
        is_run(first, first_inputs),
        after(first, first_inputs).pending == Action::Finish,
        second.wf(),
        second.pending == Action::ProbePin(Hook::Connect),
        is_run(second, inputs),
        ({
            let queue = after(first, first_inputs).queue;
            let t = after(second, inputs);
            let tags = tags_seen(first, first_inputs);
            let new_tags = tags_seen(second, inputs);
            &&& forall|i: int|
                0 <= i < t.queue.len() ==> queue.contains(#[trigger] t.queue[i])
            &&& forall|i: int, j: int|
                0 <= i < t.queue.len() && 0 <= j < queue.len() && #[trigger] t.queue[i]
                    == #[trigger] queue[j] ==> {
                    &&& t.pins[hook_index(queue[j])] == Pin::Tagged(tags[j])
                    &&& new_tags.contains_key(i) ==> new_tags[i] == tags[j]
                }
        }),
    ensures
        attached(second, inputs) == Set::<int>::empty(),
{
    lemma_attached_by_tag(second, inputs);
    let queue = after(first, first_inputs).queue;
    let t = after(second, inputs);
    assert forall|i: int| !attached(second, inputs).contains(i) by {
        if attached(second, inputs).contains(i) {
            assert(linked_by_tag(second, inputs, i));
            assert(queue.contains(t.queue[i]));
            let j = choose|j: int| 0 <= j < queue.len() && queue[j] == t.queue[i];
            assert(t.queue[i] == queue[j]);
        }
    }
}

/// A failed pin or a failed removal of a pin does not stop the load.
pub proof fn law_pin_failures_are_not_fatal(s: LoadState, event: Event)
    requires
        s.wf(),
        s.awaits(event),
        s.pending is PinLink || s.pending is RemovePin,
    ensures
        !(s.next(event).pending is Fail),
{
}

/// A load finishes only with all hook programs of the object dealt with, and
/// there is at least one.
pub proof fn law_finish_means_all_hooks(s: LoadState)
    requires
        s.wf(),
        s.pending == Action::Finish,
    ensures
        s.queue.len() > 0,
        s.at == s.queue.len(),
{
}

/// An object without hook programs is an error, and only such a list is one.
pub proof fn law_no_hooks_is_an_error(s: LoadState, names: Seq<Seq<char>>)
    requires
        s.wf(),
        s.pending == Action::ListPrograms,
    ensures
        s.listed(names).pending == Action::Fail(LoadError::NoHooks) <==> hooks_among(names).len()
            == 0,
        s.listed(names).pending is Fail ==> s.listed(names).pending == Action::Fail(
            LoadError::NoHooks,
        ),
{
}

/// No two hooks share a program name: each is found by its own.
pub proof fn law_hook_is_found_by_its_name(h: Hook)
    ensures
        hook_named(hook_name(h)) == Some(h),
{
    reveal_strlit("redirect_dns_query_connect");
    reveal_strlit("redirect_dns_query_sendmsg");
    reveal_strlit("rewrite_dns_answer_recvmsg");
    assert("redirect_dns_query_connect"@[19] != "redirect_dns_query_sendmsg"@[19]);
    assert("redirect_dns_query_connect"@[2] != "rewrite_dns_answer_recvmsg"@[2]);
    assert("redirect_dns_query_sendmsg"@[2] != "rewrite_dns_answer_recvmsg"@[2]);
}

} // verus!
