//! What a flat machine expands to, as plain values: the names of the
//! generated types and the events and callbacks that the generated
//! dispatch treats apart.

use vstd::prelude::*;

use super::event::EventKind;
use super::guard::{guard_callbacks, AsyncIdent, GuardExpression};
use super::machine::{insert_name_into, EventMapping, ParsedStateMachine, StateEvents, Transition};
use super::text_order::{lemma_texts_order_is_total, rows_view, sort_texts, texts_order, texts_view};
use super::types::{insert_name, name_views};

verus! {

/// The generated type name for a machine: its name followed by `suffix`.
pub open spec fn generated_name(name: Option<String>, suffix: Seq<char>) -> Seq<char> {
    match name {
        Some(own) => own@ + suffix,
        None => suffix,
    }
}

/// Every trigger entry of every state, state by state.
pub open spec fn all_mappings(states: Seq<StateEvents>) -> Seq<EventMapping>
    decreases states.len(),
{
    if states.len() == 0 {
        Seq::empty()
    } else {
        all_mappings(states.drop_last()) + states.last().mappings@
    }
}

/// The events some row names as outside types, each once, in the order met.
pub open spec fn outside_events(mappings: Seq<EventMapping>) -> Seq<Seq<char>>
    decreases mappings.len(),
{
    if mappings.len() == 0 {
        Seq::empty()
    } else {
        let before = outside_events(mappings.drop_last());
        if mappings.last().event_external {
            insert_name(before, mappings.last().event@)
        } else {
            before
        }
    }
}

/// The events named by `completion<E>` triggers, each once, in the order
/// met.
pub open spec fn completion_events(mappings: Seq<EventMapping>) -> Seq<Seq<char>>
    decreases mappings.len(),
{
    if mappings.len() == 0 {
        Seq::empty()
    } else {
        let before = completion_events(mappings.drop_last());
        let last = mappings.last();
        if last.event_kind == EventKind::Completion && !last.event_wildcard {
            insert_name(before, last.event@)
        } else {
            before
        }
    }
}

/// Some transition of the trigger entries defers its event.
pub open spec fn defers_events(mappings: Seq<EventMapping>) -> bool {
    exists|i: int, t: int|
        0 <= i < mappings.len() && 0 <= t < mappings[i].transitions@.len() && (#[trigger] mappings[i].transitions@[t]).defer
}

/// Some trigger is an anonymous completion.
pub open spec fn anonymous_completion(mappings: Seq<EventMapping>) -> bool {
    exists|i: int|
        0 <= i < mappings.len() && (#[trigger] mappings[i]).event_kind == EventKind::Completion
            && mappings[i].event_wildcard
}

/// The actions a transition runs, its first action then the others.
pub open spec fn transition_actions(transition: Transition) -> Seq<AsyncIdent> {
    match transition.action {
        Some(action) => seq![action] + transition.additional_actions@,
        None => transition.additional_actions@,
    }
}

/// `names` with the names of `calls` inserted in turn.
pub open spec fn insert_calls(names: Seq<Seq<char>>, calls: Seq<AsyncIdent>) -> Seq<Seq<char>>
    decreases calls.len(),
{
    if calls.len() == 0 {
        names
    } else {
        insert_name(insert_calls(names, calls.drop_last()), calls.last().ident@)
    }
}

/// `names` with the action callbacks of the transitions inserted in turn.
pub open spec fn transitions_actions(names: Seq<Seq<char>>, transitions: Seq<Transition>) -> Seq<Seq<char>>
    decreases transitions.len(),
{
    if transitions.len() == 0 {
        names
    } else {
        insert_calls(
            transitions_actions(names, transitions.drop_last()),
            transition_actions(transitions.last()),
        )
    }
}

/// The action callbacks that the trigger entries run, each once, in the
/// order met: one context method each.
pub open spec fn action_callbacks(mappings: Seq<EventMapping>) -> Seq<Seq<char>>
    decreases mappings.len(),
{
    if mappings.len() == 0 {
        Seq::empty()
    } else {
        transitions_actions(action_callbacks(mappings.drop_last()), mappings.last().transitions@)
    }
}

/// The guard callbacks a transition checks, in the order written.
pub open spec fn transition_guards(transition: Transition) -> Seq<AsyncIdent> {
    match transition.guard {
        Some(guard) => guard_callbacks(guard),
        None => Seq::empty(),
    }
}

/// `names` with the guard callbacks of the transitions inserted in turn.
pub open spec fn transitions_guards(names: Seq<Seq<char>>, transitions: Seq<Transition>) -> Seq<Seq<char>>
    decreases transitions.len(),
{
    if transitions.len() == 0 {
        names
    } else {
        insert_calls(
            transitions_guards(names, transitions.drop_last()),
            transition_guards(transitions.last()),
        )
    }
}

/// The guard callbacks that the trigger entries check, each once, in the
/// order met: one context method each.
pub open spec fn guard_callback_names(mappings: Seq<EventMapping>) -> Seq<Seq<char>>
    decreases mappings.len(),
{
    if mappings.len() == 0 {
        Seq::empty()
    } else {
        transitions_guards(guard_callback_names(mappings.drop_last()), mappings.last().transitions@)
    }
}

/// Each name as a one-name row.
pub open spec fn single_rows(names: Seq<Seq<char>>) -> Seq<Seq<Seq<char>>> {
    names.map_values(|name: Seq<char>| seq![name])
}

/// The names in the order the generated enums list their variants: sorted
/// by text.
pub open spec fn sorted_names(names: Seq<Seq<char>>) -> Seq<Seq<char>> {
    single_rows(names).sort_by(texts_order()).map_values(|row: Seq<Seq<char>>| row[0])
}

/// Sorts names by text: see `sorted_names`.
pub(crate) fn sort_names(names: &Vec<String>) -> (sorted: Vec<String>)
    ensures
        name_views(sorted@) == sorted_names(name_views(names@)),
{
    let mut rows: Vec<Vec<String>> = Vec::new();
    let mut index: usize = 0;
    while index < names.len()
        invariant
            index <= names@.len(),
            rows@.len() == index,
            rows_view(rows@) == single_rows(name_views(names@.take(index as int))),
        decreases names@.len() - index,
    {
        let mut row: Vec<String> = Vec::new();
        row.push(names[index].clone());
        let ghost before = rows@;
        rows.push(row);
        proof {
            assert(texts_view(row) =~= seq![names@[index as int]@]);
            assert(names@.take(index + 1) =~= names@.take(index as int).push(names@[index as int]));
            let goal = single_rows(name_views(names@.take(index + 1)));
            assert(goal.len() == index + 1);
            assert(rows@ == before.push(row));
            assert forall|i: int| 0 <= i < rows@.len() implies rows_view(rows@)[i] == goal[i] by {
                if i < before.len() {
                    assert(rows@[i] == before[i]);
                    assert(rows_view(before)[i] == single_rows(name_views(names@.take(index as int)))[i]);
                } else {
                    assert(rows@[i] == row);
                }
            }
            assert(rows_view(rows@) =~= goal);
        }
        index = index + 1;
    }
    assert(names@.take(index as int) =~= names@);
    let ghost input = rows_view(rows@);
    let sorted_rows = sort_texts(rows);
    let ghost order_view = rows_view(sorted_rows@);
    proof {
        lemma_texts_order_is_total();
        input.lemma_sort_by_ensures(texts_order());
        input.to_multiset_ensures();
        order_view.to_multiset_ensures();
        assert forall|k: int| 0 <= k < order_view.len() implies (#[trigger] order_view[k]).len() == 1 by {
            assert(order_view.contains(order_view[k]));
            if !input.contains(order_view[k]) {
                assert(false);
            }
            let j = choose|j: int| 0 <= j < input.len() && input[j] == order_view[k];
            assert(input[j] == seq![name_views(names@)[j]]);
        }
    }
    let mut sorted: Vec<String> = Vec::new();
    let mut k: usize = 0;
    while k < sorted_rows.len()
        invariant
            k <= sorted_rows@.len(),
            sorted@.len() == k,
            order_view == rows_view(sorted_rows@),
            forall|i: int| 0 <= i < order_view.len() ==> (#[trigger] order_view[i]).len() == 1,
            name_views(sorted@) == order_view.take(k as int).map_values(|row: Seq<Seq<char>>| row[0]),
        decreases sorted_rows@.len() - k,
    {
        assert(order_view[k as int].len() == 1);
        assert(texts_view(sorted_rows@[k as int]) == order_view[k as int]);
        let first = sorted_rows[k][0].clone();
        assert(first@ == order_view[k as int][0]);
        let ghost before = sorted@;
        sorted.push(first);
        proof {
            let goal = order_view.take(k + 1).map_values(|row: Seq<Seq<char>>| row[0]);
            assert(goal.len() == k + 1);
            assert(sorted@ == before.push(first));
            assert forall|i: int| 0 <= i < sorted@.len() implies name_views(sorted@)[i] == goal[i] by {
                if i < before.len() {
                    assert(sorted@[i] == before[i]);
                    assert(name_views(before)[i] == order_view.take(k as int).map_values(|row: Seq<Seq<char>>| row[0])[i]);
                }
            }
            assert(name_views(sorted@) =~= goal);
        }
        k = k + 1;
    }
    assert(order_view.take(k as int) =~= order_view);
    sorted
}

/// The plain-value plan of a flat machine's expansion.
#[derive(Debug)]
pub struct GeneratedMachine {
    /// The states enum, `{Name}States`.
    pub states_name: String,
    /// The events enum, `{Name}Events`.
    pub events_name: String,
    /// The completion-origin enum, `{Name}CompletionOrigin`.
    pub completion_origin_name: String,
    /// The error enum, `{Name}Error`.
    pub error_name: String,
    /// The machine struct, `{Name}StateMachine`.
    pub machine_name: String,
    /// The context trait, `{Name}StateMachineContext`.
    pub context_name: String,
    /// The events written as outside types, each once.
    pub outside_events: Vec<String>,
    /// The events that `completion<E>` triggers name, each once.
    pub completion_events: Vec<String>,
    /// Whether some state has an anonymous completion.
    pub anonymous_completion: bool,
    /// The action callbacks, each once: one context method each.
    pub actions: Vec<String>,
    /// The guard callbacks, each once: one context method each.
    pub guards: Vec<String>,
    /// Whether some transition defers its event, so the machine keeps a
    /// queue of deferred events.
    pub defers: bool,
    /// The variants of the states enum: every state, sorted by name.
    pub state_variants: Vec<String>,
    /// The variants of the events enum: every event, sorted by name.
    pub event_variants: Vec<String>,
}

/// The plan `plan` is of the machine `sm`.
pub open spec fn plans(sm: ParsedStateMachine, plan: GeneratedMachine) -> bool {
    let mappings = all_mappings(sm.states_events_mapping@);
    &&& plan.states_name@ == generated_name(sm.name, "States"@)
    &&& plan.events_name@ == generated_name(sm.name, "Events"@)
    &&& plan.completion_origin_name@ == generated_name(sm.name, "CompletionOrigin"@)
    &&& plan.error_name@ == generated_name(sm.name, "Error"@)
    &&& plan.machine_name@ == generated_name(sm.name, "StateMachine"@)
    &&& plan.context_name@ == generated_name(sm.name, "StateMachineContext"@)
    &&& name_views(plan.outside_events@) == outside_events(mappings)
    &&& name_views(plan.completion_events@) == completion_events(mappings)
    &&& plan.anonymous_completion == anonymous_completion(mappings)
    &&& name_views(plan.actions@) == action_callbacks(mappings)
    &&& name_views(plan.guards@) == guard_callback_names(mappings)
    &&& plan.defers == defers_events(mappings)
    &&& name_views(plan.state_variants@) == sorted_names(name_views(sm.states@))
    &&& name_views(plan.event_variants@) == sorted_names(name_views(sm.events@))
}

/// A generated type name.
fn suffixed_name(name: &Option<String>, suffix: &str) -> (text: String)
    ensures
        text@ == generated_name(*name, suffix@),
{
    match name {
        Some(own) => {
            let mut text = own.clone();
            text.append(suffix);
            text
        },
        None => String::from_str(suffix),
    }
}

/// Adds the callbacks of `calls` to `names`.
fn add_calls(names: &mut Vec<String>, calls: &Vec<AsyncIdent>)
    ensures
        name_views(final(names)@) == insert_calls(name_views(old(names)@), calls@),
{
    let ghost start = name_views(names@);
    let mut index: usize = 0;
    while index < calls.len()
        invariant
            index <= calls@.len(),
            name_views(names@) == insert_calls(start, calls@.take(index as int)),
        decreases calls@.len() - index,
    {
        assert(calls@.take(index + 1).drop_last() =~= calls@.take(index as int));
        insert_name_into(names, &calls[index].ident);
        index = index + 1;
    }
    assert(calls@.take(index as int) =~= calls@);
}

/// Adds the action callbacks of one transition to `names`.
fn add_transition_actions(names: &mut Vec<String>, transition: &Transition)
    ensures
        name_views(final(names)@) == insert_calls(name_views(old(names)@), transition_actions(*transition)),
{
    match &transition.action {
        Some(action) => {
            let ghost start = name_views(names@);
            insert_name_into(names, &action.ident);
            let ghost middle = name_views(names@);
            add_calls(names, &transition.additional_actions);
            proof {
                lemma_insert_calls_append(
                    name_views(old(names)@),
                    seq![*action],
                    transition.additional_actions@,
                );
                assert(insert_calls(start, seq![*action]) == middle) by {
                    let single = seq![*action];
                    assert(single.drop_last() =~= Seq::<AsyncIdent>::empty());
                    assert(single.last() == *action);
                    assert(insert_calls(start, Seq::<AsyncIdent>::empty()) == start);
                }
            }
        },
        None => {
            add_calls(names, &transition.additional_actions);
        },
    }
}

/// Adds the guard callbacks of an expression to `names`.
fn add_guard_callbacks(names: &mut Vec<String>, expr: &GuardExpression)
    ensures
        name_views(final(names)@) == insert_calls(name_views(old(names)@), guard_callbacks(*expr)),
    decreases *expr,
{
    let ghost start = name_views(names@);
    match expr {
        GuardExpression::Guard(guard) => {
            insert_name_into(names, &guard.ident);
            proof {
                let single = seq![*guard];
                assert(single.drop_last() =~= Seq::<AsyncIdent>::empty());
                assert(single.last() == *guard);
                assert(insert_calls(start, Seq::<AsyncIdent>::empty()) == start);
            }
        },
        GuardExpression::Not(inner) => add_guard_callbacks(names, inner),
        GuardExpression::Group(inner) => add_guard_callbacks(names, inner),
        GuardExpression::And(left, right) => {
            add_guard_callbacks(names, left);
            add_guard_callbacks(names, right);
            proof {
                lemma_insert_calls_append(start, guard_callbacks(**left), guard_callbacks(**right));
            }
        },
        GuardExpression::Or(left, right) => {
            add_guard_callbacks(names, left);
            add_guard_callbacks(names, right);
            proof {
                lemma_insert_calls_append(start, guard_callbacks(**left), guard_callbacks(**right));
            }
        },
    }
}

/// Inserting two lists in turn is inserting their concatenation.
proof fn lemma_insert_calls_append(names: Seq<Seq<char>>, first: Seq<AsyncIdent>, second: Seq<AsyncIdent>)
    ensures
        insert_calls(insert_calls(names, first), second) == insert_calls(names, first + second),
    decreases second.len(),
{
    if second.len() > 0 {
        lemma_insert_calls_append(names, first, second.drop_last());
        assert((first + second).drop_last() =~= first + second.drop_last());
    } else {
        assert(first + second =~= first);
    }
}

/// Plans the expansion of a flat machine: see `plans`.
pub fn plan_machine(sm: &ParsedStateMachine) -> (plan: GeneratedMachine)
    ensures
        plans(*sm, plan),
{
    let ghost states = sm.states_events_mapping@;
    let mut outside: Vec<String> = Vec::new();
    let mut completions: Vec<String> = Vec::new();
    let mut anonymous = false;
    let mut actions: Vec<String> = Vec::new();
    let mut guards: Vec<String> = Vec::new();
    let mut defers = false;
    let ghost mut seen: Seq<EventMapping> = Seq::empty();
    assert(name_views(outside@) =~= Seq::<Seq<char>>::empty());
    assert(name_views(completions@) =~= Seq::<Seq<char>>::empty());
    assert(name_views(actions@) =~= Seq::<Seq<char>>::empty());
    assert(name_views(guards@) =~= Seq::<Seq<char>>::empty());
    let mut s: usize = 0;
    while s < sm.states_events_mapping.len()
        invariant
            states == sm.states_events_mapping@,
            s <= states.len(),
            seen == all_mappings(states.take(s as int)),
            name_views(outside@) == outside_events(seen),
            name_views(completions@) == completion_events(seen),
            anonymous == anonymous_completion(seen),
            name_views(actions@) == action_callbacks(seen),
            name_views(guards@) == guard_callback_names(seen),
            defers == defers_events(seen),
        decreases states.len() - s,
    {
        let entry = &sm.states_events_mapping[s];
        assert(states.take(s + 1).drop_last() =~= states.take(s as int));
        let ghost base = seen;
        let mut m: usize = 0;
        while m < entry.mappings.len()
            invariant
                m <= entry.mappings@.len(),
                seen == base + entry.mappings@.take(m as int),
                name_views(outside@) == outside_events(seen),
                name_views(completions@) == completion_events(seen),
                anonymous == anonymous_completion(seen),
                name_views(actions@) == action_callbacks(seen),
                name_views(guards@) == guard_callback_names(seen),
                defers == defers_events(seen),
            decreases entry.mappings@.len() - m,
        {
            let mapping = &entry.mappings[m];
            let ghost before = seen;
            proof {
                seen = seen.push(*mapping);
                assert(seen =~= base + entry.mappings@.take(m + 1));
                assert(seen.drop_last() == before);
            }
            if mapping.event_external {
                insert_name_into(&mut outside, &mapping.event);
            }
            let completion = match mapping.event_kind {
                EventKind::Completion => true,
                _ => false,
            };
            if completion && !mapping.event_wildcard {
                insert_name_into(&mut completions, &mapping.event);
            }
            if completion && mapping.event_wildcard {
                anonymous = true;
            }
            proof {
                if anonymous_completion(seen) && !anonymous_completion(before) {
                    let i = choose|i: int|
                        0 <= i < seen.len() && (#[trigger] seen[i]).event_kind == EventKind::Completion
                            && seen[i].event_wildcard;
                    if i < before.len() {
                        assert(seen[i] == before[i]);
                    }
                }
                if anonymous_completion(before) {
                    let i = choose|i: int|
                        0 <= i < before.len() && (#[trigger] before[i]).event_kind == EventKind::Completion
                            && before[i].event_wildcard;
                    assert(seen[i] == before[i]);
                }
                if completion && mapping.event_wildcard {
                    assert(seen[seen.len() - 1] == *mapping);
                }
            }
            let ghost defers_before = defers;
            let ghost actions_before = name_views(actions@);
            let ghost guards_before = name_views(guards@);
            let mut t: usize = 0;
            while t < mapping.transitions.len()
                invariant
                    t <= mapping.transitions@.len(),
                    name_views(actions@) == transitions_actions(
                        actions_before,
                        mapping.transitions@.take(t as int),
                    ),
                    name_views(guards@) == transitions_guards(
                        guards_before,
                        mapping.transitions@.take(t as int),
                    ),
                    defers == (defers_before || exists|u: int| 0 <= u < t && (#[trigger] mapping.transitions@[u]).defer),
                decreases mapping.transitions@.len() - t,
            {
                assert(mapping.transitions@.take(t + 1).drop_last() =~= mapping.transitions@.take(
                    t as int,
                ));
                add_transition_actions(&mut actions, &mapping.transitions[t]);
                match &mapping.transitions[t].guard {
                    Some(guard) => add_guard_callbacks(&mut guards, guard),
                    None => {},
                }
                if mapping.transitions[t].defer {
                    defers = true;
                }
                t = t + 1;
            }
            assert(mapping.transitions@.take(t as int) =~= mapping.transitions@);
            proof {
                let last = seen.len() - 1;
                assert(seen[last] == *mapping);
                if defers_events(seen) {
                    let (i, u) = choose|i: int, u: int|
                        0 <= i < seen.len() && 0 <= u < seen[i].transitions@.len() && (#[trigger] seen[i].transitions@[u]).defer;
                    if i < last {
                        assert(seen[i] == before[i]);
                    }
                }
                if defers_events(before) {
                    let (i, u) = choose|i: int, u: int|
                        0 <= i < before.len() && 0 <= u < before[i].transitions@.len() && (#[trigger] before[i].transitions@[u]).defer;
                    assert(seen[i] == before[i]);
                }
                if defers && !defers_before {
                    let u = choose|u: int| 0 <= u < mapping.transitions@.len() && (#[trigger] mapping.transitions@[u]).defer;
                    assert(seen[last].transitions@[u].defer);
                }
            }
            m = m + 1;
        }
        assert(entry.mappings@.take(m as int) =~= entry.mappings@);
        assert(states.take(s + 1).last() == *entry);
        s = s + 1;
    }
    assert(states.take(s as int) =~= states);
    GeneratedMachine {
        states_name: suffixed_name(&sm.name, "States"),
        events_name: suffixed_name(&sm.name, "Events"),
        completion_origin_name: suffixed_name(&sm.name, "CompletionOrigin"),
        error_name: suffixed_name(&sm.name, "Error"),
        machine_name: suffixed_name(&sm.name, "StateMachine"),
        context_name: suffixed_name(&sm.name, "StateMachineContext"),
        outside_events: outside,
        completion_events: completions,
        anonymous_completion: anonymous,
        actions,
        guards,
        defers,
        state_variants: sort_names(&sm.states),
        event_variants: sort_names(&sm.events),
    }
}

} // verus!
