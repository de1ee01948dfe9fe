//! The machine a table with several start states expands to, written as
//! token trees: its states enum, one state per region held in an array, the
//! region-wise state API, and termination once every region has reached `X`.

use vstd::prelude::*;

use super::codegen::{
    allow_missing_docs_text, copy_tokens, error_enum, error_enum_text, payload_entry, payload_position, push_allow_missing_docs,
    arrow, context_method_text, field_text, method_head_text, path_text, push_arrow,
    push_context_method, push_field, push_literal, push_method_head, push_path, push_queue_path,
    push_receiver, queue_path_text, receiver_text,
};
use super::emit::{alone, group_text, joint, push_all, push_group, push_mark, push_name, push_word, word_text};
use super::event::EventKind;
use super::machine::{StateMachine, StateTransition};
use super::names::{contains_text, decimal, decimal_string, name_texts};
use super::plan::{sort_names, sorted_names};
use super::types::{insert_name, name_views};
use super::regions::Region;
use super::resolve::tokens_text;
use super::token::{Delimiter, Spacing, TokenTree};

verus! {

/// Whether some row gives `state` a payload, as its source or its target.
pub open spec fn state_has_payload(transitions: Seq<StateTransition>, state: Seq<char>) -> bool {
    exists|i: int|
        0 <= i < transitions.len() && ((#[trigger] transitions[i]).in_state.ident@ == state
            && transitions[i].in_state.data_type is Some || transitions[i].out_state.ident@ == state
            && transitions[i].out_state.data_type is Some)
}

/// Whether some row defers its event.
pub open spec fn any_defers(transitions: Seq<StateTransition>) -> bool {
    exists|i: int| 0 <= i < transitions.len() && (#[trigger] transitions[i]).defer
}

/// The names of the generated types of a named machine.
pub open spec fn named(name: Seq<char>, suffix: Seq<char>) -> Seq<char> {
    name + suffix
}

/// `[{Name}States; N]`, with one state per region.
pub open spec fn states_array_text(name: Seq<char>, regions: nat) -> Seq<char> {
    group_text(
        Delimiter::Bracket,
        word_text(named(name, "States"@)) + alone(';') + word_text(decimal(regions)),
    )
}

/// `core::default::Default::default()`.
pub open spec fn default_call_text() -> Seq<char> {
    path_text("core"@, "default"@) + joint(':') + alone(':') + path_text("Default"@, "default"@)
        + group_text(Delimiter::Parenthesis, Seq::empty())
}

/// The start state of a region as a value: `{Name}States::Start`, given a
/// default payload when the state has one.
pub open spec fn initial_text(machine: StateMachine, name: Seq<char>, region: Region) -> Seq<char> {
    path_text(named(name, "States"@), region.initial@) + if state_has_payload(
        machine.transitions@,
        region.initial@,
    ) {
        group_text(Delimiter::Parenthesis, default_call_text())
    } else {
        Seq::empty()
    }
}

/// The start states of the regions, separated by commas.
pub open spec fn initials_text(machine: StateMachine, name: Seq<char>, regions: Seq<Region>) -> Seq<char>
    decreases regions.len(),
{
    if regions.len() == 0 {
        Seq::empty()
    } else if regions.len() == 1 {
        initial_text(machine, name, regions[0])
    } else {
        initials_text(machine, name, regions.drop_last()) + alone(',') + initial_text(
            machine,
            name,
            regions.last(),
        )
    }
}

/// `<T: {Name}StateMachineContext>`.
pub open spec fn context_bound_text(name: Seq<char>) -> Seq<char> {
    alone('<') + word_text("T"@) + alone(':') + word_text(named(name, "StateMachineContext"@))
        + alone('>')
}

/// The deferred-event field, or nothing when no row defers.
pub open spec fn deferred_field_text(name: Seq<char>, defers: bool) -> Seq<char> {
    if defers {
        word_text("deferred"@) + alone(':') + queue_path_text() + alone('<') + word_text(
            named(name, "Events"@),
        ) + alone(',') + word_text("16"@) + alone('>') + alone(',')
    } else {
        Seq::empty()
    }
}

/// `pub struct {Name}StateMachine<T: {Name}StateMachineContext> { states:
/// [{Name}States; N], context: T, }`, with the deferred-event queue when a
/// row defers.
pub open spec fn orthogonal_struct_text(name: Seq<char>, regions: nat, defers: bool) -> Seq<char> {
    word_text("pub"@) + word_text("struct"@) + word_text(named(name, "StateMachine"@))
        + context_bound_text(name) + group_text(
        Delimiter::Brace,
        word_text("states"@) + alone(':') + states_array_text(name, regions) + alone(',')
            + word_text("context"@) + alone(':') + word_text("T"@) + alone(',')
            + deferred_field_text(name, defers),
    )
}

/// `pub fn new(context: T) -> Self { Self { states: [starts], context, } }`,
/// with the empty deferred-event queue when a row defers.
pub open spec fn orthogonal_new_text(machine: StateMachine, name: Seq<char>, regions: Seq<Region>, defers: bool) -> Seq<char> {
    method_head_text("new"@) + group_text(
        Delimiter::Parenthesis,
        word_text("context"@) + alone(':') + word_text("T"@),
    ) + arrow() + word_text("Self"@) + group_text(
        Delimiter::Brace,
        word_text("Self"@) + group_text(
            Delimiter::Brace,
            word_text("states"@) + alone(':') + group_text(
                Delimiter::Bracket,
                initials_text(machine, name, regions),
            ) + alone(',') + word_text("context"@) + alone(',') + if defers {
                word_text("deferred"@) + alone(':') + queue_path_text() + joint(':') + alone(':')
                    + word_text("new"@) + group_text(Delimiter::Parenthesis, Seq::empty())
                    + alone(',')
            } else {
                Seq::empty()
            },
        ),
    )
}

/// `self.states.get(region)`.
pub open spec fn region_state_text() -> Seq<char> {
    field_text("states"@) + alone('.') + word_text("get"@) + group_text(
        Delimiter::Parenthesis,
        word_text("region"@),
    )
}

/// `pub fn state(&self, region: usize) -> Option<&{Name}States> {
/// self.states.get(region) }`.
pub open spec fn region_method_text(name: Seq<char>) -> Seq<char> {
    method_head_text("state"@) + group_text(
        Delimiter::Parenthesis,
        receiver_text(false) + alone(',') + word_text("region"@) + alone(':') + word_text("usize"@),
    ) + arrow() + word_text("Option"@) + alone('<') + alone('&') + word_text(named(name, "States"@))
        + alone('>') + group_text(Delimiter::Brace, region_state_text())
}

/// `pub fn is(&self, expected: &[{Name}States; N]) -> bool { self.states ==
/// *expected }`.
pub open spec fn all_regions_is_text(name: Seq<char>, regions: nat) -> Seq<char> {
    method_head_text("is"@) + group_text(
        Delimiter::Parenthesis,
        receiver_text(false) + alone(',') + word_text("expected"@) + alone(':') + alone('&')
            + states_array_text(name, regions),
    ) + arrow() + word_text("bool"@) + group_text(
        Delimiter::Brace,
        field_text("states"@) + joint('=') + alone('=') + alone('*') + word_text("expected"@),
    )
}

/// `pub fn is_region(&self, region: usize, expected: &{Name}States) -> bool
/// { self.states.get(region).map_or(false, |state| state == expected) }`.
pub open spec fn is_region_text(name: Seq<char>) -> Seq<char> {
    method_head_text("is_region"@) + group_text(
        Delimiter::Parenthesis,
        receiver_text(false) + alone(',') + word_text("region"@) + alone(':') + word_text("usize"@)
            + alone(',') + word_text("expected"@) + alone(':') + alone('&') + word_text(
            named(name, "States"@),
        ),
    ) + arrow() + word_text("bool"@) + group_text(
        Delimiter::Brace,
        region_state_text() + alone('.') + word_text("map_or"@) + group_text(
            Delimiter::Parenthesis,
            word_text("false"@) + alone(',') + alone('|') + word_text("state"@) + alone('|')
                + word_text("state"@) + joint('=') + alone('=') + word_text("expected"@),
        ),
    )
}

/// `pub fn is_terminated(&self) -> bool { self.states.iter().all(|state|
/// matches!(state, {Name}States::X)) }`: every region has reached `X`.
pub open spec fn all_terminated_text(name: Seq<char>) -> Seq<char> {
    method_head_text("is_terminated"@) + group_text(Delimiter::Parenthesis, receiver_text(false))
        + arrow() + word_text("bool"@) + group_text(
        Delimiter::Brace,
        field_text("states"@) + alone('.') + word_text("iter"@) + group_text(
            Delimiter::Parenthesis,
            Seq::empty(),
        ) + alone('.') + word_text("all"@) + group_text(
            Delimiter::Parenthesis,
            alone('|') + word_text("state"@) + alone('|') + word_text("matches"@) + alone('!')
                + group_text(
                Delimiter::Parenthesis,
                word_text("state"@) + alone(',') + path_text(named(name, "States"@), "X"@),
            ),
        ),
    )
}

/// The impl block of the region-wise state API: `new`, `state`, `is`,
/// `is_region`, `is_terminated`, `context` and `context_mut`.
pub open spec fn orthogonal_impl_text(machine: StateMachine, name: Seq<char>, regions: Seq<Region>, defers: bool) -> Seq<char> {
    word_text("impl"@) + context_bound_text(name) + word_text(named(name, "StateMachine"@)) + alone(
        '<',
    ) + word_text("T"@) + alone('>') + group_text(
        Delimiter::Brace,
        orthogonal_new_text(machine, name, regions, defers) + region_method_text(name)
            + all_regions_is_text(name, regions.len()) + is_region_text(name)
            + all_terminated_text(name) + context_method_text("T"@, false) + context_method_text(
            "T"@,
            true,
        ),
    )
}

/// `impl<T: {Name}StateMachineContext> ::sml::Terminated for
/// {Name}StateMachine<T> { fn is_terminated(&self) -> bool {
/// self.is_terminated() } }`.
pub open spec fn terminated_impl_text(name: Seq<char>) -> Seq<char> {
    word_text("impl"@) + context_bound_text(name) + joint(':') + alone(':') + path_text(
        "sml"@,
        "Terminated"@,
    ) + word_text("for"@) + word_text(named(name, "StateMachine"@)) + alone('<') + word_text("T"@)
        + alone('>') + group_text(
        Delimiter::Brace,
        word_text("fn"@) + word_text("is_terminated"@) + group_text(
            Delimiter::Parenthesis,
            receiver_text(false),
        ) + arrow() + word_text("bool"@) + group_text(
            Delimiter::Brace,
            word_text("self"@) + alone('.') + word_text("is_terminated"@) + group_text(
                Delimiter::Parenthesis,
                Seq::empty(),
            ),
        ),
    )
}

/// The machine a named table with several regions expands to: its states
/// enum and their equality, its events enum, its error enum, its struct, the region-wise state API and its
/// `Terminated` impl.
pub open spec fn orthogonal_expansion(
    machine: StateMachine,
    name: Seq<char>,
    regions: Seq<Region>,
    payloads: Seq<(String, Vec<TokenTree>)>,
) -> Seq<char> {
    let defers = any_defers(machine.transitions@);
    split_states_text(machine, name, payloads) + split_events_text(machine, name, payloads)
        + error_enum_text(machine.name, "E"@) + orthogonal_struct_text(name, regions.len(), defers)
        + orthogonal_impl_text(
        machine,
        name,
        regions,
        defers,
    ) + terminated_impl_text(name)
}

/// Whether some row gives `state` a payload: see `state_has_payload`.
pub(crate) fn has_payload(transitions: &Vec<StateTransition>, state: &String) -> (found: bool)
    ensures
        found == state_has_payload(transitions@, state@),
{
    let mut index: usize = 0;
    while index < transitions.len()
        invariant
            index <= transitions@.len(),
            forall|i: int|
                0 <= i < index ==> !((#[trigger] transitions@[i]).in_state.ident@ == state@
                    && transitions@[i].in_state.data_type is Some
                    || transitions@[i].out_state.ident@ == state@
                    && transitions@[i].out_state.data_type is Some),
        decreases transitions@.len() - index,
    {
        let row = &transitions[index];
        if (row.in_state.ident == *state && row.in_state.data_type.is_some()) || (
        row.out_state.ident == *state && row.out_state.data_type.is_some()) {
            return true;
        }
        index = index + 1;
    }
    false
}

/// Whether some row defers its event: see `any_defers`.
pub(crate) fn defers_some(transitions: &Vec<StateTransition>) -> (found: bool)
    ensures
        found == any_defers(transitions@),
{
    let mut index: usize = 0;
    while index < transitions.len()
        invariant
            index <= transitions@.len(),
            forall|i: int| 0 <= i < index ==> !(#[trigger] transitions@[i]).defer,
        decreases transitions@.len() - index,
    {
        if transitions[index].defer {
            return true;
        }
        index = index + 1;
    }
    false
}

/// Appends `first::second`, both held in strings.
pub(crate) fn push_joined(tokens: &mut Vec<TokenTree>, first: &String, second: &String)
    ensures
        tokens_text(final(tokens)@) == tokens_text(old(tokens)@) + path_text(first@, second@),
{
    let ghost start = tokens_text(tokens@);
    push_name(tokens, first);
    push_mark(tokens, ':', Spacing::Joint);
    push_mark(tokens, ':', Spacing::Alone);
    push_name(tokens, second);
    assert(tokens_text(tokens@) =~= start + path_text(first@, second@));
}

/// Appends an empty group.
pub(crate) fn push_empty_group(tokens: &mut Vec<TokenTree>, delimiter: Delimiter)
    ensures
        tokens_text(final(tokens)@) == tokens_text(old(tokens)@) + group_text(delimiter, Seq::empty()),
{
    let empty: Vec<TokenTree> = Vec::new();
    assert(tokens_text(empty@) =~= Seq::<char>::empty());
    push_group(tokens, delimiter, empty);
}

/// Appends `[{Name}States; N]`.
fn push_states_array(tokens: &mut Vec<TokenTree>, states: &String, regions: usize)
    ensures
        forall|name: Seq<char>| named(name, "States"@) == states@ ==> tokens_text(final(tokens)@)
            == tokens_text(old(tokens)@) + states_array_text(name, regions as nat),
{
    let mut inner: Vec<TokenTree> = Vec::new();
    assert(tokens_text(inner@) =~= Seq::<char>::empty());
    push_name(&mut inner, states);
    push_mark(&mut inner, ';', Spacing::Alone);
    let count = TokenTree::Literal(decimal_string(regions));
    proof {
        super::emit::lemma_text_push(inner@, count);
    }
    inner.push(count);
    push_group(tokens, Delimiter::Bracket, inner);
}

/// Appends `core::default::Default::default()`.
pub(crate) fn push_default_call(tokens: &mut Vec<TokenTree>)
    ensures
        tokens_text(final(tokens)@) == tokens_text(old(tokens)@) + default_call_text(),
{
    let ghost start = tokens_text(tokens@);
    push_path(tokens, "core", &String::from_str("default"));
    push_mark(tokens, ':', Spacing::Joint);
    push_mark(tokens, ':', Spacing::Alone);
    push_path(tokens, "Default", &String::from_str("default"));
    push_empty_group(tokens, Delimiter::Parenthesis);
    assert(tokens_text(tokens@) =~= start + default_call_text());
}

/// Writes the start states of the regions: see `initials_text`.
fn initials(machine: &StateMachine, name: &String, states: &String, regions: &Vec<Region>) -> (tokens: Vec<TokenTree>)
    requires
        states@ == named(name@, "States"@),
    ensures
        tokens_text(tokens@) == initials_text(*machine, name@, regions@),
{
    let mut tokens: Vec<TokenTree> = Vec::new();
    assert(tokens_text(tokens@) =~= Seq::<char>::empty());
    let mut k: usize = 0;
    assert(regions@.take(0) =~= Seq::<Region>::empty());
    while k < regions.len()
        invariant
            states@ == named(name@, "States"@),
            k <= regions@.len(),
            tokens_text(tokens@) == initials_text(*machine, name@, regions@.take(k as int)),
        decreases regions@.len() - k,
    {
        let ghost before = tokens_text(tokens@);
        if k > 0 {
            push_mark(&mut tokens, ',', Spacing::Alone);
        }
        let ghost after_comma = tokens_text(tokens@);
        let region = &regions[k];
        push_joined(&mut tokens, states, &region.initial);
        if has_payload(&machine.transitions, &region.initial) {
            let mut call: Vec<TokenTree> = Vec::new();
            assert(tokens_text(call@) =~= Seq::<char>::empty());
            push_default_call(&mut call);
            push_group(&mut tokens, Delimiter::Parenthesis, call);
        }
        proof {
            let taken = regions@.take(k + 1);
            assert(taken.drop_last() =~= regions@.take(k as int));
            assert(taken.last() == regions@[k as int]);
            assert(tokens_text(tokens@) =~= after_comma + initial_text(*machine, name@, regions@[k as int]));
            if k == 0 {
                assert(taken.len() == 1);
                assert(after_comma =~= before);
                assert(tokens_text(tokens@) =~= initials_text(*machine, name@, taken));
            } else {
                assert(tokens_text(tokens@) =~= initials_text(*machine, name@, taken));
            }
        }
        k = k + 1;
    }
    assert(regions@.take(k as int) =~= regions@);
    tokens
}

/// Appends `<T: {Name}StateMachineContext>`.
pub(crate) fn push_context_bound(tokens: &mut Vec<TokenTree>, context: &String)
    ensures
        forall|name: Seq<char>| named(name, "StateMachineContext"@) == context@ ==> tokens_text(
            final(tokens)@,
        ) == tokens_text(old(tokens)@) + context_bound_text(name),
{
    let ghost start = tokens_text(tokens@);
    push_mark(tokens, '<', Spacing::Alone);
    push_word(tokens, "T");
    push_mark(tokens, ':', Spacing::Alone);
    push_name(tokens, context);
    push_mark(tokens, '>', Spacing::Alone);
    assert(forall|name: Seq<char>| named(name, "StateMachineContext"@) == context@ ==> tokens_text(
        tokens@,
    ) =~= start + context_bound_text(name));
}

/// The generated type names of a machine.
pub(crate) struct Names {
    pub(crate) states: String,
    pub(crate) events: String,
    pub(crate) machine: String,
    pub(crate) context: String,
}

/// The generated type names of a machine named `name`.
pub(crate) fn names_of(name: &String) -> (names: Names)
    ensures
        names.states@ == named(name@, "States"@),
        names.events@ == named(name@, "Events"@),
        names.machine@ == named(name@, "StateMachine"@),
        names.context@ == named(name@, "StateMachineContext"@),
{
    let mut states = name.clone();
    states.append("States");
    let mut events = name.clone();
    events.append("Events");
    let mut machine = name.clone();
    machine.append("StateMachine");
    let mut context = name.clone();
    context.append("StateMachineContext");
    Names { states, events, machine, context }
}

/// Writes the machine struct: see `orthogonal_struct_text`.
fn orthogonal_struct(name: &String, names: &Names, regions: usize, defers: bool) -> (tokens: Vec<TokenTree>)
    requires
        names.states@ == named(name@, "States"@),
        names.events@ == named(name@, "Events"@),
        names.machine@ == named(name@, "StateMachine"@),
        names.context@ == named(name@, "StateMachineContext"@),
    ensures
        tokens_text(tokens@) == orthogonal_struct_text(name@, regions as nat, defers),
{
    let mut fields: Vec<TokenTree> = Vec::new();
    assert(tokens_text(fields@) =~= Seq::<char>::empty());
    push_word(&mut fields, "states");
    push_mark(&mut fields, ':', Spacing::Alone);
    push_states_array(&mut fields, &names.states, regions);
    push_mark(&mut fields, ',', Spacing::Alone);
    push_word(&mut fields, "context");
    push_mark(&mut fields, ':', Spacing::Alone);
    push_word(&mut fields, "T");
    push_mark(&mut fields, ',', Spacing::Alone);
    let ghost plain = tokens_text(fields@);
    if defers {
        push_word(&mut fields, "deferred");
        push_mark(&mut fields, ':', Spacing::Alone);
        push_queue_path(&mut fields);
        push_mark(&mut fields, '<', Spacing::Alone);
        push_name(&mut fields, &names.events);
        push_mark(&mut fields, ',', Spacing::Alone);
        push_literal(&mut fields, "16");
        push_mark(&mut fields, '>', Spacing::Alone);
        push_mark(&mut fields, ',', Spacing::Alone);
    }
    assert(tokens_text(fields@) =~= plain + deferred_field_text(name@, defers));
    let mut tokens: Vec<TokenTree> = Vec::new();
    assert(tokens_text(tokens@) =~= Seq::<char>::empty());
    push_word(&mut tokens, "pub");
    push_word(&mut tokens, "struct");
    push_name(&mut tokens, &names.machine);
    push_context_bound(&mut tokens, &names.context);
    push_group(&mut tokens, Delimiter::Brace, fields);
    assert(tokens_text(tokens@) =~= orthogonal_struct_text(name@, regions as nat, defers));
    tokens
}

/// Appends `new`: see `orthogonal_new_text`.
#[verifier::rlimit(30)]
fn push_orthogonal_new(
    tokens: &mut Vec<TokenTree>,
    machine: &StateMachine,
    name: &String,
    names: &Names,
    regions: &Vec<Region>,
    defers: bool,
)
    requires
        names.states@ == named(name@, "States"@),
    ensures
        tokens_text(final(tokens)@) == tokens_text(old(tokens)@) + orthogonal_new_text(
            *machine,
            name@,
            regions@,
            defers,
        ),
{
    let ghost start = tokens_text(tokens@);
    let mut params: Vec<TokenTree> = Vec::new();
    assert(tokens_text(params@) =~= Seq::<char>::empty());
    push_word(&mut params, "context");
    push_mark(&mut params, ':', Spacing::Alone);
    push_word(&mut params, "T");
    let mut fields: Vec<TokenTree> = Vec::new();
    assert(tokens_text(fields@) =~= Seq::<char>::empty());
    push_word(&mut fields, "states");
    push_mark(&mut fields, ':', Spacing::Alone);
    push_group(&mut fields, Delimiter::Bracket, initials(machine, name, &names.states, regions));
    push_mark(&mut fields, ',', Spacing::Alone);
    push_word(&mut fields, "context");
    push_mark(&mut fields, ',', Spacing::Alone);
    let ghost plain = tokens_text(fields@);
    if defers {
        push_word(&mut fields, "deferred");
        push_mark(&mut fields, ':', Spacing::Alone);
        push_queue_path(&mut fields);
        push_mark(&mut fields, ':', Spacing::Joint);
        push_mark(&mut fields, ':', Spacing::Alone);
        push_word(&mut fields, "new");
        push_empty_group(&mut fields, Delimiter::Parenthesis);
        push_mark(&mut fields, ',', Spacing::Alone);
    }
    assert(tokens_text(fields@) =~= plain + if defers {
        word_text("deferred"@) + alone(':') + queue_path_text() + joint(':') + alone(':')
            + word_text("new"@) + group_text(Delimiter::Parenthesis, Seq::empty()) + alone(',')
    } else {
        Seq::empty()
    });
    let mut body: Vec<TokenTree> = Vec::new();
    assert(tokens_text(body@) =~= Seq::<char>::empty());
    push_word(&mut body, "Self");
    push_group(&mut body, Delimiter::Brace, fields);
    push_method_head(tokens, "new");
    push_group(tokens, Delimiter::Parenthesis, params);
    push_arrow(tokens);
    push_word(tokens, "Self");
    push_group(tokens, Delimiter::Brace, body);
    assert(tokens_text(tokens@) =~= start + orthogonal_new_text(*machine, name@, regions@, defers));
}

/// Appends `self.states.get(region)`.
fn push_region_state(tokens: &mut Vec<TokenTree>)
    ensures
        tokens_text(final(tokens)@) == tokens_text(old(tokens)@) + region_state_text(),
{
    let ghost start = tokens_text(tokens@);
    push_field(tokens, "states");
    push_mark(tokens, '.', Spacing::Alone);
    push_word(tokens, "get");
    let mut argument: Vec<TokenTree> = Vec::new();
    assert(tokens_text(argument@) =~= Seq::<char>::empty());
    push_word(&mut argument, "region");
    push_group(tokens, Delimiter::Parenthesis, argument);
    assert(tokens_text(tokens@) =~= start + region_state_text());
}

/// Appends `state`: see `region_method_text`.
fn push_region_method(tokens: &mut Vec<TokenTree>, name: &String, names: &Names)
    requires
        names.states@ == named(name@, "States"@),
    ensures
        tokens_text(final(tokens)@) == tokens_text(old(tokens)@) + region_method_text(name@),
{
    let ghost start = tokens_text(tokens@);
    let mut params: Vec<TokenTree> = Vec::new();
    assert(tokens_text(params@) =~= Seq::<char>::empty());
    push_receiver(&mut params, false);
    push_mark(&mut params, ',', Spacing::Alone);
    push_word(&mut params, "region");
    push_mark(&mut params, ':', Spacing::Alone);
    push_word(&mut params, "usize");
    let mut body: Vec<TokenTree> = Vec::new();
    assert(tokens_text(body@) =~= Seq::<char>::empty());
    push_region_state(&mut body);
    push_method_head(tokens, "state");
    push_group(tokens, Delimiter::Parenthesis, params);
    push_arrow(tokens);
    push_word(tokens, "Option");
    push_mark(tokens, '<', Spacing::Alone);
    push_mark(tokens, '&', Spacing::Alone);
    push_name(tokens, &names.states);
    push_mark(tokens, '>', Spacing::Alone);
    push_group(tokens, Delimiter::Brace, body);
    assert(tokens_text(tokens@) =~= start + region_method_text(name@));
}

/// Appends `is`: see `all_regions_is_text`.
fn push_all_regions_is(tokens: &mut Vec<TokenTree>, name: &String, names: &Names, regions: usize)
    requires
        names.states@ == named(name@, "States"@),
    ensures
        tokens_text(final(tokens)@) == tokens_text(old(tokens)@) + all_regions_is_text(
            name@,
            regions as nat,
        ),
{
    let ghost start = tokens_text(tokens@);
    let mut params: Vec<TokenTree> = Vec::new();
    assert(tokens_text(params@) =~= Seq::<char>::empty());
    push_receiver(&mut params, false);
    push_mark(&mut params, ',', Spacing::Alone);
    push_word(&mut params, "expected");
    push_mark(&mut params, ':', Spacing::Alone);
    push_mark(&mut params, '&', Spacing::Alone);
    push_states_array(&mut params, &names.states, regions);
    let mut body: Vec<TokenTree> = Vec::new();
    assert(tokens_text(body@) =~= Seq::<char>::empty());
    push_field(&mut body, "states");
    push_mark(&mut body, '=', Spacing::Joint);
    push_mark(&mut body, '=', Spacing::Alone);
    push_mark(&mut body, '*', Spacing::Alone);
    push_word(&mut body, "expected");
    push_method_head(tokens, "is");
    push_group(tokens, Delimiter::Parenthesis, params);
    push_arrow(tokens);
    push_word(tokens, "bool");
    push_group(tokens, Delimiter::Brace, body);
    assert(tokens_text(tokens@) =~= start + all_regions_is_text(name@, regions as nat));
}

/// Appends `is_region`: see `is_region_text`.
fn push_is_region(tokens: &mut Vec<TokenTree>, name: &String, names: &Names)
    requires
        names.states@ == named(name@, "States"@),
    ensures
        tokens_text(final(tokens)@) == tokens_text(old(tokens)@) + is_region_text(name@),
{
    let ghost start = tokens_text(tokens@);
    let mut params: Vec<TokenTree> = Vec::new();
    assert(tokens_text(params@) =~= Seq::<char>::empty());
    push_receiver(&mut params, false);
    push_mark(&mut params, ',', Spacing::Alone);
    push_word(&mut params, "region");
    push_mark(&mut params, ':', Spacing::Alone);
    push_word(&mut params, "usize");
    push_mark(&mut params, ',', Spacing::Alone);
    push_word(&mut params, "expected");
    push_mark(&mut params, ':', Spacing::Alone);
    push_mark(&mut params, '&', Spacing::Alone);
    push_name(&mut params, &names.states);
    let mut arguments: Vec<TokenTree> = Vec::new();
    assert(tokens_text(arguments@) =~= Seq::<char>::empty());
    push_word(&mut arguments, "false");
    push_mark(&mut arguments, ',', Spacing::Alone);
    push_mark(&mut arguments, '|', Spacing::Alone);
    push_word(&mut arguments, "state");
    push_mark(&mut arguments, '|', Spacing::Alone);
    push_word(&mut arguments, "state");
    push_mark(&mut arguments, '=', Spacing::Joint);
    push_mark(&mut arguments, '=', Spacing::Alone);
    push_word(&mut arguments, "expected");
    let mut body: Vec<TokenTree> = Vec::new();
    assert(tokens_text(body@) =~= Seq::<char>::empty());
    push_region_state(&mut body);
    push_mark(&mut body, '.', Spacing::Alone);
    push_word(&mut body, "map_or");
    push_group(&mut body, Delimiter::Parenthesis, arguments);
    push_method_head(tokens, "is_region");
    push_group(tokens, Delimiter::Parenthesis, params);
    push_arrow(tokens);
    push_word(tokens, "bool");
    push_group(tokens, Delimiter::Brace, body);
    assert(tokens_text(tokens@) =~= start + is_region_text(name@));
}

/// Appends `is_terminated`: see `all_terminated_text`.
fn push_all_terminated(tokens: &mut Vec<TokenTree>, name: &String, names: &Names)
    requires
        names.states@ == named(name@, "States"@),
    ensures
        tokens_text(final(tokens)@) == tokens_text(old(tokens)@) + all_terminated_text(name@),
{
    let ghost start = tokens_text(tokens@);
    let mut params: Vec<TokenTree> = Vec::new();
    assert(tokens_text(params@) =~= Seq::<char>::empty());
    push_receiver(&mut params, false);
    let mut pattern: Vec<TokenTree> = Vec::new();
    assert(tokens_text(pattern@) =~= Seq::<char>::empty());
    push_word(&mut pattern, "state");
    push_mark(&mut pattern, ',', Spacing::Alone);
    push_joined(&mut pattern, &names.states, &String::from_str("X"));
    let mut test: Vec<TokenTree> = Vec::new();
    assert(tokens_text(test@) =~= Seq::<char>::empty());
    push_mark(&mut test, '|', Spacing::Alone);
    push_word(&mut test, "state");
    push_mark(&mut test, '|', Spacing::Alone);
    push_word(&mut test, "matches");
    push_mark(&mut test, '!', Spacing::Alone);
    push_group(&mut test, Delimiter::Parenthesis, pattern);
    let mut body: Vec<TokenTree> = Vec::new();
    assert(tokens_text(body@) =~= Seq::<char>::empty());
    push_field(&mut body, "states");
    push_mark(&mut body, '.', Spacing::Alone);
    push_word(&mut body, "iter");
    push_empty_group(&mut body, Delimiter::Parenthesis);
    push_mark(&mut body, '.', Spacing::Alone);
    push_word(&mut body, "all");
    push_group(&mut body, Delimiter::Parenthesis, test);
    push_method_head(tokens, "is_terminated");
    push_group(tokens, Delimiter::Parenthesis, params);
    push_arrow(tokens);
    push_word(tokens, "bool");
    push_group(tokens, Delimiter::Brace, body);
    assert(tokens_text(tokens@) =~= start + all_terminated_text(name@));
}

/// Writes the impl block of the region-wise state API: see
/// `orthogonal_impl_text`.
fn orthogonal_impl(machine: &StateMachine, name: &String, names: &Names, regions: &Vec<Region>, defers: bool) -> (tokens: Vec<TokenTree>)
    requires
        names.states@ == named(name@, "States"@),
        names.machine@ == named(name@, "StateMachine"@),
        names.context@ == named(name@, "StateMachineContext"@),
    ensures
        tokens_text(tokens@) == orthogonal_impl_text(*machine, name@, regions@, defers),
{
    let context = String::from_str("T");
    let mut methods: Vec<TokenTree> = Vec::new();
    assert(tokens_text(methods@) =~= Seq::<char>::empty());
    push_orthogonal_new(&mut methods, machine, name, names, regions, defers);
    push_region_method(&mut methods, name, names);
    push_all_regions_is(&mut methods, name, names, regions.len());
    push_is_region(&mut methods, name, names);
    push_all_terminated(&mut methods, name, names);
    push_context_method(&mut methods, &context, false);
    push_context_method(&mut methods, &context, true);
    let mut tokens: Vec<TokenTree> = Vec::new();
    assert(tokens_text(tokens@) =~= Seq::<char>::empty());
    push_word(&mut tokens, "impl");
    push_context_bound(&mut tokens, &names.context);
    push_name(&mut tokens, &names.machine);
    push_mark(&mut tokens, '<', Spacing::Alone);
    push_word(&mut tokens, "T");
    push_mark(&mut tokens, '>', Spacing::Alone);
    push_group(&mut tokens, Delimiter::Brace, methods);
    assert(tokens_text(tokens@) =~= orthogonal_impl_text(*machine, name@, regions@, defers));
    tokens
}

/// Writes the `Terminated` impl: see `terminated_impl_text`.
pub(crate) fn terminated_impl(name: &String, names: &Names) -> (tokens: Vec<TokenTree>)
    requires
        names.machine@ == named(name@, "StateMachine"@),
        names.context@ == named(name@, "StateMachineContext"@),
    ensures
        tokens_text(tokens@) == terminated_impl_text(name@),
{
    let mut params: Vec<TokenTree> = Vec::new();
    assert(tokens_text(params@) =~= Seq::<char>::empty());
    push_receiver(&mut params, false);
    let mut call: Vec<TokenTree> = Vec::new();
    assert(tokens_text(call@) =~= Seq::<char>::empty());
    push_word(&mut call, "self");
    push_mark(&mut call, '.', Spacing::Alone);
    push_word(&mut call, "is_terminated");
    push_empty_group(&mut call, Delimiter::Parenthesis);
    let mut method: Vec<TokenTree> = Vec::new();
    assert(tokens_text(method@) =~= Seq::<char>::empty());
    push_word(&mut method, "fn");
    push_word(&mut method, "is_terminated");
    push_group(&mut method, Delimiter::Parenthesis, params);
    push_arrow(&mut method);
    push_word(&mut method, "bool");
    push_group(&mut method, Delimiter::Brace, call);
    let mut tokens: Vec<TokenTree> = Vec::new();
    assert(tokens_text(tokens@) =~= Seq::<char>::empty());
    push_word(&mut tokens, "impl");
    push_context_bound(&mut tokens, &names.context);
    push_mark(&mut tokens, ':', Spacing::Joint);
    push_mark(&mut tokens, ':', Spacing::Alone);
    push_path(&mut tokens, "sml", &String::from_str("Terminated"));
    push_word(&mut tokens, "for");
    push_name(&mut tokens, &names.machine);
    push_mark(&mut tokens, '<', Spacing::Alone);
    push_word(&mut tokens, "T");
    push_mark(&mut tokens, '>', Spacing::Alone);
    push_group(&mut tokens, Delimiter::Brace, method);
    assert(tokens_text(tokens@) =~= terminated_impl_text(name@));
    tokens
}

/// Writes the machine of a table with several regions: see
/// `orthogonal_expansion`. `payloads` holds the tokens of each state and
/// event payload type, keyed by the type's text. `None` when the machine has
/// no name, which such a machine needs, or when the tokens of a payload type
/// are not given.
pub fn generate_orthogonal_code(
    machine: &StateMachine,
    regions: &Vec<Region>,
    payloads: &Vec<(String, Vec<TokenTree>)>,
) -> (tokens: Option<Vec<TokenTree>>)
    ensures
        tokens is None <==> machine.name is None || !state_payloads_given(
            machine.transitions@,
            payloads@,
        ) || !event_payloads_given(machine.transitions@, payloads@),
        tokens matches Some(written) ==> tokens_text(written@) == orthogonal_expansion(
            *machine,
            machine.name->0@,
            regions@,
            payloads@,
        ),
{
    match &machine.name {
        None => None,
        Some(name) => {
            let names = names_of(name);
            let mut tokens = match split_states(machine, &names, payloads) {
                Some(tokens) => tokens,
                None => return None,
            };
            match split_events(machine, &names, payloads) {
                Some(events) => push_all(&mut tokens, events),
                None => return None,
            }
            let defers = defers_some(&machine.transitions);
            push_all(&mut tokens, error_enum(&machine.name, "E"));
            push_all(&mut tokens, orthogonal_struct(name, &names, regions.len(), defers));
            push_all(&mut tokens, orthogonal_impl(machine, name, &names, regions, defers));
            push_all(&mut tokens, terminated_impl(name, &names));
            assert(tokens_text(tokens@) =~= orthogonal_expansion(*machine, name@, regions@, payloads@));
            Some(tokens)
        },
    }
}

/// The states of a table: the sources that are not wildcards and the
/// targets of rows that are not internal, each once, in the order met.
pub open spec fn table_states(rows: Seq<StateTransition>) -> Seq<Seq<char>>
    decreases rows.len(),
{
    if rows.len() == 0 {
        Seq::empty()
    } else {
        let before = table_states(rows.drop_last());
        let row = rows.last();
        let with_source = if row.in_state.wildcard {
            before
        } else {
            insert_name(before, row.in_state.ident@)
        };
        if row.internal_transition {
            with_source
        } else {
            insert_name(with_source, row.out_state.ident@)
        }
    }
}

/// The payload type text of a state: that of the first row, its source
/// before its target, that gives the state one.
pub open spec fn state_type(rows: Seq<StateTransition>, state: Seq<char>) -> Option<Seq<char>>
    decreases rows.len(),
{
    if rows.len() == 0 {
        None
    } else if rows[0].in_state.ident@ == state && rows[0].in_state.data_type is Some {
        Some(rows[0].in_state.data_type->0.text@)
    } else if rows[0].out_state.ident@ == state && rows[0].out_state.data_type is Some {
        Some(rows[0].out_state.data_type->0.text@)
    } else {
        state_type(rows.skip(1), state)
    }
}

/// A variant named `name`, with the tokens given for its payload type text
/// in parentheses when it has one.
pub open spec fn typed_variant_text(
    name: Seq<char>,
    text: Option<Seq<char>>,
    payloads: Seq<(String, Vec<TokenTree>)>,
) -> Seq<char> {
    match text {
        Some(text) => word_text(name) + group_text(
            Delimiter::Parenthesis,
            tokens_text(payloads[payload_entry(payloads, text)].1@),
        ),
        None => word_text(name),
    }
}

/// The variants of the states `names`, separated by commas.
pub open spec fn state_variants_of(
    rows: Seq<StateTransition>,
    names: Seq<Seq<char>>,
    payloads: Seq<(String, Vec<TokenTree>)>,
) -> Seq<char>
    decreases names.len(),
{
    if names.len() == 0 {
        Seq::empty()
    } else if names.len() == 1 {
        typed_variant_text(names[0], state_type(rows, names[0]), payloads)
    } else {
        state_variants_of(rows, names.drop_last(), payloads) + alone(',') + typed_variant_text(
            names.last(),
            state_type(rows, names.last()),
            payloads,
        )
    }
}

/// `#[allow(missing_docs)] pub enum {Name}States { variants }`, the states
/// sorted by name, and its equality by variant: `impl PartialEq for
/// {Name}States { fn eq(&self, other: &Self) -> bool {
/// core::mem::discriminant(self) == core::mem::discriminant(other) } }`.
pub open spec fn split_states_text(
    machine: StateMachine,
    name: Seq<char>,
    payloads: Seq<(String, Vec<TokenTree>)>,
) -> Seq<char> {
    let rows = machine.transitions@;
    allow_missing_docs_text() + word_text("pub"@) + word_text("enum"@) + word_text(
        named(name, "States"@),
    ) + group_text(
        Delimiter::Brace,
        state_variants_of(rows, sorted_names(table_states(rows)), payloads),
    ) + word_text("impl"@) + word_text("PartialEq"@) + word_text("for"@) + word_text(
        named(name, "States"@),
    ) + group_text(
        Delimiter::Brace,
        word_text("fn"@) + word_text("eq"@) + group_text(
            Delimiter::Parenthesis,
            alone('&') + word_text("self"@) + alone(',') + word_text("other"@) + alone(':') + alone(
                '&',
            ) + word_text("Self"@),
        ) + arrow() + word_text("bool"@) + group_text(
            Delimiter::Brace,
            discriminant_text("self"@) + joint('=') + alone('=') + discriminant_text("other"@),
        ),
    )
}

/// `core::mem::discriminant(value)`.
pub open spec fn discriminant_text(value: Seq<char>) -> Seq<char> {
    path_text("core"@, "mem"@) + joint(':') + alone(':') + word_text("discriminant"@) + group_text(
        Delimiter::Parenthesis,
        word_text(value),
    )
}

/// The states of the table, each once, in the order met: see
/// `table_states`.
fn collect_table_states(rows: &Vec<StateTransition>) -> (names: Vec<String>)
    ensures
        name_views(names@) == table_states(rows@),
{
    let mut names: Vec<String> = Vec::new();
    let mut index: usize = 0;
    while index < rows.len()
        invariant
            index <= rows@.len(),
            name_views(names@) == table_states(rows@.take(index as int)),
        decreases rows@.len() - index,
    {
        let row = &rows[index];
        proof {
            let taken = rows@.take(index + 1);
            assert(taken.drop_last() =~= rows@.take(index as int));
            assert(taken.last() == rows@[index as int]);
        }
        if !row.in_state.wildcard {
            let ghost before = names@;
            if !contains_text(&names, &row.in_state.ident) {
                names.push(row.in_state.ident.clone());
                assert(name_views(names@) =~= name_views(before).push(row.in_state.ident@));
            }
            assert(name_views(before) =~= name_texts(before));
        }
        if !row.internal_transition {
            let ghost before = names@;
            if !contains_text(&names, &row.out_state.ident) {
                names.push(row.out_state.ident.clone());
                assert(name_views(names@) =~= name_views(before).push(row.out_state.ident@));
            }
            assert(name_views(before) =~= name_texts(before));
        }
        index = index + 1;
    }
    assert(rows@.take(index as int) =~= rows@);
    names
}

/// The payload type text of a state: see `state_type`.
fn find_state_type(rows: &Vec<StateTransition>, state: &String) -> (text: Option<String>)
    ensures
        match text {
            Some(found) => state_type(rows@, state@) == Some(found@),
            None => state_type(rows@, state@) is None,
        },
{
    let mut index: usize = 0;
    assert(rows@.skip(0) =~= rows@);
    while index < rows.len()
        invariant
            index <= rows@.len(),
            state_type(rows@.skip(index as int), state@) == state_type(rows@, state@),
        decreases rows@.len() - index,
    {
        let row = &rows[index];
        let ghost rest = rows@.skip(index as int);
        assert(rest[0] == rows@[index as int]);
        assert(rest.skip(1) =~= rows@.skip(index + 1));
        if row.in_state.ident == *state {
            if let Some(data_type) = &row.in_state.data_type {
                return Some(data_type.text.clone());
            }
        }
        if row.out_state.ident == *state {
            if let Some(data_type) = &row.out_state.data_type {
                return Some(data_type.text.clone());
            }
        }
        index = index + 1;
    }
    None
}

/// Appends the variant of a state, its payload tokens taken from
/// `payloads`; `false`, with nothing appended, when they are not given.
fn push_state_variant(
    tokens: &mut Vec<TokenTree>,
    rows: &Vec<StateTransition>,
    state: &String,
    payloads: &Vec<(String, Vec<TokenTree>)>,
) -> (given: bool)
    ensures
        given ==> tokens_text(final(tokens)@) == tokens_text(old(tokens)@) + typed_variant_text(
            state@,
            state_type(rows@, state@),
            payloads@,
        ),
        !given <==> (state_type(rows@, state@) matches Some(text) && forall|i: int|
            0 <= i < payloads@.len() ==> payloads@[i].0@ != text),
{
    match find_state_type(rows, state) {
        None => {
            push_name(tokens, state);
            true
        },
        Some(text) => {
            match payload_position(payloads, &text) {
                Some(i) => {
                    push_name(tokens, state);
                    push_group(tokens, Delimiter::Parenthesis, copy_tokens(&payloads[i].1));
                    true
                },
                None => false,
            }
        },
    }
}

/// Whether the tokens of every state payload type of the table are among
/// `payloads`, keyed by the type's text.
pub open spec fn state_payloads_given(rows: Seq<StateTransition>, payloads: Seq<(String, Vec<TokenTree>)>) -> bool {
    forall|k: int|
        0 <= k < sorted_names(table_states(rows)).len() ==> ((#[trigger] state_type(
            rows,
            sorted_names(table_states(rows))[k],
        )) matches Some(text) ==> exists|i: int| 0 <= i < payloads.len() && payloads[i].0@ == text)
}

/// Writes the states enum and its equality: see `split_states_text`;
/// `None` when the tokens of a state payload type are not given.
fn split_states(machine: &StateMachine, names: &Names, payloads: &Vec<(String, Vec<TokenTree>)>) -> (tokens: Option<Vec<TokenTree>>)
    ensures
        tokens is Some <==> state_payloads_given(machine.transitions@, payloads@),
        tokens matches Some(written) ==> forall|name: Seq<char>|
            named(name, "States"@) == names.states@ ==> tokens_text(written@) == split_states_text(
                *machine,
                name,
                payloads@,
            ),
{
    let rows = &machine.transitions;
    let states = sort_names(&collect_table_states(rows));
    let ghost order = sorted_names(table_states(rows@));
    let mut body: Vec<TokenTree> = Vec::new();
    assert(tokens_text(body@) =~= Seq::<char>::empty());
    let mut k: usize = 0;
    assert(order.take(0) =~= Seq::<Seq<char>>::empty());
    while k < states.len()
        invariant
            rows@ == machine.transitions@,
            name_views(states@) == order,
            order == sorted_names(table_states(rows@)),
            k <= states@.len(),
            tokens_text(body@) == state_variants_of(rows@, order.take(k as int), payloads@),
            forall|j: int|
                0 <= j < k ==> ((#[trigger] state_type(rows@, order[j])) matches Some(text)
                    ==> exists|i: int| 0 <= i < payloads@.len() && payloads@[i].0@ == text),
        decreases states@.len() - k,
    {
        let ghost before = tokens_text(body@);
        assert(order[k as int] == states@[k as int]@);
        if k > 0 {
            push_mark(&mut body, ',', Spacing::Alone);
        }
        let ghost after_comma = tokens_text(body@);
        if !push_state_variant(&mut body, rows, &states[k], payloads) {
            proof {
                let t = state_type(rows@, order[k as int])->0;
                assert(state_type(rows@, order[k as int]) == Some(t));
                assert(forall|i: int| 0 <= i < payloads@.len() ==> payloads@[i].0@ != t);
                if state_payloads_given(rows@, payloads@) {
                    let all = sorted_names(table_states(rows@));
                    assert(0 <= k < all.len());
                    assert(all[k as int] == order[k as int]);
                    assert(state_type(rows@, all[k as int]) == Some(t));
                    assert(exists|i: int| 0 <= i < payloads@.len() && payloads@[i].0@ == t);
                    let w = choose|i: int| 0 <= i < payloads@.len() && payloads@[i].0@ == t;
                    assert(payloads@[w].0@ != t);
                    assert(false);
                }
                assert(!state_payloads_given(machine.transitions@, payloads@));
            }
            return None;
        }
        proof {
            let taken = order.take(k + 1);
            assert(taken.drop_last() =~= order.take(k as int));
            assert(taken.last() == order[k as int]);
            if k == 0 {
                assert(taken.len() == 1);
                assert(after_comma =~= before);
            }
            assert(tokens_text(body@) =~= state_variants_of(rows@, taken, payloads@));
            assert forall|j: int|
                0 <= j < k + 1 implies ((#[trigger] state_type(rows@, order[j])) matches Some(text)
                    ==> exists|i: int| 0 <= i < payloads@.len() && payloads@[i].0@ == text) by {
                if j == k {
                    if state_type(rows@, order[j]) is Some {
                        let t = state_type(rows@, order[j])->0;
                        assert(!(forall|i: int| 0 <= i < payloads@.len() ==> payloads@[i].0@ != t));
                    }
                }
            }
        }
        k = k + 1;
    }
    assert(order.take(k as int) =~= order);
    let mut own: Vec<TokenTree> = Vec::new();
    assert(tokens_text(own@) =~= Seq::<char>::empty());
    push_discriminant(&mut own, "self");
    push_mark(&mut own, '=', Spacing::Joint);
    push_mark(&mut own, '=', Spacing::Alone);
    push_discriminant(&mut own, "other");
    let mut params: Vec<TokenTree> = Vec::new();
    assert(tokens_text(params@) =~= Seq::<char>::empty());
    push_mark(&mut params, '&', Spacing::Alone);
    push_word(&mut params, "self");
    push_mark(&mut params, ',', Spacing::Alone);
    push_word(&mut params, "other");
    push_mark(&mut params, ':', Spacing::Alone);
    push_mark(&mut params, '&', Spacing::Alone);
    push_word(&mut params, "Self");
    let mut method: Vec<TokenTree> = Vec::new();
    assert(tokens_text(method@) =~= Seq::<char>::empty());
    push_word(&mut method, "fn");
    push_word(&mut method, "eq");
    push_group(&mut method, Delimiter::Parenthesis, params);
    push_arrow(&mut method);
    push_word(&mut method, "bool");
    push_group(&mut method, Delimiter::Brace, own);
    let mut tokens: Vec<TokenTree> = Vec::new();
    assert(tokens_text(tokens@) =~= Seq::<char>::empty());
    push_allow_missing_docs(&mut tokens);
    push_word(&mut tokens, "pub");
    push_word(&mut tokens, "enum");
    push_name(&mut tokens, &names.states);
    push_group(&mut tokens, Delimiter::Brace, body);
    push_word(&mut tokens, "impl");
    push_word(&mut tokens, "PartialEq");
    push_word(&mut tokens, "for");
    push_name(&mut tokens, &names.states);
    push_group(&mut tokens, Delimiter::Brace, method);
    assert(forall|name: Seq<char>|
        named(name, "States"@) == names.states@ ==> tokens_text(tokens@) =~= split_states_text(
            *machine,
            name,
            payloads@,
        ));
    assert(state_payloads_given(machine.transitions@, payloads@));
    Some(tokens)
}

/// Appends `core::mem::discriminant(value)`.
fn push_discriminant(tokens: &mut Vec<TokenTree>, value: &str)
    ensures
        tokens_text(final(tokens)@) == tokens_text(old(tokens)@) + discriminant_text(value@),
{
    let ghost start = tokens_text(tokens@);
    push_path(tokens, "core", &String::from_str("mem"));
    push_mark(tokens, ':', Spacing::Joint);
    push_mark(tokens, ':', Spacing::Alone);
    push_word(tokens, "discriminant");
    let mut argument: Vec<TokenTree> = Vec::new();
    assert(tokens_text(argument@) =~= Seq::<char>::empty());
    push_word(&mut argument, value);
    push_group(tokens, Delimiter::Parenthesis, argument);
    assert(tokens_text(tokens@) =~= start + discriminant_text(value@));
}

/// Whether a row's trigger is an event of the events enum: an ordinary or
/// unexpected event that is not a wildcard.
pub open spec fn is_table_event(row: StateTransition) -> bool {
    (row.event.kind == EventKind::Normal || row.event.kind == EventKind::Unexpected)
        && !row.event.wildcard
}

/// The events of a table's events enum, each once, in the order met.
pub open spec fn table_events(rows: Seq<StateTransition>) -> Seq<Seq<char>>
    decreases rows.len(),
{
    if rows.len() == 0 {
        Seq::empty()
    } else if is_table_event(rows.last()) {
        insert_name(table_events(rows.drop_last()), rows.last().event.ident@)
    } else {
        table_events(rows.drop_last())
    }
}

/// The payload type text of an event: that of the first row that triggers
/// on it, if that row gives it one.
pub open spec fn event_type(rows: Seq<StateTransition>, event: Seq<char>) -> Option<Seq<char>>
    decreases rows.len(),
{
    if rows.len() == 0 {
        None
    } else if is_table_event(rows[0]) && rows[0].event.ident@ == event {
        match rows[0].event.data_type {
            Some(data_type) => Some(data_type.text@),
            None => None,
        }
    } else {
        event_type(rows.skip(1), event)
    }
}

/// The variants of the events `names`, separated by commas.
pub open spec fn event_variants_of(
    rows: Seq<StateTransition>,
    names: Seq<Seq<char>>,
    payloads: Seq<(String, Vec<TokenTree>)>,
) -> Seq<char>
    decreases names.len(),
{
    if names.len() == 0 {
        Seq::empty()
    } else if names.len() == 1 {
        typed_variant_text(names[0], event_type(rows, names[0]), payloads)
    } else {
        event_variants_of(rows, names.drop_last(), payloads) + alone(',') + typed_variant_text(
            names.last(),
            event_type(rows, names.last()),
            payloads,
        )
    }
}

/// Whether the tokens of every event payload type of the table are among
/// `payloads`, keyed by the type's text.
pub open spec fn event_payloads_given(rows: Seq<StateTransition>, payloads: Seq<(String, Vec<TokenTree>)>) -> bool {
    forall|k: int|
        0 <= k < sorted_names(table_events(rows)).len() ==> ((#[trigger] event_type(
            rows,
            sorted_names(table_events(rows))[k],
        )) matches Some(text) ==> exists|i: int| 0 <= i < payloads.len() && payloads[i].0@ == text)
}

/// `#[allow(missing_docs)] pub enum {Name}Events { variants }`, the events
/// sorted by name.
pub open spec fn split_events_text(
    machine: StateMachine,
    name: Seq<char>,
    payloads: Seq<(String, Vec<TokenTree>)>,
) -> Seq<char> {
    let rows = machine.transitions@;
    allow_missing_docs_text() + word_text("pub"@) + word_text("enum"@) + word_text(
        named(name, "Events"@),
    ) + group_text(
        Delimiter::Brace,
        event_variants_of(rows, sorted_names(table_events(rows)), payloads),
    )
}

/// The events of the table's events enum: see `table_events`.
fn collect_table_events(rows: &Vec<StateTransition>) -> (names: Vec<String>)
    ensures
        name_views(names@) == table_events(rows@),
{
    let mut names: Vec<String> = Vec::new();
    let mut index: usize = 0;
    while index < rows.len()
        invariant
            index <= rows@.len(),
            name_views(names@) == table_events(rows@.take(index as int)),
        decreases rows@.len() - index,
    {
        let row = &rows[index];
        proof {
            let taken = rows@.take(index + 1);
            assert(taken.drop_last() =~= rows@.take(index as int));
            assert(taken.last() == rows@[index as int]);
        }
        let listed = (row.event.kind == EventKind::Normal || row.event.kind == EventKind::Unexpected)
            && !row.event.wildcard;
        if listed {
            let ghost before = names@;
            if !contains_text(&names, &row.event.ident) {
                names.push(row.event.ident.clone());
                assert(name_views(names@) =~= name_views(before).push(row.event.ident@));
            }
            assert(name_views(before) =~= name_texts(before));
        }
        index = index + 1;
    }
    assert(rows@.take(index as int) =~= rows@);
    names
}

/// The payload type text of an event: see `event_type`.
fn find_event_type(rows: &Vec<StateTransition>, event: &String) -> (text: Option<String>)
    ensures
        match text {
            Some(found) => event_type(rows@, event@) == Some(found@),
            None => event_type(rows@, event@) is None,
        },
{
    let mut index: usize = 0;
    assert(rows@.skip(0) =~= rows@);
    while index < rows.len()
        invariant
            index <= rows@.len(),
            event_type(rows@.skip(index as int), event@) == event_type(rows@, event@),
        decreases rows@.len() - index,
    {
        let row = &rows[index];
        let ghost rest = rows@.skip(index as int);
        assert(rest[0] == rows@[index as int]);
        assert(rest.skip(1) =~= rows@.skip(index + 1));
        let listed = (row.event.kind == EventKind::Normal || row.event.kind == EventKind::Unexpected)
            && !row.event.wildcard;
        if listed && row.event.ident == *event {
            return match &row.event.data_type {
                Some(data_type) => Some(data_type.text.clone()),
                None => None,
            };
        }
        index = index + 1;
    }
    None
}

/// Appends the variant `name` with the payload tokens of `text` taken from
/// `payloads`; `false`, with nothing appended, when they are not given.
fn push_typed_variant(
    tokens: &mut Vec<TokenTree>,
    name: &String,
    text: Option<String>,
    payloads: &Vec<(String, Vec<TokenTree>)>,
) -> (given: bool)
    ensures
        given ==> tokens_text(final(tokens)@) == tokens_text(old(tokens)@) + typed_variant_text(
            name@,
            match text {
                Some(t) => Some(t@),
                None => None,
            },
            payloads@,
        ),
        !given <==> (text matches Some(t) && forall|i: int|
            0 <= i < payloads@.len() ==> payloads@[i].0@ != t@),
{
    match text {
        None => {
            push_name(tokens, name);
            true
        },
        Some(text) => {
            match payload_position(payloads, &text) {
                Some(i) => {
                    push_name(tokens, name);
                    push_group(tokens, Delimiter::Parenthesis, copy_tokens(&payloads[i].1));
                    true
                },
                None => false,
            }
        },
    }
}

/// Writes the events enum: see `split_events_text`; `None` when the tokens
/// of an event payload type are not given.
fn split_events(machine: &StateMachine, names: &Names, payloads: &Vec<(String, Vec<TokenTree>)>) -> (tokens: Option<Vec<TokenTree>>)
    ensures
        tokens is Some <==> event_payloads_given(machine.transitions@, payloads@),
        tokens matches Some(written) ==> forall|name: Seq<char>|
            named(name, "Events"@) == names.events@ ==> tokens_text(written@) == split_events_text(
                *machine,
                name,
                payloads@,
            ),
{
    let rows = &machine.transitions;
    let events = sort_names(&collect_table_events(rows));
    let ghost order = sorted_names(table_events(rows@));
    let mut body: Vec<TokenTree> = Vec::new();
    assert(tokens_text(body@) =~= Seq::<char>::empty());
    let mut k: usize = 0;
    assert(order.take(0) =~= Seq::<Seq<char>>::empty());
    while k < events.len()
        invariant
            rows@ == machine.transitions@,
            name_views(events@) == order,
            order == sorted_names(table_events(rows@)),
            k <= events@.len(),
            tokens_text(body@) == event_variants_of(rows@, order.take(k as int), payloads@),
            forall|j: int|
                0 <= j < k ==> ((#[trigger] event_type(rows@, order[j])) matches Some(text)
                    ==> exists|i: int| 0 <= i < payloads@.len() && payloads@[i].0@ == text),
        decreases events@.len() - k,
    {
        let ghost before = tokens_text(body@);
        assert(order[k as int] == events@[k as int]@);
        if k > 0 {
            push_mark(&mut body, ',', Spacing::Alone);
        }
        let ghost after_comma = tokens_text(body@);
        let text = find_event_type(rows, &events[k]);
        if !push_typed_variant(&mut body, &events[k], text, payloads) {
            proof {
                let t = event_type(rows@, order[k as int])->0;
                assert(event_type(rows@, order[k as int]) == Some(t));
                assert(forall|i: int| 0 <= i < payloads@.len() ==> payloads@[i].0@ != t);
                if event_payloads_given(rows@, payloads@) {
                    let all = sorted_names(table_events(rows@));
                    assert(0 <= k < all.len());
                    assert(all[k as int] == order[k as int]);
                    assert(event_type(rows@, all[k as int]) == Some(t));
                    assert(exists|i: int| 0 <= i < payloads@.len() && payloads@[i].0@ == t);
                    let w = choose|i: int| 0 <= i < payloads@.len() && payloads@[i].0@ == t;
                    assert(payloads@[w].0@ != t);
                    assert(false);
                }
                assert(!event_payloads_given(machine.transitions@, payloads@));
            }
            return None;
        }
        proof {
            let taken = order.take(k + 1);
            assert(taken.drop_last() =~= order.take(k as int));
            assert(taken.last() == order[k as int]);
            if k == 0 {
                assert(taken.len() == 1);
                assert(after_comma =~= before);
            }
            assert(tokens_text(body@) =~= event_variants_of(rows@, taken, payloads@));
            assert forall|j: int|
                0 <= j < k + 1 implies ((#[trigger] event_type(rows@, order[j])) matches Some(text)
                    ==> exists|i: int| 0 <= i < payloads@.len() && payloads@[i].0@ == text) by {
                if j == k {
                    if event_type(rows@, order[j]) is Some {
                        let t = event_type(rows@, order[j])->0;
                        assert(!(forall|i: int| 0 <= i < payloads@.len() ==> payloads@[i].0@ != t));
                    }
                }
            }
        }
        k = k + 1;
    }
    assert(order.take(k as int) =~= order);
    let mut tokens: Vec<TokenTree> = Vec::new();
    assert(tokens_text(tokens@) =~= Seq::<char>::empty());
    push_allow_missing_docs(&mut tokens);
    push_word(&mut tokens, "pub");
    push_word(&mut tokens, "enum");
    push_name(&mut tokens, &names.events);
    push_group(&mut tokens, Delimiter::Brace, body);
    assert(forall|name: Seq<char>|
        named(name, "Events"@) == names.events@ ==> tokens_text(tokens@) =~= split_events_text(
            *machine,
            name,
            payloads@,
        ));
    assert(event_payloads_given(machine.transitions@, payloads@));
    Some(tokens)
}

/// Whether `row` gives `state` the payload type written `text`, as its
/// source or as its target.
pub open spec fn row_gives_type(row: StateTransition, state: Seq<char>, text: Seq<char>) -> bool {
    ||| row.in_state.ident@ == state && (row.in_state.data_type matches Some(data_type)
        && data_type.text@ == text)
    ||| row.out_state.ident@ == state && (row.out_state.data_type matches Some(data_type)
        && data_type.text@ == text)
}

/// The payload of a state in the states enum comes from the rows: a state
/// has one exactly when some row gives it a type, whether the state is that
/// row's source or its target, and the type is one that a row gives it.
pub proof fn law_state_payload_from_any_row(rows: Seq<StateTransition>, state: Seq<char>)
    ensures
        state_type(rows, state) is Some <==> state_has_payload(rows, state),
        state_type(rows, state) matches Some(text) ==> exists|i: int|
            0 <= i < rows.len() && row_gives_type(#[trigger] rows[i], state, text),
    decreases rows.len(),
{
    if rows.len() == 0 {
        return;
    }
    if rows[0].in_state.ident@ == state && rows[0].in_state.data_type is Some {
        assert(row_gives_type(rows[0], state, rows[0].in_state.data_type->0.text@));
        assert(state_has_payload(rows, state)) by {
            assert(rows[0] == rows[0]);
        }
    } else if rows[0].out_state.ident@ == state && rows[0].out_state.data_type is Some {
        assert(row_gives_type(rows[0], state, rows[0].out_state.data_type->0.text@));
        assert(state_has_payload(rows, state)) by {
            assert(rows[0] == rows[0]);
        }
    } else {
        let rest = rows.skip(1);
        law_state_payload_from_any_row(rest, state);
        assert forall|i: int| 1 <= i < rows.len() implies #[trigger] rows[i] == rest[i - 1] by {}
        if state_has_payload(rows, state) {
            let i = choose|i: int|
                0 <= i < rows.len() && ((#[trigger] rows[i]).in_state.ident@ == state
                    && rows[i].in_state.data_type is Some || rows[i].out_state.ident@ == state
                    && rows[i].out_state.data_type is Some);
            assert(i != 0);
            assert(rest[i - 1] == rows[i]);
            assert(state_has_payload(rest, state));
        }
        if state_has_payload(rest, state) {
            let j = choose|j: int|
                0 <= j < rest.len() && ((#[trigger] rest[j]).in_state.ident@ == state
                    && rest[j].in_state.data_type is Some || rest[j].out_state.ident@ == state
                    && rest[j].out_state.data_type is Some);
            assert(rows[j + 1] == rest[j]);
            assert(state_has_payload(rows, state));
        }
        if let Some(text) = state_type(rows, state) {
            let j = choose|j: int| 0 <= j < rest.len() && row_gives_type(#[trigger] rest[j], state, text);
            assert(rows[j + 1] == rest[j]);
            assert(row_gives_type(rows[j + 1], state, text));
        }
    }
}

} // verus!
