//! The machine a parent table with one child table expands to, written as
//! token trees: the parent's state and the child's state side by side, the
//! state API of both levels, and termination with the parent.

use vstd::prelude::*;

use super::codegen::{
    arrow, context_method_text, field_text, method_head_text, path_text, push_arrow,
    push_context_method, push_field, push_literal, push_method_head, push_path, push_queue_path,
    push_receiver, queue_path_text, receiver_text,
};
use super::composite::CompositePlan;
use super::emit::{alone, group_text, joint, push_all, push_group, push_mark, push_name, push_word, word_text};
use super::machine::{StateMachine, StateTransition};
use super::names::{state_ident, state_ident_text};
use super::orthogonal_code::{
    any_defers, context_bound_text, state_has_payload, default_call_text, defers_some, named, names_of,
    push_context_bound, push_default_call, push_empty_group, push_joined, terminated_impl,
    terminated_impl_text, Names,
};
use super::resolve::tokens_text;
use super::token::{Delimiter, Spacing, TokenTree};

verus! {

/// Whether a `state<Child>` reference names the table `child`.
pub open spec fn refers(composite: Option<String>, child: Seq<char>) -> bool {
    composite matches Some(reference) && reference@ == child
}

/// Whether some row of the parent gives `state` a payload, leaving out the
/// states that stand for the child table `child`.
pub open spec fn parent_payload(transitions: Seq<StateTransition>, state: Seq<char>, child: Seq<char>) -> bool {
    exists|i: int|
        0 <= i < transitions.len() && ((#[trigger] transitions[i]).in_state.ident@ == state
            && transitions[i].in_state.data_type is Some && !refers(
            transitions[i].in_state.composite,
            child,
        ) || transitions[i].out_state.ident@ == state && transitions[i].out_state.data_type is Some
            && !refers(transitions[i].out_state.composite, child))
}

/// Whether `state` is a state of the table: the source of a row that is not
/// a wildcard, or the target of a row that is not internal.
pub open spec fn has_state(transitions: Seq<StateTransition>, state: Seq<char>) -> bool {
    exists|i: int|
        0 <= i < transitions.len() && ((!(#[trigger] transitions[i]).in_state.wildcard
            && transitions[i].in_state.ident@ == state) || (!transitions[i].internal_transition
            && transitions[i].out_state.ident@ == state))
}

/// The index of the first row that starts the table, if any.
pub open spec fn start_row(transitions: Seq<StateTransition>) -> Option<int> {
    if exists|i: int| 0 <= i < transitions.len() && (#[trigger] transitions[i]).in_state.start {
        Some(
            choose|i: int|
                0 <= i < transitions.len() && (#[trigger] transitions[i]).in_state.start && forall|j: int|
                    0 <= j < i ==> !(#[trigger] transitions[j]).in_state.start,
        )
    } else {
        None
    }
}

/// `pub fn method(&self) -> &Type { &self.field }`.
pub open spec fn field_getter_text(method: Seq<char>, ty: Seq<char>, field: Seq<char>) -> Seq<char> {
    method_head_text(method) + group_text(Delimiter::Parenthesis, receiver_text(false)) + arrow()
        + alone('&') + word_text(ty) + group_text(
        Delimiter::Brace,
        alone('&') + field_text(field),
    )
}

/// `pub fn method(&mut self, state: Type) -> Type {
/// core::mem::replace(&mut self.field, state) }`.
pub open spec fn field_setter_text(method: Seq<char>, ty: Seq<char>, field: Seq<char>) -> Seq<char> {
    method_head_text(method) + group_text(
        Delimiter::Parenthesis,
        receiver_text(true) + alone(',') + word_text("state"@) + alone(':') + word_text(ty),
    ) + arrow() + word_text(ty) + group_text(
        Delimiter::Brace,
        path_text("core"@, "mem"@) + joint(':') + alone(':') + word_text("replace"@) + group_text(
            Delimiter::Parenthesis,
            alone('&') + word_text("mut"@) + field_text(field) + alone(',') + word_text("state"@),
        ),
    )
}

/// `pub fn method(&self, expected: &Type) -> bool { self.field == *expected
/// }`.
pub open spec fn field_is_text(method: Seq<char>, ty: Seq<char>, field: Seq<char>) -> Seq<char> {
    method_head_text(method) + group_text(
        Delimiter::Parenthesis,
        receiver_text(false) + alone(',') + word_text("expected"@) + alone(':') + alone('&')
            + word_text(ty),
    ) + arrow() + word_text("bool"@) + group_text(
        Delimiter::Brace,
        field_text(field) + joint('=') + alone('=') + alone('*') + word_text("expected"@),
    )
}

/// `pub fn method(&self) -> bool { matches!(self.state, States::Variant)
/// }`.
pub open spec fn state_test_text(method: Seq<char>, states: Seq<char>, variant: Seq<char>) -> Seq<char> {
    method_head_text(method) + group_text(Delimiter::Parenthesis, receiver_text(false)) + arrow()
        + word_text("bool"@) + group_text(
        Delimiter::Brace,
        word_text("matches"@) + alone('!') + group_text(
            Delimiter::Parenthesis,
            field_text("state"@) + alone(',') + path_text(states, variant),
        ),
    )
}

/// A start state as a value, given a default payload when it has one.
pub open spec fn start_value_text(states: Seq<char>, state: Seq<char>, payload: bool) -> Seq<char> {
    path_text(states, state) + if payload {
        group_text(Delimiter::Parenthesis, default_call_text())
    } else {
        Seq::empty()
    }
}

/// The struct of a parent `name` with one child whose state in the parent
/// is `variant`.
pub open spec fn composite_struct_text(name: Seq<char>, variant: Seq<char>, defers: bool) -> Seq<char> {
    word_text("pub"@) + word_text("struct"@) + word_text(named(name, "StateMachine"@))
        + context_bound_text(name) + group_text(
        Delimiter::Brace,
        word_text("state"@) + alone(':') + word_text(named(name, "States"@)) + alone(',')
            + word_text("child_state"@) + alone(':') + word_text(named(name + variant, "States"@))
            + alone(',') + word_text("context"@) + alone(':') + word_text("T"@) + alone(',')
            + if defers {
            word_text("deferred"@) + alone(':') + queue_path_text() + alone('<') + word_text(
                named(name, "Events"@),
            ) + alone(',') + word_text("16"@) + alone('>') + alone(',')
        } else {
            Seq::empty()
        },
    )
}

/// `pub fn new(context: T) -> Self { Self { state: start, child_state:
/// start, context, } }`, with the empty deferred-event queue when a row
/// defers.
pub open spec fn composite_new_text(
    name: Seq<char>,
    variant: Seq<char>,
    parent_start: Seq<char>,
    parent_payload: bool,
    child_start: Seq<char>,
    child_payload: bool,
    defers: bool,
) -> Seq<char> {
    method_head_text("new"@) + group_text(
        Delimiter::Parenthesis,
        word_text("context"@) + alone(':') + word_text("T"@),
    ) + arrow() + word_text("Self"@) + group_text(
        Delimiter::Brace,
        word_text("Self"@) + group_text(
            Delimiter::Brace,
            word_text("state"@) + alone(':') + start_value_text(
                named(name, "States"@),
                parent_start,
                parent_payload,
            ) + alone(',') + word_text("child_state"@) + alone(':') + start_value_text(
                named(name + variant, "States"@),
                child_start,
                child_payload,
            ) + alone(',') + word_text("context"@) + alone(',') + if defers {
                word_text("deferred"@) + alone(':') + queue_path_text() + joint(':') + alone(':')
                    + word_text("new"@) + group_text(Delimiter::Parenthesis, Seq::empty())
                    + alone(',')
            } else {
                Seq::empty()
            },
        ),
    )
}

/// `pub fn is_terminated(&self) -> bool`: whether the parent is in `X`, or
/// `false` when the parent has no `X`.
pub open spec fn parent_terminated_text(name: Seq<char>, terminal: bool) -> Seq<char> {
    if terminal {
        state_test_text("is_terminated"@, named(name, "States"@), "X"@)
    } else {
        method_head_text("is_terminated"@) + group_text(Delimiter::Parenthesis, receiver_text(false))
            + arrow() + word_text("bool"@) + group_text(Delimiter::Brace, word_text("false"@))
    }
}

/// The accessors of both levels: `state`, `child_state`, `set_state` and
/// `set_child_state`.
pub open spec fn composite_access_text(name: Seq<char>, variant: Seq<char>) -> Seq<char> {
    let states = named(name, "States"@);
    let child_states = named(name + variant, "States"@);
    field_getter_text("state"@, states, "state"@) + field_getter_text(
        "child_state"@,
        child_states,
        "child_state"@,
    ) + field_setter_text("set_state"@, states, "state"@) + field_setter_text(
        "set_child_state"@,
        child_states,
        "child_state"@,
    )
}

/// The tests of both levels: `is`, `is_child`, `child_is_active` and
/// `is_terminated`.
pub open spec fn composite_tests_text(name: Seq<char>, variant: Seq<char>, terminal: bool) -> Seq<char> {
    let states = named(name, "States"@);
    let child_states = named(name + variant, "States"@);
    field_is_text("is"@, states, "state"@) + field_is_text("is_child"@, child_states, "child_state"@)
        + state_test_text("child_is_active"@, states, variant) + parent_terminated_text(name, terminal)
}

/// The state API of both levels, in order: the accessors, the tests, then
/// `context` and `context_mut`.
pub open spec fn composite_api_text(name: Seq<char>, variant: Seq<char>, terminal: bool) -> Seq<char> {
    composite_access_text(name, variant) + composite_tests_text(name, variant, terminal)
        + context_method_text("T"@, false) + context_method_text("T"@, true)
}

/// The impl block of `new` and the state API of both levels.
pub open spec fn composite_impl_text(
    name: Seq<char>,
    variant: Seq<char>,
    parent_start: Seq<char>,
    parent_payload: bool,
    child_start: Seq<char>,
    child_payload: bool,
    terminal: bool,
    defers: bool,
) -> Seq<char> {
    word_text("impl"@) + context_bound_text(name) + word_text(named(name, "StateMachine"@)) + alone(
        '<',
    ) + word_text("T"@) + alone('>') + group_text(
        Delimiter::Brace,
        composite_new_text(
            name,
            variant,
            parent_start,
            parent_payload,
            child_start,
            child_payload,
            defers,
        ) + composite_api_text(name, variant, terminal),
    )
}

/// The machine a parent with one child expands to: its struct, the impl
/// block of `new` and the state API, and its `Terminated` impl; `None`
/// when either table has no name or no start state.
pub open spec fn composite_expansion(parent: StateMachine, child: StateMachine) -> Option<Seq<char>> {
    match (parent.name, child.name, start_row(parent.transitions@), start_row(child.transitions@)) {
        (Some(name), Some(reference), Some(p), Some(c)) => {
            let variant = state_ident_text(reference@);
            let parent_start = parent.transitions@[p].in_state.ident@;
            let child_start = child.transitions@[c].in_state.ident@;
            let defers = any_defers(parent.transitions@) || any_defers(child.transitions@);
            Some(
                composite_struct_text(name@, variant, defers) + composite_impl_text(
                    name@,
                    variant,
                    parent_start,
                    parent_payload(parent.transitions@, parent_start, reference@),
                    child_start,
                    state_has_payload(child.transitions@, child_start),
                    has_state(parent.transitions@, "X"@),
                    defers,
                ) + terminated_impl_text(name@),
            )
        },
        _ => None,
    }
}

/// The expansion of a composite plan with one plain child: see
/// `composite_expansion`; `None` for a plan without such a child or one
/// whose tables are not among `machines`.
pub open spec fn composite_plan_expansion(machines: Seq<StateMachine>, plan: CompositePlan) -> Option<Seq<char>> {
    match plan.child {
        Some(c) => if plan.parent < machines.len() && c < machines.len() {
            composite_expansion(machines[plan.parent as int], machines[c as int])
        } else {
            None
        },
        None => None,
    }
}

/// Whether some row of the parent gives `state` a payload: see
/// `parent_payload`.
fn parent_payload_of(transitions: &Vec<StateTransition>, state: &String, child: &String) -> (found: bool)
    ensures
        found == parent_payload(transitions@, state@, child@),
{
    let mut index: usize = 0;
    while index < transitions.len()
        invariant
            index <= transitions@.len(),
            forall|i: int|
                0 <= i < index ==> !((#[trigger] transitions@[i]).in_state.ident@ == state@
                    && transitions@[i].in_state.data_type is Some && !refers(
                    transitions@[i].in_state.composite,
                    child@,
                ) || transitions@[i].out_state.ident@ == state@
                    && transitions@[i].out_state.data_type is Some && !refers(
                    transitions@[i].out_state.composite,
                    child@,
                )),
        decreases transitions@.len() - index,
    {
        let row = &transitions[index];
        let in_refers = match &row.in_state.composite {
            Some(reference) => *reference == *child,
            None => false,
        };
        let out_refers = match &row.out_state.composite {
            Some(reference) => *reference == *child,
            None => false,
        };
        if (row.in_state.ident == *state && row.in_state.data_type.is_some() && !in_refers) || (
        row.out_state.ident == *state && row.out_state.data_type.is_some() && !out_refers) {
            return true;
        }
        index = index + 1;
    }
    false
}

/// Whether `state` is a state of the table: see `has_state`.
fn has_state_of(transitions: &Vec<StateTransition>, state: &str) -> (found: bool)
    ensures
        found == has_state(transitions@, state@),
{
    let wanted = String::from_str(state);
    let mut index: usize = 0;
    while index < transitions.len()
        invariant
            wanted@ == state@,
            index <= transitions@.len(),
            forall|i: int|
                0 <= i < index ==> !((!(#[trigger] transitions@[i]).in_state.wildcard
                    && transitions@[i].in_state.ident@ == state@) || (
                !transitions@[i].internal_transition && transitions@[i].out_state.ident@ == state@)),
        decreases transitions@.len() - index,
    {
        let row = &transitions[index];
        if (!row.in_state.wildcard && row.in_state.ident == wanted) || (!row.internal_transition
            && row.out_state.ident == wanted) {
            return true;
        }
        index = index + 1;
    }
    false
}

/// The first row that starts the table: see `start_row`.
fn find_start(transitions: &Vec<StateTransition>) -> (found: Option<usize>)
    ensures
        match found {
            Some(i) => start_row(transitions@) == Some(i as int) && i < transitions@.len(),
            None => start_row(transitions@) is None,
        },
{
    let mut index: usize = 0;
    while index < transitions.len()
        invariant
            index <= transitions@.len(),
            forall|j: int| 0 <= j < index ==> !(#[trigger] transitions@[j]).in_state.start,
        decreases transitions@.len() - index,
    {
        if transitions[index].in_state.start {
            proof {
                let rows = transitions@;
                let i = index as int;
                assert(rows[i].in_state.start);
                let c = choose|c: int|
                    0 <= c < rows.len() && (#[trigger] rows[c]).in_state.start && forall|j: int|
                        0 <= j < c ==> !(#[trigger] rows[j]).in_state.start;
                assert(0 <= c < rows.len() && rows[c].in_state.start && forall|j: int|
                    0 <= j < c ==> !(#[trigger] rows[j]).in_state.start);
                if c < i {
                    assert(!rows[c].in_state.start);
                }
                if c > i {
                    assert(!rows[i].in_state.start);
                }
                assert(c == i);
            }
            return Some(index);
        }
        index = index + 1;
    }
    None
}

/// Appends `pub fn method(&self) -> &Type { &self.field }`.
fn push_field_getter(tokens: &mut Vec<TokenTree>, method: &str, ty: &String, field: &str)
    ensures
        tokens_text(final(tokens)@) == tokens_text(old(tokens)@) + field_getter_text(
            method@,
            ty@,
            field@,
        ),
{
    let ghost start = tokens_text(tokens@);
    let mut params: Vec<TokenTree> = Vec::new();
    assert(tokens_text(params@) =~= Seq::<char>::empty());
    push_receiver(&mut params, false);
    let mut body: Vec<TokenTree> = Vec::new();
    assert(tokens_text(body@) =~= Seq::<char>::empty());
    push_mark(&mut body, '&', Spacing::Alone);
    push_field(&mut body, field);
    push_method_head(tokens, method);
    push_group(tokens, Delimiter::Parenthesis, params);
    push_arrow(tokens);
    push_mark(tokens, '&', Spacing::Alone);
    push_name(tokens, ty);
    push_group(tokens, Delimiter::Brace, body);
    assert(tokens_text(tokens@) =~= start + field_getter_text(method@, ty@, field@));
}

/// Appends the setter of a field: see `field_setter_text`.
fn push_field_setter(tokens: &mut Vec<TokenTree>, method: &str, ty: &String, field: &str)
    ensures
        tokens_text(final(tokens)@) == tokens_text(old(tokens)@) + field_setter_text(
            method@,
            ty@,
            field@,
        ),
{
    let ghost start = tokens_text(tokens@);
    let mut params: Vec<TokenTree> = Vec::new();
    assert(tokens_text(params@) =~= Seq::<char>::empty());
    push_receiver(&mut params, true);
    push_mark(&mut params, ',', Spacing::Alone);
    push_word(&mut params, "state");
    push_mark(&mut params, ':', Spacing::Alone);
    push_name(&mut params, ty);
    let mut arguments: Vec<TokenTree> = Vec::new();
    assert(tokens_text(arguments@) =~= Seq::<char>::empty());
    push_mark(&mut arguments, '&', Spacing::Alone);
    push_word(&mut arguments, "mut");
    push_field(&mut arguments, field);
    push_mark(&mut arguments, ',', Spacing::Alone);
    push_word(&mut arguments, "state");
    let mut body: Vec<TokenTree> = Vec::new();
    assert(tokens_text(body@) =~= Seq::<char>::empty());
    push_path(&mut body, "core", &String::from_str("mem"));
    push_mark(&mut body, ':', Spacing::Joint);
    push_mark(&mut body, ':', Spacing::Alone);
    push_word(&mut body, "replace");
    push_group(&mut body, Delimiter::Parenthesis, arguments);
    push_method_head(tokens, method);
    push_group(tokens, Delimiter::Parenthesis, params);
    push_arrow(tokens);
    push_name(tokens, ty);
    push_group(tokens, Delimiter::Brace, body);
    assert(tokens_text(tokens@) =~= start + field_setter_text(method@, ty@, field@));
}

/// Appends the comparison of a field: see `field_is_text`.
fn push_field_is(tokens: &mut Vec<TokenTree>, method: &str, ty: &String, field: &str)
    ensures
        tokens_text(final(tokens)@) == tokens_text(old(tokens)@) + field_is_text(method@, ty@, field@),
{
    let ghost start = tokens_text(tokens@);
    let mut params: Vec<TokenTree> = Vec::new();
    assert(tokens_text(params@) =~= Seq::<char>::empty());
    push_receiver(&mut params, false);
    push_mark(&mut params, ',', Spacing::Alone);
    push_word(&mut params, "expected");
    push_mark(&mut params, ':', Spacing::Alone);
    push_mark(&mut params, '&', Spacing::Alone);
    push_name(&mut params, ty);
    let mut body: Vec<TokenTree> = Vec::new();
    assert(tokens_text(body@) =~= Seq::<char>::empty());
    push_field(&mut body, field);
    push_mark(&mut body, '=', Spacing::Joint);
    push_mark(&mut body, '=', Spacing::Alone);
    push_mark(&mut body, '*', Spacing::Alone);
    push_word(&mut body, "expected");
    push_method_head(tokens, method);
    push_group(tokens, Delimiter::Parenthesis, params);
    push_arrow(tokens);
    push_word(tokens, "bool");
    push_group(tokens, Delimiter::Brace, body);
    assert(tokens_text(tokens@) =~= start + field_is_text(method@, ty@, field@));
}

/// Appends a test of the parent's state: see `state_test_text`.
fn push_state_test(tokens: &mut Vec<TokenTree>, method: &str, states: &String, variant: &String)
    ensures
        tokens_text(final(tokens)@) == tokens_text(old(tokens)@) + state_test_text(
            method@,
            states@,
            variant@,
        ),
{
    let ghost start = tokens_text(tokens@);
    let mut params: Vec<TokenTree> = Vec::new();
    assert(tokens_text(params@) =~= Seq::<char>::empty());
    push_receiver(&mut params, false);
    let mut pattern: Vec<TokenTree> = Vec::new();
    assert(tokens_text(pattern@) =~= Seq::<char>::empty());
    push_field(&mut pattern, "state");
    push_mark(&mut pattern, ',', Spacing::Alone);
    push_joined(&mut pattern, states, variant);
    let mut body: Vec<TokenTree> = Vec::new();
    assert(tokens_text(body@) =~= Seq::<char>::empty());
    push_word(&mut body, "matches");
    push_mark(&mut body, '!', Spacing::Alone);
    push_group(&mut body, Delimiter::Parenthesis, pattern);
    push_method_head(tokens, method);
    push_group(tokens, Delimiter::Parenthesis, params);
    push_arrow(tokens);
    push_word(tokens, "bool");
    push_group(tokens, Delimiter::Brace, body);
    assert(tokens_text(tokens@) =~= start + state_test_text(method@, states@, variant@));
}

/// Appends a start state as a value: see `start_value_text`.
fn push_start_value(tokens: &mut Vec<TokenTree>, states: &String, state: &String, payload: bool)
    ensures
        tokens_text(final(tokens)@) == tokens_text(old(tokens)@) + start_value_text(
            states@,
            state@,
            payload,
        ),
{
    let ghost start = tokens_text(tokens@);
    push_joined(tokens, states, state);
    if payload {
        let mut call: Vec<TokenTree> = Vec::new();
        assert(tokens_text(call@) =~= Seq::<char>::empty());
        push_default_call(&mut call);
        push_group(tokens, Delimiter::Parenthesis, call);
    }
    assert(tokens_text(tokens@) =~= start + start_value_text(states@, state@, payload));
}

/// Writes the struct: see `composite_struct_text`.
fn composite_struct(name: &String, names: &Names, child_states: &String, variant: &String, defers: bool) -> (tokens: Vec<TokenTree>)
    requires
        names.states@ == named(name@, "States"@),
        names.events@ == named(name@, "Events"@),
        names.machine@ == named(name@, "StateMachine"@),
        names.context@ == named(name@, "StateMachineContext"@),
        child_states@ == named(name@ + variant@, "States"@),
    ensures
        tokens_text(tokens@) == composite_struct_text(name@, variant@, defers),
{
    let mut fields: Vec<TokenTree> = Vec::new();
    assert(tokens_text(fields@) =~= Seq::<char>::empty());
    push_word(&mut fields, "state");
    push_mark(&mut fields, ':', Spacing::Alone);
    push_name(&mut fields, &names.states);
    push_mark(&mut fields, ',', Spacing::Alone);
    push_word(&mut fields, "child_state");
    push_mark(&mut fields, ':', Spacing::Alone);
    push_name(&mut fields, child_states);
    push_mark(&mut fields, ',', Spacing::Alone);
    push_word(&mut fields, "context");
    push_mark(&mut fields, ':', Spacing::Alone);
    push_word(&mut fields, "T");
    push_mark(&mut fields, ',', Spacing::Alone);
    let ghost plain = tokens_text(fields@);
    if defers {
        push_word(&mut fields, "deferred");
        push_mark(&mut fields, ':', Spacing::Alone);
        push_queue_path(&mut fields);
        push_mark(&mut fields, '<', Spacing::Alone);
        push_name(&mut fields, &names.events);
        push_mark(&mut fields, ',', Spacing::Alone);
        push_literal(&mut fields, "16");
        push_mark(&mut fields, '>', Spacing::Alone);
        push_mark(&mut fields, ',', Spacing::Alone);
    }
    assert(tokens_text(fields@) =~= plain + if defers {
        word_text("deferred"@) + alone(':') + queue_path_text() + alone('<') + word_text(
            named(name@, "Events"@),
        ) + alone(',') + word_text("16"@) + alone('>') + alone(',')
    } else {
        Seq::empty()
    });
    let mut tokens: Vec<TokenTree> = Vec::new();
    assert(tokens_text(tokens@) =~= Seq::<char>::empty());
    push_word(&mut tokens, "pub");
    push_word(&mut tokens, "struct");
    push_name(&mut tokens, &names.machine);
    push_context_bound(&mut tokens, &names.context);
    push_group(&mut tokens, Delimiter::Brace, fields);
    assert(tokens_text(tokens@) =~= composite_struct_text(name@, variant@, defers));
    tokens
}

/// Appends `new`: see `composite_new_text`.
#[verifier::rlimit(30)]
fn push_composite_new(
    tokens: &mut Vec<TokenTree>,
    name: &String,
    names: &Names,
    child_states: &String,
    variant: &String,
    parent_start: &String,
    parent_payload: bool,
    child_start: &String,
    child_payload: bool,
    defers: bool,
)
    requires
        names.states@ == named(name@, "States"@),
        child_states@ == named(name@ + variant@, "States"@),
    ensures
        tokens_text(final(tokens)@) == tokens_text(old(tokens)@) + composite_new_text(
            name@,
            variant@,
            parent_start@,
            parent_payload,
            child_start@,
            child_payload,
            defers,
        ),
{
    let ghost start = tokens_text(tokens@);
    let mut params: Vec<TokenTree> = Vec::new();
    assert(tokens_text(params@) =~= Seq::<char>::empty());
    push_word(&mut params, "context");
    push_mark(&mut params, ':', Spacing::Alone);
    push_word(&mut params, "T");
    let mut fields: Vec<TokenTree> = Vec::new();
    assert(tokens_text(fields@) =~= Seq::<char>::empty());
    push_word(&mut fields, "state");
    push_mark(&mut fields, ':', Spacing::Alone);
    push_start_value(&mut fields, &names.states, parent_start, parent_payload);
    push_mark(&mut fields, ',', Spacing::Alone);
    push_word(&mut fields, "child_state");
    push_mark(&mut fields, ':', Spacing::Alone);
    push_start_value(&mut fields, child_states, child_start, child_payload);
    push_mark(&mut fields, ',', Spacing::Alone);
    push_word(&mut fields, "context");
    push_mark(&mut fields, ',', Spacing::Alone);
    let ghost plain = tokens_text(fields@);
    if defers {
        push_word(&mut fields, "deferred");
        push_mark(&mut fields, ':', Spacing::Alone);
        push_queue_path(&mut fields);
        push_mark(&mut fields, ':', Spacing::Joint);
        push_mark(&mut fields, ':', Spacing::Alone);
        push_word(&mut fields, "new");
        push_empty_group(&mut fields, Delimiter::Parenthesis);
        push_mark(&mut fields, ',', Spacing::Alone);
    }
    assert(tokens_text(fields@) =~= plain + if defers {
        word_text("deferred"@) + alone(':') + queue_path_text() + joint(':') + alone(':')
            + word_text("new"@) + group_text(Delimiter::Parenthesis, Seq::empty()) + alone(',')
    } else {
        Seq::empty()
    });
    let mut body: Vec<TokenTree> = Vec::new();
    assert(tokens_text(body@) =~= Seq::<char>::empty());
    push_word(&mut body, "Self");
    push_group(&mut body, Delimiter::Brace, fields);
    push_method_head(tokens, "new");
    push_group(tokens, Delimiter::Parenthesis, params);
    push_arrow(tokens);
    push_word(tokens, "Self");
    push_group(tokens, Delimiter::Brace, body);
    assert(tokens_text(tokens@) =~= start + composite_new_text(
        name@,
        variant@,
        parent_start@,
        parent_payload,
        child_start@,
        child_payload,
        defers,
    ));
}

/// Appends the accessors of both levels: see `composite_access_text`.
fn push_composite_access(tokens: &mut Vec<TokenTree>, name: &String, names: &Names, child_states: &String, variant: &String)
    requires
        names.states@ == named(name@, "States"@),
        child_states@ == named(name@ + variant@, "States"@),
    ensures
        tokens_text(final(tokens)@) == tokens_text(old(tokens)@) + composite_access_text(
            name@,
            variant@,
        ),
{
    let ghost start = tokens_text(tokens@);
    push_field_getter(tokens, "state", &names.states, "state");
    push_field_getter(tokens, "child_state", child_states, "child_state");
    push_field_setter(tokens, "set_state", &names.states, "state");
    push_field_setter(tokens, "set_child_state", child_states, "child_state");
    assert(tokens_text(tokens@) =~= start + composite_access_text(name@, variant@));
}

/// Appends `is_terminated`: see `parent_terminated_text`.
fn push_parent_terminated(tokens: &mut Vec<TokenTree>, name: &String, names: &Names, terminal: bool)
    requires
        names.states@ == named(name@, "States"@),
    ensures
        tokens_text(final(tokens)@) == tokens_text(old(tokens)@) + parent_terminated_text(
            name@,
            terminal,
        ),
{
    let ghost start = tokens_text(tokens@);
    if terminal {
        push_state_test(tokens, "is_terminated", &names.states, &String::from_str("X"));
    } else {
        let mut params: Vec<TokenTree> = Vec::new();
        assert(tokens_text(params@) =~= Seq::<char>::empty());
        push_receiver(&mut params, false);
        let mut body: Vec<TokenTree> = Vec::new();
        assert(tokens_text(body@) =~= Seq::<char>::empty());
        push_word(&mut body, "false");
        push_method_head(tokens, "is_terminated");
        push_group(tokens, Delimiter::Parenthesis, params);
        push_arrow(tokens);
        push_word(tokens, "bool");
        push_group(tokens, Delimiter::Brace, body);
    }
    assert(tokens_text(tokens@) =~= start + parent_terminated_text(name@, terminal));
}

/// Appends the tests of both levels: see `composite_tests_text`.
fn push_composite_tests(tokens: &mut Vec<TokenTree>, name: &String, names: &Names, child_states: &String, variant: &String, terminal: bool)
    requires
        names.states@ == named(name@, "States"@),
        child_states@ == named(name@ + variant@, "States"@),
    ensures
        tokens_text(final(tokens)@) == tokens_text(old(tokens)@) + composite_tests_text(
            name@,
            variant@,
            terminal,
        ),
{
    let ghost start = tokens_text(tokens@);
    push_field_is(tokens, "is", &names.states, "state");
    push_field_is(tokens, "is_child", child_states, "child_state");
    push_state_test(tokens, "child_is_active", &names.states, variant);
    push_parent_terminated(tokens, name, names, terminal);
    assert(tokens_text(tokens@) =~= start + composite_tests_text(name@, variant@, terminal));
}

/// Writes the impl block of `new` and the state API of both levels.
#[verifier::rlimit(30)]
fn composite_impl(
    name: &String,
    names: &Names,
    child_states: &String,
    variant: &String,
    parent_start: &String,
    parent_payload: bool,
    child_start: &String,
    child_payload: bool,
    terminal: bool,
    defers: bool,
) -> (tokens: Vec<TokenTree>)
    requires
        names.states@ == named(name@, "States"@),
        names.machine@ == named(name@, "StateMachine"@),
        names.context@ == named(name@, "StateMachineContext"@),
        child_states@ == named(name@ + variant@, "States"@),
    ensures
        tokens_text(tokens@) == composite_impl_text(
            name@,
            variant@,
            parent_start@,
            parent_payload,
            child_start@,
            child_payload,
            terminal,
            defers,
        ),
{
    let mut methods: Vec<TokenTree> = Vec::new();
    assert(tokens_text(methods@) =~= Seq::<char>::empty());
    push_composite_new(
        &mut methods,
        name,
        names,
        child_states,
        variant,
        parent_start,
        parent_payload,
        child_start,
        child_payload,
        defers,
    );
    let ghost made = tokens_text(methods@);
    push_composite_access(&mut methods, name, names, child_states, variant);
    push_composite_tests(&mut methods, name, names, child_states, variant, terminal);
    let context = String::from_str("T");
    push_context_method(&mut methods, &context, false);
    push_context_method(&mut methods, &context, true);
    assert(tokens_text(methods@) =~= made + composite_api_text(name@, variant@, terminal));
    let mut tokens: Vec<TokenTree> = Vec::new();
    assert(tokens_text(tokens@) =~= Seq::<char>::empty());
    push_word(&mut tokens, "impl");
    push_context_bound(&mut tokens, &names.context);
    push_name(&mut tokens, &names.machine);
    push_mark(&mut tokens, '<', Spacing::Alone);
    push_word(&mut tokens, "T");
    push_mark(&mut tokens, '>', Spacing::Alone);
    push_group(&mut tokens, Delimiter::Brace, methods);
    assert(tokens_text(tokens@) =~= composite_impl_text(
        name@,
        variant@,
        parent_start@,
        parent_payload,
        child_start@,
        child_payload,
        terminal,
        defers,
    ));
    tokens
}

/// Writes the machine of a composite plan with one plain child: see
/// `composite_plan_expansion`. `None` for a plan whose tree needs the
/// general expansion, and when a table has no name or no start state.
#[verifier::rlimit(40)]
pub fn generate_composite_code(machines: &Vec<StateMachine>, plan: &CompositePlan) -> (tokens: Option<Vec<TokenTree>>)
    ensures
        match tokens {
            Some(written) => composite_plan_expansion(machines@, *plan) == Some(tokens_text(written@)),
            None => composite_plan_expansion(machines@, *plan) is None,
        },
{
    let c = match plan.child {
        Some(c) => c,
        None => return None,
    };
    if plan.parent >= machines.len() || c >= machines.len() {
        return None;
    }
    let parent = &machines[plan.parent];
    let child = &machines[c];
    let name = match &parent.name {
        Some(name) => name,
        None => return None,
    };
    let reference = match &child.name {
        Some(reference) => reference,
        None => return None,
    };
    let p = match find_start(&parent.transitions) {
        Some(p) => p,
        None => return None,
    };
    let k = match find_start(&child.transitions) {
        Some(k) => k,
        None => return None,
    };
    let variant = state_ident(reference.as_str());
    let names = names_of(name);
    let mut child_states = name.clone();
    child_states.append(variant.as_str());
    child_states.append("States");
    let defers = defers_some(&parent.transitions) || defers_some(&child.transitions);
    let parent_start = &parent.transitions[p].in_state.ident;
    let child_start = &child.transitions[k].in_state.ident;
    let parent_payload = parent_payload_of(&parent.transitions, parent_start, reference);
    let child_payload = super::orthogonal_code::has_payload(&child.transitions, child_start);
    let terminal = has_state_of(&parent.transitions, "X");
    let block = composite_impl(
        name,
        &names,
        &child_states,
        &variant,
        parent_start,
        parent_payload,
        child_start,
        child_payload,
        terminal,
        defers,
    );
    let mut tokens = composite_struct(name, &names, &child_states, &variant, defers);
    push_all(&mut tokens, block);
    push_all(&mut tokens, terminated_impl(name, &names));
    proof {
        let text = composite_struct_text(name@, variant@, defers) + composite_impl_text(
            name@,
            variant@,
            parent_start@,
            parent_payload,
            child_start@,
            child_payload,
            terminal,
            defers,
        ) + terminated_impl_text(name@);
        assert(tokens_text(tokens@) == text);
        assert(composite_expansion(*parent, *child) == Some(text));
    }
    Some(tokens)
}

} // verus!
