//! The declarations a flat machine expands to, written as token trees: the
//! error enum, the states and events enums with their payloads and their
//! equality by variant, the conversions of outside event types, the machine
//! struct and its state API.

use vstd::prelude::*;

use super::emit::{
    alone, group_text, joint, push_all, push_group, push_mark, push_name, push_word, word_text,
};
use super::machine::ParsedStateMachine;
use super::plan::{defers_events, all_mappings, outside_events, generated_name, plan_machine, sorted_names, sort_names};
use super::names::{candidate, contains_text, first_free, fresh_type_ident, name_texts};
use super::types::{param_views, GenericParam, ParamView};
use super::resolve::tokens_text;
use super::token::{duplicate_tokens, same_tree, same_trees, Delimiter, Spacing, TokenTree};
use super::types::{name_views, DataDefinitions, DataView, Lifetimes};

verus! {

/// The text of the generated error enum of a machine, its payload type
/// parameter named `param`: `#[derive(Debug, PartialEq)] pub enum
/// {Name}Error<P = ()> { InvalidEvent, TransitionsFailed, GuardFailed(P),
/// ActionFailed(P), QueueFull, }`.
pub open spec fn error_enum_text(name: Option<String>, param: Seq<char>) -> Seq<char> {
    alone('#') + group_text(
        Delimiter::Bracket,
        word_text("derive"@) + group_text(
            Delimiter::Parenthesis,
            word_text("Debug"@) + alone(',') + word_text("PartialEq"@),
        ),
    ) + word_text("pub"@) + word_text("enum"@) + word_text(generated_name(name, "Error"@)) + alone(
        '<',
    ) + word_text(param) + alone('=') + group_text(Delimiter::Parenthesis, Seq::empty()) + alone(
        '>',
    ) + group_text(
        Delimiter::Brace,
        word_text("InvalidEvent"@) + alone(',') + word_text("TransitionsFailed"@) + alone(',')
            + word_text("GuardFailed"@) + group_text(Delimiter::Parenthesis, word_text(param))
            + alone(',') + word_text("ActionFailed"@) + group_text(
            Delimiter::Parenthesis,
            word_text(param),
        ) + alone(',') + word_text("QueueFull"@) + alone(','),
    )
}

/// Writes the generated error enum: see `error_enum_text`.
pub fn error_enum(name: &Option<String>, param: &str) -> (tokens: Vec<TokenTree>)
    ensures
        tokens_text(tokens@) == error_enum_text(*name, param@),
{
    let mut derived: Vec<TokenTree> = Vec::new();
    push_word(&mut derived, "Debug");
    push_mark(&mut derived, ',', Spacing::Alone);
    push_word(&mut derived, "PartialEq");
    let mut attribute: Vec<TokenTree> = Vec::new();
    push_word(&mut attribute, "derive");
    push_group(&mut attribute, Delimiter::Parenthesis, derived);
    let mut body: Vec<TokenTree> = Vec::new();
    push_word(&mut body, "InvalidEvent");
    push_mark(&mut body, ',', Spacing::Alone);
    push_word(&mut body, "TransitionsFailed");
    push_mark(&mut body, ',', Spacing::Alone);
    push_word(&mut body, "GuardFailed");
    let mut guard_payload: Vec<TokenTree> = Vec::new();
    push_word(&mut guard_payload, param);
    push_group(&mut body, Delimiter::Parenthesis, guard_payload);
    push_mark(&mut body, ',', Spacing::Alone);
    push_word(&mut body, "ActionFailed");
    let mut action_payload: Vec<TokenTree> = Vec::new();
    push_word(&mut action_payload, param);
    push_group(&mut body, Delimiter::Parenthesis, action_payload);
    push_mark(&mut body, ',', Spacing::Alone);
    push_word(&mut body, "QueueFull");
    push_mark(&mut body, ',', Spacing::Alone);
    let mut tokens: Vec<TokenTree> = Vec::new();
    assert(tokens_text(tokens@) =~= Seq::<char>::empty());
    push_mark(&mut tokens, '#', Spacing::Alone);
    push_group(&mut tokens, Delimiter::Bracket, attribute);
    push_word(&mut tokens, "pub");
    push_word(&mut tokens, "enum");
    push_name(&mut tokens, &suffixed(name, "Error"));
    push_mark(&mut tokens, '<', Spacing::Alone);
    push_word(&mut tokens, param);
    push_mark(&mut tokens, '=', Spacing::Alone);
    push_group(&mut tokens, Delimiter::Parenthesis, Vec::new());
    push_mark(&mut tokens, '>', Spacing::Alone);
    push_group(&mut tokens, Delimiter::Brace, body);
    assert(tokens_text(tokens@) =~= error_enum_text(*name, param@));
    tokens
}

/// A generated name: the machine's name followed by `suffix`.
fn suffixed(name: &Option<String>, suffix: &str) -> (text: String)
    ensures
        text@ == generated_name(*name, suffix@),
{
    match name {
        Some(own) => {
            let mut text = own.clone();
            text.append(suffix);
            text
        },
        None => String::from_str(suffix),
    }
}

/// The text of lifetimes as generic arguments, each followed by a comma.
pub open spec fn lifetimes_text(lifetimes: Seq<Seq<char>>) -> Seq<char>
    decreases lifetimes.len(),
{
    if lifetimes.len() == 0 {
        Seq::empty()
    } else {
        lifetimes_text(lifetimes.drop_last()) + word_text(lifetimes.last()) + alone(',')
    }
}

/// Appends one lifetime: its `'` joined to its name.
fn push_lifetime(tokens: &mut Vec<TokenTree>, lifetime: &String)
    ensures
        tokens_text(final(tokens)@) == tokens_text(old(tokens)@) + word_text(lifetime@),
{
    let length = lifetime.as_str().unicode_len();
    if length > 0 && lifetime.as_str().get_char(0) == '\'' {
        let rest = lifetime.as_str().substring_char(1, length);
        push_mark(tokens, '\'', Spacing::Joint);
        push_name(tokens, &String::from_str(rest));
        assert(seq!['\''] + rest@ =~= lifetime@);
        assert(joint('\'') + word_text(rest@) =~= word_text(lifetime@));
    } else {
        push_name(tokens, lifetime);
    }
}

/// Appends lifetimes as generic arguments, each followed by a comma.
fn push_lifetimes(tokens: &mut Vec<TokenTree>, lifetimes: &Lifetimes)
    ensures
        tokens_text(final(tokens)@) == tokens_text(old(tokens)@) + lifetimes_text(lifetimes@),
{
    let names = lifetimes.as_slice();
    let ghost start = tokens_text(tokens@);
    let mut index: usize = 0;
    assert(lifetimes@.take(0) =~= Seq::<Seq<char>>::empty());
    while index < names.len()
        invariant
            index <= names@.len(),
            names@.len() == lifetimes@.len(),
            forall|i: int| 0 <= i < names@.len() ==> #[trigger] names@[i]@ == lifetimes@[i],
            tokens_text(tokens@) == start + lifetimes_text(lifetimes@.take(index as int)),
        decreases names@.len() - index,
    {
        push_lifetime(tokens, &names[index]);
        push_mark(tokens, ',', Spacing::Alone);
        proof {
            let taken = lifetimes@.take(index + 1);
            assert(taken.drop_last() =~= lifetimes@.take(index as int));
            assert(taken.last() == lifetimes@[index as int]);
            assert(tokens_text(tokens@) =~= start + lifetimes_text(taken));
        }
        index = index + 1;
    }
    assert(lifetimes@.take(index as int) =~= lifetimes@);
}

/// The payload tokens given for a type text: the first entry for it.
pub open spec fn payload_entry(payloads: Seq<(String, Vec<TokenTree>)>, text: Seq<char>) -> int {
    super::machine::first_where(0, payloads.len() as int, payload_at(payloads, text))
}

/// Whether the entry at an index is for the type text.
pub open spec fn payload_at(payloads: Seq<(String, Vec<TokenTree>)>, text: Seq<char>) -> spec_fn(int) -> bool {
    |i: int| payloads[i].0@ == text
}

/// Every payload type recorded in `data` has tokens among `payloads`.
pub open spec fn payloads_cover(data: DataView, payloads: Seq<(String, Vec<TokenTree>)>) -> bool {
    forall|name: Seq<char>|
        #[trigger] data.types.contains_key(name) ==> exists|i: int|
            0 <= i < payloads.len() && payloads[i].0@ == data.types[name]
}

/// The text of one variant of a generated enum: the state or event, then
/// its payload type in parentheses when `data` records one.
pub open spec fn variant_text(
    data: DataView,
    payloads: Seq<(String, Vec<TokenTree>)>,
    name: Seq<char>,
) -> Seq<char> {
    if data.types.contains_key(name) {
        word_text(name) + group_text(
            Delimiter::Parenthesis,
            tokens_text(payloads[payload_entry(payloads, data.types[name])].1@),
        )
    } else {
        word_text(name)
    }
}

/// The text of the variants, separated by commas.
pub open spec fn variants_text(
    data: DataView,
    payloads: Seq<(String, Vec<TokenTree>)>,
    names: Seq<Seq<char>>,
) -> Seq<char>
    decreases names.len(),
{
    if names.len() == 0 {
        Seq::empty()
    } else if names.len() == 1 {
        variant_text(data, payloads, names[0])
    } else {
        variants_text(data, payloads, names.drop_last()) + alone(',') + variant_text(
            data,
            payloads,
            names.last(),
        )
    }
}

/// The text of the generated states enum: `#[allow(missing_docs)] pub enum
/// {Name}States<lifetimes> { variants }`, the states sorted by name.
pub open spec fn states_enum_text(sm: ParsedStateMachine, payloads: Seq<(String, Vec<TokenTree>)>) -> Seq<char> {
    allow_missing_docs_text() + word_text("pub"@) + word_text("enum"@) + word_text(
        generated_name(sm.name, "States"@),
    )
        + alone('<') + lifetimes_text(sm.state_data@.all_lifetimes) + alone('>') + group_text(
        Delimiter::Brace,
        variants_text(sm.state_data@, payloads, sorted_names(name_views(sm.states@))),
    )
}

/// Copies tokens exactly.
pub(crate) fn copy_tokens(tokens: &Vec<TokenTree>) -> (copy: Vec<TokenTree>)
    ensures
        tokens_text(copy@) == tokens_text(tokens@),
{
    let copy = duplicate_tokens(tokens);
    proof {
        lemma_same_trees_text(tokens@, copy@);
    }
    copy
}

/// Alike token trees read as the same text.
pub proof fn lemma_same_trees_text(trees: Seq<TokenTree>, others: Seq<TokenTree>)
    requires
        same_trees(trees, others),
    ensures
        tokens_text(trees) == tokens_text(others),
    decreases trees,
{
    if trees.len() > 0 {
        let last = trees.len() - 1;
        let prefix = trees.subrange(0, last);
        let other_prefix = others.subrange(0, last);
        assert(same_trees(prefix, other_prefix)) by {
            assert forall|i: int| 0 <= i < prefix.len() implies same_tree(#[trigger] prefix[i], other_prefix[i]) by {
                assert(same_tree(trees[i], others[i]));
            }
        }
        lemma_same_trees_text(prefix, other_prefix);
        assert(same_tree(trees[last], others[last]));
        match trees[last] {
            TokenTree::Group(delimiter, inner) => {
                match others[last] {
                    TokenTree::Group(_, other_inner) => {
                        assert(same_trees(inner@, other_inner@)) by {
                            assert forall|i: int| 0 <= i < inner@.len() implies same_tree(
                                #[trigger] inner@[i],
                                other_inner@[i],
                            ) by {}
                        }
                        lemma_same_trees_text(inner@, other_inner@);
                    },
                    _ => {},
                }
            },
            _ => {},
        }
    }
}

/// Where the first entry for a type text stands.
pub(crate) fn payload_position(payloads: &Vec<(String, Vec<TokenTree>)>, text: &String) -> (found: Option<usize>)
    ensures
        found matches Some(i) ==> i == payload_entry(payloads@, text@) && i < payloads@.len()
            && payloads@[i as int].0@ == text@,
        found is None ==> forall|i: int| 0 <= i < payloads@.len() ==> payloads@[i].0@ != text@,
{
    let ghost holds = payload_at(payloads@, text@);
    let mut index: usize = 0;
    while index < payloads.len()
        invariant
            holds == payload_at(payloads@, text@),
            index <= payloads@.len(),
            forall|i: int| 0 <= i < index ==> !#[trigger] holds(i),
        decreases payloads@.len() - index,
    {
        if payloads[index].0 == *text {
            proof {
                super::machine::lemma_first_where_is(0, payloads@.len() as int, holds, index as int);
            }
            return Some(index);
        }
        index = index + 1;
    }
    proof {
        assert forall|i: int| 0 <= i < payloads@.len() implies payloads@[i].0@ != text@ by {
            assert(!holds(i));
        }
    }
    None
}

/// Writes the variants of a generated enum, the names sorted: see
/// `variants_text`.
fn variants(data: &DataDefinitions, names: &Vec<String>, payloads: &Vec<(String, Vec<TokenTree>)>) -> (tokens: Vec<TokenTree>)
    requires
        data.wf(),
        payloads_cover(data@, payloads@),
    ensures
        tokens_text(tokens@) == variants_text(data@, payloads@, sorted_names(name_views(names@))),
{
    let sorted = sort_names(names);
    let ghost order = sorted_names(name_views(names@));
    let mut body: Vec<TokenTree> = Vec::new();
    let mut k: usize = 0;
    assert(tokens_text(body@) =~= Seq::<char>::empty());
    assert(name_views(sorted@).take(0) =~= Seq::<Seq<char>>::empty());
    while k < sorted.len()
        invariant
            data.wf(),
            payloads_cover(data@, payloads@),
            name_views(sorted@) == order,
            k <= sorted@.len(),
            tokens_text(body@) == variants_text(data@, payloads@, order.take(k as int)),
        decreases sorted@.len() - k,
    {
        let ghost before = tokens_text(body@);
        let name = &sorted[k];
        assert(order[k as int] == name@);
        if k > 0 {
            push_mark(&mut body, ',', Spacing::Alone);
        }
        let ghost after_comma = tokens_text(body@);
        push_name(&mut body, name);
        match data.data_type(name) {
            Some(text) => {
                proof {
                    assert(data@.types.contains_key(name@));
                }
                match payload_position(payloads, text) {
                    Some(i) => {
                        push_group(&mut body, Delimiter::Parenthesis, copy_tokens(&payloads[i].1));
                    },
                    None => {
                        proof {
                            assert(payloads_cover(data@, payloads@));
                            assert(data@.types.contains_key(name@));
                        }
                    },
                }
            },
            None => {},
        }
        proof {
            let taken = order.take(k + 1);
            assert(taken.drop_last() =~= order.take(k as int));
            assert(taken.last() == name@);
            if k == 0 {
                assert(taken.len() == 1);
                assert(taken[0] == name@);
                assert(before == Seq::<char>::empty());
                assert(after_comma =~= before);
                assert(tokens_text(body@) =~= variants_text(data@, payloads@, taken));
            } else {
                assert(tokens_text(body@) =~= variants_text(data@, payloads@, taken));
            }
        }
        k = k + 1;
    }
    assert(order.take(k as int) =~= order);
    body
}

/// Appends `#[allow(missing_docs)]`.
pub(crate) fn push_allow_missing_docs(tokens: &mut Vec<TokenTree>)
    ensures
        tokens_text(final(tokens)@) == tokens_text(old(tokens)@) + allow_missing_docs_text(),
{
    let ghost start = tokens_text(tokens@);
    let mut allowed: Vec<TokenTree> = Vec::new();
    assert(tokens_text(allowed@) =~= Seq::<char>::empty());
    push_word(&mut allowed, "missing_docs");
    let mut attribute: Vec<TokenTree> = Vec::new();
    assert(tokens_text(attribute@) =~= Seq::<char>::empty());
    push_word(&mut attribute, "allow");
    push_group(&mut attribute, Delimiter::Parenthesis, allowed);
    push_mark(tokens, '#', Spacing::Alone);
    push_group(tokens, Delimiter::Bracket, attribute);
    assert(tokens_text(tokens@) =~= start + allow_missing_docs_text());
}

/// `#[allow(missing_docs)]`.
pub open spec fn allow_missing_docs_text() -> Seq<char> {
    alone('#') + group_text(
        Delimiter::Bracket,
        word_text("allow"@) + group_text(Delimiter::Parenthesis, word_text("missing_docs"@)),
    )
}

/// Writes the generated states enum: see `states_enum_text`. The tokens of
/// each payload type are taken from `payloads`, keyed by the type's text.
pub fn states_enum(sm: &ParsedStateMachine, payloads: &Vec<(String, Vec<TokenTree>)>) -> (tokens: Vec<TokenTree>)
    requires
        sm.state_data.wf(),
        payloads_cover(sm.state_data@, payloads@),
    ensures
        tokens_text(tokens@) == states_enum_text(*sm, payloads@),
{
    let body = variants(&sm.state_data, &sm.states, payloads);
    let mut tokens: Vec<TokenTree> = Vec::new();
    assert(tokens_text(tokens@) =~= Seq::<char>::empty());
    push_allow_missing_docs(&mut tokens);
    push_word(&mut tokens, "pub");
    push_word(&mut tokens, "enum");
    push_name(&mut tokens, &suffixed(&sm.name, "States"));
    push_mark(&mut tokens, '<', Spacing::Alone);
    push_lifetimes(&mut tokens, sm.state_data.all_lifetimes());
    push_mark(&mut tokens, '>', Spacing::Alone);
    push_group(&mut tokens, Delimiter::Brace, body);
    assert(tokens_text(tokens@) =~= states_enum_text(*sm, payloads@));
    tokens
}

/// The text of the states type with its lifetimes: `{Name}States<'a, ...>`.
pub open spec fn states_type_text(sm: ParsedStateMachine) -> Seq<char> {
    word_text(generated_name(sm.name, "States"@)) + alone('<') + lifetimes_text(
        sm.state_data@.all_lifetimes,
    ) + alone('>')
}

/// Appends the states type with its lifetimes.
fn push_states_type(tokens: &mut Vec<TokenTree>, sm: &ParsedStateMachine)
    ensures
        tokens_text(final(tokens)@) == tokens_text(old(tokens)@) + states_type_text(*sm),
{
    let ghost start = tokens_text(tokens@);
    push_name(tokens, &suffixed(&sm.name, "States"));
    push_mark(tokens, '<', Spacing::Alone);
    push_lifetimes(tokens, sm.state_data.all_lifetimes());
    push_mark(tokens, '>', Spacing::Alone);
    assert(tokens_text(tokens@) =~= start + states_type_text(*sm));
}

/// The text of a two-part path `a::b`.
pub open spec fn path_text(first: Seq<char>, second: Seq<char>) -> Seq<char> {
    word_text(first) + joint(':') + alone(':') + word_text(second)
}

/// Appends a two-part path `a::b`.
pub(crate) fn push_path(tokens: &mut Vec<TokenTree>, first: &str, second: &String)
    ensures
        tokens_text(final(tokens)@) == tokens_text(old(tokens)@) + path_text(first@, second@),
{
    let ghost start = tokens_text(tokens@);
    push_word(tokens, first);
    push_mark(tokens, ':', Spacing::Joint);
    push_mark(tokens, ':', Spacing::Alone);
    push_name(tokens, second);
    assert(tokens_text(tokens@) =~= start + path_text(first@, second@));
}

/// The text of `fn eq(&self, other: &Self) -> bool { use
/// core::mem::discriminant; discriminant(self) == discriminant(other) }`:
/// equality by variant alone.
pub open spec fn eq_by_variant_text() -> Seq<char> {
    word_text("fn"@) + word_text("eq"@) + group_text(
        Delimiter::Parenthesis,
        alone('&') + word_text("self"@) + alone(',') + word_text("other"@) + alone(':') + alone('&')
            + word_text("Self"@),
    ) + arrow() + word_text("bool"@) + group_text(
        Delimiter::Brace,
        word_text("use"@) + path_text("core"@, "mem"@) + joint(':') + alone(':') + word_text(
            "discriminant"@,
        ) + alone(';') + word_text("discriminant"@) + group_text(
            Delimiter::Parenthesis,
            word_text("self"@),
        ) + joint('=') + alone('=') + word_text("discriminant"@) + group_text(
            Delimiter::Parenthesis,
            word_text("other"@),
        ),
    )
}

/// Writes the method of equality by variant: see `eq_by_variant_text`.
fn eq_by_variant() -> (tokens: Vec<TokenTree>)
    ensures
        tokens_text(tokens@) == eq_by_variant_text(),
{
    let mut params: Vec<TokenTree> = Vec::new();
    assert(tokens_text(params@) =~= Seq::<char>::empty());
    push_mark(&mut params, '&', Spacing::Alone);
    push_word(&mut params, "self");
    push_mark(&mut params, ',', Spacing::Alone);
    push_word(&mut params, "other");
    push_mark(&mut params, ':', Spacing::Alone);
    push_mark(&mut params, '&', Spacing::Alone);
    push_word(&mut params, "Self");
    let mut own: Vec<TokenTree> = Vec::new();
    assert(tokens_text(own@) =~= Seq::<char>::empty());
    push_word(&mut own, "self");
    let mut other: Vec<TokenTree> = Vec::new();
    assert(tokens_text(other@) =~= Seq::<char>::empty());
    push_word(&mut other, "other");
    let mut compare: Vec<TokenTree> = Vec::new();
    assert(tokens_text(compare@) =~= Seq::<char>::empty());
    push_word(&mut compare, "use");
    push_path(&mut compare, "core", &String::from_str("mem"));
    push_mark(&mut compare, ':', Spacing::Joint);
    push_mark(&mut compare, ':', Spacing::Alone);
    push_word(&mut compare, "discriminant");
    push_mark(&mut compare, ';', Spacing::Alone);
    push_word(&mut compare, "discriminant");
    push_group(&mut compare, Delimiter::Parenthesis, own);
    push_mark(&mut compare, '=', Spacing::Joint);
    push_mark(&mut compare, '=', Spacing::Alone);
    push_word(&mut compare, "discriminant");
    push_group(&mut compare, Delimiter::Parenthesis, other);
    let mut tokens: Vec<TokenTree> = Vec::new();
    assert(tokens_text(tokens@) =~= Seq::<char>::empty());
    push_word(&mut tokens, "fn");
    push_word(&mut tokens, "eq");
    push_group(&mut tokens, Delimiter::Parenthesis, params);
    push_arrow(&mut tokens);
    push_word(&mut tokens, "bool");
    push_group(&mut tokens, Delimiter::Brace, compare);
    assert(tokens_text(tokens@) =~= eq_by_variant_text());
    tokens
}

/// The text of the equality of states by variant: `impl<'a, ...> PartialEq
/// for {Name}States<'a, ...> { ... }` around `eq_by_variant_text`.
pub open spec fn states_eq_text(sm: ParsedStateMachine) -> Seq<char> {
    word_text("impl"@) + alone('<') + lifetimes_text(sm.state_data@.all_lifetimes) + alone('>')
        + word_text("PartialEq"@) + word_text("for"@) + states_type_text(sm) + group_text(
        Delimiter::Brace,
        eq_by_variant_text(),
    )
}

/// Writes the equality of states by variant: see `states_eq_text`.
pub fn states_eq(sm: &ParsedStateMachine) -> (tokens: Vec<TokenTree>)
    ensures
        tokens_text(tokens@) == states_eq_text(*sm),
{
    let mut tokens: Vec<TokenTree> = Vec::new();
    assert(tokens_text(tokens@) =~= Seq::<char>::empty());
    push_word(&mut tokens, "impl");
    push_mark(&mut tokens, '<', Spacing::Alone);
    push_lifetimes(&mut tokens, sm.state_data.all_lifetimes());
    push_mark(&mut tokens, '>', Spacing::Alone);
    push_word(&mut tokens, "PartialEq");
    push_word(&mut tokens, "for");
    push_states_type(&mut tokens, sm);
    push_group(&mut tokens, Delimiter::Brace, eq_by_variant());
    assert(tokens_text(tokens@) =~= states_eq_text(*sm));
    tokens
}

/// The text of the generated events enum: `#[allow(missing_docs)] pub enum
/// {Name}Events<...> { variants }`, the events sorted by name; its generic
/// parameters are the lifetimes of the event payloads, then the declared
/// event generics, each by its name.
pub open spec fn events_enum_text(sm: ParsedStateMachine, payloads: Seq<(String, Vec<TokenTree>)>) -> Seq<char> {
    allow_missing_docs_text() + word_text("pub"@) + word_text("enum"@) + word_text(
        generated_name(sm.name, "Events"@),
    ) + type_arguments_text(event_arguments(sm)) + group_text(
        Delimiter::Brace,
        variants_text(sm.event_data@, payloads, sorted_names(name_views(sm.events@))),
    )
}

/// Writes the generated events enum: see `events_enum_text`.
pub fn events_enum(sm: &ParsedStateMachine, payloads: &Vec<(String, Vec<TokenTree>)>) -> (tokens: Vec<TokenTree>)
    requires
        sm.event_data.wf(),
        payloads_cover(sm.event_data@, payloads@),
    ensures
        tokens_text(tokens@) == events_enum_text(*sm, payloads@),
{
    let body = variants(&sm.event_data, &sm.events, payloads);
    let generics = sm.event_generics_with_lifetimes(sm.event_data.all_lifetimes());
    let mut tokens: Vec<TokenTree> = Vec::new();
    assert(tokens_text(tokens@) =~= Seq::<char>::empty());
    push_allow_missing_docs(&mut tokens);
    push_word(&mut tokens, "pub");
    push_word(&mut tokens, "enum");
    push_name(&mut tokens, &suffixed(&sm.name, "Events"));
    push_type_arguments(&mut tokens, &generics);
    push_group(&mut tokens, Delimiter::Brace, body);
    assert(tokens_text(tokens@) =~= events_enum_text(*sm, payloads@));
    tokens
}

/// The text of the equality of events by variant: `impl<...> PartialEq for
/// {Name}Events<...> { ... }` around `eq_by_variant_text`.
pub open spec fn events_eq_text(sm: ParsedStateMachine) -> Seq<char> {
    word_text("impl"@) + type_arguments_text(event_arguments(sm)) + word_text("PartialEq"@)
        + word_text("for"@) + word_text(generated_name(sm.name, "Events"@)) + type_arguments_text(
        event_arguments(sm),
    ) + group_text(Delimiter::Brace, eq_by_variant_text())
}

/// Writes the equality of events by variant: see `events_eq_text`.
pub fn events_eq(sm: &ParsedStateMachine) -> (tokens: Vec<TokenTree>)
    ensures
        tokens_text(tokens@) == events_eq_text(*sm),
{
    let generics = sm.event_generics_with_lifetimes(sm.event_data.all_lifetimes());
    let mut tokens: Vec<TokenTree> = Vec::new();
    assert(tokens_text(tokens@) =~= Seq::<char>::empty());
    push_word(&mut tokens, "impl");
    push_type_arguments(&mut tokens, &generics);
    push_word(&mut tokens, "PartialEq");
    push_word(&mut tokens, "for");
    push_name(&mut tokens, &suffixed(&sm.name, "Events"));
    push_type_arguments(&mut tokens, &generics);
    push_group(&mut tokens, Delimiter::Brace, eq_by_variant());
    assert(tokens_text(tokens@) =~= events_eq_text(*sm));
    tokens
}

/// The text of one generic argument: a lifetime, type or const parameter
/// by its name.
pub open spec fn param_text(param: ParamView) -> Seq<char> {
    match param {
        ParamView::Lifetime(name) => word_text(name),
        ParamView::Type(name) => word_text(name),
        ParamView::Const(name) => word_text(name),
    }
}

/// The text of generic arguments separated by commas.
pub open spec fn params_text(params: Seq<ParamView>) -> Seq<char>
    decreases params.len(),
{
    if params.len() == 0 {
        Seq::empty()
    } else if params.len() == 1 {
        param_text(params[0])
    } else {
        params_text(params.drop_last()) + alone(',') + param_text(params.last())
    }
}

/// The text of the generic arguments of the events type: nothing without
/// parameters, else the parameters in angle brackets.
pub open spec fn type_arguments_text(params: Seq<ParamView>) -> Seq<char> {
    if params.len() == 0 {
        Seq::empty()
    } else {
        alone('<') + params_text(params) + alone('>')
    }
}

/// The generic parameters of the events type: the lifetimes of the event
/// payloads, then the declared event generics.
pub open spec fn event_arguments(sm: ParsedStateMachine) -> Seq<ParamView> {
    super::types::with_lifetimes(param_views(sm.event_generics@), sm.event_data@.all_lifetimes)
}

/// Appends one generic argument.
fn push_param(tokens: &mut Vec<TokenTree>, param: &GenericParam)
    ensures
        tokens_text(final(tokens)@) == tokens_text(old(tokens)@) + param_text(param@),
{
    match param {
        GenericParam::Lifetime(name) => push_lifetime(tokens, name),
        GenericParam::Type(name) => push_name(tokens, name),
        GenericParam::Const(name) => push_name(tokens, name),
    }
}

/// Appends generic arguments in angle brackets, or nothing without any.
fn push_type_arguments(tokens: &mut Vec<TokenTree>, params: &Vec<GenericParam>)
    ensures
        tokens_text(final(tokens)@) == tokens_text(old(tokens)@) + type_arguments_text(param_views(params@)),
{
    let ghost start = tokens_text(tokens@);
    let ghost views = param_views(params@);
    if params.len() == 0 {
        assert(tokens_text(tokens@) =~= start + type_arguments_text(views));
        return;
    }
    push_mark(tokens, '<', Spacing::Alone);
    let ghost opened = tokens_text(tokens@);
    let mut index: usize = 0;
    assert(views.take(0) =~= Seq::<ParamView>::empty());
    while index < params.len()
        invariant
            views == param_views(params@),
            index <= params@.len(),
            tokens_text(tokens@) == opened + params_text(views.take(index as int)),
        decreases params@.len() - index,
    {
        let ghost before = tokens_text(tokens@);
        if index > 0 {
            push_mark(tokens, ',', Spacing::Alone);
        }
        push_param(tokens, &params[index]);
        proof {
            let taken = views.take(index + 1);
            assert(taken.drop_last() =~= views.take(index as int));
            assert(taken.last() == params@[index as int]@);
            if index == 0 {
                assert(before =~= opened);
                assert(tokens_text(tokens@) =~= opened + params_text(taken));
            } else {
                assert(tokens_text(tokens@) =~= opened + params_text(taken));
            }
        }
        index = index + 1;
    }
    assert(views.take(index as int) =~= views);
    push_mark(tokens, '>', Spacing::Alone);
    assert(tokens_text(tokens@) =~= start + type_arguments_text(views));
}

/// The identifiers among tokens, nested groups included, in order.
pub open spec fn token_idents(tokens: Seq<TokenTree>) -> Seq<Seq<char>>
    decreases tokens,
{
    if tokens.len() == 0 {
        Seq::empty()
    } else {
        let before = token_idents(tokens.subrange(0, tokens.len() - 1));
        match tokens[tokens.len() - 1] {
            TokenTree::Group(_, inner) => before + token_idents(inner@),
            TokenTree::Ident(name) => before.push(name@),
            _ => before,
        }
    }
}

/// The identifiers of the payload types given, entry by entry.
pub open spec fn payload_idents(payloads: Seq<(String, Vec<TokenTree>)>) -> Seq<Seq<char>>
    decreases payloads.len(),
{
    if payloads.len() == 0 {
        Seq::empty()
    } else {
        payload_idents(payloads.drop_last()) + token_idents(payloads.last().1@)
    }
}

/// The name of one generic parameter.
pub open spec fn param_name(param: ParamView) -> Seq<char> {
    match param {
        ParamView::Lifetime(name) => name,
        ParamView::Type(name) => name,
        ParamView::Const(name) => name,
    }
}

/// The identifiers that the machine's own types use: the names of its event
/// generics, then those in the tokens of the payload types given.
pub open spec fn source_idents(sm: ParsedStateMachine, payloads: Seq<(String, Vec<TokenTree>)>) -> Seq<Seq<char>> {
    param_views(sm.event_generics@).map_values(|param: ParamView| param_name(param))
        + payload_idents(payloads)
}

/// The name of the generated context type parameter: the first of
/// `__SmlContext`, `__SmlContext1`, ... that is not among `reserved`.
pub open spec fn context_ident(reserved: Seq<Seq<char>>) -> Seq<char> {
    candidate("__SmlContext"@, first_free(reserved, "__SmlContext"@) as nat)
}

/// Appends the identifiers among tokens to `names`.
fn collect_idents(tokens: &Vec<TokenTree>, names: &mut Vec<String>)
    ensures
        name_texts(final(names)@) == name_texts(old(names)@) + token_idents(tokens@),
    decreases tokens,
{
    let ghost start = name_texts(names@);
    let mut index: usize = 0;
    assert(start + token_idents(tokens@.subrange(0, 0)) =~= start);
    while index < tokens.len()
        invariant
            index <= tokens.len(),
            name_texts(names@) == start + token_idents(tokens@.subrange(0, index as int)),
        decreases tokens.len() - index,
    {
        let ghost done = tokens@.subrange(0, index as int);
        let ghost next = tokens@.subrange(0, index + 1);
        assert(next.subrange(0, next.len() - 1) =~= done);
        assert(next[next.len() - 1] == tokens@[index as int]);
        let ghost before = names@;
        match &tokens[index] {
            TokenTree::Group(_, inner) => {
                collect_idents(inner, names);
            },
            TokenTree::Ident(name) => {
                names.push(name.clone());
                assert(name_texts(names@) =~= name_texts(before).push(name@));
            },
            _ => {},
        }
        assert(name_texts(names@) =~= start + token_idents(next));
        index = index + 1;
    }
    assert(tokens@.subrange(0, tokens@.len() as int) =~= tokens@);
}

/// The identifiers that the machine's own types use: see `source_idents`.
fn collect_source_idents(sm: &ParsedStateMachine, payloads: &Vec<(String, Vec<TokenTree>)>) -> (names: Vec<String>)
    ensures
        name_texts(names@) == source_idents(*sm, payloads@),
{
    let mut names: Vec<String> = Vec::new();
    let ghost params = param_views(sm.event_generics@).map_values(|param: ParamView| param_name(param));
    let mut index: usize = 0;
    while index < sm.event_generics.len()
        invariant
            index <= sm.event_generics@.len(),
            params == param_views(sm.event_generics@).map_values(|param: ParamView| param_name(param)),
            name_texts(names@) == params.take(index as int),
        decreases sm.event_generics@.len() - index,
    {
        let ghost before = names@;
        let name = match &sm.event_generics[index] {
            GenericParam::Lifetime(name) => name.clone(),
            GenericParam::Type(name) => name.clone(),
            GenericParam::Const(name) => name.clone(),
        };
        assert(name@ == param_name(sm.event_generics@[index as int]@));
        assert(params[index as int] == name@);
        names.push(name);
        assert(name_texts(names@) =~= name_texts(before).push(params[index as int]));
        assert(params.take(index + 1) =~= params.take(index as int).push(params[index as int]));
        assert(name_texts(names@) =~= params.take(index + 1));
        index = index + 1;
    }
    assert(params.take(index as int) =~= params);
    let mut k: usize = 0;
    assert(payloads@.take(0) =~= Seq::<(String, Vec<TokenTree>)>::empty());
    assert(name_texts(names@) =~= params + payload_idents(payloads@.take(0)));
    while k < payloads.len()
        invariant
            k <= payloads@.len(),
            name_texts(names@) == params + payload_idents(payloads@.take(k as int)),
        decreases payloads@.len() - k,
    {
        collect_idents(&payloads[k].1, &mut names);
        proof {
            let taken = payloads@.take(k + 1);
            assert(taken.drop_last() =~= payloads@.take(k as int));
            assert(taken.last() == payloads@[k as int]);
        }
        assert(name_texts(names@) =~= params + payload_idents(payloads@.take(k + 1)));
        k = k + 1;
    }
    assert(payloads@.take(k as int) =~= payloads@);
    names
}

/// The text of the path `::sml::utility::EventQueue`.
pub open spec fn queue_path_text() -> Seq<char> {
    joint(':') + alone(':') + path_text("sml"@, "utility"@) + joint(':') + alone(':') + word_text(
        "EventQueue"@,
    )
}

/// Appends the path `::sml::utility::EventQueue`.
pub(crate) fn push_queue_path(tokens: &mut Vec<TokenTree>)
    ensures
        tokens_text(final(tokens)@) == tokens_text(old(tokens)@) + queue_path_text(),
{
    let ghost start = tokens_text(tokens@);
    push_mark(tokens, ':', Spacing::Joint);
    push_mark(tokens, ':', Spacing::Alone);
    push_path(tokens, "sml", &String::from_str("utility"));
    push_mark(tokens, ':', Spacing::Joint);
    push_mark(tokens, ':', Spacing::Alone);
    push_word(tokens, "EventQueue");
    assert(tokens_text(tokens@) =~= start + queue_path_text());
}

/// The text of the machine struct: `pub struct {Name}StateMachine<'a, ...,
/// Ctx: {Name}StateMachineContext> { state: {Name}States<'a, ...>,
/// context: Ctx, }`, with `deferred: ::sml::utility::EventQueue<{Name}Events
/// <...>, 16>,` when some transition defers its event.
pub open spec fn machine_struct_text(sm: ParsedStateMachine, context: Seq<char>) -> Seq<char> {
    word_text("pub"@) + word_text("struct"@) + word_text(generated_name(sm.name, "StateMachine"@))
        + alone('<') + lifetimes_text(sm.state_data@.all_lifetimes) + word_text(context) + alone(
        ':',
    ) + word_text(generated_name(sm.name, "StateMachineContext"@)) + alone('>') + group_text(
        Delimiter::Brace,
        word_text("state"@) + alone(':') + states_type_text(sm) + alone(',') + word_text(
            "context"@,
        ) + alone(':') + word_text(context) + alone(',') + if defers_events(
            all_mappings(sm.states_events_mapping@),
        ) {
            word_text("deferred"@) + alone(':') + queue_path_text() + alone('<') + word_text(
                generated_name(sm.name, "Events"@),
            ) + type_arguments_text(event_arguments(sm)) + alone(',') + word_text("16"@) + alone('>')
                + alone(',')
        } else {
            Seq::empty()
        },
    )
}

/// Writes the machine struct: see `machine_struct_text`.
pub fn machine_struct(sm: &ParsedStateMachine, context: &String, defers: bool) -> (tokens: Vec<TokenTree>)
    requires
        defers == defers_events(all_mappings(sm.states_events_mapping@)),
    ensures
        tokens_text(tokens@) == machine_struct_text(*sm, context@),
{
    let mut fields: Vec<TokenTree> = Vec::new();
    assert(tokens_text(fields@) =~= Seq::<char>::empty());
    push_word(&mut fields, "state");
    push_mark(&mut fields, ':', Spacing::Alone);
    push_states_type(&mut fields, sm);
    push_mark(&mut fields, ',', Spacing::Alone);
    push_word(&mut fields, "context");
    push_mark(&mut fields, ':', Spacing::Alone);
    push_name(&mut fields, context);
    push_mark(&mut fields, ',', Spacing::Alone);
    let ghost plain = tokens_text(fields@);
    if defers {
        push_word(&mut fields, "deferred");
        push_mark(&mut fields, ':', Spacing::Alone);
        push_queue_path(&mut fields);
        push_mark(&mut fields, '<', Spacing::Alone);
        push_name(&mut fields, &suffixed(&sm.name, "Events"));
        let generics = sm.event_generics_with_lifetimes(sm.event_data.all_lifetimes());
        push_type_arguments(&mut fields, &generics);
        push_mark(&mut fields, ',', Spacing::Alone);
        push_literal(&mut fields, "16");
        push_mark(&mut fields, '>', Spacing::Alone);
        push_mark(&mut fields, ',', Spacing::Alone);
    }
    let mut tokens: Vec<TokenTree> = Vec::new();
    assert(tokens_text(tokens@) =~= Seq::<char>::empty());
    push_word(&mut tokens, "pub");
    push_word(&mut tokens, "struct");
    push_name(&mut tokens, &suffixed(&sm.name, "StateMachine"));
    push_mark(&mut tokens, '<', Spacing::Alone);
    push_lifetimes(&mut tokens, sm.state_data.all_lifetimes());
    push_name(&mut tokens, context);
    push_mark(&mut tokens, ':', Spacing::Alone);
    push_name(&mut tokens, &suffixed(&sm.name, "StateMachineContext"));
    push_mark(&mut tokens, '>', Spacing::Alone);
    push_group(&mut tokens, Delimiter::Brace, fields);
    assert(tokens_text(tokens@) =~= machine_struct_text(*sm, context@));
    tokens
}

/// Appends a literal token.
pub(crate) fn push_literal(tokens: &mut Vec<TokenTree>, text: &str)
    ensures
        tokens_text(final(tokens)@) == tokens_text(old(tokens)@) + word_text(text@),
{
    let token = TokenTree::Literal(String::from_str(text));
    proof {
        super::emit::lemma_text_push(tokens@, token);
    }
    tokens.push(token);
}

/// `self.field`.
pub open spec fn field_text(field: Seq<char>) -> Seq<char> {
    word_text("self"@) + alone('.') + word_text(field)
}

/// Appends `self.field`.
pub(crate) fn push_field(tokens: &mut Vec<TokenTree>, field: &str)
    ensures
        tokens_text(final(tokens)@) == tokens_text(old(tokens)@) + field_text(field@),
{
    let ghost start = tokens_text(tokens@);
    push_word(tokens, "self");
    push_mark(tokens, '.', Spacing::Alone);
    push_word(tokens, field);
    assert(tokens_text(tokens@) =~= start + field_text(field@));
}

/// The receiver `&self`, or `&mut self`.
pub open spec fn receiver_text(mutable: bool) -> Seq<char> {
    alone('&') + if mutable {
        word_text("mut"@) + word_text("self"@)
    } else {
        word_text("self"@)
    }
}

/// Appends the receiver.
pub(crate) fn push_receiver(tokens: &mut Vec<TokenTree>, mutable: bool)
    ensures
        tokens_text(final(tokens)@) == tokens_text(old(tokens)@) + receiver_text(mutable),
{
    let ghost start = tokens_text(tokens@);
    push_mark(tokens, '&', Spacing::Alone);
    if mutable {
        push_word(tokens, "mut");
    }
    push_word(tokens, "self");
    assert(tokens_text(tokens@) =~= start + receiver_text(mutable));
}

/// The body of `is_terminated`: whether the state is `X`, with or without
/// its payload, or `false` when the table has no `X`.
pub open spec fn terminated_text(sm: ParsedStateMachine) -> Seq<char> {
    if name_views(sm.states@).contains("X"@) {
        word_text("matches"@) + alone('!') + group_text(
            Delimiter::Parenthesis,
            field_text("state"@) + alone(',') + path_text(generated_name(sm.name, "States"@), "X"@)
                + if sm.state_data@.types.contains_key("X"@) {
                group_text(Delimiter::Parenthesis, joint('.') + alone('.'))
            } else {
                Seq::empty()
            },
        )
    } else {
        word_text("false"@)
    }
}

/// Writes the body of `is_terminated`: see `terminated_text`.
fn terminated(sm: &ParsedStateMachine) -> (tokens: Vec<TokenTree>)
    requires
        sm.state_data.wf(),
    ensures
        tokens_text(tokens@) == terminated_text(*sm),
{
    let mut tokens: Vec<TokenTree> = Vec::new();
    assert(tokens_text(tokens@) =~= Seq::<char>::empty());
    let terminal = String::from_str("X");
    if !contains_text(&sm.states, &terminal) {
        push_word(&mut tokens, "false");
        assert(tokens_text(tokens@) =~= terminated_text(*sm));
        return tokens;
    }
    let mut inner: Vec<TokenTree> = Vec::new();
    assert(tokens_text(inner@) =~= Seq::<char>::empty());
    push_field(&mut inner, "state");
    push_mark(&mut inner, ',', Spacing::Alone);
    let states_name = suffixed(&sm.name, "States");
    push_name(&mut inner, &states_name);
    push_mark(&mut inner, ':', Spacing::Joint);
    push_mark(&mut inner, ':', Spacing::Alone);
    push_word(&mut inner, "X");
    let ghost plain = tokens_text(inner@);
    if sm.state_data.data_type(&terminal).is_some() {
        let mut rest: Vec<TokenTree> = Vec::new();
        push_mark(&mut rest, '.', Spacing::Joint);
        push_mark(&mut rest, '.', Spacing::Alone);
        push_group(&mut inner, Delimiter::Parenthesis, rest);
    }
    push_word(&mut tokens, "matches");
    push_mark(&mut tokens, '!', Spacing::Alone);
    push_group(&mut tokens, Delimiter::Parenthesis, inner);
    assert(tokens_text(tokens@) =~= terminated_text(*sm));
    tokens
}

/// The text of the generic parameters of the machine's impl block and of
/// its type: `<'a, ..., Ctx: {Name}StateMachineContext> {Name}StateMachine
/// <'a, ..., Ctx>`.
pub open spec fn impl_head_text(sm: ParsedStateMachine, context: Seq<char>) -> Seq<char> {
    word_text("impl"@) + alone('<') + lifetimes_text(sm.state_data@.all_lifetimes) + word_text(
        context,
    ) + alone(':') + word_text(generated_name(sm.name, "StateMachineContext"@)) + alone('>')
        + word_text(generated_name(sm.name, "StateMachine"@)) + alone('<') + lifetimes_text(
        sm.state_data@.all_lifetimes,
    ) + word_text(context) + alone('>')
}

/// `->`.
pub open spec fn arrow() -> Seq<char> {
    joint('-') + alone('>')
}

/// `pub fn name`.
pub open spec fn method_head_text(name: Seq<char>) -> Seq<char> {
    word_text("pub"@) + word_text("fn"@) + word_text(name)
}

/// `pub fn new_with_state(context: Ctx, initial_state: {Name}States<...>) ->
/// Self { {Name}StateMachine { state: initial_state, context, } }`, with
/// `deferred: ::sml::utility::EventQueue::new(),` when events are deferred.
pub open spec fn new_with_state_text(sm: ParsedStateMachine, context: Seq<char>, defers: bool) -> Seq<char> {
    method_head_text("new_with_state"@) + group_text(
        Delimiter::Parenthesis,
        word_text("context"@) + alone(':') + word_text(context) + alone(',') + word_text(
            "initial_state"@,
        ) + alone(':') + states_type_text(sm),
    ) + arrow() + word_text("Self"@) + group_text(
        Delimiter::Brace,
        word_text(generated_name(sm.name, "StateMachine"@)) + group_text(
            Delimiter::Brace,
            word_text("state"@) + alone(':') + word_text("initial_state"@) + alone(',')
                + word_text("context"@) + alone(',') + if defers {
                word_text("deferred"@) + alone(':') + queue_path_text() + joint(':') + alone(':')
                    + word_text("new"@) + group_text(Delimiter::Parenthesis, Seq::empty())
                    + alone(',')
            } else {
                Seq::empty()
            },
        ),
    )
}

/// `pub fn state(&self) -> &{Name}States<...> { &self.state }`.
pub open spec fn state_method_text(sm: ParsedStateMachine) -> Seq<char> {
    method_head_text("state"@) + group_text(Delimiter::Parenthesis, receiver_text(false)) + arrow()
        + alone('&') + states_type_text(sm) + group_text(
        Delimiter::Brace,
        alone('&') + field_text("state"@),
    )
}

/// `pub fn is(&self, expected: &{Name}States<...>) -> bool { self.state ==
/// *expected }`.
pub open spec fn is_method_text(sm: ParsedStateMachine) -> Seq<char> {
    method_head_text("is"@) + group_text(
        Delimiter::Parenthesis,
        receiver_text(false) + alone(',') + word_text("expected"@) + alone(':') + alone('&')
            + states_type_text(sm),
    ) + arrow() + word_text("bool"@) + group_text(
        Delimiter::Brace,
        field_text("state"@) + joint('=') + alone('=') + alone('*') + word_text("expected"@),
    )
}

/// `pub fn is_terminated(&self) -> bool { ... }`: see `terminated_text`.
pub open spec fn is_terminated_method_text(sm: ParsedStateMachine) -> Seq<char> {
    method_head_text("is_terminated"@) + group_text(Delimiter::Parenthesis, receiver_text(false))
        + arrow() + word_text("bool"@) + group_text(Delimiter::Brace, terminated_text(sm))
}

/// `pub fn set_state(&mut self, state: {Name}States<...>) -> {Name}States
/// <...> { core::mem::replace(&mut self.state, state) }`.
pub open spec fn set_state_method_text(sm: ParsedStateMachine) -> Seq<char> {
    method_head_text("set_state"@) + group_text(
        Delimiter::Parenthesis,
        receiver_text(true) + alone(',') + word_text("state"@) + alone(':') + states_type_text(sm),
    ) + arrow() + states_type_text(sm) + group_text(
        Delimiter::Brace,
        path_text("core"@, "mem"@) + joint(':') + alone(':') + word_text("replace"@) + group_text(
            Delimiter::Parenthesis,
            alone('&') + word_text("mut"@) + field_text("state"@) + alone(',') + word_text(
                "state"@,
            ),
        ),
    )
}

/// `pub fn context(&self) -> &Ctx { &self.context }`, or with `mutable`
/// `pub fn context_mut(&mut self) -> &mut Ctx { &mut self.context }`.
pub open spec fn context_method_text(context: Seq<char>, mutable: bool) -> Seq<char> {
    let reference = if mutable {
        alone('&') + word_text("mut"@)
    } else {
        alone('&')
    };
    method_head_text(if mutable { "context_mut"@ } else { "context"@ }) + group_text(
        Delimiter::Parenthesis,
        receiver_text(mutable),
    ) + arrow() + reference + word_text(context) + group_text(
        Delimiter::Brace,
        reference + field_text("context"@),
    )
}

/// The state-access methods of a machine, in order: `new_with_state`,
/// `state`, `is`, `is_terminated`, `set_state`, `context`, `context_mut`.
pub open spec fn state_api_text(sm: ParsedStateMachine, context: Seq<char>, defers: bool) -> Seq<char> {
    new_with_state_text(sm, context, defers) + state_method_text(sm) + is_method_text(sm)
        + is_terminated_method_text(sm) + set_state_method_text(sm) + context_method_text(
        context,
        false,
    ) + context_method_text(context, true)
}

/// The text of the machine's impl block of state-access methods.
pub open spec fn machine_impl_text(sm: ParsedStateMachine, context: Seq<char>, defers: bool) -> Seq<char> {
    impl_head_text(sm, context) + group_text(Delimiter::Brace, state_api_text(sm, context, defers))
}

/// Appends `pub fn name`.
pub(crate) fn push_method_head(tokens: &mut Vec<TokenTree>, name: &str)
    ensures
        tokens_text(final(tokens)@) == tokens_text(old(tokens)@) + method_head_text(name@),
{
    let ghost start = tokens_text(tokens@);
    push_word(tokens, "pub");
    push_word(tokens, "fn");
    push_word(tokens, name);
    assert(tokens_text(tokens@) =~= start + method_head_text(name@));
}

/// Appends `->`.
pub(crate) fn push_arrow(tokens: &mut Vec<TokenTree>)
    ensures
        tokens_text(final(tokens)@) == tokens_text(old(tokens)@) + arrow(),
{
    let ghost start = tokens_text(tokens@);
    push_mark(tokens, '-', Spacing::Joint);
    push_mark(tokens, '>', Spacing::Alone);
    assert(tokens_text(tokens@) =~= start + arrow());
}

/// Appends the generic parameters and self type of the machine's impl block.
fn push_impl_head(tokens: &mut Vec<TokenTree>, sm: &ParsedStateMachine, context: &String)
    ensures
        tokens_text(final(tokens)@) == tokens_text(old(tokens)@) + impl_head_text(*sm, context@),
{
    let ghost start = tokens_text(tokens@);
    push_word(tokens, "impl");
    push_mark(tokens, '<', Spacing::Alone);
    push_lifetimes(tokens, sm.state_data.all_lifetimes());
    push_name(tokens, context);
    push_mark(tokens, ':', Spacing::Alone);
    push_name(tokens, &suffixed(&sm.name, "StateMachineContext"));
    push_mark(tokens, '>', Spacing::Alone);
    push_name(tokens, &suffixed(&sm.name, "StateMachine"));
    push_mark(tokens, '<', Spacing::Alone);
    push_lifetimes(tokens, sm.state_data.all_lifetimes());
    push_name(tokens, context);
    push_mark(tokens, '>', Spacing::Alone);
    assert(tokens_text(tokens@) =~= start + impl_head_text(*sm, context@));
}

/// Appends `new_with_state`: see `new_with_state_text`.
#[verifier::rlimit(30)]
fn push_new_with_state(tokens: &mut Vec<TokenTree>, sm: &ParsedStateMachine, context: &String, defers: bool)
    ensures
        tokens_text(final(tokens)@) == tokens_text(old(tokens)@) + new_with_state_text(
            *sm,
            context@,
            defers,
        ),
{
    let ghost start = tokens_text(tokens@);
    let mut params: Vec<TokenTree> = Vec::new();
    assert(tokens_text(params@) =~= Seq::<char>::empty());
    push_word(&mut params, "context");
    push_mark(&mut params, ':', Spacing::Alone);
    push_name(&mut params, context);
    push_mark(&mut params, ',', Spacing::Alone);
    push_word(&mut params, "initial_state");
    push_mark(&mut params, ':', Spacing::Alone);
    push_states_type(&mut params, sm);
    assert(tokens_text(params@) =~= word_text("context"@) + alone(':') + word_text(context@) + alone(',')
        + word_text("initial_state"@) + alone(':') + states_type_text(*sm));
    let mut fields: Vec<TokenTree> = Vec::new();
    assert(tokens_text(fields@) =~= Seq::<char>::empty());
    push_word(&mut fields, "state");
    push_mark(&mut fields, ':', Spacing::Alone);
    push_word(&mut fields, "initial_state");
    push_mark(&mut fields, ',', Spacing::Alone);
    push_word(&mut fields, "context");
    push_mark(&mut fields, ',', Spacing::Alone);
    let ghost plain = tokens_text(fields@);
    if defers {
        push_word(&mut fields, "deferred");
        push_mark(&mut fields, ':', Spacing::Alone);
        push_queue_path(&mut fields);
        push_mark(&mut fields, ':', Spacing::Joint);
        push_mark(&mut fields, ':', Spacing::Alone);
        push_word(&mut fields, "new");
        let empty: Vec<TokenTree> = Vec::new();
        assert(tokens_text(empty@) =~= Seq::<char>::empty());
        push_group(&mut fields, Delimiter::Parenthesis, empty);
        push_mark(&mut fields, ',', Spacing::Alone);
    }
    assert(tokens_text(fields@) =~= plain + if defers {
        word_text("deferred"@) + alone(':') + queue_path_text() + joint(':') + alone(':')
            + word_text("new"@) + group_text(Delimiter::Parenthesis, Seq::empty()) + alone(',')
    } else {
        Seq::empty()
    });
    let mut body: Vec<TokenTree> = Vec::new();
    assert(tokens_text(body@) =~= Seq::<char>::empty());
    push_name(&mut body, &suffixed(&sm.name, "StateMachine"));
    push_group(&mut body, Delimiter::Brace, fields);
    push_method_head(tokens, "new_with_state");
    push_group(tokens, Delimiter::Parenthesis, params);
    push_arrow(tokens);
    push_word(tokens, "Self");
    push_group(tokens, Delimiter::Brace, body);
    assert(tokens_text(tokens@) =~= start + new_with_state_text(*sm, context@, defers));
}

/// Appends `state`: see `state_method_text`.
fn push_state_method(tokens: &mut Vec<TokenTree>, sm: &ParsedStateMachine)
    ensures
        tokens_text(final(tokens)@) == tokens_text(old(tokens)@) + state_method_text(*sm),
{
    let ghost start = tokens_text(tokens@);
    let mut params: Vec<TokenTree> = Vec::new();
    assert(tokens_text(params@) =~= Seq::<char>::empty());
    push_receiver(&mut params, false);
    let mut body: Vec<TokenTree> = Vec::new();
    assert(tokens_text(body@) =~= Seq::<char>::empty());
    push_mark(&mut body, '&', Spacing::Alone);
    push_field(&mut body, "state");
    push_method_head(tokens, "state");
    push_group(tokens, Delimiter::Parenthesis, params);
    push_arrow(tokens);
    push_mark(tokens, '&', Spacing::Alone);
    push_states_type(tokens, sm);
    push_group(tokens, Delimiter::Brace, body);
    assert(tokens_text(tokens@) =~= start + state_method_text(*sm));
}

/// Appends `is`: see `is_method_text`.
fn push_is_method(tokens: &mut Vec<TokenTree>, sm: &ParsedStateMachine)
    ensures
        tokens_text(final(tokens)@) == tokens_text(old(tokens)@) + is_method_text(*sm),
{
    let ghost start = tokens_text(tokens@);
    let mut params: Vec<TokenTree> = Vec::new();
    assert(tokens_text(params@) =~= Seq::<char>::empty());
    push_receiver(&mut params, false);
    push_mark(&mut params, ',', Spacing::Alone);
    push_word(&mut params, "expected");
    push_mark(&mut params, ':', Spacing::Alone);
    push_mark(&mut params, '&', Spacing::Alone);
    push_states_type(&mut params, sm);
    let mut body: Vec<TokenTree> = Vec::new();
    assert(tokens_text(body@) =~= Seq::<char>::empty());
    push_field(&mut body, "state");
    push_mark(&mut body, '=', Spacing::Joint);
    push_mark(&mut body, '=', Spacing::Alone);
    push_mark(&mut body, '*', Spacing::Alone);
    push_word(&mut body, "expected");
    push_method_head(tokens, "is");
    push_group(tokens, Delimiter::Parenthesis, params);
    push_arrow(tokens);
    push_word(tokens, "bool");
    push_group(tokens, Delimiter::Brace, body);
    assert(tokens_text(tokens@) =~= start + is_method_text(*sm));
}

/// Appends `is_terminated`: see `is_terminated_method_text`.
fn push_is_terminated_method(tokens: &mut Vec<TokenTree>, sm: &ParsedStateMachine)
    requires
        sm.state_data.wf(),
    ensures
        tokens_text(final(tokens)@) == tokens_text(old(tokens)@) + is_terminated_method_text(*sm),
{
    let ghost start = tokens_text(tokens@);
    let mut params: Vec<TokenTree> = Vec::new();
    assert(tokens_text(params@) =~= Seq::<char>::empty());
    push_receiver(&mut params, false);
    let body = terminated(sm);
    push_method_head(tokens, "is_terminated");
    push_group(tokens, Delimiter::Parenthesis, params);
    push_arrow(tokens);
    push_word(tokens, "bool");
    push_group(tokens, Delimiter::Brace, body);
    assert(tokens_text(tokens@) =~= start + is_terminated_method_text(*sm));
}

/// Appends `set_state`: see `set_state_method_text`.
fn push_set_state_method(tokens: &mut Vec<TokenTree>, sm: &ParsedStateMachine)
    ensures
        tokens_text(final(tokens)@) == tokens_text(old(tokens)@) + set_state_method_text(*sm),
{
    let ghost start = tokens_text(tokens@);
    let mut params: Vec<TokenTree> = Vec::new();
    assert(tokens_text(params@) =~= Seq::<char>::empty());
    push_receiver(&mut params, true);
    push_mark(&mut params, ',', Spacing::Alone);
    push_word(&mut params, "state");
    push_mark(&mut params, ':', Spacing::Alone);
    push_states_type(&mut params, sm);
    let mut arguments: Vec<TokenTree> = Vec::new();
    assert(tokens_text(arguments@) =~= Seq::<char>::empty());
    push_mark(&mut arguments, '&', Spacing::Alone);
    push_word(&mut arguments, "mut");
    push_field(&mut arguments, "state");
    push_mark(&mut arguments, ',', Spacing::Alone);
    push_word(&mut arguments, "state");
    let mut body: Vec<TokenTree> = Vec::new();
    assert(tokens_text(body@) =~= Seq::<char>::empty());
    push_path(&mut body, "core", &String::from_str("mem"));
    push_mark(&mut body, ':', Spacing::Joint);
    push_mark(&mut body, ':', Spacing::Alone);
    push_word(&mut body, "replace");
    push_group(&mut body, Delimiter::Parenthesis, arguments);
    push_method_head(tokens, "set_state");
    push_group(tokens, Delimiter::Parenthesis, params);
    push_arrow(tokens);
    push_states_type(tokens, sm);
    push_group(tokens, Delimiter::Brace, body);
    assert(tokens_text(tokens@) =~= start + set_state_method_text(*sm));
}

/// Appends `&` or `&mut`.
fn push_reference(tokens: &mut Vec<TokenTree>, mutable: bool)
    ensures
        tokens_text(final(tokens)@) == tokens_text(old(tokens)@) + if mutable {
            alone('&') + word_text("mut"@)
        } else {
            alone('&')
        },
{
    let ghost start = tokens_text(tokens@);
    push_mark(tokens, '&', Spacing::Alone);
    if mutable {
        push_word(tokens, "mut");
    }
}

/// Appends `context` or `context_mut`: see `context_method_text`.
pub(crate) fn push_context_method(tokens: &mut Vec<TokenTree>, context: &String, mutable: bool)
    ensures
        tokens_text(final(tokens)@) == tokens_text(old(tokens)@) + context_method_text(
            context@,
            mutable,
        ),
{
    let ghost start = tokens_text(tokens@);
    let mut params: Vec<TokenTree> = Vec::new();
    assert(tokens_text(params@) =~= Seq::<char>::empty());
    push_receiver(&mut params, mutable);
    let mut body: Vec<TokenTree> = Vec::new();
    assert(tokens_text(body@) =~= Seq::<char>::empty());
    push_reference(&mut body, mutable);
    push_field(&mut body, "context");
    if mutable {
        push_method_head(tokens, "context_mut");
    } else {
        push_method_head(tokens, "context");
    }
    push_group(tokens, Delimiter::Parenthesis, params);
    push_arrow(tokens);
    push_reference(tokens, mutable);
    push_name(tokens, context);
    push_group(tokens, Delimiter::Brace, body);
    assert(tokens_text(tokens@) =~= start + context_method_text(context@, mutable));
}

/// Writes the machine's impl block of state-access methods: see
/// `machine_impl_text`.
pub fn machine_impl(sm: &ParsedStateMachine, context: &String, defers: bool) -> (tokens: Vec<TokenTree>)
    requires
        sm.state_data.wf(),
    ensures
        tokens_text(tokens@) == machine_impl_text(*sm, context@, defers),
{
    let mut methods: Vec<TokenTree> = Vec::new();
    assert(tokens_text(methods@) =~= Seq::<char>::empty());
    push_new_with_state(&mut methods, sm, context, defers);
    push_state_method(&mut methods, sm);
    push_is_method(&mut methods, sm);
    push_is_terminated_method(&mut methods, sm);
    push_set_state_method(&mut methods, sm);
    push_context_method(&mut methods, context, false);
    push_context_method(&mut methods, context, true);
    assert(tokens_text(methods@) =~= state_api_text(*sm, context@, defers));
    let mut tokens: Vec<TokenTree> = Vec::new();
    assert(tokens_text(tokens@) =~= Seq::<char>::empty());
    push_impl_head(&mut tokens, sm, context);
    push_group(&mut tokens, Delimiter::Brace, methods);
    assert(tokens_text(tokens@) =~= machine_impl_text(*sm, context@, defers));
    tokens
}

/// The tokens given for the payload type of an event, as text.
pub open spec fn event_payload_text(sm: ParsedStateMachine, payloads: Seq<(String, Vec<TokenTree>)>, event: Seq<char>) -> Seq<char> {
    tokens_text(payloads[payload_entry(payloads, sm.event_data@.types[event])].1@)
}

/// The conversion of an outside event's type into the events enum: `impl
/// <...> From<T> for {Name}Events<...> { fn from(event: T) -> Self {
/// Self::Event(event) } }`, or nothing when the event has no recorded type.
pub open spec fn conversion_text(sm: ParsedStateMachine, payloads: Seq<(String, Vec<TokenTree>)>, event: Seq<char>) -> Seq<char> {
    if sm.event_data@.types.contains_key(event) {
        let ty = event_payload_text(sm, payloads, event);
        word_text("impl"@) + type_arguments_text(event_arguments(sm)) + word_text("From"@) + alone(
            '<',
        ) + ty + alone('>') + word_text("for"@) + word_text(generated_name(sm.name, "Events"@))
            + type_arguments_text(event_arguments(sm)) + group_text(
            Delimiter::Brace,
            word_text("fn"@) + word_text("from"@) + group_text(
                Delimiter::Parenthesis,
                word_text("event"@) + alone(':') + ty,
            ) + arrow() + word_text("Self"@) + group_text(
                Delimiter::Brace,
                path_text("Self"@, event) + group_text(Delimiter::Parenthesis, word_text("event"@)),
            ),
        )
    } else {
        Seq::empty()
    }
}

/// The conversions of the outside events, in order.
pub open spec fn conversions_text(sm: ParsedStateMachine, payloads: Seq<(String, Vec<TokenTree>)>, events: Seq<Seq<char>>) -> Seq<char>
    decreases events.len(),
{
    if events.len() == 0 {
        Seq::empty()
    } else {
        conversions_text(sm, payloads, events.drop_last()) + conversion_text(
            sm,
            payloads,
            events.last(),
        )
    }
}

/// The tokens given for the payload type of an event that has one.
fn event_payload(sm: &ParsedStateMachine, payloads: &Vec<(String, Vec<TokenTree>)>, event: &String) -> (tokens: Option<Vec<TokenTree>>)
    requires
        sm.event_data.wf(),
        payloads_cover(sm.event_data@, payloads@),
    ensures
        tokens is Some <==> sm.event_data@.types.contains_key(event@),
        tokens matches Some(written) ==> tokens_text(written@) == event_payload_text(
            *sm,
            payloads@,
            event@,
        ),
{
    match sm.event_data.data_type(event) {
        Some(text) => {
            match payload_position(payloads, text) {
                Some(i) => Some(copy_tokens(&payloads[i].1)),
                None => {
                    proof {
                        assert(sm.event_data@.types.contains_key(event@));
                        assert(payloads_cover(sm.event_data@, payloads@));
                    }
                    None
                },
            }
        },
        None => None,
    }
}

/// Appends the conversion of an outside event: see `conversion_text`.
#[verifier::rlimit(30)]
fn push_conversion(
    tokens: &mut Vec<TokenTree>,
    sm: &ParsedStateMachine,
    payloads: &Vec<(String, Vec<TokenTree>)>,
    events_name: &String,
    event: &String,
)
    requires
        sm.event_data.wf(),
        payloads_cover(sm.event_data@, payloads@),
        events_name@ == generated_name(sm.name, "Events"@),
    ensures
        tokens_text(final(tokens)@) == tokens_text(old(tokens)@) + conversion_text(
            *sm,
            payloads@,
            event@,
        ),
{
    let ghost start = tokens_text(tokens@);
    let ty = match event_payload(sm, payloads, event) {
        Some(ty) => ty,
        None => {
            assert(tokens_text(tokens@) =~= start + conversion_text(*sm, payloads@, event@));
            return;
        },
    };
    let ghost ty_text = event_payload_text(*sm, payloads@, event@);
    let argument_type = copy_tokens(&ty);
    let generics = sm.event_generics_with_lifetimes(sm.event_data.all_lifetimes());
    let mut params: Vec<TokenTree> = Vec::new();
    assert(tokens_text(params@) =~= Seq::<char>::empty());
    push_word(&mut params, "event");
    push_mark(&mut params, ':', Spacing::Alone);
    push_all(&mut params, argument_type);
    let mut argument: Vec<TokenTree> = Vec::new();
    assert(tokens_text(argument@) =~= Seq::<char>::empty());
    push_word(&mut argument, "event");
    let mut body: Vec<TokenTree> = Vec::new();
    assert(tokens_text(body@) =~= Seq::<char>::empty());
    push_path(&mut body, "Self", event);
    push_group(&mut body, Delimiter::Parenthesis, argument);
    let mut method: Vec<TokenTree> = Vec::new();
    assert(tokens_text(method@) =~= Seq::<char>::empty());
    push_word(&mut method, "fn");
    push_word(&mut method, "from");
    push_group(&mut method, Delimiter::Parenthesis, params);
    push_arrow(&mut method);
    push_word(&mut method, "Self");
    push_group(&mut method, Delimiter::Brace, body);
    assert(tokens_text(method@) =~= word_text("fn"@) + word_text("from"@) + group_text(
        Delimiter::Parenthesis,
        word_text("event"@) + alone(':') + ty_text,
    ) + arrow() + word_text("Self"@) + group_text(
        Delimiter::Brace,
        path_text("Self"@, event@) + group_text(Delimiter::Parenthesis, word_text("event"@)),
    ));
    push_word(tokens, "impl");
    push_type_arguments(tokens, &generics);
    push_word(tokens, "From");
    push_mark(tokens, '<', Spacing::Alone);
    push_all(tokens, ty);
    push_mark(tokens, '>', Spacing::Alone);
    push_word(tokens, "for");
    push_name(tokens, events_name);
    push_type_arguments(tokens, &generics);
    push_group(tokens, Delimiter::Brace, method);
    assert(tokens_text(tokens@) =~= start + conversion_text(*sm, payloads@, event@));
}

/// Writes the conversions of the outside events: see `conversions_text`.
fn conversions(
    sm: &ParsedStateMachine,
    payloads: &Vec<(String, Vec<TokenTree>)>,
    events_name: &String,
    events: &Vec<String>,
) -> (tokens: Vec<TokenTree>)
    requires
        sm.event_data.wf(),
        payloads_cover(sm.event_data@, payloads@),
        events_name@ == generated_name(sm.name, "Events"@),
    ensures
        tokens_text(tokens@) == conversions_text(*sm, payloads@, name_views(events@)),
{
    let ghost names = name_views(events@);
    let mut tokens: Vec<TokenTree> = Vec::new();
    assert(tokens_text(tokens@) =~= Seq::<char>::empty());
    let mut k: usize = 0;
    assert(names.take(0) =~= Seq::<Seq<char>>::empty());
    while k < events.len()
        invariant
            sm.event_data.wf(),
            payloads_cover(sm.event_data@, payloads@),
            events_name@ == generated_name(sm.name, "Events"@),
            names == name_views(events@),
            k <= events@.len(),
            tokens_text(tokens@) == conversions_text(*sm, payloads@, names.take(k as int)),
        decreases events@.len() - k,
    {
        push_conversion(&mut tokens, sm, payloads, events_name, &events[k]);
        proof {
            let taken = names.take(k + 1);
            assert(taken.drop_last() =~= names.take(k as int));
            assert(taken.last() == events@[k as int]@);
        }
        k = k + 1;
    }
    assert(names.take(k as int) =~= names);
    tokens
}

/// The declarations a flat machine expands to, in order: the error enum,
/// the states enum and the equality of states by variant, the events enum,
/// the conversions of the outside events' types into it and the equality
/// of events by variant, the machine struct and its impl
/// block of state-access methods. The machine's context type
/// parameter is named by `context_ident` so that it clashes with none of
/// the identifiers the machine's own types use (`source_idents`).
pub open spec fn flat_expansion(sm: ParsedStateMachine, payloads: Seq<(String, Vec<TokenTree>)>) -> Seq<char> {
    let context = context_ident(source_idents(sm, payloads));
    let defers = defers_events(all_mappings(sm.states_events_mapping@));
    error_enum_text(sm.name, "T"@) + states_enum_text(sm, payloads) + states_eq_text(sm)
        + events_enum_text(sm, payloads) + conversions_text(
        sm,
        payloads,
        outside_events(all_mappings(sm.states_events_mapping@)),
    ) + events_eq_text(sm) + machine_struct_text(sm, context) + machine_impl_text(
        sm,
        context,
        defers,
    )
}

/// Writes the declarations of a flat machine: see `flat_expansion`.
/// `payloads` holds the tokens of each payload type, keyed by the type's
/// text: those of the states and events, and those of the temporary context
/// and the error type, whose identifiers the context parameter avoids too.
pub fn generate_code(sm: &ParsedStateMachine, payloads: &Vec<(String, Vec<TokenTree>)>) -> (tokens: Vec<TokenTree>)
    requires
        sm.state_data.wf(),
        sm.event_data.wf(),
        payloads_cover(sm.state_data@, payloads@),
        payloads_cover(sm.event_data@, payloads@),
    ensures
        tokens_text(tokens@) == flat_expansion(*sm, payloads@),
{
    let plan = plan_machine(sm);
    let mut taken = collect_source_idents(sm, payloads);
    let context = fresh_type_ident(&mut taken, &String::from_str("__SmlContext"));
    let mut tokens = error_enum(&sm.name, "T");
    push_all(&mut tokens, states_enum(sm, payloads));
    push_all(&mut tokens, states_eq(sm));
    push_all(&mut tokens, events_enum(sm, payloads));
    push_all(&mut tokens, conversions(sm, payloads, &plan.events_name, &plan.outside_events));
    push_all(&mut tokens, events_eq(sm));
    push_all(&mut tokens, machine_struct(sm, &context, plan.defers));
    push_all(&mut tokens, machine_impl(sm, &context, plan.defers));
    assert(tokens_text(tokens@) =~= flat_expansion(*sm, payloads@));
    tokens
}

} // verus!
