//! Reading one normalized row of a transition table from its tokens:
//! `*Idle | Ready + event<Start> [ok] / (run, defer) = Running`.
//!
//! A row is read as the table language writes it. What Rust itself gives a
//! meaning to is kept as written: the value of a string literal, and the
//! tokens of a payload type or of an event queued by `process(...)`.

use vstd::prelude::*;

use super::event::EventKind;
use super::guard::{callback_name, spells_guard, AsyncIdent, GuardExpression};
use super::machine::{first_where, lemma_first_where_is};
use super::token::{
    duplicate_tokens, is_bracket_group, is_ident, is_punct, same_tree, same_trees, Delimiter, Spacing,
    TokenTree,
};

verus! {

/// The name of a state as a row writes it.
#[derive(Debug, PartialEq, Eq)]
pub enum StateName {
    /// An identifier, such as `Idle` or the `X` of `sml::X`.
    Ident(String),
    /// A string literal such as `"idle"_s`, as written.
    Literal(String),
    /// `state<Child>`: the child machine's name.
    Composite(String),
}

/// A source state of a row as written.
#[derive(Debug)]
pub struct RawInputState {
    /// Marked `*`.
    pub start: bool,
    /// `_`: the row applies to every state.
    pub wildcard: bool,
    /// The state's name; `_` for a wildcard.
    pub name: StateName,
    /// The tokens of the payload type in `(...)`, when one is given.
    pub payload: Option<Vec<TokenTree>>,
    /// `(H)`: the state is entered with shallow history.
    pub history: bool,
}

/// `tokens` are `name` and no more: an identifier other than `_`, a literal,
/// `state<Child>` or `sml::X`.
pub open spec fn spells_state_name(tokens: Seq<TokenTree>, name: StateName) -> bool {
    ||| tokens.len() == 1 && (tokens[0] matches TokenTree::Ident(ident) && ident@ != "_"@ && name
        == StateName::Ident(ident))
    ||| tokens.len() == 1 && (tokens[0] matches TokenTree::Literal(text) && name
        == StateName::Literal(text))
    ||| tokens.len() == 4 && is_ident(tokens[0], "state"@) && is_punct(tokens[1], '<') && is_punct(
        tokens[3],
        '>',
    ) && (tokens[2] matches TokenTree::Ident(child) && child@ != "_"@ && name
        == StateName::Composite(child))
    ||| tokens.len() == 4 && is_ident(tokens[0], "sml"@) && tokens[1] == TokenTree::Punct(
        ':',
        Spacing::Joint,
    ) && is_punct(tokens[2], ':') && (tokens[3] matches TokenTree::Ident(terminal) && terminal@
        == "X"@ && name == StateName::Ident(terminal))
}

/// `tokens` hold the payload `payload` of a state, `(H)` marking history
/// instead of a payload.
pub open spec fn spells_payload(group: Seq<TokenTree>, payload: Option<Vec<TokenTree>>, history: bool) -> bool {
    if group.len() == 1 && is_ident(group[0], "H"@) {
        history && payload is None
    } else {
        !history && (payload matches Some(tokens) && same_trees(group, tokens@))
    }
}

/// `tokens` spell the source state `state`, without a `*` of its own: a
/// wildcard `_`, a name with an optional `(payload)` or `(H)`, or such a
/// state in parentheses.
pub open spec fn spells_unmarked_state(tokens: Seq<TokenTree>, state: RawInputState) -> bool
    decreases tokens,
{
    ||| tokens.len() == 1 && (tokens[0] matches TokenTree::Group(delimiter, inner) && delimiter
        == Delimiter::Parenthesis && spells_unmarked_state(inner@, state))
    ||| tokens.len() == 1 && (tokens[0] matches TokenTree::Ident(ident) && ident@ == "_"@
        && state.wildcard && state.name == StateName::Ident(ident) && state.payload is None
        && !state.history)
    ||| !state.wildcard && tokens.len() > 0 && (tokens.last() matches TokenTree::Group(
        delimiter,
        group,
    ) && delimiter == Delimiter::Parenthesis && spells_state_name(tokens.drop_last(), state.name)
        && spells_payload(group@, state.payload, state.history))
    ||| !state.wildcard && spells_state_name(tokens, state.name) && state.payload is None
        && !state.history
}

/// `tokens` spell the source state `state`: an optional `*`, which a bare
/// wildcard cannot take, then the state.
pub open spec fn spells_input_state(tokens: Seq<TokenTree>, state: RawInputState) -> bool {
    if tokens.len() > 0 && is_punct(tokens[0], '*') {
        &&& state.start
        &&& !(tokens.len() == 2 && is_ident(tokens[1], "_"@))
        &&& spells_unmarked_state(tokens.skip(1), state)
    } else {
        !state.start && spells_unmarked_state(tokens, state)
    }
}

/// The name of a trigger as a row writes it.
#[derive(Debug, PartialEq, Eq)]
pub enum EventName {
    /// An identifier; `__AnyEvent`, `__AnyCompletion` or `__AnyException`
    /// for a wildcard.
    Ident(String),
    /// A string literal such as `"start"_e`, as written.
    Literal(String),
}

/// The trigger of a row as written.
#[derive(Debug)]
pub struct RawEvent {
    /// The trigger's event name.
    pub name: EventName,
    /// The trigger's kind.
    pub kind: EventKind,
    /// Whether the trigger is a wildcard such as `unexpected<_>`.
    pub wildcard: bool,
    /// Whether the event type comes from outside the table.
    pub external: bool,
    /// The tokens of the payload type in `(...)`, when one is given.
    pub payload: Option<Vec<TokenTree>>,
    /// The tokens of an outside event's type, such as `Message<'a, T>` in
    /// `event<Message<'a, T>>`, when it is more than the event's name.
    pub event_type: Option<Vec<TokenTree>>,
}

/// The identifier that names an outside event type written as a path, such
/// as `Message` for `core::Message<'a, T>`: its last segment, before the
/// generic arguments.
pub open spec fn path_type_name(tokens: Seq<TokenTree>) -> Option<Seq<char>>
    decreases tokens.len(),
{
    if tokens.len() == 0 {
        None
    } else if !(tokens[0] matches TokenTree::Ident(name) && name@ != "_"@) {
        None
    } else if tokens.len() == 1 {
        Some(tokens[0]->Ident_0@)
    } else if tokens.len() >= 3 && tokens[1] == TokenTree::Punct(':', Spacing::Joint) && is_punct(
        tokens[2],
        ':',
    ) {
        path_type_name(tokens.skip(3))
    } else if is_punct(tokens[1], '<') && is_punct(tokens.last(), '>') {
        Some(tokens[0]->Ident_0@)
    } else {
        None
    }
}

/// The tokens of an outside event type after an optional `&`, lifetime and
/// `mut`.
pub open spec fn referent_tokens(tokens: Seq<TokenTree>) -> Seq<TokenTree> {
    if tokens.len() > 0 && is_punct(tokens[0], '&') {
        let rest = tokens.skip(1);
        let rest = if rest.len() >= 2 && rest[0] == TokenTree::Punct('\'', Spacing::Joint)
            && rest[1] is Ident {
            rest.skip(2)
        } else {
            rest
        };
        if rest.len() >= 1 && is_ident(rest[0], "mut"@) {
            rest.skip(1)
        } else {
            rest
        }
    } else {
        tokens
    }
}

/// The identifier that names an outside event type: that of the path it is
/// or that it borrows.
pub open spec fn event_type_name(tokens: Seq<TokenTree>) -> Option<Seq<char>> {
    path_type_name(referent_tokens(tokens))
}

/// `keyword<inner>` names an outside event by its type `inner`, more than a
/// name: `event<Message<T>>` or `unexpected_event<&'a mut Operation>`.
pub open spec fn typed_trigger(keyword: Seq<char>, inner: Seq<TokenTree>, event: RawEvent) -> bool {
    &&& keyword == "event"@ || keyword == "unexpected_event"@
    &&& event_type_name(inner) matches Some(name) && names_trigger(
        event,
        name,
        if keyword == "event"@ {
            EventKind::Normal
        } else {
            EventKind::Unexpected
        },
        false,
        true,
    )
    &&& event.event_type matches Some(written) && same_trees(inner, written@)
}

/// `event` is a trigger named by `name` with the given flags and no
/// payload yet.
pub open spec fn names_trigger(
    event: RawEvent,
    name: Seq<char>,
    kind: EventKind,
    wildcard: bool,
    external: bool,
) -> bool {
    &&& (event.name matches EventName::Ident(ident) && ident@ == name)
    &&& event.kind == kind
    &&& event.wildcard == wildcard
    &&& event.external == external
}

/// `keyword<inner>` names the trigger `event`: `event<E>`,
/// `unexpected<E>`, `unexpected_event<E>`, `on_entry<_>`, `on_exit<_>`,
/// `completion<E>` or `exception<E>`, with `_` for a wildcard where allowed.
pub open spec fn angle_trigger(keyword: Seq<char>, inner: TokenTree, event: RawEvent) -> bool {
    let wildcard = is_ident(inner, "_"@);
    let named = inner matches TokenTree::Ident(name) && name@ != "_"@;
    let name = match inner {
        TokenTree::Ident(ident) => ident@,
        _ => Seq::empty(),
    };
    if keyword == "event"@ {
        named && names_trigger(event, name, EventKind::Normal, false, true)
    } else if keyword == "unexpected"@ || keyword == "unexpected_event"@ {
        ||| wildcard && names_trigger(event, "__AnyEvent"@, EventKind::Unexpected, true, false)
        ||| named && names_trigger(
            event,
            name,
            EventKind::Unexpected,
            false,
            keyword == "unexpected_event"@,
        )
    } else if keyword == "on_entry"@ {
        wildcard && names_trigger(event, keyword, EventKind::Entry, false, false)
    } else if keyword == "on_exit"@ {
        wildcard && names_trigger(event, keyword, EventKind::Exit, false, false)
    } else if keyword == "completion"@ {
        ||| wildcard && names_trigger(event, "__AnyCompletion"@, EventKind::Completion, true, false)
        ||| named && names_trigger(event, name, EventKind::Completion, false, false)
    } else if keyword == "exception"@ {
        ||| wildcard && names_trigger(event, "__AnyException"@, EventKind::Exception, true, false)
        ||| named && names_trigger(event, name, EventKind::Exception, false, false)
    } else {
        false
    }
}

/// `tokens` name the trigger `event`, without payload: a literal, an
/// identifier, `keyword<inner>`, or an outside event by its type.
pub open spec fn spells_trigger(tokens: Seq<TokenTree>, event: RawEvent) -> bool {
    ||| tokens.len() == 1 && (tokens[0] matches TokenTree::Literal(text) && event.name
        == EventName::Literal(text) && event.kind == EventKind::Normal && !event.wildcard
        && !event.external) && event.event_type is None
    ||| tokens.len() == 1 && (tokens[0] matches TokenTree::Ident(ident) && ident@ != "_"@
        && event.name == EventName::Ident(ident) && event.kind == EventKind::Normal
        && !event.wildcard && !event.external) && event.event_type is None
    ||| tokens.len() == 4 && is_punct(tokens[1], '<') && is_punct(tokens[3], '>') && (
    tokens[0] matches TokenTree::Ident(keyword) && angle_trigger(keyword@, tokens[2], event))
        && event.event_type is None
    ||| tokens.len() > 4 && is_punct(tokens[1], '<') && is_punct(tokens.last(), '>') && (
    tokens[0] matches TokenTree::Ident(keyword) && typed_trigger(
        keyword@,
        tokens.subrange(2, tokens.len() - 1),
        event,
    ))
}

/// The tokens of a trigger after its `+` and an optional `sml::` prefix.
pub open spec fn trigger_body(tokens: Seq<TokenTree>) -> Seq<TokenTree> {
    let rest = tokens.skip(1);
    if rest.len() >= 3 && is_ident(rest[0], "sml"@) && rest[1] == TokenTree::Punct(
        ':',
        Spacing::Joint,
    ) && is_punct(rest[2], ':') {
        rest.skip(3)
    } else {
        rest
    }
}

/// `tokens` spell the trigger `event`: `+`, an optional `sml::`, the
/// trigger and an optional `(payload)`, which a wildcard cannot take.
pub open spec fn spells_event(tokens: Seq<TokenTree>, event: RawEvent) -> bool {
    let body = trigger_body(tokens);
    &&& tokens.len() > 0
    &&& is_punct(tokens[0], '+')
    &&& {
        ||| body.len() > 0 && (body.last() matches TokenTree::Group(delimiter, group) && delimiter
            == Delimiter::Parenthesis && spells_trigger(body.drop_last(), event) && !event.wildcard
            && (event.payload matches Some(payload) && same_trees(group@, payload@)))
        ||| spells_trigger(body, event) && event.payload is None
    }
}

/// One step of a row's action sequence.
#[derive(Debug)]
pub enum ActionItem {
    /// A callback, `run` or `async run`.
    Call(AsyncIdent),
    /// `defer`: the event is deferred.
    Defer,
    /// `process(Event {})`: the tokens of the event to queue.
    Process(Vec<TokenTree>),
    /// `eval[guard] / action`.
    Eval(GuardExpression, AsyncIdent),
}

/// `tokens` spell the action step `item`: a callback, `async` and a
/// callback, `defer`, or `process(...)`; inside parentheses also
/// `eval[guard] / action`. A queue operation cannot be `async`.
pub open spec fn spells_action_item(tokens: Seq<TokenTree>, item: ActionItem, in_sequence: bool) -> bool {
    ||| tokens.len() == 1 && is_ident(tokens[0], "defer"@) && item is Defer
    ||| tokens.len() == 1 && (tokens[0] matches TokenTree::Ident(name) && callback_name(name@)
        && name@ != "defer"@ && item == ActionItem::Call(AsyncIdent { ident: name, is_async: false }))
    ||| tokens.len() == 2 && is_ident(tokens[0], "async"@) && (tokens[1] matches TokenTree::Ident(
        name,
    ) && callback_name(name@) && name@ != "defer"@ && item == ActionItem::Call(
        AsyncIdent { ident: name, is_async: true },
    ))
    ||| tokens.len() == 2 && is_ident(tokens[0], "process"@) && (tokens[1] matches TokenTree::Group(
        delimiter,
        event,
    ) && delimiter == Delimiter::Parenthesis && (item matches ActionItem::Process(queued)
        && same_trees(event@, queued@)))
    ||| in_sequence && tokens.len() == 4 && is_ident(tokens[0], "eval"@) && is_punct(tokens[2], '/')
        && (tokens[1] matches TokenTree::Group(delimiter, condition) && delimiter
        == Delimiter::Bracket && (tokens[3] matches TokenTree::Ident(name) && callback_name(name@)
        && (item matches ActionItem::Eval(guard, action) && spells_guard(condition@, guard)
        && action == AsyncIdent { ident: name, is_async: false })))
    ||| in_sequence && tokens.len() == 5 && is_ident(tokens[0], "eval"@) && is_punct(tokens[2], '/')
        && is_ident(tokens[3], "async"@) && (tokens[1] matches TokenTree::Group(delimiter, condition)
        && delimiter == Delimiter::Bracket && (tokens[4] matches TokenTree::Ident(name)
        && callback_name(name@) && (item matches ActionItem::Eval(guard, action) && spells_guard(
        condition@,
        guard,
    ) && action == AsyncIdent { ident: name, is_async: true })))
}

/// Whether the token at an index of `tokens` is the punctuation `c`.
pub open spec fn punct_at(tokens: Seq<TokenTree>, c: char) -> spec_fn(int) -> bool {
    |i: int| is_punct(tokens[i], c)
}

/// The first comma in `tokens`, or their length.
pub open spec fn first_comma(tokens: Seq<TokenTree>) -> int {
    first_where(0, tokens.len() as int, punct_at(tokens, ','))
}

/// `tokens` spell the non-empty list of steps `items`, separated by commas,
/// with an optional comma at the end.
pub open spec fn spells_action_items(tokens: Seq<TokenTree>, items: Seq<ActionItem>) -> bool
    decreases tokens.len(),
{
    let comma = first_comma(tokens);
    if items.len() == 0 || tokens.len() == 0 {
        false
    } else if comma >= tokens.len() {
        items.len() == 1 && spells_action_item(tokens, items[0], true)
    } else if comma + 1 == tokens.len() {
        items.len() == 1 && spells_action_item(tokens.take(comma), items[0], true)
    } else {
        0 <= comma && spells_action_item(tokens.take(comma), items[0], true) && spells_action_items(
            tokens.skip(comma + 1),
            items.drop_first(),
        )
    }
}

/// `tokens`, the part of a row after its `/`, spell the actions `items`: a
/// parenthesized, possibly empty, sequence of steps, or a single step.
pub open spec fn spells_actions(tokens: Seq<TokenTree>, items: Seq<ActionItem>) -> bool {
    ||| tokens.len() == 1 && (tokens[0] matches TokenTree::Group(delimiter, sequence) && delimiter
        == Delimiter::Parenthesis && ((sequence@.len() == 0 && items.len() == 0)
        || spells_action_items(sequence@, items)))
    ||| items.len() == 1 && spells_action_item(tokens, items[0], false)
}

/// The target of a row as written.
#[derive(Debug)]
pub struct RawOutputState {
    /// The row names no target and stays in its source state.
    pub internal: bool,
    /// The target's name; `_` for an internal transition.
    pub name: StateName,
    /// The tokens of the payload type in `(...)`, when one is given.
    pub payload: Option<Vec<TokenTree>>,
}

/// `tokens`, the end of a row, spell the target `out`: nothing or `= _` for
/// an internal transition, else `=`, a state name and an optional
/// `(payload)`.
pub open spec fn spells_output_state(tokens: Seq<TokenTree>, out: RawOutputState) -> bool {
    ||| tokens.len() == 0 && out.internal && (out.name matches StateName::Ident(name) && name@
        == "_"@) && out.payload is None
    ||| tokens.len() == 2 && is_punct(tokens[0], '=') && (tokens[1] matches TokenTree::Ident(name)
        && name@ == "_"@ && out.name == StateName::Ident(name)) && out.internal && out.payload is None
    ||| tokens.len() >= 2 && is_punct(tokens[0], '=') && !out.internal && {
        let target = tokens.skip(1);
        ||| (target.last() matches TokenTree::Group(delimiter, group) && delimiter
            == Delimiter::Parenthesis && spells_state_name(target.drop_last(), out.name)
            && (out.payload matches Some(payload) && same_trees(group@, payload@)))
        ||| spells_state_name(target, out.name) && out.payload is None
    }
}

/// The first `|` in `tokens`, or their length.
pub open spec fn first_bar(tokens: Seq<TokenTree>) -> int {
    first_where(0, tokens.len() as int, punct_at(tokens, '|'))
}

/// `tokens` spell the source states `states`, separated by `|`.
pub open spec fn spells_state_list(tokens: Seq<TokenTree>, states: Seq<RawInputState>) -> bool
    decreases tokens.len(),
{
    let bar = first_bar(tokens);
    if states.len() == 0 {
        false
    } else if bar >= tokens.len() {
        states.len() == 1 && spells_input_state(tokens, states[0])
    } else {
        0 <= bar && spells_input_state(tokens.take(bar), states[0]) && spells_state_list(
            tokens.skip(bar + 1),
            states.drop_first(),
        )
    }
}

/// A row as written.
#[derive(Debug)]
pub struct RawRow {
    /// The source states, in order.
    pub in_states: Vec<RawInputState>,
    /// The trigger.
    pub event: RawEvent,
    /// The guard in `[...]`.
    pub guard: Option<GuardExpression>,
    /// The steps after `/`, in order.
    pub actions: Vec<ActionItem>,
    /// The target.
    pub out_state: RawOutputState,
}

/// Where a row's `+` stands, or its length.
pub open spec fn trigger_start(tokens: Seq<TokenTree>) -> int {
    first_where(0, tokens.len() as int, punct_at(tokens, '+'))
}

/// Where a row's trigger ends: at its guard, its `/` or its `=`.
pub open spec fn trigger_end(tokens: Seq<TokenTree>) -> int {
    first_where(trigger_start(tokens), tokens.len() as int, stops_trigger(tokens))
}

/// Whether the token at an index of `tokens` ends a trigger: a guard, a
/// `/` or a `=`.
pub open spec fn stops_trigger(tokens: Seq<TokenTree>) -> spec_fn(int) -> bool {
    |i: int| is_bracket_group(tokens[i]) || is_punct(tokens[i], '/') || is_punct(tokens[i], '=')
}

/// Where a row's actions start: after the trigger and the guard.
pub open spec fn guard_end(tokens: Seq<TokenTree>) -> int {
    let end = trigger_end(tokens);
    if end < tokens.len() && is_bracket_group(tokens[end]) {
        end + 1
    } else {
        end
    }
}

/// Where a row's target starts: after its actions, if it has any.
pub open spec fn actions_end(tokens: Seq<TokenTree>) -> int {
    let start = guard_end(tokens);
    if start < tokens.len() && is_punct(tokens[start], '/') {
        first_where(start + 1, tokens.len() as int, punct_at(tokens, '='))
    } else {
        start
    }
}

/// `tokens` spell the row `row`: source states separated by `|`, of which a
/// wildcard must be the only one, then the trigger from `+`, an optional
/// `[guard]`, optional actions after `/`, and the target.
pub open spec fn spells_row(tokens: Seq<TokenTree>, row: RawRow) -> bool {
    let plus = trigger_start(tokens);
    let end = trigger_end(tokens);
    let after_guard = guard_end(tokens);
    let after_actions = actions_end(tokens);
    &&& spells_state_list(tokens.take(plus), row.in_states@)
    &&& row.in_states@.len() > 1 ==> forall|i: int|
        0 <= i < row.in_states@.len() ==> !(#[trigger] row.in_states@[i]).wildcard
    &&& spells_event(tokens.subrange(plus, end), row.event)
    &&& if end < tokens.len() && is_bracket_group(tokens[end]) {
        tokens[end] matches TokenTree::Group(_, condition) && (row.guard matches Some(guard)
            && spells_guard(condition@, guard))
    } else {
        row.guard is None
    }
    &&& if after_guard < tokens.len() && is_punct(tokens[after_guard], '/') {
        spells_actions(tokens.subrange(after_guard + 1, after_actions), row.actions@)
    } else {
        row.actions@.len() == 0
    }
    &&& spells_output_state(tokens.skip(after_actions), row.out_state)
}

/// A row that its tokens do not spell.
#[derive(Debug, Clone, Copy, PartialEq, Eq, Structural)]
pub struct RowSyntaxError;

/// Whether a token is the identifier `name`.
pub(crate) fn ident_is(token: &TokenTree, name: &str) -> (found: bool)
    ensures
        found == is_ident(*token, name@),
{
    match token {
        TokenTree::Ident(ident) => *ident == String::from_str(name),
        _ => false,
    }
}

/// Whether a token is the punctuation character `c`.
pub(crate) fn punct_is(token: &TokenTree, c: char) -> (found: bool)
    ensures
        found == is_punct(*token, c),
{
    match token {
        TokenTree::Punct(found, _) => *found == c,
        _ => false,
    }
}

/// Whether a name can stand for a callback: neither `async` nor `_`.
fn is_callback(name: &String) -> (allowed: bool)
    ensures
        allowed == callback_name(name@),
{
    !(*name == String::from_str("async")) && !(*name == String::from_str("_"))
}

/// Reads the state name spelled by `tokens[start..end]`.
fn parse_state_name(tokens: &Vec<TokenTree>, start: usize, end: usize) -> (name: Option<StateName>)
    requires
        start <= end <= tokens.len(),
    ensures
        name matches Some(name) ==> spells_state_name(tokens@.subrange(start as int, end as int), name),
        name is None ==> forall|other: StateName|
            !spells_state_name(tokens@.subrange(start as int, end as int), other),
{
    let ghost sub = tokens@.subrange(start as int, end as int);
    if end - start == 1 {
        assert(sub[0] == tokens@[start as int]);
        match &tokens[start] {
            TokenTree::Ident(ident) => if *ident == String::from_str("_") {
                None
            } else {
                Some(StateName::Ident(ident.clone()))
            },
            TokenTree::Literal(text) => Some(StateName::Literal(text.clone())),
            _ => None,
        }
    } else if end - start == 4 {
        assert(sub[0] == tokens@[start as int]);
        assert(sub[1] == tokens@[start + 1]);
        assert(sub[2] == tokens@[start + 2]);
        assert(sub[3] == tokens@[start + 3]);
        if ident_is(&tokens[start], "state") && punct_is(&tokens[start + 1], '<') && punct_is(
            &tokens[start + 3],
            '>',
        ) {
            match &tokens[start + 2] {
                TokenTree::Ident(child) => if *child == String::from_str("_") {
                    None
                } else {
                    Some(StateName::Composite(child.clone()))
                },
                _ => None,
            }
        } else if ident_is(&tokens[start], "sml") && punct_is(&tokens[start + 2], ':') {
            let joint = match &tokens[start + 1] {
                TokenTree::Punct(c, Spacing::Joint) => *c == ':',
                _ => false,
            };
            if !joint {
                return None;
            }
            match &tokens[start + 3] {
                TokenTree::Ident(terminal) => if *terminal == String::from_str("X") {
                    Some(StateName::Ident(terminal.clone()))
                } else {
                    None
                },
                _ => None,
            }
        } else {
            None
        }
    } else {
        None
    }
}

/// The payload of a state in `(group)`: `(H)` marks history.
fn read_payload(group: &Vec<TokenTree>) -> (read: (Option<Vec<TokenTree>>, bool))
    ensures
        spells_payload(group@, read.0, read.1),
{
    if group.len() == 1 && ident_is(&group[0], "H") {
        (None, true)
    } else {
        (Some(duplicate_tokens(group)), false)
    }
}

/// Reads the source state, without a `*`, spelled by `tokens[start..end]`.
fn parse_unmarked_state(tokens: &Vec<TokenTree>, start: usize, end: usize) -> (state: Option<RawInputState>)
    requires
        start <= end <= tokens.len(),
    ensures
        state matches Some(state) ==> !state.start && spells_unmarked_state(
            tokens@.subrange(start as int, end as int),
            state,
        ),
        state is None ==> forall|other: RawInputState|
            !spells_unmarked_state(tokens@.subrange(start as int, end as int), other),
    decreases tokens@.subrange(start as int, end as int),
{
    let ghost sub = tokens@.subrange(start as int, end as int);
    if end - start == 1 {
        assert(sub[0] == tokens@[start as int]);
        let grouped = match &tokens[start] {
            TokenTree::Group(delimiter, inner) => *delimiter == Delimiter::Parenthesis,
            _ => false,
        };
        if grouped {
            match &tokens[start] {
                TokenTree::Group(_, inner) => {
                    proof {
                        assert(inner@.subrange(0, inner@.len() as int) =~= inner@);
                    }
                    let state = parse_unmarked_state(inner, 0, inner.len());
                    proof {
                        if state is None {
                            assert forall|other: RawInputState| !spells_unmarked_state(sub, other) by {
                                if spells_unmarked_state(sub, other) {
                                    lemma_unmarked_cases(sub, other);
                                    assert(sub.drop_last().len() == 0);
                                }
                            }
                        }
                    }
                    return state;
                },
                _ => {
                    return None;
                },
            }
        }
        if ident_is(&tokens[start], "_") {
            match &tokens[start] {
                TokenTree::Ident(ident) => {
                    return Some(
                        RawInputState {
                            start: false,
                            wildcard: true,
                            name: StateName::Ident(ident.clone()),
                            payload: None,
                            history: false,
                        },
                    );
                },
                _ => {
                    return None;
                },
            }
        }
    }
    let with_payload = end > start && match &tokens[end - 1] {
        TokenTree::Group(delimiter, _) => *delimiter == Delimiter::Parenthesis,
        _ => false,
    };
    if with_payload {
        assert(sub.last() == tokens@[end - 1]);
        assert(sub.drop_last() =~= tokens@.subrange(start as int, end - 1));
        let name = parse_state_name(tokens, start, end - 1);
        match (name, &tokens[end - 1]) {
            (Some(name), TokenTree::Group(_, group)) => {
                let (payload, history) = read_payload(group);
                Some(RawInputState { start: false, wildcard: false, name, payload, history })
            },
            _ => {
                proof {
                    assert forall|other: RawInputState| !spells_unmarked_state(sub, other) by {
                        if spells_unmarked_state(sub, other) {
                            lemma_unmarked_cases(sub, other);
                            if end - start == 1 {
                                assert(sub.drop_last().len() == 0);
                            }
                        }
                    }
                }
                None
            },
        }
    } else {
        let name = parse_state_name(tokens, start, end);
        match name {
            Some(name) => Some(
                RawInputState { start: false, wildcard: false, name, payload: None, history: false },
            ),
            None => {
                proof {
                    assert forall|other: RawInputState| !spells_unmarked_state(sub, other) by {
                        if spells_unmarked_state(sub, other) {
                            lemma_unmarked_cases(sub, other);
                            if sub.len() > 0 {
                                assert(sub.last() == tokens@[end - 1]);
                            }
                        }
                    }
                }
                None
            },
        }
    }
}

/// The shapes a source state without `*` takes.
proof fn lemma_unmarked_cases(tokens: Seq<TokenTree>, state: RawInputState)
    requires
        spells_unmarked_state(tokens, state),
    ensures
        ({
        ||| tokens.len() == 1 && (tokens[0] matches TokenTree::Group(delimiter, inner) && delimiter
            == Delimiter::Parenthesis && spells_unmarked_state(inner@, state))
        ||| tokens.len() == 1 && (tokens[0] matches TokenTree::Ident(ident) && ident@ == "_"@
            && state.wildcard && state.name == StateName::Ident(ident) && state.payload is None
            && !state.history)
        ||| !state.wildcard && tokens.len() > 0 && (tokens.last() matches TokenTree::Group(
            delimiter,
            group,
        ) && delimiter == Delimiter::Parenthesis && spells_state_name(tokens.drop_last(), state.name)
            && spells_payload(group@, state.payload, state.history))
        ||| !state.wildcard && spells_state_name(tokens, state.name) && state.payload is None
            && !state.history
        }),
{
}

/// Reads the source state spelled by `tokens[start..end]`.
fn parse_input_state(tokens: &Vec<TokenTree>, start: usize, end: usize) -> (state: Option<RawInputState>)
    requires
        start <= end <= tokens.len(),
    ensures
        state matches Some(state) ==> spells_input_state(tokens@.subrange(start as int, end as int), state),
        state is None ==> forall|other: RawInputState|
            !spells_input_state(tokens@.subrange(start as int, end as int), other),
{
    let ghost sub = tokens@.subrange(start as int, end as int);
    if start < end && punct_is(&tokens[start], '*') {
        assert(sub[0] == tokens@[start as int]);
        assert(sub.skip(1) =~= tokens@.subrange(start + 1, end as int));
        if end - start == 2 && ident_is(&tokens[start + 1], "_") {
            assert(sub[1] == tokens@[start + 1]);
            return None;
        }
        proof {
            if end - start == 2 {
                assert(sub[1] == tokens@[start + 1]);
            }
        }
        match parse_unmarked_state(tokens, start + 1, end) {
            Some(unmarked) => {
                let ghost before = unmarked;
                let mut state = unmarked;
                state.start = true;
                proof {
                    lemma_unmarked_ignores_start(sub.skip(1), before, state);
                }
                Some(state)
            },
            None => {
                proof {
                    assert forall|other: RawInputState| !spells_input_state(sub, other) by {
                        if other.start {
                            let unmarked = RawInputState { start: false, ..other };
                            assert(!spells_unmarked_state(sub.skip(1), unmarked));
                            lemma_unmarked_ignores_start(sub.skip(1), other, unmarked);
                        }
                    }
                }
                None
            },
        }
    } else {
        proof {
            if start < end {
                assert(sub[0] == tokens@[start as int]);
            }
        }
        parse_unmarked_state(tokens, start, end)
    }
}

/// Whether a state is marked as the start plays no part in how it is
/// spelled without its `*`.
proof fn lemma_unmarked_ignores_start(tokens: Seq<TokenTree>, state: RawInputState, other: RawInputState)
    requires
        state.wildcard == other.wildcard,
        state.name == other.name,
        state.payload == other.payload,
        state.history == other.history,
    ensures
        spells_unmarked_state(tokens, state) == spells_unmarked_state(tokens, other),
    decreases tokens,
{
    if tokens.len() == 1 {
        match tokens[0] {
            TokenTree::Group(_, inner) => {
                lemma_unmarked_ignores_start(inner@, state, other);
            },
            _ => {},
        }
    }
}

/// A trigger named by `name` with the given flags and no payload.
fn trigger(name: String, kind: EventKind, wildcard: bool, external: bool) -> (event: RawEvent)
    ensures
        names_trigger(event, name@, kind, wildcard, external),
        event.name == EventName::Ident(name),
        event.payload is None,
        event.event_type is None,
{
    RawEvent { name: EventName::Ident(name), kind, wildcard, external, payload: None, event_type: None }
}

/// Reads the trigger `keyword<inner>`.
fn parse_angle_trigger(keyword: &String, inner: &TokenTree) -> (event: Option<RawEvent>)
    ensures
        event matches Some(event) ==> angle_trigger(keyword@, *inner, event) && event.payload is None
            && event.event_type is None,
        event is None ==> forall|other: RawEvent| !angle_trigger(keyword@, *inner, other),
{
    let wildcard = ident_is(inner, "_");
    let named: Option<&String> = match inner {
        TokenTree::Ident(name) => if wildcard {
            None
        } else {
            Some(name)
        },
        _ => None,
    };
    if *keyword == String::from_str("event") {
        match named {
            Some(name) => Some(trigger(name.clone(), EventKind::Normal, false, true)),
            None => None,
        }
    } else if *keyword == String::from_str("unexpected") || *keyword == String::from_str(
        "unexpected_event",
    ) {
        if wildcard {
            Some(trigger(String::from_str("__AnyEvent"), EventKind::Unexpected, true, false))
        } else {
            match named {
                Some(name) => {
                    let external = *keyword == String::from_str("unexpected_event");
                    Some(trigger(name.clone(), EventKind::Unexpected, false, external))
                },
                None => None,
            }
        }
    } else if *keyword == String::from_str("on_entry") {
        if wildcard {
            Some(trigger(keyword.clone(), EventKind::Entry, false, false))
        } else {
            None
        }
    } else if *keyword == String::from_str("on_exit") {
        if wildcard {
            Some(trigger(keyword.clone(), EventKind::Exit, false, false))
        } else {
            None
        }
    } else if *keyword == String::from_str("completion") {
        if wildcard {
            Some(trigger(String::from_str("__AnyCompletion"), EventKind::Completion, true, false))
        } else {
            match named {
                Some(name) => Some(trigger(name.clone(), EventKind::Completion, false, false)),
                None => None,
            }
        }
    } else if *keyword == String::from_str("exception") {
        if wildcard {
            Some(trigger(String::from_str("__AnyException"), EventKind::Exception, true, false))
        } else {
            match named {
                Some(name) => Some(trigger(name.clone(), EventKind::Exception, false, false)),
                None => None,
            }
        }
    } else {
        None
    }
}

/// Reads the trigger, without payload, spelled by `tokens[start..end]`.
fn parse_trigger(tokens: &Vec<TokenTree>, start: usize, end: usize) -> (event: Option<RawEvent>)
    requires
        start <= end <= tokens.len(),
    ensures
        event matches Some(event) ==> spells_trigger(tokens@.subrange(start as int, end as int), event)
            && event.payload is None,
        event is None ==> forall|other: RawEvent|
            !spells_trigger(tokens@.subrange(start as int, end as int), other),
{
    let ghost sub = tokens@.subrange(start as int, end as int);
    if end - start == 1 {
        assert(sub[0] == tokens@[start as int]);
        match &tokens[start] {
            TokenTree::Literal(text) => Some(
                RawEvent {
                    name: EventName::Literal(text.clone()),
                    kind: EventKind::Normal,
                    wildcard: false,
                    external: false,
                    payload: None,
                    event_type: None,
                },
            ),
            TokenTree::Ident(ident) => if *ident == String::from_str("_") {
                None
            } else {
                Some(
                    RawEvent {
                        name: EventName::Ident(ident.clone()),
                        kind: EventKind::Normal,
                        wildcard: false,
                        external: false,
                        payload: None,
                        event_type: None,
                    },
                )
            },
            _ => None,
        }
    } else if end - start == 4 {
        assert(sub[0] == tokens@[start as int]);
        assert(sub[1] == tokens@[start + 1]);
        assert(sub[2] == tokens@[start + 2]);
        assert(sub[3] == tokens@[start + 3]);
        if !punct_is(&tokens[start + 1], '<') || !punct_is(&tokens[start + 3], '>') {
            return None;
        }
        match &tokens[start] {
            TokenTree::Ident(keyword) => parse_angle_trigger(keyword, &tokens[start + 2]),
            _ => None,
        }
    } else if end - start > 4 {
        assert(sub[0] == tokens@[start as int]);
        assert(sub[1] == tokens@[start + 1]);
        assert(sub.last() == tokens@[end - 1]);
        assert(sub.subrange(2, sub.len() - 1) =~= tokens@.subrange(start + 2, end - 1));
        if !punct_is(&tokens[start + 1], '<') || !punct_is(&tokens[end - 1], '>') {
            return None;
        }
        proof {
            reveal_strlit("event");
            reveal_strlit("unexpected_event");
        }
        let kind = match &tokens[start] {
            TokenTree::Ident(keyword) => {
                if *keyword == String::from_str("event") {
                    EventKind::Normal
                } else if *keyword == String::from_str("unexpected_event") {
                    EventKind::Unexpected
                } else {
                    return None;
                }
            },
            _ => {
                return None;
            },
        };
        match read_event_type_name(tokens, start + 2, end - 1) {
            Some(name) => Some(
                RawEvent {
                    name: EventName::Ident(name),
                    kind,
                    wildcard: false,
                    external: true,
                    payload: None,
                    event_type: Some(duplicate_range(tokens, start + 2, end - 1)),
                },
            ),
            None => None,
        }
    } else {
        None
    }
}

/// A copy of `tokens[start..end]`.
pub(crate) fn duplicate_range(tokens: &Vec<TokenTree>, start: usize, end: usize) -> (copy: Vec<TokenTree>)
    requires
        start <= end <= tokens.len(),
    ensures
        same_trees(tokens@.subrange(start as int, end as int), copy@),
{
    let mut copy: Vec<TokenTree> = Vec::new();
    let mut index = start;
    while index < end
        invariant
            start <= index <= end <= tokens.len(),
            copy.len() == index - start,
            forall|i: int| 0 <= i < copy.len() ==> same_tree(#[trigger] tokens@[start + i], copy@[i]),
        decreases end - index,
    {
        copy.push(tokens[index].duplicate());
        index = index + 1;
    }
    let ghost sub = tokens@.subrange(start as int, end as int);
    assert forall|i: int| 0 <= i < sub.len() implies same_tree(#[trigger] sub[i], copy@[i]) by {
        assert(sub[i] == tokens@[start + i]);
    }
    copy
}

/// Reads the name of the path type spelled by `tokens[start..end]`.
fn read_path_type_name(tokens: &Vec<TokenTree>, start: usize, end: usize) -> (name: Option<String>)
    requires
        start <= end <= tokens.len(),
    ensures
        name.deep_view() == path_type_name(tokens@.subrange(start as int, end as int)),
    decreases end - start,
{
    let ghost sub = tokens@.subrange(start as int, end as int);
    if start == end {
        return None;
    }
    assert(sub[0] == tokens@[start as int]);
    let first = match &tokens[start] {
        TokenTree::Ident(name) => if *name == String::from_str("_") {
            return None;
        } else {
            name
        },
        _ => {
            return None;
        },
    };
    if end - start == 1 {
        return Some(first.clone());
    }
    assert(sub[1] == tokens@[start + 1]);
    let joint_colon = match &tokens[start + 1] {
        TokenTree::Punct(c, Spacing::Joint) => *c == ':',
        _ => false,
    };
    if end - start >= 3 && joint_colon && punct_is(&tokens[start + 2], ':') {
        assert(sub[2] == tokens@[start + 2]);
        assert(sub.skip(3) =~= tokens@.subrange(start + 3, end as int));
        return read_path_type_name(tokens, start + 3, end);
    }
    proof {
        if end - start >= 3 {
            assert(sub[2] == tokens@[start + 2]);
        }
    }
    assert(sub.last() == tokens@[end - 1]);
    if punct_is(&tokens[start + 1], '<') && punct_is(&tokens[end - 1], '>') {
        Some(first.clone())
    } else {
        None
    }
}

/// Reads the name of the outside event type spelled by `tokens[start..end]`.
fn read_event_type_name(tokens: &Vec<TokenTree>, start: usize, end: usize) -> (name: Option<String>)
    requires
        start <= end <= tokens.len(),
    ensures
        name.deep_view() == event_type_name(tokens@.subrange(start as int, end as int)),
{
    let ghost sub = tokens@.subrange(start as int, end as int);
    if start < end && punct_is(&tokens[start], '&') {
        assert(sub[0] == tokens@[start as int]);
        let ghost rest = sub.skip(1);
        assert(rest =~= tokens@.subrange(start + 1, end as int));
        let mut from = start + 1;
        if end - from >= 2 {
            assert(rest[0] == tokens@[start + 1]);
            assert(rest[1] == tokens@[start + 2]);
            let lifetime = match (&tokens[from], &tokens[from + 1]) {
                (TokenTree::Punct(c, Spacing::Joint), TokenTree::Ident(_)) => *c == '\'',
                _ => false,
            };
            if lifetime {
                assert(rest.skip(2) =~= tokens@.subrange(start + 3, end as int));
                from = from + 2;
            }
        }
        let ghost after_lifetime = tokens@.subrange(from as int, end as int);
        if from < end && ident_is(&tokens[from], "mut") {
            assert(after_lifetime[0] == tokens@[from as int]);
            assert(after_lifetime.skip(1) =~= tokens@.subrange(from + 1, end as int));
            from = from + 1;
        } else {
            proof {
                if from < end {
                    assert(after_lifetime[0] == tokens@[from as int]);
                }
            }
        }
        read_path_type_name(tokens, from, end)
    } else {
        proof {
            if start < end {
                assert(sub[0] == tokens@[start as int]);
            }
        }
        read_path_type_name(tokens, start, end)
    }
}

/// Reads the trigger spelled by `tokens[start..end]`.
#[verifier::rlimit(40)]
pub(crate) fn parse_event(tokens: &Vec<TokenTree>, start: usize, end: usize) -> (event: Option<RawEvent>)
    requires
        start <= end <= tokens.len(),
    ensures
        event matches Some(event) ==> spells_event(tokens@.subrange(start as int, end as int), event),
        event is None ==> forall|other: RawEvent|
            !spells_event(tokens@.subrange(start as int, end as int), other),
{
    let ghost sub = tokens@.subrange(start as int, end as int);
    if start == end || !punct_is(&tokens[start], '+') {
        proof {
            if start < end {
                assert(sub[0] == tokens@[start as int]);
            }
        }
        return None;
    }
    assert(sub[0] == tokens@[start as int]);
    let qualified = end - start >= 4 && ident_is(&tokens[start + 1], "sml") && match &tokens[start
        + 2] {
        TokenTree::Punct(c, Spacing::Joint) => *c == ':',
        _ => false,
    } && punct_is(&tokens[start + 3], ':');
    let body_start = if qualified {
        start + 4
    } else {
        start + 1
    };
    proof {
        let rest = sub.skip(1);
        if end - start >= 4 {
            assert(rest[0] == tokens@[start + 1]);
            assert(rest[1] == tokens@[start + 2]);
            assert(rest[2] == tokens@[start + 3]);
        }
        assert(trigger_body(sub) =~= tokens@.subrange(body_start as int, end as int));
    }
    let ghost body = tokens@.subrange(body_start as int, end as int);
    let with_payload = body_start < end && match &tokens[end - 1] {
        TokenTree::Group(delimiter, _) => *delimiter == Delimiter::Parenthesis,
        _ => false,
    };
    if with_payload {
        assert(body.last() == tokens@[end - 1]);
        assert(body.drop_last() =~= tokens@.subrange(body_start as int, end - 1));
        let named = parse_trigger(tokens, body_start, end - 1);
        match (named, &tokens[end - 1]) {
            (Some(named), TokenTree::Group(_, group)) => {
                if named.wildcard {
                    return None;
                }
                let mut event = named;
                event.payload = Some(duplicate_tokens(group));
                Some(event)
            },
            _ => None,
        }
    } else {
        let event = parse_trigger(tokens, body_start, end);
        proof {
            if body.len() > 0 {
                assert(body.last() == tokens@[end - 1]);
            }
        }
        event
    }
}

/// The shapes an action step takes.
proof fn lemma_action_item_cases(tokens: Seq<TokenTree>, item: ActionItem, in_sequence: bool)
    requires
        spells_action_item(tokens, item, in_sequence),
    ensures
        ({
            ||| tokens.len() == 1 && is_ident(tokens[0], "defer"@) && item is Defer
            ||| tokens.len() == 1 && (tokens[0] matches TokenTree::Ident(name) && callback_name(
                name@,
            ) && name@ != "defer"@ && item == ActionItem::Call(
                AsyncIdent { ident: name, is_async: false },
            ))
            ||| tokens.len() == 2 && is_ident(tokens[0], "async"@) && (tokens[1] matches TokenTree::Ident(
                name,
            ) && callback_name(name@) && name@ != "defer"@ && item == ActionItem::Call(
                AsyncIdent { ident: name, is_async: true },
            ))
            ||| tokens.len() == 2 && is_ident(tokens[0], "process"@) && (tokens[1] matches TokenTree::Group(
                delimiter,
                event,
            ) && delimiter == Delimiter::Parenthesis && (item matches ActionItem::Process(queued)
                && same_trees(event@, queued@)))
            ||| in_sequence && tokens.len() == 4 && is_ident(tokens[0], "eval"@) && is_punct(
                tokens[2],
                '/',
            ) && (tokens[1] matches TokenTree::Group(delimiter, condition) && delimiter
                == Delimiter::Bracket && (tokens[3] matches TokenTree::Ident(name) && callback_name(
                name@,
            ) && (item matches ActionItem::Eval(guard, action) && spells_guard(condition@, guard)
                && action == AsyncIdent { ident: name, is_async: false })))
            ||| in_sequence && tokens.len() == 5 && is_ident(tokens[0], "eval"@) && is_punct(
                tokens[2],
                '/',
            ) && is_ident(tokens[3], "async"@) && (tokens[1] matches TokenTree::Group(
                delimiter,
                condition,
            ) && delimiter == Delimiter::Bracket && (tokens[4] matches TokenTree::Ident(name)
                && callback_name(name@) && (item matches ActionItem::Eval(guard, action)
                && spells_guard(condition@, guard) && action == AsyncIdent {
                ident: name,
                is_async: true,
            })))
        }),
{
}

/// Reads `eval[condition] / action` from `tokens[start..end]`, `async`
/// before the action when `end - start` is 5.
fn parse_eval(tokens: &Vec<TokenTree>, start: usize, end: usize) -> (item: Option<ActionItem>)
    requires
        start <= end <= tokens.len(),
        end - start == 4 || end - start == 5,
    ensures
        item matches Some(item) ==> spells_action_item(tokens@.subrange(start as int, end as int), item, true),
        item is None ==> forall|other: ActionItem|
            !spells_action_item(tokens@.subrange(start as int, end as int), other, true),
{
    let ghost sub = tokens@.subrange(start as int, end as int);
    let is_async = end - start == 5;
    let name_at = if is_async {
        start + 4
    } else {
        start + 3
    };
    assert(sub[0] == tokens@[start as int]);
    assert(sub[1] == tokens@[start + 1]);
    assert(sub[2] == tokens@[start + 2]);
    assert(sub[3] == tokens@[start + 3]);
    assert(sub[name_at - start] == tokens@[name_at as int]);
    let shaped = ident_is(&tokens[start], "eval") && punct_is(&tokens[start + 2], '/') && (!is_async
        || ident_is(&tokens[start + 3], "async"));
    let name: Option<&String> = match &tokens[name_at] {
        TokenTree::Ident(name) => if is_callback(name) {
            Some(name)
        } else {
            None
        },
        _ => None,
    };
    let condition: Option<&Vec<TokenTree>> = match &tokens[start + 1] {
        TokenTree::Group(delimiter, condition) => if *delimiter == Delimiter::Bracket {
            Some(condition)
        } else {
            None
        },
        _ => None,
    };
    let item = match (shaped, name, condition) {
        (true, Some(name), Some(condition)) => match GuardExpression::parse(condition) {
            Ok(guard) => Some(ActionItem::Eval(guard, AsyncIdent { ident: name.clone(), is_async })),
            Err(_) => None,
        },
        _ => None,
    };
    proof {
        if item is None {
            assert forall|other: ActionItem| !spells_action_item(sub, other, true) by {
                if spells_action_item(sub, other, true) {
                    lemma_action_item_cases(sub, other, true);
                }
            }
        }
    }
    item
}

/// Reads the action step spelled by `tokens[start..end]`.
fn parse_action_item(tokens: &Vec<TokenTree>, start: usize, end: usize, in_sequence: bool) -> (item: Option<ActionItem>)
    requires
        start <= end <= tokens.len(),
    ensures
        item matches Some(item) ==> spells_action_item(
            tokens@.subrange(start as int, end as int),
            item,
            in_sequence,
        ),
        item is None ==> forall|other: ActionItem|
            !spells_action_item(tokens@.subrange(start as int, end as int), other, in_sequence),
{
    let ghost sub = tokens@.subrange(start as int, end as int);
    proof {
        reveal_strlit("async");
        reveal_strlit("process");
        reveal_strlit("defer");
    }
    let count = end - start;
    if in_sequence && (count == 4 || count == 5) {
        return parse_eval(tokens, start, end);
    }
    let item = if count == 1 {
        assert(sub[0] == tokens@[start as int]);
        match &tokens[start] {
            TokenTree::Ident(name) => {
                if *name == String::from_str("defer") {
                    Some(ActionItem::Defer)
                } else if is_callback(name) {
                    Some(ActionItem::Call(AsyncIdent { ident: name.clone(), is_async: false }))
                } else {
                    None
                }
            },
            _ => None,
        }
    } else if count == 2 {
        assert(sub[0] == tokens@[start as int]);
        assert(sub[1] == tokens@[start + 1]);
        if ident_is(&tokens[start], "async") {
            assert("async"@[0] != "process"@[0]);
            match &tokens[start + 1] {
                TokenTree::Ident(name) => {
                    if is_callback(name) && !(*name == String::from_str("defer")) {
                        Some(ActionItem::Call(AsyncIdent { ident: name.clone(), is_async: true }))
                    } else {
                        None
                    }
                },
                _ => None,
            }
        } else if ident_is(&tokens[start], "process") {
            match &tokens[start + 1] {
                TokenTree::Group(delimiter, event) => {
                    if *delimiter == Delimiter::Parenthesis {
                        Some(ActionItem::Process(duplicate_tokens(event)))
                    } else {
                        None
                    }
                },
                _ => None,
            }
        } else {
            None
        }
    } else {
        None
    };
    proof {
        if item is None {
            assert forall|other: ActionItem| !spells_action_item(sub, other, in_sequence) by {
                if spells_action_item(sub, other, in_sequence) {
                    lemma_action_item_cases(sub, other, in_sequence);
                }
            }
        }
    }
    item
}

/// The first `c` in `tokens[start..end]`, or `end`.
fn first_punct(tokens: &Vec<TokenTree>, start: usize, end: usize, c: char) -> (found: usize)
    requires
        start <= end <= tokens.len(),
    ensures
        start <= found <= end,
        found < end ==> is_punct(tokens@[found as int], c),
        forall|i: int| start <= i < found ==> !is_punct(#[trigger] tokens@[i], c),
{
    let mut index = start;
    while index < end
        invariant
            start <= index <= end <= tokens.len(),
            forall|i: int| start <= i < index ==> !is_punct(#[trigger] tokens@[i], c),
        decreases end - index,
    {
        if punct_is(&tokens[index], c) {
            return index;
        }
        index = index + 1;
    }
    end
}

/// `found`, the first `c` in `tokens[start..end]` or `end`, is where
/// `first_where` finds `c` in that slice.
proof fn lemma_first_punct(tokens: Seq<TokenTree>, start: int, end: int, c: char, found: int)
    requires
        0 <= start <= found <= end <= tokens.len(),
        found < end ==> is_punct(tokens[found], c),
        forall|i: int| start <= i < found ==> !is_punct(#[trigger] tokens[i], c),
    ensures
        first_where(0, end - start, punct_at(tokens.subrange(start, end), c)) == found - start,
{
    let sub = tokens.subrange(start, end);
    let holds = punct_at(sub, c);
    if found < end {
        assert(sub[found - start] == tokens[found]);
    }
    assert forall|i: int| 0 <= i < found - start implies !#[trigger] holds(i) by {
        assert(sub[i] == tokens[start + i]);
    }
    lemma_first_where_is(0, end - start, holds, found - start);
}

/// Reads the non-empty, comma-separated steps of `tokens[start..end]`.
fn parse_action_items(tokens: &Vec<TokenTree>, start: usize, end: usize) -> (items: Option<Vec<ActionItem>>)
    requires
        start <= end <= tokens.len(),
    ensures
        items matches Some(items) ==> spells_action_items(
            tokens@.subrange(start as int, end as int),
            items@,
        ),
        items is None ==> forall|other: Seq<ActionItem>|
            !spells_action_items(tokens@.subrange(start as int, end as int), other),
    decreases end - start,
{
    let ghost sub = tokens@.subrange(start as int, end as int);
    if start == end {
        return None;
    }
    let comma = first_punct(tokens, start, end, ',');
    proof {
        lemma_first_punct(tokens@, start as int, end as int, ',', comma as int);
        assert(sub.take(comma - start) =~= tokens@.subrange(start as int, comma as int));
    }
    let first = match parse_action_item(tokens, start, comma, true) {
        Some(first) => first,
        None => {
            proof {
                if comma == end {
                    assert(sub.take(comma - start) =~= sub);
                }
            }
            return None;
        },
    };
    if end - comma <= 1 {
        proof {
            if comma == end {
                assert(sub.take(comma - start) =~= sub);
            }
        }
        let mut items: Vec<ActionItem> = Vec::new();
        items.push(first);
        assert(items@ =~= seq![first]);
        return Some(items);
    }
    proof {
        assert(sub.skip(comma - start + 1) =~= tokens@.subrange(comma + 1, end as int));
    }
    match parse_action_items(tokens, comma + 1, end) {
        Some(rest) => {
            let ghost rest_items = rest@;
            let mut items = rest;
            items.insert(0, first);
            proof {
                assert(items@.drop_first() =~= rest_items);
                assert(items@[0] == first);
            }
            Some(items)
        },
        None => {
            proof {
                assert forall|other: Seq<ActionItem>| !spells_action_items(sub, other) by {
                    if other.len() > 0 {
                        assert(!spells_action_items(
                            tokens@.subrange(comma + 1, end as int),
                            other.drop_first(),
                        ));
                    }
                }
            }
            None
        },
    }
}

/// Reads the actions spelled by `tokens[start..end]`, the part of a row
/// after its `/`.
fn parse_actions(tokens: &Vec<TokenTree>, start: usize, end: usize) -> (items: Option<Vec<ActionItem>>)
    requires
        start <= end <= tokens.len(),
    ensures
        items matches Some(items) ==> spells_actions(tokens@.subrange(start as int, end as int), items@),
        items is None ==> forall|other: Seq<ActionItem>|
            !spells_actions(tokens@.subrange(start as int, end as int), other),
{
    let ghost sub = tokens@.subrange(start as int, end as int);
    if end - start == 1 {
        assert(sub[0] == tokens@[start as int]);
        let sequence = match &tokens[start] {
            TokenTree::Group(delimiter, _) => *delimiter == Delimiter::Parenthesis,
            _ => false,
        };
        if sequence {
            match &tokens[start] {
                TokenTree::Group(_, content) => {
                    if content.len() == 0 {
                        let none: Vec<ActionItem> = Vec::new();
                        assert(none@ =~= Seq::<ActionItem>::empty());
                        return Some(none);
                    }
                    proof {
                        assert(content@.subrange(0, content@.len() as int) =~= content@);
                    }
                    let items = parse_action_items(content, 0, content.len());
                    proof {
                        if items is None {
                            assert forall|other: Seq<ActionItem>| !spells_actions(sub, other) by {
                                if other.len() == 1 {
                                    assert(!spells_action_item(sub, other[0], false));
                                }
                            }
                        }
                    }
                    return items;
                },
                _ => {
                    return None;
                },
            }
        }
    }
    match parse_action_item(tokens, start, end, false) {
        Some(item) => {
            let mut items: Vec<ActionItem> = Vec::new();
            items.push(item);
            assert(items@ =~= seq![item]);
            Some(items)
        },
        None => {
            proof {
                assert forall|other: Seq<ActionItem>| !spells_actions(sub, other) by {
                    if other.len() == 1 {
                        assert(!spells_action_item(sub, other[0], false));
                    }
                }
            }
            None
        },
    }
}


/// Reads the target spelled by `tokens[start..end]`, the end of a row.
fn parse_output_state(tokens: &Vec<TokenTree>, start: usize, end: usize) -> (out: Option<RawOutputState>)
    requires
        start <= end <= tokens.len(),
    ensures
        out matches Some(out) ==> spells_output_state(tokens@.subrange(start as int, end as int), out),
        out is None ==> forall|other: RawOutputState|
            !spells_output_state(tokens@.subrange(start as int, end as int), other),
{
    let ghost sub = tokens@.subrange(start as int, end as int);
    if start == end {
        return Some(
            RawOutputState { internal: true, name: StateName::Ident(String::from_str("_")), payload: None },
        );
    }
    assert(sub[0] == tokens@[start as int]);
    if end - start < 2 || !punct_is(&tokens[start], '=') {
        return None;
    }
    assert(sub[1] == tokens@[start + 1]);
    assert(sub.skip(1) =~= tokens@.subrange(start + 1, end as int));
    if end - start == 2 && ident_is(&tokens[start + 1], "_") {
        match &tokens[start + 1] {
            TokenTree::Ident(name) => {
                return Some(
                    RawOutputState { internal: true, name: StateName::Ident(name.clone()), payload: None },
                );
            },
            _ => {
                return None;
            },
        }
    }
    let with_payload = match &tokens[end - 1] {
        TokenTree::Group(delimiter, _) => *delimiter == Delimiter::Parenthesis,
        _ => false,
    };
    let ghost target = sub.skip(1);
    assert(target.last() == tokens@[end - 1]);
    let out = if with_payload {
        assert(target.drop_last() =~= tokens@.subrange(start + 1, end - 1));
        match (parse_state_name(tokens, start + 1, end - 1), &tokens[end - 1]) {
            (Some(name), TokenTree::Group(_, group)) => Some(
                RawOutputState { internal: false, name, payload: Some(duplicate_tokens(group)) },
            ),
            _ => None,
        }
    } else {
        match parse_state_name(tokens, start + 1, end) {
            Some(name) => Some(RawOutputState { internal: false, name, payload: None }),
            None => None,
        }
    };
    proof {
        if out is None {
            assert forall|other: RawOutputState| !spells_output_state(sub, other) by {
                if spells_output_state(sub, other) && end - start == 2 {
                    assert(target.drop_last().len() == 0);
                }
            }
        }
    }
    out
}

/// Reads the source states, separated by `|`, of `tokens[start..end]`.
fn parse_state_list(tokens: &Vec<TokenTree>, start: usize, end: usize) -> (states: Option<Vec<RawInputState>>)
    requires
        start <= end <= tokens.len(),
    ensures
        states matches Some(states) ==> spells_state_list(
            tokens@.subrange(start as int, end as int),
            states@,
        ),
        states is None ==> forall|other: Seq<RawInputState>|
            !spells_state_list(tokens@.subrange(start as int, end as int), other),
    decreases end - start,
{
    let ghost sub = tokens@.subrange(start as int, end as int);
    let bar = first_punct(tokens, start, end, '|');
    proof {
        lemma_first_punct(tokens@, start as int, end as int, '|', bar as int);
        assert(sub.take(bar - start) =~= tokens@.subrange(start as int, bar as int));
    }
    let first = match parse_input_state(tokens, start, bar) {
        Some(first) => first,
        None => {
            proof {
                if bar == end {
                    assert(sub.take(bar - start) =~= sub);
                }
            }
            return None;
        },
    };
    if bar == end {
        assert(sub.take(bar - start) =~= sub);
        let mut states: Vec<RawInputState> = Vec::new();
        states.push(first);
        assert(states@ =~= seq![first]);
        return Some(states);
    }
    assert(sub.skip(bar - start + 1) =~= tokens@.subrange(bar + 1, end as int));
    match parse_state_list(tokens, bar + 1, end) {
        Some(rest) => {
            let ghost rest_states = rest@;
            let mut states = rest;
            states.insert(0, first);
            proof {
                assert(states@.drop_first() =~= rest_states);
                assert(states@[0] == first);
            }
            Some(states)
        },
        None => {
            proof {
                assert forall|other: Seq<RawInputState>| !spells_state_list(sub, other) by {
                    if other.len() > 0 {
                        assert(!spells_state_list(
                            tokens@.subrange(bar + 1, end as int),
                            other.drop_first(),
                        ));
                    }
                }
            }
            None
        },
    }
}

/// Whether a token ends a trigger: a guard, a `/` or a `=`.
fn ends_trigger_at(token: &TokenTree) -> (ends: bool)
    ensures
        ends == (is_bracket_group(*token) || is_punct(*token, '/') || is_punct(*token, '=')),
{
    match token {
        TokenTree::Group(delimiter, _) => *delimiter == Delimiter::Bracket,
        TokenTree::Punct(c, _) => *c == '/' || *c == '=',
        _ => false,
    }
}

/// `found`, the first `c` in `tokens[from..end]` or `end`, is where
/// `first_where` finds `c` from `from` on in `tokens[start..end]`.
proof fn lemma_first_punct_within(
    tokens: Seq<TokenTree>,
    start: int,
    end: int,
    from: int,
    c: char,
    found: int,
)
    requires
        0 <= start <= from <= found <= end <= tokens.len(),
        found < end ==> is_punct(tokens[found], c),
        forall|i: int| from <= i < found ==> !is_punct(#[trigger] tokens[i], c),
    ensures
        first_where(from - start, end - start, punct_at(tokens.subrange(start, end), c)) == found
            - start,
{
    let sub = tokens.subrange(start, end);
    let holds = punct_at(sub, c);
    if found < end {
        assert(sub[found - start] == tokens[found]);
    }
    assert forall|i: int| from - start <= i < found - start implies !#[trigger] holds(i) by {
        assert(sub[i] == tokens[start + i]);
    }
    lemma_first_where_is(from - start, end - start, holds, found - start);
}

/// Where the trigger that starts at `from` ends in `tokens[start..end]`.
fn find_trigger_end_in(tokens: &Vec<TokenTree>, start: usize, from: usize, end: usize) -> (found: usize)
    requires
        start <= from <= end <= tokens.len(),
    ensures
        from <= found <= end,
        found - start == first_where(
            from - start,
            end - start,
            stops_trigger(tokens@.subrange(start as int, end as int)),
        ),
{
    let ghost sub = tokens@.subrange(start as int, end as int);
    let ghost holds = stops_trigger(sub);
    let mut index = from;
    while index < end
        invariant
            start <= from <= index <= end <= tokens.len(),
            sub == tokens@.subrange(start as int, end as int),
            holds == stops_trigger(sub),
            forall|i: int| from - start <= i < index - start ==> !#[trigger] holds(i),
        decreases end - index,
    {
        assert(sub[index - start] == tokens@[index as int]);
        if ends_trigger_at(&tokens[index]) {
            proof {
                lemma_first_where_is(from - start, end - start, holds, index - start);
            }
            return index;
        }
        index = index + 1;
    }
    proof {
        lemma_first_where_is(from - start, end - start, holds, index - start);
    }
    index
}

/// Reads the row spelled by `tokens[start..end]`.
#[verifier::rlimit(60)]
pub(crate) fn parse_row_in(tokens: &Vec<TokenTree>, start: usize, end: usize) -> (result: Result<RawRow, RowSyntaxError>)
    requires
        start <= end <= tokens.len(),
    ensures
        match result {
            Ok(row) => spells_row(tokens@.subrange(start as int, end as int), row),
            Err(_) => forall|row: RawRow| !spells_row(tokens@.subrange(start as int, end as int), row),
        },
{
    let ghost all = tokens@.subrange(start as int, end as int);
    let plus = first_punct(tokens, start, end, '+');
    proof {
        lemma_first_punct(tokens@, start as int, end as int, '+', plus as int);
        assert(all.take(plus - start) =~= tokens@.subrange(start as int, plus as int));
    }
    let in_states = match parse_state_list(tokens, start, plus) {
        Some(states) => states,
        None => {
            return Err(RowSyntaxError);
        },
    };
    let ghost plus_at = plus - start;
    if in_states.len() > 1 {
        let mut index: usize = 0;
        while index < in_states.len()
            invariant
                index <= in_states.len(),
                all == tokens@.subrange(start as int, end as int),
                plus_at == trigger_start(all),
                in_states.len() > 1,
                0 <= plus_at <= all.len(),
                spells_state_list(all.take(plus_at), in_states@),
                forall|i: int| 0 <= i < index ==> !(#[trigger] in_states@[i]).wildcard,
            decreases in_states.len() - index,
        {
            if in_states[index].wildcard {
                proof {
                    assert forall|row: RawRow| !spells_row(all, row) by {
                        if spells_row(all, row) {
                            lemma_state_list_unique(all.take(plus_at), row.in_states@, in_states@);
                            assert(row.in_states@[index as int].wildcard);
                        }
                    }
                }
                return Err(RowSyntaxError);
            }
            index = index + 1;
        }
    }
    let trigger_stop = find_trigger_end_in(tokens, start, plus, end);
    assert(all.subrange(plus - start, trigger_stop - start) =~= tokens@.subrange(
        plus as int,
        trigger_stop as int,
    ));
    let event = match parse_event(tokens, plus, trigger_stop) {
        Some(event) => event,
        None => {
            return Err(RowSyntaxError);
        },
    };
    let guarded = trigger_stop < end && match &tokens[trigger_stop] {
        TokenTree::Group(delimiter, _) => *delimiter == Delimiter::Bracket,
        _ => false,
    };
    proof {
        if trigger_stop < end {
            assert(all[trigger_stop - start] == tokens@[trigger_stop as int]);
        }
    }
    let guard = if guarded {
        match &tokens[trigger_stop] {
            TokenTree::Group(_, condition) => match GuardExpression::parse(condition) {
                Ok(guard) => Some(guard),
                Err(_) => {
                    return Err(RowSyntaxError);
                },
            },
            _ => None,
        }
    } else {
        None
    };
    let after_guard = if guarded {
        trigger_stop + 1
    } else {
        trigger_stop
    };
    proof {
        if after_guard < end {
            assert(all[after_guard - start] == tokens@[after_guard as int]);
        }
    }
    let slashed = after_guard < end && punct_is(&tokens[after_guard], '/');
    let after_actions = if slashed {
        let found = first_punct(tokens, after_guard + 1, end, '=');
        proof {
            lemma_first_punct_within(tokens@, start as int, end as int, after_guard + 1, '=', found as int);
        }
        found
    } else {
        after_guard
    };
    let actions = if slashed {
        assert(all.subrange(after_guard + 1 - start, after_actions - start) =~= tokens@.subrange(
            after_guard + 1,
            after_actions as int,
        ));
        match parse_actions(tokens, after_guard + 1, after_actions) {
            Some(actions) => actions,
            None => {
                return Err(RowSyntaxError);
            },
        }
    } else {
        Vec::new()
    };
    assert(all.skip(after_actions - start) =~= tokens@.subrange(after_actions as int, end as int));
    let out_state = match parse_output_state(tokens, after_actions, end) {
        Some(out) => out,
        None => {
            return Err(RowSyntaxError);
        },
    };
    let row = RawRow { in_states, event, guard, actions, out_state };
    Ok(row)
}

impl RawInputState {
    /// Reads the source state that `tokens` spell, if they spell one.
    pub fn parse(tokens: &Vec<TokenTree>) -> (state: Option<RawInputState>)
        ensures
            state matches Some(state) ==> spells_input_state(tokens@, state),
            state is None ==> forall|other: RawInputState| !spells_input_state(tokens@, other),
    {
        assert(tokens@.subrange(0, tokens@.len() as int) =~= tokens@);
        parse_input_state(tokens, 0, tokens.len())
    }
}

impl RawEvent {
    /// Reads the trigger that `tokens` spell, from its `+`, if they spell one.
    pub fn parse(tokens: &Vec<TokenTree>) -> (event: Option<RawEvent>)
        ensures
            event matches Some(event) ==> spells_event(tokens@, event),
            event is None ==> forall|other: RawEvent| !spells_event(tokens@, other),
    {
        assert(tokens@.subrange(0, tokens@.len() as int) =~= tokens@);
        parse_event(tokens, 0, tokens.len())
    }
}

impl RawOutputState {
    /// Reads the target that `tokens`, the end of a row, spell, if they
    /// spell one.
    pub fn parse(tokens: &Vec<TokenTree>) -> (out: Option<RawOutputState>)
        ensures
            out matches Some(out) ==> spells_output_state(tokens@, out),
            out is None ==> forall|other: RawOutputState| !spells_output_state(tokens@, other),
    {
        assert(tokens@.subrange(0, tokens@.len() as int) =~= tokens@);
        parse_output_state(tokens, 0, tokens.len())
    }
}

impl RawRow {
    /// Reads the row that `tokens` spell, or says that they spell none.
    pub fn parse(tokens: &Vec<TokenTree>) -> (result: Result<RawRow, RowSyntaxError>)
        ensures
            match result {
                Ok(row) => spells_row(tokens@, row),
                Err(_) => forall|row: RawRow| !spells_row(tokens@, row),
            },
    {
        assert(tokens@.subrange(0, tokens@.len() as int) =~= tokens@);
        parse_row_in(tokens, 0, tokens.len())
    }
}

/// A list of source states is spelled in one way only.
proof fn lemma_state_list_unique(
    tokens: Seq<TokenTree>,
    states: Seq<RawInputState>,
    others: Seq<RawInputState>,
)
    requires
        spells_state_list(tokens, states),
        spells_state_list(tokens, others),
    ensures
        states.len() == others.len(),
        forall|i: int| 0 <= i < states.len() ==> (#[trigger] states[i]).wildcard == others[i].wildcard,
    decreases tokens.len(),
{
    let bar = first_bar(tokens);
    if bar < tokens.len() {
        lemma_state_list_unique(tokens.skip(bar + 1), states.drop_first(), others.drop_first());
        lemma_input_state_wildcard(tokens.take(bar), states[0], others[0]);
        assert forall|i: int| 0 <= i < states.len() implies (#[trigger] states[i]).wildcard
            == others[i].wildcard by {
            if i > 0 {
                assert(states[i] == states.drop_first()[i - 1]);
                assert(others[i] == others.drop_first()[i - 1]);
            }
        }
    } else {
        lemma_input_state_wildcard(tokens, states[0], others[0]);
    }
}

/// Whether a source state is a wildcard is fixed by its tokens.
proof fn lemma_input_state_wildcard(tokens: Seq<TokenTree>, state: RawInputState, other: RawInputState)
    requires
        spells_input_state(tokens, state),
        spells_input_state(tokens, other),
    ensures
        state.wildcard == other.wildcard,
{
    if tokens.len() > 0 && is_punct(tokens[0], '*') {
        lemma_unmarked_wildcard(tokens.skip(1), state, other);
    } else {
        lemma_unmarked_wildcard(tokens, state, other);
    }
}

/// Whether a source state without `*` is a wildcard is fixed by its tokens.
proof fn lemma_unmarked_wildcard(tokens: Seq<TokenTree>, state: RawInputState, other: RawInputState)
    requires
        spells_unmarked_state(tokens, state),
        spells_unmarked_state(tokens, other),
    ensures
        state.wildcard == other.wildcard,
    decreases tokens,
{
    lemma_unmarked_cases(tokens, state);
    lemma_unmarked_cases(tokens, other);
    if tokens.len() == 1 {
        match tokens[0] {
            TokenTree::Group(delimiter, inner) => {
                if delimiter == Delimiter::Parenthesis {
                    if spells_unmarked_state(inner@, state) && spells_unmarked_state(inner@, other) {
                        lemma_unmarked_wildcard(inner@, state, other);
                    }
                }
            },
            _ => {},
        }
    }
}

} // verus!
