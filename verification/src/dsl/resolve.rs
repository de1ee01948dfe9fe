//! What Rust gives a meaning to inside a row: the value and suffix of a
//! string literal, which names a state or an event, and whether a payload is
//! a type that a state or an event can carry. syn reads both from the text of
//! the tokens.

use vstd::prelude::*;

use super::event::{Event, EventKind};
use super::guard::{AsyncIdent, GuardExpression};
use super::machine::{EvalAction, InputState, OutputState, StateTransitions};
use super::names::{state_ident, state_ident_text};
use super::row::{
    ActionItem, EventName, RawEvent, RawInputState, RawOutputState, RawRow, StateName,
};
use super::token::{reversed, Delimiter, Spacing, TokenTree};
use super::types::{DataType, TypeShape};

verus! {

/// What syn reads from the text of a string literal: its value and its
/// suffix; `None` when the text is no string literal.
pub uninterp spec fn string_literal_parts(text: Seq<char>) -> Option<(Seq<char>, Seq<char>)>;

/// The kind of a type as syn reads it: one of the kinds the table names, or
/// any other.
#[derive(Debug, Clone, Copy, PartialEq, Eq)]
pub enum TypeKind {
    /// `[T; N]`
    Array,
    /// A path such as `a::B<T>`.
    Path,
    /// `*const T` or `*mut T`
    Pointer,
    /// `&T` or `&mut T`
    Reference,
    /// `[T]`
    Slice,
    /// `(A, B, ...)`
    Tuple,
    /// Any other type: a function pointer, `impl Trait`, `dyn Trait`, `!`,
    /// `_`, a macro, a parenthesized or invisible group, or verbatim tokens.
    Other,
}

/// What syn reads from the text of a type: its kind; `None` when the text is
/// no type.
pub uninterp spec fn payload_type_kind(text: Seq<char>) -> Option<TypeKind>;

/// The kinds of type a state or an event can carry as its payload.
pub open spec fn carries_payload(kind: TypeKind) -> bool {
    match kind {
        TypeKind::Array | TypeKind::Path | TypeKind::Pointer | TypeKind::Reference
        | TypeKind::Slice | TypeKind::Tuple => true,
        TypeKind::Other => false,
    }
}

/// Reads a string literal with `syn::parse_str::<syn::LitStr>`: its value
/// (`LitStr::value`) and its suffix (`LitStr::suffix`). The contract claims
/// only that the result is what syn gives for the text.
#[verifier::external_body]
pub(crate) fn read_string_literal(text: &String) -> (parts: Option<(String, String)>)
    ensures
        parts.deep_view() == string_literal_parts(text@),
{
    match syn::parse_str::<syn::LitStr>(text) {
        Ok(literal) => Some((literal.value(), literal.suffix().to_string())),
        Err(_) => None,
    }
}

/// Reads a type with `syn::parse_str::<syn::Type>` and gives the kind of
/// the `syn::Type` variant it returns. The contract claims only that the
/// result is what syn gives for the text.
#[verifier::external_body]
pub(crate) fn read_payload_type(text: &String) -> (kind: Option<TypeKind>)
    ensures
        kind == payload_type_kind(text@),
{
    match syn::parse_str::<syn::Type>(text) {
        Ok(syn::Type::Array(_)) => Some(TypeKind::Array),
        Ok(syn::Type::Path(_)) => Some(TypeKind::Path),
        Ok(syn::Type::Ptr(_)) => Some(TypeKind::Pointer),
        Ok(syn::Type::Reference(_)) => Some(TypeKind::Reference),
        Ok(syn::Type::Slice(_)) => Some(TypeKind::Slice),
        Ok(syn::Type::Tuple(_)) => Some(TypeKind::Tuple),
        Ok(_) => Some(TypeKind::Other),
        Err(_) => None,
    }
}

/// Whether a kind of type can be carried as a payload: see
/// `carries_payload`.
fn kind_carries_payload(kind: TypeKind) -> (carried: bool)
    ensures
        carried == carries_payload(kind),
{
    match kind {
        TypeKind::Other => false,
        _ => true,
    }
}

/// Appends a character with `String::push`, which, as std documents it,
/// appends the character to the end of the string.
#[verifier::external_body]
fn push_char(text: &mut String, c: char)
    ensures
        final(text)@ == old(text)@.push(c),
{
    text.push(c);
}

/// The opening character of a delimiter; none for an invisible group.
pub open spec fn open_text(delimiter: Delimiter) -> Seq<char> {
    match delimiter {
        Delimiter::Parenthesis => seq!['('],
        Delimiter::Brace => seq!['{'],
        Delimiter::Bracket => seq!['['],
        Delimiter::Invisible => Seq::empty(),
    }
}

/// The closing character of a delimiter; none for an invisible group.
pub open spec fn close_text(delimiter: Delimiter) -> Seq<char> {
    match delimiter {
        Delimiter::Parenthesis => seq![')'],
        Delimiter::Brace => seq!['}'],
        Delimiter::Bracket => seq![']'],
        Delimiter::Invisible => Seq::empty(),
    }
}

/// The source text of tokens: each token followed by a space, but for a
/// punctuation character joined to the next one.
pub open spec fn tokens_text(tokens: Seq<TokenTree>) -> Seq<char>
    decreases tokens,
{
    if tokens.len() == 0 {
        Seq::empty()
    } else {
        let before = tokens_text(tokens.subrange(0, tokens.len() - 1));
        let last = tokens[tokens.len() - 1];
        match last {
            TokenTree::Group(delimiter, inner) => before + open_text(delimiter) + tokens_text(inner@)
                + close_text(delimiter) + seq![' '],
            TokenTree::Ident(name) => before + name@ + seq![' '],
            TokenTree::Literal(text) => before + text@ + seq![' '],
            TokenTree::Punct(c, spacing) => if spacing == Spacing::Joint {
                before.push(c)
            } else {
                before + seq![c, ' ']
            },
        }
    }
}

/// Appends the opening or closing character of a delimiter.
fn push_delimiter(text: &mut String, delimiter: Delimiter, opening: bool)
    ensures
        final(text)@ == old(text)@ + if opening {
            open_text(delimiter)
        } else {
            close_text(delimiter)
        },
{
    let c = match (delimiter, opening) {
        (Delimiter::Parenthesis, true) => '(',
        (Delimiter::Parenthesis, false) => ')',
        (Delimiter::Brace, true) => '{',
        (Delimiter::Brace, false) => '}',
        (Delimiter::Bracket, true) => '[',
        (Delimiter::Bracket, false) => ']',
        (Delimiter::Invisible, _) => {
            assert(old(text)@ + Seq::<char>::empty() =~= old(text)@);
            return;
        },
    };
    push_char(text, c);
    assert(old(text)@.push(c) =~= old(text)@ + seq![c]);
}

/// Appends the source text of tokens to `text`.
pub(crate) fn append_tokens(text: &mut String, tokens: &Vec<TokenTree>)
    ensures
        final(text)@ == old(text)@ + tokens_text(tokens@),
    decreases tokens,
{
    let ghost start = text@;
    let mut index: usize = 0;
    assert(tokens@.subrange(0, 0).len() == 0);
    assert(start + tokens_text(tokens@.subrange(0, 0)) =~= start);
    while index < tokens.len()
        invariant
            index <= tokens.len(),
            text@ == start + tokens_text(tokens@.subrange(0, index as int)),
        decreases tokens.len() - index,
    {
        let ghost before = text@;
        let ghost done = tokens@.subrange(0, index as int);
        let ghost next = tokens@.subrange(0, index + 1);
        assert(next.subrange(0, next.len() - 1) =~= done);
        assert(next[next.len() - 1] == tokens@[index as int]);
        match &tokens[index] {
            TokenTree::Group(delimiter, inner) => {
                push_delimiter(text, *delimiter, true);
                append_tokens(text, inner);
                push_delimiter(text, *delimiter, false);
                push_char(text, ' ');
            },
            TokenTree::Ident(name) => {
                text.append(name.as_str());
                push_char(text, ' ');
            },
            TokenTree::Literal(written) => {
                text.append(written.as_str());
                push_char(text, ' ');
            },
            TokenTree::Punct(c, spacing) => {
                push_char(text, *c);
                if *spacing == Spacing::Alone {
                    push_char(text, ' ');
                }
            },
        }
        assert(text@ =~= start + tokens_text(next));
        index = index + 1;
    }
    assert(tokens@.subrange(0, tokens@.len() as int) =~= tokens@);
}

/// The source text of tokens, a space after each token but for a
/// punctuation character joined to the next.
pub fn render_tokens(tokens: &Vec<TokenTree>) -> (text: String)
    ensures
        text@ == tokens_text(tokens@),
{
    let mut text = String::new();
    append_tokens(&mut text, tokens);
    assert(Seq::<char>::empty() + tokens_text(tokens@) =~= tokens_text(tokens@));
    text
}

/// The identifier that a state name denotes: an identifier itself, a
/// string literal its value in PascalCase (`"fin wait 1"_s` is `FinWait1`),
/// `state<Child>` the child's name in PascalCase; `None` for a literal that
/// syn does not read as a string.
pub open spec fn state_name_ident(name: StateName) -> Option<Seq<char>> {
    match name {
        StateName::Ident(ident) => Some(ident@),
        StateName::Literal(text) => match string_literal_parts(text@) {
            Some((value, _)) => Some(state_ident_text(value)),
            None => None,
        },
        StateName::Composite(child) => Some(state_ident_text(child@)),
    }
}

/// The identifier that an event name denotes: an identifier itself, a
/// string literal with the suffix `_e` its value in PascalCase; `None` for
/// any other literal.
pub open spec fn event_name_ident(name: EventName) -> Option<Seq<char>> {
    match name {
        EventName::Ident(ident) => Some(ident@),
        EventName::Literal(text) => match string_literal_parts(text@) {
            Some((value, suffix)) => if suffix == "_e"@ {
                Some(state_ident_text(value))
            } else {
                None
            },
            None => None,
        },
    }
}

/// The payload tokens are a type of a kind that a state or an event can
/// carry: an array, a path, a pointer, a reference, a slice or a tuple.
pub open spec fn payload_supported(tokens: Seq<TokenTree>) -> bool {
    payload_type_kind(tokens_text(tokens)) matches Some(kind) && carries_payload(kind)
}

/// An absent payload, or a supported one.
pub open spec fn optional_payload_supported(payload: Option<Vec<TokenTree>>) -> bool {
    match payload {
        Some(tokens) => payload_supported(tokens@),
        None => true,
    }
}

/// A source state names a state, unless it is a wildcard, and carries a
/// supported payload.
pub open spec fn input_state_resolves(state: RawInputState) -> bool {
    &&& (state.wildcard || state_name_ident(state.name) is Some)
    &&& optional_payload_supported(state.payload)
}

/// A trigger names an event and carries a supported payload.
pub open spec fn event_resolves(event: RawEvent) -> bool {
    &&& event_name_ident(event.name) is Some
    &&& optional_payload_supported(event.payload)
}

/// A target names a state, unless the row has none, and carries a supported
/// payload.
pub open spec fn output_state_resolves(out: RawOutputState) -> bool {
    &&& (out.internal || state_name_ident(out.name) is Some)
    &&& optional_payload_supported(out.payload)
}

/// Every state and the trigger of a row name what they stand for, and each
/// payload is supported.
pub open spec fn row_resolves(row: RawRow) -> bool {
    &&& forall|i: int|
        0 <= i < row.in_states@.len() ==> input_state_resolves(#[trigger] row.in_states@[i])
    &&& event_resolves(row.event)
    &&& output_state_resolves(row.out_state)
}

impl StateName {
    /// The identifier that the name denotes, or `None` for a literal that is
    /// no string.
    pub fn resolve(&self) -> (ident: Option<String>)
        ensures
            ident.deep_view() == state_name_ident(*self),
    {
        match self {
            StateName::Ident(ident) => Some(ident.clone()),
            StateName::Literal(text) => match read_string_literal(text) {
                Some((value, _)) => Some(state_ident(value.as_str())),
                None => None,
            },
            StateName::Composite(child) => Some(state_ident(child.as_str())),
        }
    }
}

impl EventName {
    /// The identifier that the name denotes, or `None` for a literal that is
    /// no string with the suffix `_e`.
    pub fn resolve(&self) -> (ident: Option<String>)
        ensures
            ident.deep_view() == event_name_ident(*self),
    {
        match self {
            EventName::Ident(ident) => Some(ident.clone()),
            EventName::Literal(text) => match read_string_literal(text) {
                Some((value, suffix)) => {
                    if suffix == String::from_str("_e") {
                        Some(state_ident(value.as_str()))
                    } else {
                        None
                    }
                },
                None => None,
            },
        }
    }
}

/// Whether payload tokens are a type that a state or an event can carry.
pub fn payload_is_supported(tokens: &Vec<TokenTree>) -> (supported: bool)
    ensures
        supported == payload_supported(tokens@),
{
    let text = render_tokens(tokens);
    match read_payload_type(&text) {
        Some(kind) => kind_carries_payload(kind),
        None => false,
    }
}

/// Whether an optional payload is absent or supported.
pub(crate) fn optional_payload_is_supported(payload: &Option<Vec<TokenTree>>) -> (supported: bool)
    ensures
        supported == optional_payload_supported(*payload),
{
    match payload {
        Some(tokens) => payload_is_supported(tokens),
        None => true,
    }
}

impl RawInputState {
    /// Whether the state names a state, unless it is a wildcard, and carries
    /// a supported payload.
    pub fn resolves(&self) -> (resolves: bool)
        ensures
            resolves == input_state_resolves(*self),
    {
        let named = self.wildcard || self.name.resolve().is_some();
        named && optional_payload_is_supported(&self.payload)
    }
}

impl RawEvent {
    /// Whether the trigger names an event and carries a supported payload.
    pub fn resolves(&self) -> (resolves: bool)
        ensures
            resolves == event_resolves(*self),
    {
        self.name.resolve().is_some() && optional_payload_is_supported(&self.payload)
    }
}

impl RawOutputState {
    /// Whether the target names a state, unless the row has none, and
    /// carries a supported payload.
    pub fn resolves(&self) -> (resolves: bool)
        ensures
            resolves == output_state_resolves(*self),
    {
        let named = self.internal || self.name.resolve().is_some();
        named && optional_payload_is_supported(&self.payload)
    }
}

impl RawRow {
    /// Whether every state and the trigger of the row name what they stand
    /// for, with supported payloads.
    pub fn resolves(&self) -> (resolves: bool)
        ensures
            resolves == row_resolves(*self),
    {
        let mut index: usize = 0;
        while index < self.in_states.len()
            invariant
                index <= self.in_states.len(),
                forall|i: int| 0 <= i < index ==> input_state_resolves(#[trigger] self.in_states@[i]),
            decreases self.in_states.len() - index,
        {
            if !self.in_states[index].resolves() {
                return false;
            }
            index = index + 1;
        }
        self.event.resolves() && self.out_state.resolves()
    }
}

/// `data_type` is the type named by the single identifier `name`, as a row
/// infers it for a composite state or an outside event.
pub open spec fn names_type(data_type: DataType, name: Seq<char>) -> bool {
    &&& data_type.text@ == name
    &&& data_type.shape matches TypeShape::Path { qualified, segments, nested } && !qualified
        && segments@.len() == 1 && segments@[0]@ == name && nested@.len() == 0
}

/// The type named by the single identifier `name`.
fn named_type(name: &String) -> (data_type: DataType)
    ensures
        names_type(data_type, name@),
{
    let mut segments: Vec<String> = Vec::new();
    segments.push(name.clone());
    DataType {
        text: name.clone(),
        shape: TypeShape::Path { qualified: false, segments, nested: Vec::new() },
    }
}

/// The types read from the payloads of a row: one entry per source state,
/// then those of the trigger and of the target; each is used only where the
/// row writes a payload.
#[derive(Debug)]
pub struct RowTypes {
    /// The payload type of each source state, in order.
    pub in_states: Vec<Option<DataType>>,
    /// The payload type of the trigger, or the outside event type it names.
    pub event: Option<DataType>,
    /// The payload type of the target.
    pub out_state: Option<DataType>,
}

/// `state` is the source state `raw` with its name resolved: the payload
/// type read for it, or, for `state<Child>` without a payload or `(H)`, the
/// type named `Child`.
pub open spec fn lowered_input(raw: RawInputState, read: Option<DataType>, state: InputState) -> bool {
    &&& state.start == raw.start
    &&& state.wildcard == raw.wildcard
    &&& state.history == raw.history
    &&& state_name_ident(raw.name) == Some(state.ident@)
    &&& match raw.name {
        StateName::Composite(child) => state.composite matches Some(composite) && composite@
            == child@,
        _ => state.composite is None,
    }
    &&& if raw.payload is Some {
        state.data_type == read
    } else if !raw.history && raw.name is Composite {
        state.data_type matches Some(data_type) && names_type(data_type, raw.name->Composite_0@)
    } else {
        state.data_type is None
    }
}

/// `event` is the trigger `raw` with its name resolved: the type read for its
/// payload or for the outside event type it names, or, for an outside event
/// or a typed exception without either, the type named after the event.
pub open spec fn lowered_event(raw: RawEvent, read: Option<DataType>, event: Event) -> bool {
    &&& event_name_ident(raw.name) == Some(event.ident@)
    &&& event.kind == raw.kind
    &&& event.wildcard == raw.wildcard
    &&& event.external == raw.external
    &&& if raw.payload is Some || raw.event_type is Some {
        event.data_type == read
    } else if raw.external || (raw.kind == EventKind::Exception && !raw.wildcard) {
        event.data_type matches Some(data_type) && names_type(data_type, event.ident@)
    } else {
        event.data_type is None
    }
}

/// `out` is the target `raw` with its name resolved: the payload type read
/// for it, or, for `state<Child>` without one, the type named `Child`.
pub open spec fn lowered_output(raw: RawOutputState, read: Option<DataType>, out: OutputState) -> bool {
    &&& out.internal_transition == raw.internal
    &&& if raw.internal {
        out.ident@ == "_"@
    } else {
        state_name_ident(raw.name) == Some(out.ident@)
    }
    &&& match raw.name {
        StateName::Composite(child) => out.composite matches Some(composite) && composite@
            == child@,
        _ => out.composite is None,
    }
    &&& if raw.payload is Some {
        out.data_type == read
    } else if raw.name is Composite {
        out.data_type matches Some(data_type) && names_type(data_type, raw.name->Composite_0@)
    } else {
        out.data_type is None
    }
}

/// The callbacks among a row's steps, in order.
pub open spec fn step_calls(items: Seq<ActionItem>) -> Seq<AsyncIdent>
    decreases items.len(),
{
    if items.len() == 0 {
        Seq::empty()
    } else {
        let before = step_calls(items.drop_last());
        match items.last() {
            ActionItem::Call(call) => before.push(call),
            _ => before,
        }
    }
}

/// The source text of the events that a row's steps queue, in order.
pub open spec fn step_processes(items: Seq<ActionItem>) -> Seq<Seq<char>>
    decreases items.len(),
{
    if items.len() == 0 {
        Seq::empty()
    } else {
        let before = step_processes(items.drop_last());
        match items.last() {
            ActionItem::Process(tokens) => before.push(tokens_text(tokens@)),
            _ => before,
        }
    }
}

/// The `eval` steps of a row, each with its position among all steps.
pub open spec fn step_evals(items: Seq<ActionItem>) -> Seq<(int, GuardExpression, AsyncIdent)>
    decreases items.len(),
{
    if items.len() == 0 {
        Seq::empty()
    } else {
        let before = step_evals(items.drop_last());
        match items.last() {
            ActionItem::Eval(guard, action) => before.push((items.len() - 1, guard, action)),
            _ => before,
        }
    }
}

/// Whether some step of a row defers the event.
pub open spec fn step_defers(items: Seq<ActionItem>) -> bool {
    exists|i: int| 0 <= i < items.len() && #[trigger] items[i] is Defer
}

/// `written` holds the steps `items` of a row: its first callback, the
/// callbacks after it, the queued events, whether it defers, and the `eval`
/// steps with their positions.
pub open spec fn lowered_actions(items: Seq<ActionItem>, written: StateTransitions) -> bool {
    let calls = step_calls(items);
    let evals = step_evals(items);
    &&& if calls.len() == 0 {
        written.action is None && written.additional_actions@.len() == 0
    } else {
        written.action == Some(calls[0]) && written.additional_actions@ == calls.drop_first()
    }
    &&& written.process_events@.map_values(|text: String| text@) == step_processes(items)
    &&& written.defer == step_defers(items)
    &&& written.eval_actions@.len() == evals.len()
    &&& forall|i: int|
        0 <= i < evals.len() ==> {
            &&& (#[trigger] written.eval_actions@[i]).position == evals[i].0
            &&& written.eval_actions@[i].guard == evals[i].1
            &&& written.eval_actions@[i].action == evals[i].2
        }
}

/// Every name of a row resolves: each source state, the trigger, and the
/// target unless the row has none.
pub open spec fn row_names_resolve(row: RawRow) -> bool {
    &&& forall|i: int|
        0 <= i < row.in_states@.len() ==> state_name_ident(#[trigger] row.in_states@[i].name) is Some
    &&& event_name_ident(row.event.name) is Some
    &&& (row.out_state.internal || state_name_ident(row.out_state.name) is Some)
}

/// Resolves a source state with the payload type read for it.
fn lower_input(raw: RawInputState, read: Option<DataType>) -> (state: Option<InputState>)
    ensures
        state matches Some(state) ==> lowered_input(raw, read, state),
        state is None <==> state_name_ident(raw.name) is None,
{
    let ident = match raw.name.resolve() {
        Some(ident) => ident,
        None => {
            return None;
        },
    };
    let composite = match &raw.name {
        StateName::Composite(child) => Some(child.clone()),
        _ => None,
    };
    let data_type = if raw.payload.is_some() {
        read
    } else if !raw.history {
        match &raw.name {
            StateName::Composite(child) => Some(named_type(child)),
            _ => None,
        }
    } else {
        None
    };
    Some(
        InputState {
            start: raw.start,
            wildcard: raw.wildcard,
            ident,
            data_type,
            composite,
            history: raw.history,
        },
    )
}

/// Resolves a trigger with the payload type read for it.
fn lower_event(raw: RawEvent, read: Option<DataType>) -> (event: Option<Event>)
    ensures
        event matches Some(event) ==> lowered_event(raw, read, event),
        event is None <==> event_name_ident(raw.name) is None,
{
    let ident = match raw.name.resolve() {
        Some(ident) => ident,
        None => {
            return None;
        },
    };
    let typed_exception = match raw.kind {
        EventKind::Exception => !raw.wildcard,
        _ => false,
    };
    let data_type = if raw.payload.is_some() || raw.event_type.is_some() {
        read
    } else if raw.external || typed_exception {
        Some(named_type(&ident))
    } else {
        None
    };
    Some(
        Event {
            ident,
            data_type,
            kind: raw.kind,
            wildcard: raw.wildcard,
            external: raw.external,
        },
    )
}

/// Resolves a target with the payload type read for it.
fn lower_output(raw: RawOutputState, read: Option<DataType>) -> (out: Option<OutputState>)
    ensures
        out matches Some(out) ==> lowered_output(raw, read, out),
        out is None <==> !raw.internal && state_name_ident(raw.name) is None,
{
    let ident = if raw.internal {
        String::from_str("_")
    } else {
        match raw.name.resolve() {
            Some(ident) => ident,
            None => {
                return None;
            },
        }
    };
    let composite = match &raw.name {
        StateName::Composite(child) => Some(child.clone()),
        _ => None,
    };
    let data_type = if raw.payload.is_some() {
        read
    } else {
        match &raw.name {
            StateName::Composite(child) => Some(named_type(child)),
            _ => None,
        }
    };
    Some(OutputState { ident, internal_transition: raw.internal, data_type, composite })
}

/// `written` is the row `row` with its names resolved, the types `types`
/// read from its payloads, and its steps sorted.
pub open spec fn lowers_row(row: RawRow, types: RowTypes, written: StateTransitions) -> bool {
    &&& written.in_states@.len() == row.in_states@.len()
    &&& forall|i: int|
        0 <= i < row.in_states@.len() ==> lowered_input(
            row.in_states@[i],
            types.in_states@[i],
            #[trigger] written.in_states@[i],
        )
    &&& lowered_event(row.event, types.event, written.event)
    &&& written.guard == row.guard
    &&& lowered_actions(row.actions@, written)
    &&& lowered_output(row.out_state, types.out_state, written.out_state)
}

impl RawRow {
    /// The row with its names resolved and its steps sorted into callbacks,
    /// queued events, deferral and `eval` steps; `types` holds the types read
    /// from its payloads. `None` when a name does not resolve.
    pub fn into_transitions(self, types: RowTypes) -> (written: Option<StateTransitions>)
        requires
            types.in_states@.len() == self.in_states@.len(),
        ensures
            written is Some <==> row_names_resolve(self),
            written matches Some(written) ==> lowers_row(self, types, written),
    {
        let ghost row = self;
        let RawRow { in_states, event, guard, actions, out_state } = self;
        let RowTypes { in_states: state_types, event: event_type, out_state: out_type } = types;
        let ghost raw_states = in_states@;
        let ghost read_states = state_types@;
        let mut pending_states = reversed(in_states);
        let mut pending_types = reversed(state_types);
        let mut states: Vec<InputState> = Vec::new();
        let mut resolved = true;
        while resolved && pending_states.len() > 0
            invariant
                raw_states == row.in_states@,
                raw_states.len() == read_states.len(),
                pending_states.len() == pending_types.len(),
                resolved ==> states.len() + pending_states.len() == raw_states.len(),
                resolved ==> pending_states@ == raw_states.subrange(
                    states.len() as int,
                    raw_states.len() as int,
                ).reverse(),
                resolved ==> pending_types@ == read_states.subrange(
                    states.len() as int,
                    read_states.len() as int,
                ).reverse(),
                resolved ==> forall|i: int|
                    0 <= i < states.len() ==> lowered_input(
                        raw_states[i],
                        read_states[i],
                        #[trigger] states@[i],
                    ),
                resolved ==> forall|i: int|
                    0 <= i < states.len() ==> state_name_ident(#[trigger] raw_states[i].name) is Some,
                !resolved ==> exists|i: int|
                    0 <= i < raw_states.len() && state_name_ident(#[trigger] raw_states[i].name) is None,
            decreases pending_states.len(),
        {
            let raw = pending_states.pop().unwrap();
            let read = pending_types.pop().unwrap();
            let ghost index = states.len() as int;
            assert(raw == raw_states[index]);
            assert(read == read_states[index]);
            match lower_input(raw, read) {
                Some(state) => {
                    states.push(state);
                    assert(pending_states@ =~= raw_states.subrange(
                        states.len() as int,
                        raw_states.len() as int,
                    ).reverse());
                    assert(pending_types@ =~= read_states.subrange(
                        states.len() as int,
                        read_states.len() as int,
                    ).reverse());
                },
                None => {
                    resolved = false;
                },
            }
        }
        if !resolved {
            return None;
        }
        let event = match lower_event(event, event_type) {
            Some(event) => event,
            None => {
                return None;
            },
        };
        let out_state = match lower_output(out_state, out_type) {
            Some(out) => out,
            None => {
                return None;
            },
        };
        let ghost items = actions@;
        let step_count = actions.len();
        assert(items.len() == step_count);
        let mut pending = reversed(actions);
        let mut calls: Vec<AsyncIdent> = Vec::new();
        let mut process_events: Vec<String> = Vec::new();
        let mut defer = false;
        let mut eval_actions: Vec<EvalAction> = Vec::new();
        let mut position: usize = 0;
        assert(items.take(0) =~= Seq::<ActionItem>::empty());
        assert(process_events@.map_values(|text: String| text@) =~= step_processes(items.take(0)));
        while pending.len() > 0
            invariant
                items.len() <= usize::MAX,
                position + pending.len() == items.len(),
                pending@ == items.subrange(position as int, items.len() as int).reverse(),
                calls@ == step_calls(items.take(position as int)),
                process_events@.map_values(|text: String| text@) == step_processes(items.take(position as int)),
                defer == step_defers(items.take(position as int)),
                eval_actions@.len() == step_evals(items.take(position as int)).len(),
                forall|i: int|
                    0 <= i < eval_actions@.len() ==> {
                        &&& (#[trigger] eval_actions@[i]).position == step_evals(items.take(position as int))[i].0
                        &&& eval_actions@[i].guard == step_evals(items.take(position as int))[i].1
                        &&& eval_actions@[i].action == step_evals(items.take(position as int))[i].2
                    },
            decreases pending.len(),
        {
            let item = pending.pop().unwrap();
            let ghost done = items.take(position as int);
            let ghost next = items.take(position + 1);
            assert(item == items[position as int]);
            assert(next.drop_last() =~= done);
            assert(next.last() == item);
            let ghost old_processes = process_events@;
            match item {
                ActionItem::Call(call) => {
                    calls.push(call);
                },
                ActionItem::Defer => {
                    defer = true;
                },
                ActionItem::Process(tokens) => {
                    process_events.push(render_tokens(&tokens));
                    proof {
                        assert(process_events@.map_values(|text: String| text@) =~= old_processes.map_values(
                            |text: String| text@,
                        ).push(tokens_text(tokens@)));
                    }
                },
                ActionItem::Eval(guard, action) => {
                    eval_actions.push(EvalAction { position, guard, action });
                },
            }
            proof {
                if item is Defer {
                    assert(next[position as int] is Defer);
                } else {
                    assert(step_defers(next) == step_defers(done)) by {
                        if step_defers(next) {
                            let i = choose|i: int| 0 <= i < next.len() && #[trigger] next[i] is Defer;
                            assert(i < position);
                            assert(done[i] == next[i]);
                        }
                        if step_defers(done) {
                            let i = choose|i: int| 0 <= i < done.len() && #[trigger] done[i] is Defer;
                            assert(next[i] == done[i]);
                        }
                    }
                }
                if !(item is Process) {
                    assert(process_events@.map_values(|text: String| text@) =~= old_processes.map_values(
                        |text: String| text@,
                    ));
                }
            }
            position = position + 1;
            assert(pending@ =~= items.subrange(position as int, items.len() as int).reverse());
        }
        assert(items.take(position as int) =~= items);
        let (action, additional_actions) = if calls.len() == 0 {
            (None, calls)
        } else {
            let ghost all_calls = calls@;
            let first = calls.remove(0);
            assert(calls@ =~= all_calls.drop_first());
            (Some(first), calls)
        };
        Some(
            StateTransitions {
                in_states: states,
                event,
                guard,
                action,
                additional_actions,
                process_events,
                defer,
                eval_actions,
                out_state,
            },
        )
    }
}

} // verus!
