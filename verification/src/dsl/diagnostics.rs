//! Why a source state or a trigger of a row is refused, in the words the
//! table language reports it with.

use vstd::prelude::*;

use super::resolve::{
    event_name_ident, input_state_resolves, optional_payload_is_supported,
    optional_payload_supported, payload_type_kind, read_payload_type, read_string_literal,
    render_tokens, state_name_ident, string_literal_parts, tokens_text,
};
use super::row::{ident_is, parse_event, punct_is, spells_event, spells_input_state, EventName, RawEvent, RawInputState};
use super::token::{is_ident, is_punct, Delimiter, TokenTree};

verus! {

/// Why a source state or a trigger is refused.
#[derive(Debug, Clone, Copy, PartialEq, Eq)]
pub enum Diagnostic {
    /// The tokens spell nothing the grammar reads.
    Malformed,
    /// `*_`: a wildcard marked as the start.
    WildcardStart,
    /// `_(T)`: a wildcard given a payload.
    WildcardStateData,
    /// A state payload of a kind a state cannot carry.
    InvalidStateType,
    /// A named event whose literal has a suffix other than `_e`.
    EventSuffix,
    /// An event payload of a kind an event cannot carry.
    InvalidEventType,
    /// A wildcard trigger such as `unexpected<_>` given a payload.
    WildcardTriggerData,
}

/// The message a diagnostic is reported with.
pub open spec fn diagnostic_text(diagnostic: Diagnostic) -> Seq<char> {
    match diagnostic {
        Diagnostic::Malformed => "This is not a valid state or trigger."@,
        Diagnostic::WildcardStart => "Wildcards can't be used as the starting state."@,
        Diagnostic::WildcardStateData => "Wildcard states cannot have data associated with it."@,
        Diagnostic::InvalidStateType => "This is an invalid type for states."@,
        Diagnostic::EventSuffix => "named events use the sml.cpp suffix `_e`"@,
        Diagnostic::InvalidEventType => "This is an invalid type for events."@,
        Diagnostic::WildcardTriggerData => "A wildcard trigger cannot carry event data."@,
    }
}

impl Diagnostic {
    /// The message the diagnostic is reported with.
    pub fn message(&self) -> (text: String)
        ensures
            text@ == diagnostic_text(*self),
    {
        match self {
            Diagnostic::Malformed => String::from_str("This is not a valid state or trigger."),
            Diagnostic::WildcardStart => String::from_str("Wildcards can't be used as the starting state."),
            Diagnostic::WildcardStateData => String::from_str(
                "Wildcard states cannot have data associated with it.",
            ),
            Diagnostic::InvalidStateType => String::from_str("This is an invalid type for states."),
            Diagnostic::EventSuffix => String::from_str("named events use the sml.cpp suffix `_e`"),
            Diagnostic::InvalidEventType => String::from_str("This is an invalid type for events."),
            Diagnostic::WildcardTriggerData => String::from_str(
                "A wildcard trigger cannot carry event data.",
            ),
        }
    }
}

/// `*_` opens the tokens: a wildcard marked as the start.
pub open spec fn starts_as_wildcard_start(tokens: Seq<TokenTree>) -> bool {
    tokens.len() >= 2 && is_punct(tokens[0], '*') && is_ident(tokens[1], "_"@)
}

/// `_(T)` opens the tokens, where `T` reads as a type.
pub open spec fn starts_as_wildcard_data(tokens: Seq<TokenTree>) -> bool {
    &&& tokens.len() >= 2
    &&& is_ident(tokens[0], "_"@)
    &&& tokens[1] matches TokenTree::Group(delimiter, inner) && delimiter == Delimiter::Parenthesis
        && payload_type_kind(tokens_text(inner@)) is Some
}

/// Whether `*_` opens the tokens.
fn wildcard_start_at(tokens: &Vec<TokenTree>) -> (found: bool)
    ensures
        found == starts_as_wildcard_start(tokens@),
{
    tokens.len() >= 2 && punct_is(&tokens[0], '*') && ident_is(&tokens[1], "_")
}

/// Whether `_(T)` opens the tokens, with `T` a type.
fn wildcard_data_at(tokens: &Vec<TokenTree>) -> (found: bool)
    ensures
        found == starts_as_wildcard_data(tokens@),
{
    if tokens.len() < 2 || !ident_is(&tokens[0], "_") {
        return false;
    }
    match &tokens[1] {
        TokenTree::Group(delimiter, inner) => {
            let parenthesized = match delimiter {
                Delimiter::Parenthesis => true,
                _ => false,
            };
            parenthesized && read_payload_type(&render_tokens(inner)).is_some()
        },
        _ => false,
    }
}

/// Reads a source state, or tells why it is refused: a wildcard start, a
/// wildcard with a payload, tokens the grammar does not read or a name that
/// is no string, or a payload of a kind a state cannot carry.
pub fn diagnose_input_state(tokens: &Vec<TokenTree>) -> (result: Result<RawInputState, Diagnostic>)
    ensures
        starts_as_wildcard_start(tokens@) ==> result == Err::<RawInputState, Diagnostic>(
            Diagnostic::WildcardStart,
        ),
        !starts_as_wildcard_start(tokens@) && starts_as_wildcard_data(tokens@) ==> result
            == Err::<RawInputState, Diagnostic>(Diagnostic::WildcardStateData),
        !starts_as_wildcard_start(tokens@) && !starts_as_wildcard_data(tokens@) ==> match result {
            Ok(state) => spells_input_state(tokens@, state) && input_state_resolves(state),
            Err(Diagnostic::InvalidStateType) => exists|state: RawInputState|
                spells_input_state(tokens@, state) && (state.wildcard || state_name_ident(
                    state.name,
                ) is Some) && !optional_payload_supported(state.payload),
            Err(Diagnostic::Malformed) => (forall|state: RawInputState|
                !spells_input_state(tokens@, state)) || exists|state: RawInputState|
                spells_input_state(tokens@, state) && !state.wildcard && state_name_ident(
                    state.name,
                ) is None,
            Err(_) => false,
        },
{
    if wildcard_start_at(tokens) {
        return Err(Diagnostic::WildcardStart);
    }
    if wildcard_data_at(tokens) {
        return Err(Diagnostic::WildcardStateData);
    }
    match RawInputState::parse(tokens) {
        None => Err(Diagnostic::Malformed),
        Some(state) => {
            let named = state.wildcard || state.name.resolve().is_some();
            if !named {
                Err(Diagnostic::Malformed)
            } else if !optional_payload_is_supported(&state.payload) {
                Err(Diagnostic::InvalidStateType)
            } else {
                Ok(state)
            }
        },
    }
}

/// The literal of a named event has a suffix other than `_e`.
pub open spec fn wrong_event_suffix(name: EventName) -> bool {
    name matches EventName::Literal(text) && (string_literal_parts(text@) matches Some(
        (_, suffix),
    ) && suffix != "_e"@)
}

/// The tokens end with a payload in parentheses after a wildcard trigger.
pub open spec fn wildcard_with_payload(tokens: Seq<TokenTree>) -> bool {
    &&& tokens.len() > 0
    &&& tokens.last() matches TokenTree::Group(delimiter, _) && delimiter == Delimiter::Parenthesis
    &&& exists|event: RawEvent| spells_event(tokens.drop_last(), event) && event.wildcard
}

/// Whether a literal's suffix is `_e`.
fn is_event_suffix(suffix: &String) -> (found: bool)
    ensures
        found == (suffix@ == "_e"@),
{
    *suffix == String::from_str("_e")
}

/// Reads a trigger, or tells why it is refused: a wildcard trigger with a
/// payload, a named event without the suffix `_e`, tokens the grammar does
/// not read, or a payload of a kind an event cannot carry.
pub fn diagnose_event(tokens: &Vec<TokenTree>) -> (result: Result<RawEvent, Diagnostic>)
    ensures
        match result {
            Ok(event) => spells_event(tokens@, event) && event_name_ident(event.name) is Some
                && optional_payload_supported(event.payload),
            Err(Diagnostic::WildcardTriggerData) => (forall|event: RawEvent|
                !spells_event(tokens@, event)) && wildcard_with_payload(tokens@),
            Err(Diagnostic::EventSuffix) => exists|event: RawEvent|
                spells_event(tokens@, event) && wrong_event_suffix(event.name),
            Err(Diagnostic::InvalidEventType) => exists|event: RawEvent|
                spells_event(tokens@, event) && event_name_ident(event.name) is Some
                    && !optional_payload_supported(event.payload),
            Err(Diagnostic::Malformed) => ((forall|event: RawEvent| !spells_event(tokens@, event))
                && !wildcard_with_payload(tokens@)) || exists|event: RawEvent|
                spells_event(tokens@, event) && event_name_ident(event.name) is None
                    && !wrong_event_suffix(event.name),
            Err(_) => false,
        },
{
    match RawEvent::parse(tokens) {
        None => {
            if tokens.len() > 0 {
                let parenthesized = match &tokens[tokens.len() - 1] {
                    TokenTree::Group(Delimiter::Parenthesis, _) => true,
                    _ => false,
                };
                if parenthesized {
                    assert(tokens@.subrange(0, tokens.len() - 1) =~= tokens@.drop_last());
                    match parse_event(tokens, 0, tokens.len() - 1) {
                        Some(event) => {
                            if event.wildcard {
                                return Err(Diagnostic::WildcardTriggerData);
                            }
                        },
                        None => {},
                    }
                }
            }
            Err(Diagnostic::Malformed)
        },
        Some(event) => {
            if event.name.resolve().is_none() {
                let suffixed = match &event.name {
                    EventName::Literal(text) => match read_string_literal(text) {
                        Some((_, suffix)) => !is_event_suffix(&suffix),
                        None => false,
                    },
                    EventName::Ident(_) => false,
                };
                if suffixed {
                    Err(Diagnostic::EventSuffix)
                } else {
                    Err(Diagnostic::Malformed)
                }
            } else if !optional_payload_is_supported(&event.payload) {
                Err(Diagnostic::InvalidEventType)
            } else {
                Ok(event)
            }
        },
    }
}

} // verus!
