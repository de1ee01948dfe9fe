//! Event triggers of a transition row and the keys that identify them.

use vstd::prelude::*;

use super::types::{duplicate_data, same_optional_data, DataType};

verus! {

/// What kind of trigger a transition row reacts to.
#[derive(Debug, Clone, Copy, PartialEq, Eq, Structural)]
pub enum EventKind {
    /// An ordinary event, `event<E>` or a bare name.
    Normal,
    /// `unexpected<E>` or `unexpected_event<E>`.
    Unexpected,
    /// `completion<E>`, or an anonymous row.
    Completion,
    /// `on_entry<_>`.
    Entry,
    /// `on_exit<_>`.
    Exit,
    /// `exception<E>`.
    Exception,
}

/// The trigger of a transition row.
#[derive(Debug)]
pub struct Event {
    /// The event's identifier; a placeholder for wildcard triggers.
    pub ident: String,
    /// The payload type, when the event carries one.
    pub data_type: Option<DataType>,
    /// The trigger kind.
    pub kind: EventKind,
    /// Whether the trigger is a wildcard such as `unexpected<_>`.
    pub wildcard: bool,
    /// Whether the event type comes from outside the table (`event<E>`).
    pub external: bool,
}

/// `copy` is a copy of the trigger `event`.
pub open spec fn same_event(event: Event, copy: Event) -> bool {
    &&& copy.ident == event.ident
    &&& copy.kind == event.kind
    &&& copy.wildcard == event.wildcard
    &&& copy.external == event.external
    &&& same_optional_data(event.data_type, copy.data_type)
}

impl Event {
    /// A copy of the trigger.
    pub fn duplicate(&self) -> (copy: Event)
        ensures
            same_event(*self, copy),
    {
        Event {
            ident: self.ident.clone(),
            data_type: duplicate_data(&self.data_type),
            kind: self.kind,
            wildcard: self.wildcard,
            external: self.external,
        }
    }
}

/// Whether a trigger is offered to event visitors: ordinary and unexpected
/// events that name a concrete event.
pub open spec fn spec_is_query_event(kind: EventKind, wildcard: bool) -> bool {
    (kind == EventKind::Normal || kind == EventKind::Unexpected) && !wildcard
}

/// Reports whether a trigger is offered to event visitors.
pub fn is_query_event(kind: EventKind, wildcard: bool) -> (query: bool)
    ensures
        query == spec_is_query_event(kind, wildcard),
{
    match kind {
        EventKind::Normal | EventKind::Unexpected => !wildcard,
        _ => false,
    }
}

/// The key under which a trigger is stored in a state's transition map.
pub open spec fn event_key_text(kind: EventKind, wildcard: bool, ident: Seq<char>) -> Seq<char> {
    match kind {
        EventKind::Normal => ident,
        EventKind::Unexpected => if wildcard {
            "unexpected::*"@
        } else {
            "unexpected::"@ + ident
        },
        EventKind::Completion => if wildcard {
            "completion::*"@
        } else {
            "completion::"@ + ident
        },
        EventKind::Entry => "lifecycle::entry"@,
        EventKind::Exit => "lifecycle::exit"@,
        EventKind::Exception => if wildcard {
            "exception::*"@
        } else {
            "exception::"@ + ident
        },
    }
}

/// Two triggers name the same thing: the same kind and wildcard flag and,
/// where the kind and flag leave room for a name, the same identifier.
pub open spec fn same_trigger(
    kind: EventKind,
    wildcard: bool,
    ident: Seq<char>,
    other_kind: EventKind,
    other_wildcard: bool,
    other_ident: Seq<char>,
) -> bool {
    &&& kind == other_kind
    &&& (kind == EventKind::Normal || kind == EventKind::Unexpected || kind == EventKind::Completion
        || kind == EventKind::Exception) ==> {
        if kind == EventKind::Normal {
            ident == other_ident
        } else {
            wildcard == other_wildcard && (!wildcard ==> ident == other_ident)
        }
    }
}

/// Returns the key under which a trigger is stored in a state's transition
/// map, such as `unexpected::Reset` or `lifecycle::entry`.
pub fn event_key(event: &Event) -> (key: String)
    ensures
        key@ == event_key_text(event.kind, event.wildcard, event.ident@),
{
    trigger_key(event.kind, event.wildcard, &event.ident)
}

/// The key of a trigger given by its kind, wildcard flag and identifier.
pub fn trigger_key(kind: EventKind, wildcard: bool, ident: &String) -> (key: String)
    ensures
        key@ == event_key_text(kind, wildcard, ident@),
{
    match kind {
        EventKind::Normal => ident.clone(),
        EventKind::Unexpected => if wildcard {
            String::from_str("unexpected::*")
        } else {
            String::from_str("unexpected::").concat(ident.as_str())
        },
        EventKind::Completion => if wildcard {
            String::from_str("completion::*")
        } else {
            String::from_str("completion::").concat(ident.as_str())
        },
        EventKind::Entry => String::from_str("lifecycle::entry"),
        EventKind::Exit => String::from_str("lifecycle::exit"),
        EventKind::Exception => if wildcard {
            String::from_str("exception::*")
        } else {
            String::from_str("exception::").concat(ident.as_str())
        },
    }
}

/// Identifier text of the table language: it holds neither a `:` nor a `*`.
pub open spec fn plain_ident(ident: Seq<char>) -> bool {
    forall|i: int| 0 <= i < ident.len() ==> ident[i] != ':' && ident[i] != '*'
}

/// Keys tell triggers apart: for plain identifiers, two triggers share a key
/// exactly when they name the same thing, so different triggers of one state
/// never collide in its transition map.
pub proof fn law_event_keys_are_distinct(
    kind: EventKind,
    wildcard: bool,
    ident: Seq<char>,
    other_kind: EventKind,
    other_wildcard: bool,
    other_ident: Seq<char>,
)
    requires
        plain_ident(ident),
        plain_ident(other_ident),
    ensures
        (event_key_text(kind, wildcard, ident) == event_key_text(
            other_kind,
            other_wildcard,
            other_ident,
        )) <==> same_trigger(kind, wildcard, ident, other_kind, other_wildcard, other_ident),
{
    reveal_strlit("unexpected::*");
    reveal_strlit("unexpected::");
    reveal_strlit("completion::*");
    reveal_strlit("completion::");
    reveal_strlit("lifecycle::entry");
    reveal_strlit("lifecycle::exit");
    reveal_strlit("exception::*");
    reveal_strlit("exception::");
    let key = event_key_text(kind, wildcard, ident);
    let other = event_key_text(other_kind, other_wildcard, other_ident);
    if key == other {
        if kind == EventKind::Normal && other_kind != EventKind::Normal {
            assert(other[10] == ':');
            assert(key[10] == ident[10]);
        } else if kind != EventKind::Normal && other_kind == EventKind::Normal {
            assert(key[10] == ':');
            assert(other[10] == other_ident[10]);
        } else if kind != EventKind::Normal && kind != other_kind {
            assert(key[0] == other[0]);
            assert(key[12] == other[12]);
        } else if kind != EventKind::Normal && kind != EventKind::Entry && kind != EventKind::Exit {
            let prefix_length: int = if kind == EventKind::Exception {
                11
            } else {
                12
            };
            if !wildcard && !other_wildcard {
                assert(ident =~= key.skip(prefix_length));
                assert(other_ident =~= other.skip(prefix_length));
            } else if wildcard && !other_wildcard {
                assert(key[prefix_length] == '*');
                assert(other[prefix_length] == other_ident[0]);
            } else if !wildcard && other_wildcard {
                assert(other[prefix_length] == '*');
                assert(key[prefix_length] == ident[0]);
            }
        }
    }
}

} // verus!
