//! Reading a machine's definition: either fields such as
//! `name: Player, custom_error: true, transitions: { ... }`, each a keyword,
//! a colon and a value, or a header and a table body such as
//! `Player<'a, T> where T: Clone [custom_error] { rows }`. Lists are
//! separated by commas outside angle brackets.

use vstd::prelude::*;

use super::machine::{
    first_where, lemma_first_where_is, row_for_source, StateMachine, StateTransition,
    StateTransitions,
};
use super::resolve::{append_tokens, lowers_row, row_names_resolve, tokens_text, RowTypes};
use super::row::{duplicate_range, ident_is, parse_row_in, punct_is, spells_row, RawRow};
use super::token::{
    angle_depth, duplicate_tokens, is_bracket_group, is_ident, is_punct, normalize_transition,
    normalized_row, opens_angle, reversed, same_trees, separates_rows,
    split_transitions, table_rows, Delimiter, TokenTree,
};
use super::types::{param_views, DataType, GenericParam, ParamView};

verus! {

/// Whether the token at an index of `tokens` separates two entries of a
/// list: a comma outside angle brackets.
pub open spec fn separator_at(tokens: Seq<TokenTree>) -> spec_fn(int) -> bool {
    |i: int| separates_rows(tokens, i)
}

/// The first comma of `tokens` outside angle brackets, or their length.
pub open spec fn first_separator(tokens: Seq<TokenTree>) -> int {
    first_where(0, tokens.len() as int, separator_at(tokens))
}

/// `tokens` spell the rows `rows`, separated by commas outside angle
/// brackets, with an optional comma at the end.
pub open spec fn spells_rows(tokens: Seq<TokenTree>, rows: Seq<RawRow>) -> bool
    decreases tokens.len(),
{
    let separator = first_separator(tokens);
    if tokens.len() == 0 {
        rows.len() == 0
    } else if rows.len() == 0 {
        false
    } else if separator >= tokens.len() {
        rows.len() == 1 && spells_row(tokens, rows[0])
    } else if separator + 1 == tokens.len() {
        rows.len() == 1 && spells_row(tokens.take(separator), rows[0])
    } else {
        0 <= separator && spells_row(tokens.take(separator), rows[0]) && spells_rows(
            tokens.skip(separator + 1),
            rows.drop_first(),
        )
    }
}

/// One field of a machine's configuration.
#[derive(Debug)]
pub enum MachineField {
    /// `name: Player`
    Name(String),
    /// `transitions: { ... }`: the rows, in order; none for an empty value.
    Transitions(Vec<RawRow>),
    /// `custom_error: true`
    CustomError(bool),
    /// `temporary_context: T`: the tokens of the type.
    TemporaryContext(Vec<TokenTree>),
    /// `states_attr: #[...] ...`: the tokens inside each attribute.
    StatesAttr(Vec<Vec<TokenTree>>),
    /// `events_attr: #[...] ...`: the tokens inside each attribute.
    EventsAttr(Vec<Vec<TokenTree>>),
    /// `entry_exit_async: true`
    EntryExitAsync(bool),
}

/// `tokens` are `true` or `false`, as `value`.
pub open spec fn spells_flag(tokens: Seq<TokenTree>, value: bool) -> bool {
    &&& tokens.len() == 1
    &&& if value {
        is_ident(tokens[0], "true"@)
    } else {
        is_ident(tokens[0], "false"@)
    }
}

/// `tokens` are the outer attributes `#[...]`, whose insides are
/// `attributes`.
pub open spec fn spells_attributes(tokens: Seq<TokenTree>, attributes: Seq<Vec<TokenTree>>) -> bool
    decreases tokens.len(),
{
    if tokens.len() == 0 {
        attributes.len() == 0
    } else {
        &&& tokens.len() >= 2
        &&& attributes.len() > 0
        &&& is_punct(tokens[0], '#')
        &&& tokens[1] matches TokenTree::Group(delimiter, inner) && delimiter == Delimiter::Bracket
            && same_trees(inner@, attributes[0]@)
        &&& spells_attributes(tokens.skip(2), attributes.drop_first())
    }
}

/// The value `value` of the field named `keyword` spells `field`.
pub open spec fn spells_field_value(keyword: Seq<char>, value: Seq<TokenTree>, field: MachineField) -> bool {
    if keyword == "name"@ {
        value.len() == 1 && (value[0] matches TokenTree::Ident(name) && name@ != "_"@ && field
            == MachineField::Name(name))
    } else if keyword == "transitions"@ {
        field matches MachineField::Transitions(rows) && ((value.len() == 0 && rows@.len() == 0)
            || (value.len() == 1 && (value[0] matches TokenTree::Group(delimiter, content)
            && delimiter == Delimiter::Brace && spells_rows(content@, rows@))))
    } else if keyword == "custom_error"@ {
        field matches MachineField::CustomError(flag) && spells_flag(value, flag)
    } else if keyword == "temporary_context"@ {
        value.len() > 0 && (field matches MachineField::TemporaryContext(context) && same_trees(
            value,
            context@,
        ))
    } else if keyword == "states_attr"@ {
        field matches MachineField::StatesAttr(attributes) && spells_attributes(value, attributes@)
    } else if keyword == "events_attr"@ {
        field matches MachineField::EventsAttr(attributes) && spells_attributes(value, attributes@)
    } else if keyword == "entry_exit_async"@ {
        field matches MachineField::EntryExitAsync(flag) && spells_flag(value, flag)
    } else {
        false
    }
}

/// `tokens` spell the field `field`: its keyword, a colon and its value.
pub open spec fn spells_field(tokens: Seq<TokenTree>, field: MachineField) -> bool {
    &&& tokens.len() >= 2
    &&& is_punct(tokens[1], ':')
    &&& tokens[0] matches TokenTree::Ident(keyword) && spells_field_value(
        keyword@,
        tokens.skip(2),
        field,
    )
}

/// `tokens` spell the fields `fields`, separated by commas outside angle
/// brackets, with an optional comma at the end.
pub open spec fn spells_fields(tokens: Seq<TokenTree>, fields: Seq<MachineField>) -> bool
    decreases tokens.len(),
{
    let separator = first_separator(tokens);
    if tokens.len() == 0 {
        fields.len() == 0
    } else if fields.len() == 0 {
        false
    } else if separator >= tokens.len() {
        fields.len() == 1 && spells_field(tokens, fields[0])
    } else if separator + 1 == tokens.len() {
        fields.len() == 1 && spells_field(tokens.take(separator), fields[0])
    } else {
        0 <= separator && spells_field(tokens.take(separator), fields[0]) && spells_fields(
            tokens.skip(separator + 1),
            fields.drop_first(),
        )
    }
}

/// The keywords of a machine's configuration fields.
pub open spec fn field_keyword(keyword: Seq<char>) -> bool {
    ||| keyword == "name"@
    ||| keyword == "transitions"@
    ||| keyword == "custom_error"@
    ||| keyword == "temporary_context"@
    ||| keyword == "states_attr"@
    ||| keyword == "events_attr"@
    ||| keyword == "entry_exit_async"@
}

/// The first comma of `tokens[start..end]` outside angle brackets, or `end`.
fn find_separator(tokens: &Vec<TokenTree>, start: usize, end: usize) -> (found: usize)
    requires
        start <= end <= tokens.len(),
    ensures
        start <= found <= end,
        found - start == first_separator(tokens@.subrange(start as int, end as int)),
{
    let ghost sub = tokens@.subrange(start as int, end as int);
    let ghost holds = separator_at(sub);
    let mut index = start;
    let mut depth: usize = 0;
    while index < end
        invariant
            start <= index <= end <= tokens.len(),
            sub == tokens@.subrange(start as int, end as int),
            holds == separator_at(sub),
            depth == angle_depth(sub, index - start),
            depth <= index - start,
            forall|i: int| 0 <= i < index - start ==> !#[trigger] holds(i),
        decreases end - index,
    {
        let ghost at = index - start;
        assert(sub[at] == tokens@[index as int]);
        let (is_comma, is_open, is_close) = match &tokens[index] {
            TokenTree::Punct(c, _) => (*c == ',', *c == '<', *c == '>'),
            _ => (false, false, false),
        };
        if is_comma && depth == 0 {
            proof {
                lemma_first_where_is(0, sub.len() as int, holds, at);
            }
            return index;
        }
        let next_is_eq = index + 1 < end && match &tokens[index + 1] {
            TokenTree::Punct(c, _) => *c == '=',
            _ => false,
        };
        proof {
            if index + 1 < end {
                assert(sub[at + 1] == tokens@[index + 1]);
            }
            assert(opens_angle(sub, at) == (is_open && !next_is_eq));
        }
        if is_open && !next_is_eq {
            depth = depth + 1;
        } else if is_close && depth > 0 {
            depth = depth - 1;
        }
        index = index + 1;
    }
    proof {
        lemma_first_where_is(0, sub.len() as int, holds, sub.len() as int);
    }
    end
}

/// Reads the rows of `tokens[start..end]`, separated by commas outside angle
/// brackets.
fn parse_rows_in(tokens: &Vec<TokenTree>, start: usize, end: usize) -> (rows: Option<Vec<RawRow>>)
    requires
        start <= end <= tokens.len(),
    ensures
        rows matches Some(rows) ==> spells_rows(tokens@.subrange(start as int, end as int), rows@),
        rows is None ==> forall|other: Seq<RawRow>|
            !spells_rows(tokens@.subrange(start as int, end as int), other),
    decreases end - start,
{
    let ghost sub = tokens@.subrange(start as int, end as int);
    if start == end {
        let none: Vec<RawRow> = Vec::new();
        assert(none@ =~= Seq::<RawRow>::empty());
        return Some(none);
    }
    let separator = find_separator(tokens, start, end);
    assert(sub.take(separator - start) =~= tokens@.subrange(start as int, separator as int));
    let first = match parse_row_in(tokens, start, separator) {
        Ok(row) => row,
        Err(_) => {
            proof {
                if separator == end {
                    assert(sub.take(separator - start) =~= sub);
                }
            }
            return None;
        },
    };
    if end - separator <= 1 {
        proof {
            if separator == end {
                assert(sub.take(separator - start) =~= sub);
            }
        }
        let mut rows: Vec<RawRow> = Vec::new();
        rows.push(first);
        assert(rows@ =~= seq![first]);
        return Some(rows);
    }
    assert(sub.skip(separator - start + 1) =~= tokens@.subrange(separator + 1, end as int));
    match parse_rows_in(tokens, separator + 1, end) {
        Some(rest) => {
            let ghost rest_rows = rest@;
            let mut rows = rest;
            rows.insert(0, first);
            proof {
                assert(rows@.drop_first() =~= rest_rows);
                assert(rows@[0] == first);
                assert(tokens@.subrange(separator + 1, end as int).len() > 0);
            }
            Some(rows)
        },
        None => {
            proof {
                assert forall|other: Seq<RawRow>| !spells_rows(sub, other) by {
                    if other.len() > 0 {
                        assert(!spells_rows(tokens@.subrange(separator + 1, end as int), other.drop_first()));
                    }
                }
            }
            None
        },
    }
}

/// Why a machine's configuration cannot be read.
#[derive(Debug, PartialEq, Eq)]
pub enum MachineSyntaxError {
    /// A field names a keyword that no field has.
    UnknownKeyword(String),
    /// The tokens spell no configuration.
    Malformed,
}

/// Reads `true` or `false` from `tokens[start..end]`.
fn parse_flag_in(tokens: &Vec<TokenTree>, start: usize, end: usize) -> (flag: Option<bool>)
    requires
        start <= end <= tokens.len(),
    ensures
        flag matches Some(value) ==> spells_flag(tokens@.subrange(start as int, end as int), value),
        flag is None ==> forall|value: bool| !spells_flag(tokens@.subrange(start as int, end as int), value),
{
    proof {
        reveal_strlit("true");
        reveal_strlit("false");
    }
    if end - start != 1 {
        return None;
    }
    assert(tokens@.subrange(start as int, end as int)[0] == tokens@[start as int]);
    match &tokens[start] {
        TokenTree::Ident(name) => {
            if *name == String::from_str("true") {
                Some(true)
            } else if *name == String::from_str("false") {
                Some(false)
            } else {
                None
            }
        },
        _ => None,
    }
}

/// Reads the outer attributes `#[...]` of `tokens[start..end]`.
fn parse_attributes_in(tokens: &Vec<TokenTree>, start: usize, end: usize) -> (attributes: Option<Vec<Vec<TokenTree>>>)
    requires
        start <= end <= tokens.len(),
    ensures
        attributes matches Some(attributes) ==> spells_attributes(
            tokens@.subrange(start as int, end as int),
            attributes@,
        ),
        attributes is None ==> forall|other: Seq<Vec<TokenTree>>|
            !spells_attributes(tokens@.subrange(start as int, end as int), other),
    decreases end - start,
{
    let ghost sub = tokens@.subrange(start as int, end as int);
    if start == end {
        let none: Vec<Vec<TokenTree>> = Vec::new();
        assert(none@ =~= Seq::<Vec<TokenTree>>::empty());
        return Some(none);
    }
    if end - start < 2 {
        return None;
    }
    assert(sub[0] == tokens@[start as int]);
    assert(sub[1] == tokens@[start + 1]);
    let hash = match &tokens[start] {
        TokenTree::Punct(c, _) => *c == '#',
        _ => false,
    };
    if !hash {
        return None;
    }
    let inner = match &tokens[start + 1] {
        TokenTree::Group(delimiter, inner) => {
            if *delimiter == Delimiter::Bracket {
                duplicate_tokens(inner)
            } else {
                return None;
            }
        },
        _ => {
            return None;
        },
    };
    assert(sub.skip(2) =~= tokens@.subrange(start + 2, end as int));
    match parse_attributes_in(tokens, start + 2, end) {
        Some(rest) => {
            let ghost rest_view = rest@;
            let mut attributes = rest;
            attributes.insert(0, inner);
            proof {
                assert(attributes@.drop_first() =~= rest_view);
            }
            Some(attributes)
        },
        None => {
            proof {
                assert forall|other: Seq<Vec<TokenTree>>| !spells_attributes(sub, other) by {
                    if other.len() > 0 {
                        assert(!spells_attributes(tokens@.subrange(start + 2, end as int), other.drop_first()));
                    }
                }
            }
            None
        },
    }
}

/// The keywords of the configuration fields differ from each other.
proof fn lemma_keywords_differ()
    ensures
        "name"@.len() == 4,
        "transitions"@.len() == 11,
        "custom_error"@.len() == 12,
        "temporary_context"@.len() == 17,
        "states_attr"@.len() == 11,
        "events_attr"@.len() == 11,
        "entry_exit_async"@.len() == 16,
        "transitions"@ != "states_attr"@,
        "transitions"@ != "events_attr"@,
        "states_attr"@ != "events_attr"@,
{
    reveal_strlit("name");
    reveal_strlit("transitions");
    reveal_strlit("custom_error");
    reveal_strlit("temporary_context");
    reveal_strlit("states_attr");
    reveal_strlit("events_attr");
    reveal_strlit("entry_exit_async");
    assert("transitions"@[0] != "states_attr"@[0]);
    assert("transitions"@[0] != "events_attr"@[0]);
    assert("states_attr"@[0] != "events_attr"@[0]);
}

/// Reads the field spelled by `tokens[start..end]`.
fn parse_field_in(tokens: &Vec<TokenTree>, start: usize, end: usize) -> (field: Result<MachineField, MachineSyntaxError>)
    requires
        start <= end <= tokens.len(),
    ensures
        field matches Ok(field) ==> spells_field(tokens@.subrange(start as int, end as int), field),
        field matches Err(error) ==> forall|other: MachineField|
            !spells_field(tokens@.subrange(start as int, end as int), other),
        field matches Err(MachineSyntaxError::UnknownKeyword(keyword)) ==> !field_keyword(keyword@),
{
    proof {
        lemma_keywords_differ();
    }
    let ghost sub = tokens@.subrange(start as int, end as int);
    if end - start < 2 {
        return Err(MachineSyntaxError::Malformed);
    }
    assert(sub[0] == tokens@[start as int]);
    assert(sub[1] == tokens@[start + 1]);
    let colon = match &tokens[start + 1] {
        TokenTree::Punct(c, _) => *c == ':',
        _ => false,
    };
    if !colon {
        return Err(MachineSyntaxError::Malformed);
    }
    let keyword = match &tokens[start] {
        TokenTree::Ident(keyword) => keyword,
        _ => {
            return Err(MachineSyntaxError::Malformed);
        },
    };
    let from = start + 2;
    let ghost value = sub.skip(2);
    assert(value =~= tokens@.subrange(from as int, end as int));
    proof {
        if from < end {
            assert(value[0] == tokens@[from as int]);
        }
    }
    if *keyword == String::from_str("name") {
        if end - from == 1 {
            match &tokens[from] {
                TokenTree::Ident(name) => {
                    if !(*name == String::from_str("_")) {
                        return Ok(MachineField::Name(name.clone()));
                    }
                },
                _ => {},
            }
        }
        Err(MachineSyntaxError::Malformed)
    } else if *keyword == String::from_str("transitions") {
        if end == from {
            let none: Vec<RawRow> = Vec::new();
            assert(none@ =~= Seq::<RawRow>::empty());
            return Ok(MachineField::Transitions(none));
        }
        if end - from == 1 {
            match &tokens[from] {
                TokenTree::Group(delimiter, content) => {
                    if *delimiter == Delimiter::Brace {
                        assert(content@.subrange(0, content@.len() as int) =~= content@);
                        return match parse_rows_in(content, 0, content.len()) {
                            Some(rows) => Ok(MachineField::Transitions(rows)),
                            None => Err(MachineSyntaxError::Malformed),
                        };
                    }
                },
                _ => {},
            }
        }
        Err(MachineSyntaxError::Malformed)
    } else if *keyword == String::from_str("custom_error") {
        match parse_flag_in(tokens, from, end) {
            Some(flag) => Ok(MachineField::CustomError(flag)),
            None => Err(MachineSyntaxError::Malformed),
        }
    } else if *keyword == String::from_str("entry_exit_async") {
        match parse_flag_in(tokens, from, end) {
            Some(flag) => Ok(MachineField::EntryExitAsync(flag)),
            None => Err(MachineSyntaxError::Malformed),
        }
    } else if *keyword == String::from_str("temporary_context") {
        if end == from {
            return Err(MachineSyntaxError::Malformed);
        }
        Ok(MachineField::TemporaryContext(duplicate_range(tokens, from, end)))
    } else if *keyword == String::from_str("states_attr") {
        match parse_attributes_in(tokens, from, end) {
            Some(attributes) => Ok(MachineField::StatesAttr(attributes)),
            None => Err(MachineSyntaxError::Malformed),
        }
    } else if *keyword == String::from_str("events_attr") {
        match parse_attributes_in(tokens, from, end) {
            Some(attributes) => Ok(MachineField::EventsAttr(attributes)),
            None => Err(MachineSyntaxError::Malformed),
        }
    } else {
        Err(MachineSyntaxError::UnknownKeyword(keyword.clone()))
    }
}

/// Reads the fields of `tokens[start..end]`, separated by commas outside
/// angle brackets.
fn parse_fields_in(tokens: &Vec<TokenTree>, start: usize, end: usize) -> (fields: Result<Vec<MachineField>, MachineSyntaxError>)
    requires
        start <= end <= tokens.len(),
    ensures
        fields matches Ok(fields) ==> spells_fields(tokens@.subrange(start as int, end as int), fields@),
        fields is Err ==> forall|other: Seq<MachineField>|
            !spells_fields(tokens@.subrange(start as int, end as int), other),
        fields matches Err(MachineSyntaxError::UnknownKeyword(keyword)) ==> !field_keyword(keyword@),
    decreases end - start,
{
    let ghost sub = tokens@.subrange(start as int, end as int);
    if start == end {
        let none: Vec<MachineField> = Vec::new();
        assert(none@ =~= Seq::<MachineField>::empty());
        return Ok(none);
    }
    let separator = find_separator(tokens, start, end);
    assert(sub.take(separator - start) =~= tokens@.subrange(start as int, separator as int));
    let first = match parse_field_in(tokens, start, separator) {
        Ok(field) => field,
        Err(error) => {
            proof {
                if separator == end {
                    assert(sub.take(separator - start) =~= sub);
                }
            }
            return Err(error);
        },
    };
    if end - separator <= 1 {
        proof {
            if separator == end {
                assert(sub.take(separator - start) =~= sub);
            }
        }
        let mut fields: Vec<MachineField> = Vec::new();
        fields.push(first);
        assert(fields@ =~= seq![first]);
        return Ok(fields);
    }
    assert(sub.skip(separator - start + 1) =~= tokens@.subrange(separator + 1, end as int));
    match parse_fields_in(tokens, separator + 1, end) {
        Ok(rest) => {
            let ghost rest_fields = rest@;
            let mut fields = rest;
            fields.insert(0, first);
            proof {
                assert(fields@.drop_first() =~= rest_fields);
                assert(fields@[0] == first);
            }
            Ok(fields)
        },
        Err(error) => {
            proof {
                assert forall|other: Seq<MachineField>| !spells_fields(sub, other) by {
                    if other.len() > 0 {
                        assert(!spells_fields(tokens@.subrange(separator + 1, end as int), other.drop_first()));
                    }
                }
            }
            Err(error)
        },
    }
}

/// The name set by the last `name` field, if any.
pub open spec fn configured_name(fields: Seq<MachineField>) -> Option<String>
    decreases fields.len(),
{
    if fields.len() == 0 {
        None
    } else {
        match fields.last() {
            MachineField::Name(name) => Some(name),
            _ => configured_name(fields.drop_last()),
        }
    }
}

/// Whether some `custom_error` field is `true`.
pub open spec fn configured_custom_error(fields: Seq<MachineField>) -> bool {
    exists|i: int| 0 <= i < fields.len() && #[trigger] fields[i] == MachineField::CustomError(true)
}

/// Whether some `entry_exit_async` field is `true`.
pub open spec fn configured_entry_exit_async(fields: Seq<MachineField>) -> bool {
    exists|i: int| 0 <= i < fields.len() && #[trigger] fields[i] == MachineField::EntryExitAsync(true)
}

/// The type tokens of the last `temporary_context` field, if any.
pub open spec fn configured_context(fields: Seq<MachineField>) -> Option<Vec<TokenTree>>
    decreases fields.len(),
{
    if fields.len() == 0 {
        None
    } else {
        match fields.last() {
            MachineField::TemporaryContext(context) => Some(context),
            _ => configured_context(fields.drop_last()),
        }
    }
}

/// The attributes of the last `states_attr` field; none without one.
pub open spec fn configured_states_attr(fields: Seq<MachineField>) -> Seq<Vec<TokenTree>>
    decreases fields.len(),
{
    if fields.len() == 0 {
        Seq::empty()
    } else {
        match fields.last() {
            MachineField::StatesAttr(attributes) => attributes@,
            _ => configured_states_attr(fields.drop_last()),
        }
    }
}

/// The attributes of the last `events_attr` field; none without one.
pub open spec fn configured_events_attr(fields: Seq<MachineField>) -> Seq<Vec<TokenTree>>
    decreases fields.len(),
{
    if fields.len() == 0 {
        Seq::empty()
    } else {
        match fields.last() {
            MachineField::EventsAttr(attributes) => attributes@,
            _ => configured_events_attr(fields.drop_last()),
        }
    }
}

/// The rows of every `transitions` field, in order.
pub open spec fn configured_rows(fields: Seq<MachineField>) -> Seq<RawRow>
    decreases fields.len(),
{
    if fields.len() == 0 {
        Seq::empty()
    } else {
        let before = configured_rows(fields.drop_last());
        match fields.last() {
            MachineField::Transitions(rows) => before + rows@,
            _ => before,
        }
    }
}

/// A machine's configuration as written, before its rows are resolved.
#[derive(Debug)]
pub struct RawMachine {
    /// The machine's name.
    pub name: Option<String>,
    /// Whether callbacks return a custom error type.
    pub custom_error: bool,
    /// Whether entry and exit callbacks are async.
    pub entry_exit_async: bool,
    /// The tokens of the temporary context type.
    pub temporary_context: Option<Vec<TokenTree>>,
    /// The tokens inside each attribute of the generated states type.
    pub states_attr: Vec<Vec<TokenTree>>,
    /// The tokens inside each attribute of the generated events type.
    pub events_attr: Vec<Vec<TokenTree>>,
    /// The rows, in order.
    pub rows: Vec<RawRow>,
}

/// `machine` is what the fields `fields` configure: a later field of a kind
/// replaces an earlier one, a flag set once stays set, and the rows of every
/// `transitions` field are kept in order.
pub open spec fn configures(machine: RawMachine, fields: Seq<MachineField>) -> bool {
    &&& machine.name == configured_name(fields)
    &&& machine.custom_error == configured_custom_error(fields)
    &&& machine.entry_exit_async == configured_entry_exit_async(fields)
    &&& machine.temporary_context == configured_context(fields)
    &&& machine.states_attr@ == configured_states_attr(fields)
    &&& machine.events_attr@ == configured_events_attr(fields)
    &&& machine.rows@ == configured_rows(fields)
}

impl RawMachine {
    /// The configuration that the fields `fields` set, in order.
    pub fn from_fields(fields: Vec<MachineField>) -> (machine: RawMachine)
        ensures
            configures(machine, fields@),
    {
        let ghost all = fields@;
        let total = fields.len();
        let mut pending = reversed(fields);
        let mut machine = RawMachine {
            name: None,
            custom_error: false,
            entry_exit_async: false,
            temporary_context: None,
            states_attr: Vec::new(),
            events_attr: Vec::new(),
            rows: Vec::new(),
        };
        let mut done: usize = 0;
        assert(all.take(0) =~= Seq::<MachineField>::empty());
        assert(machine.rows@ =~= Seq::<RawRow>::empty());
        assert(machine.states_attr@ =~= Seq::<Vec<TokenTree>>::empty());
        assert(machine.events_attr@ =~= Seq::<Vec<TokenTree>>::empty());
        while pending.len() > 0
            invariant
                total == all.len(),
                done + pending.len() == total,
                pending@ == all.subrange(done as int, total as int).reverse(),
                configures(machine, all.take(done as int)),
            decreases pending.len(),
        {
            let field = pending.pop().unwrap();
            let ghost before = all.take(done as int);
            let ghost after = all.take(done + 1);
            assert(field == all[done as int]);
            assert(after.drop_last() =~= before);
            assert(after.last() == field);
            let ghost old_rows = machine.rows@;
            match field {
                MachineField::Name(name) => {
                    machine.name = Some(name);
                },
                MachineField::Transitions(rows) => {
                    let mut rows = rows;
                    machine.rows.append(&mut rows);
                },
                MachineField::CustomError(flag) => {
                    if flag {
                        machine.custom_error = true;
                    }
                },
                MachineField::TemporaryContext(context) => {
                    machine.temporary_context = Some(context);
                },
                MachineField::StatesAttr(attributes) => {
                    machine.states_attr = attributes;
                },
                MachineField::EventsAttr(attributes) => {
                    machine.events_attr = attributes;
                },
                MachineField::EntryExitAsync(flag) => {
                    if flag {
                        machine.entry_exit_async = true;
                    }
                },
            }
            proof {
                assert(configured_custom_error(after) == (configured_custom_error(before) || after.last()
                    == MachineField::CustomError(true))) by {
                    if configured_custom_error(after) {
                        let i = choose|i: int| 0 <= i < after.len() && #[trigger] after[i] == MachineField::CustomError(true);
                        if i < before.len() {
                            assert(before[i] == after[i]);
                        }
                    }
                    if configured_custom_error(before) {
                        let i = choose|i: int| 0 <= i < before.len() && #[trigger] before[i] == MachineField::CustomError(true);
                        assert(after[i] == before[i]);
                    }
                }
                assert(configured_entry_exit_async(after) == (configured_entry_exit_async(before) || after.last()
                    == MachineField::EntryExitAsync(true))) by {
                    if configured_entry_exit_async(after) {
                        let i = choose|i: int| 0 <= i < after.len() && #[trigger] after[i] == MachineField::EntryExitAsync(true);
                        if i < before.len() {
                            assert(before[i] == after[i]);
                        }
                    }
                    if configured_entry_exit_async(before) {
                        let i = choose|i: int| 0 <= i < before.len() && #[trigger] before[i] == MachineField::EntryExitAsync(true);
                        assert(after[i] == before[i]);
                    }
                }
            }
            done = done + 1;
            assert(pending@ =~= all.subrange(done as int, total as int).reverse());
        }
        assert(all.take(done as int) =~= all);
        machine
    }

    /// Reads a configuration written as fields: `name: Player, transitions:
    /// { ... }` and the other keywords, each field at most once or the last
    /// one counting.
    pub fn parse_fields(tokens: &Vec<TokenTree>) -> (result: Result<RawMachine, MachineSyntaxError>)
        ensures
            result matches Ok(machine) ==> exists|fields: Seq<MachineField>|
                spells_fields(tokens@, fields) && configures(machine, fields),
            result is Err ==> forall|fields: Seq<MachineField>| !spells_fields(tokens@, fields),
            result matches Err(MachineSyntaxError::UnknownKeyword(keyword)) ==> !field_keyword(keyword@),
    {
        assert(tokens@.subrange(0, tokens@.len() as int) =~= tokens@);
        match parse_fields_in(tokens, 0, tokens.len()) {
            Ok(fields) => {
                let ghost written = fields@;
                let machine = RawMachine::from_fields(fields);
                assert(spells_fields(tokens@, written) && configures(machine, written));
                Ok(machine)
            },
            Err(error) => Err(error),
        }
    }
}

/// The text of an outer attribute whose inside is `inner`.
pub open spec fn attribute_text(inner: Seq<TokenTree>) -> Seq<char> {
    "#["@ + tokens_text(inner) + "]"@
}

/// The texts of outer attributes.
pub open spec fn attribute_texts(attributes: Seq<Vec<TokenTree>>) -> Seq<Seq<char>> {
    attributes.map_values(|inner: Vec<TokenTree>| attribute_text(inner@))
}

/// The texts of strings.
pub open spec fn string_views(texts: Seq<String>) -> Seq<Seq<char>> {
    texts.map_values(|text: String| text@)
}

/// `rows` are the rows of the written rows `written`, one per source state,
/// in order.
pub open spec fn expands(written: Seq<StateTransitions>, rows: Seq<StateTransition>) -> bool
    decreases written.len(),
{
    if written.len() == 0 {
        rows.len() == 0
    } else {
        let last = written.last();
        let count = last.in_states@.len();
        let before = rows.len() - count;
        &&& rows.len() >= count
        &&& expands(written.drop_last(), rows.take(before))
        &&& forall|j: int|
            0 <= j < count ==> row_for_source(#[trigger] rows[before + j], last, last.in_states@[j])
    }
}

/// The text of an outer attribute.
fn attribute_string(inner: &Vec<TokenTree>) -> (text: String)
    ensures
        text@ == attribute_text(inner@),
{
    let mut text = String::from_str("#[");
    append_tokens(&mut text, inner);
    text.append("]");
    text
}

/// The texts of outer attributes, in order.
fn attribute_strings(attributes: &Vec<Vec<TokenTree>>) -> (texts: Vec<String>)
    ensures
        string_views(texts@) == attribute_texts(attributes@),
{
    let mut texts: Vec<String> = Vec::new();
    let mut index: usize = 0;
    while index < attributes.len()
        invariant
            index <= attributes.len(),
            string_views(texts@) == attribute_texts(attributes@.take(index as int)),
        decreases attributes.len() - index,
    {
        let ghost before = texts@;
        texts.push(attribute_string(&attributes[index]));
        proof {
            assert(string_views(texts@) =~= string_views(before).push(texts@[index as int]@));
            assert(attribute_texts(attributes@.take(index + 1)) =~= attribute_texts(
                attributes@.take(index as int),
            ).push(attribute_text(attributes@[index as int]@)));
        }
        index = index + 1;
    }
    assert(attributes@.take(index as int) =~= attributes@);
    texts
}

/// Every row of a configuration names what it stands for.
pub open spec fn rows_resolve(rows: Seq<RawRow>) -> bool {
    forall|k: int| 0 <= k < rows.len() ==> row_names_resolve(#[trigger] rows[k])
}

impl RawMachine {
    /// The machine this configuration describes: its rows resolved with the
    /// types `types` read from their payloads and expanded to one row per
    /// source state, and the temporary context of the type `context_type`
    /// read for it. `None` when a name of a row does not resolve.
    pub fn into_machine(self, context_type: Option<DataType>, types: Vec<RowTypes>) -> (machine: Option<StateMachine>)
        requires
            types@.len() == self.rows@.len(),
            forall|k: int|
                0 <= k < types@.len() ==> (#[trigger] types@[k]).in_states@.len()
                    == self.rows@[k].in_states@.len(),
        ensures
            machine is Some <==> rows_resolve(self.rows@),
            machine matches Some(machine) ==> {
                &&& machine.name == self.name
                &&& machine.custom_error == self.custom_error
                &&& machine.entry_exit_async == self.entry_exit_async
                &&& machine.temporary_context_type == if self.temporary_context is Some {
                    context_type
                } else {
                    None
                }
                &&& string_views(machine.states_attr@) == attribute_texts(self.states_attr@)
                &&& string_views(machine.events_attr@) == attribute_texts(self.events_attr@)
                &&& machine.fixed_error_type is None
                &&& machine.event_generics@.len() == 0
                &&& exists|written: Seq<StateTransitions>|
                    {
                        &&& written.len() == self.rows@.len()
                        &&& forall|k: int|
                            0 <= k < written.len() ==> lowers_row(
                                self.rows@[k],
                                types@[k],
                                #[trigger] written[k],
                            )
                        &&& expands(written, machine.transitions@)
                    }
            },
    {
        let ghost raw = self;
        let ghost all_types = types@;
        let states_attr = attribute_strings(&self.states_attr);
        let events_attr = attribute_strings(&self.events_attr);
        let RawMachine { name, custom_error, entry_exit_async, temporary_context, rows, .. } = self;
        let mut machine = StateMachine::new();
        machine.name = name;
        machine.custom_error = custom_error;
        machine.entry_exit_async = entry_exit_async;
        machine.states_attr = states_attr;
        machine.events_attr = events_attr;
        if temporary_context.is_some() {
            machine.temporary_context_type = context_type;
        }
        let ghost all_rows = rows@;
        let total = rows.len();
        let mut pending_rows = reversed(rows);
        let mut pending_types = reversed(types);
        let mut done: usize = 0;
        let mut resolved = true;
        let ghost mut written: Seq<StateTransitions> = Seq::empty();
        while resolved && pending_rows.len() > 0
            invariant
                raw.rows@ == all_rows,
                all_types.len() == all_rows.len(),
                total == all_rows.len(),
                forall|k: int|
                    0 <= k < all_types.len() ==> (#[trigger] all_types[k]).in_states@.len()
                        == all_rows[k].in_states@.len(),
                pending_rows.len() == pending_types.len(),
                resolved ==> done + pending_rows.len() == total,
                resolved ==> pending_rows@ == all_rows.subrange(done as int, total as int).reverse(),
                resolved ==> pending_types@ == all_types.subrange(done as int, total as int).reverse(),
                resolved ==> written.len() == done,
                resolved ==> forall|k: int|
                    0 <= k < done ==> lowers_row(all_rows[k], all_types[k], #[trigger] written[k]),
                resolved ==> forall|k: int| 0 <= k < done ==> row_names_resolve(#[trigger] all_rows[k]),
                resolved ==> expands(written, machine.transitions@),
                !resolved ==> exists|k: int|
                    0 <= k < all_rows.len() && !row_names_resolve(#[trigger] all_rows[k]),
                machine.name == raw.name,
                machine.custom_error == raw.custom_error,
                machine.entry_exit_async == raw.entry_exit_async,
                machine.temporary_context_type == if raw.temporary_context is Some {
                    context_type
                } else {
                    None
                },
                string_views(machine.states_attr@) == attribute_texts(raw.states_attr@),
                string_views(machine.events_attr@) == attribute_texts(raw.events_attr@),
                machine.fixed_error_type is None,
                machine.event_generics@.len() == 0,
            decreases pending_rows.len(),
        {
            let row = pending_rows.pop().unwrap();
            let row_types = pending_types.pop().unwrap();
            assert(row == all_rows[done as int]);
            assert(row_types == all_types[done as int]);
            match row.into_transitions(row_types) {
                Some(lowered) => {
                    let ghost before = machine.transitions@;
                    let ghost lowered_view = lowered;
                    machine.add_transitions(lowered);
                    proof {
                        let after = machine.transitions@;
                        let next = written.push(lowered_view);
                        assert(next.drop_last() =~= written);
                        assert(after.take(after.len() - lowered_view.in_states@.len()) =~= before);
                        assert(expands(next, after));
                        written = next;
                    }
                    done = done + 1;
                    assert(pending_rows@ =~= all_rows.subrange(done as int, total as int).reverse());
                    assert(pending_types@ =~= all_types.subrange(done as int, total as int).reverse());
                },
                None => {
                    resolved = false;
                },
            }
        }
        if !resolved {
            return None;
        }
        assert(rows_resolve(raw.rows@));
        Some(machine)
    }
}

/// `tokens` spell the option `field` of a machine header: `custom_error`,
/// `entry_exit_async`, or `temporary_context`, `states_attr` or
/// `events_attr` with a colon and a value.
pub open spec fn spells_option(tokens: Seq<TokenTree>, field: MachineField) -> bool {
    ||| tokens.len() == 1 && is_ident(tokens[0], "custom_error"@) && field == MachineField::CustomError(
        true,
    )
    ||| tokens.len() == 1 && is_ident(tokens[0], "entry_exit_async"@) && field
        == MachineField::EntryExitAsync(true)
    ||| tokens.len() >= 2 && is_punct(tokens[1], ':') && (tokens[0] matches TokenTree::Ident(keyword)
        && (keyword@ == "temporary_context"@ || keyword@ == "states_attr"@ || keyword@
        == "events_attr"@) && spells_field_value(keyword@, tokens.skip(2), field))
}

/// `tokens` spell the options `fields`, separated by commas outside angle
/// brackets, with an optional comma at the end.
pub open spec fn spells_options(tokens: Seq<TokenTree>, fields: Seq<MachineField>) -> bool
    decreases tokens.len(),
{
    let separator = first_separator(tokens);
    if tokens.len() == 0 {
        fields.len() == 0
    } else if fields.len() == 0 {
        false
    } else if separator >= tokens.len() {
        fields.len() == 1 && spells_option(tokens, fields[0])
    } else if separator + 1 == tokens.len() {
        fields.len() == 1 && spells_option(tokens.take(separator), fields[0])
    } else {
        0 <= separator && spells_option(tokens.take(separator), fields[0]) && spells_options(
            tokens.skip(separator + 1),
            fields.drop_first(),
        )
    }
}

/// The option keywords of a machine header.
pub open spec fn option_keyword(keyword: Seq<char>) -> bool {
    ||| keyword == "custom_error"@
    ||| keyword == "entry_exit_async"@
    ||| keyword == "temporary_context"@
    ||| keyword == "states_attr"@
    ||| keyword == "events_attr"@
}

/// Reads the option spelled by `tokens[start..end]`.
fn parse_option_in(tokens: &Vec<TokenTree>, start: usize, end: usize) -> (option: Result<MachineField, MachineSyntaxError>)
    requires
        start <= end <= tokens.len(),
    ensures
        option matches Ok(field) ==> spells_option(tokens@.subrange(start as int, end as int), field),
        option is Err ==> forall|other: MachineField|
            !spells_option(tokens@.subrange(start as int, end as int), other),
        option matches Err(MachineSyntaxError::UnknownKeyword(keyword)) ==> !option_keyword(keyword@),
{
    proof {
        lemma_keywords_differ();
    }
    let ghost sub = tokens@.subrange(start as int, end as int);
    if start == end {
        return Err(MachineSyntaxError::Malformed);
    }
    assert(sub[0] == tokens@[start as int]);
    let keyword = match &tokens[start] {
        TokenTree::Ident(keyword) => keyword,
        _ => {
            return Err(MachineSyntaxError::Malformed);
        },
    };
    let flag = *keyword == String::from_str("custom_error") || *keyword == String::from_str(
        "entry_exit_async",
    );
    let valued = *keyword == String::from_str("temporary_context") || *keyword == String::from_str(
        "states_attr",
    ) || *keyword == String::from_str("events_attr");
    if !flag && !valued {
        return Err(MachineSyntaxError::UnknownKeyword(keyword.clone()));
    }
    if flag {
        if end - start != 1 {
            return Err(MachineSyntaxError::Malformed);
        }
        if *keyword == String::from_str("custom_error") {
            return Ok(MachineField::CustomError(true));
        }
        return Ok(MachineField::EntryExitAsync(true));
    }
    proof {
        if end - start >= 2 {
            assert(sub[1] == tokens@[start + 1]);
        }
    }
    match parse_field_in(tokens, start, end) {
        Ok(field) => Ok(field),
        Err(_) => {
            proof {
                assert forall|other: MachineField| !spells_option(sub, other) by {
                    assert(!spells_field(sub, other));
                }
            }
            Err(MachineSyntaxError::Malformed)
        },
    }
}

/// Reads the options of `tokens[start..end]`, separated by commas outside
/// angle brackets.
fn parse_options_in(tokens: &Vec<TokenTree>, start: usize, end: usize) -> (options: Result<Vec<MachineField>, MachineSyntaxError>)
    requires
        start <= end <= tokens.len(),
    ensures
        options matches Ok(fields) ==> spells_options(tokens@.subrange(start as int, end as int), fields@),
        options is Err ==> forall|other: Seq<MachineField>|
            !spells_options(tokens@.subrange(start as int, end as int), other),
        options matches Err(MachineSyntaxError::UnknownKeyword(keyword)) ==> !option_keyword(keyword@),
    decreases end - start,
{
    let ghost sub = tokens@.subrange(start as int, end as int);
    if start == end {
        let none: Vec<MachineField> = Vec::new();
        assert(none@ =~= Seq::<MachineField>::empty());
        return Ok(none);
    }
    let separator = find_separator(tokens, start, end);
    assert(sub.take(separator - start) =~= tokens@.subrange(start as int, separator as int));
    let first = match parse_option_in(tokens, start, separator) {
        Ok(field) => field,
        Err(error) => {
            proof {
                if separator == end {
                    assert(sub.take(separator - start) =~= sub);
                }
            }
            return Err(error);
        },
    };
    if end - separator <= 1 {
        proof {
            if separator == end {
                assert(sub.take(separator - start) =~= sub);
            }
        }
        let mut fields: Vec<MachineField> = Vec::new();
        fields.push(first);
        assert(fields@ =~= seq![first]);
        return Ok(fields);
    }
    assert(sub.skip(separator - start + 1) =~= tokens@.subrange(separator + 1, end as int));
    match parse_options_in(tokens, separator + 1, end) {
        Ok(rest) => {
            let ghost rest_fields = rest@;
            let mut fields = rest;
            fields.insert(0, first);
            proof {
                assert(fields@.drop_first() =~= rest_fields);
                assert(fields@[0] == first);
            }
            Ok(fields)
        },
        Err(error) => {
            proof {
                assert forall|other: Seq<MachineField>| !spells_options(sub, other) by {
                    if other.len() > 0 {
                        assert(!spells_options(tokens@.subrange(separator + 1, end as int), other.drop_first()));
                    }
                }
            }
            Err(error)
        },
    }
}

/// Whether the token at an index of `tokens`, whose generics open at index
/// 0, closes them.
pub open spec fn closes_generics(tokens: Seq<TokenTree>) -> spec_fn(int) -> bool {
    |j: int| is_punct(tokens[j], '>') && angle_depth(tokens, j) == 1
}

/// The `>` that closes the generics opened at index 0 of `tokens`, or their
/// length.
pub open spec fn generics_close(tokens: Seq<TokenTree>) -> int {
    first_where(1, tokens.len() as int, closes_generics(tokens))
}

/// `machine` has the configuration that the options `fields` set.
pub open spec fn options_configure(machine: RawMachine, fields: Seq<MachineField>) -> bool {
    &&& machine.custom_error == configured_custom_error(fields)
    &&& machine.entry_exit_async == configured_entry_exit_async(fields)
    &&& machine.temporary_context == configured_context(fields)
    &&& machine.states_attr@ == configured_states_attr(fields)
    &&& machine.events_attr@ == configured_events_attr(fields)
}

/// A machine written as a header and a table body: `Name<'a, T> where ...
/// [options] { rows }`.
#[derive(Debug)]
pub struct RawDefinition {
    /// The name, the options and the rows of the table.
    pub machine: RawMachine,
    /// The tokens between the `<` and `>` of the event generics.
    pub generics: Option<Vec<TokenTree>>,
    /// The tokens after `where`.
    pub where_clause: Option<Vec<TokenTree>>,
}

/// `head`, a definition without its body, spells the name, generics,
/// `where` clause and options of `definition`.
pub open spec fn spells_header(head: Seq<TokenTree>, definition: RawDefinition) -> bool {
    let rest = head.skip(1);
    let generic = rest.len() > 0 && is_punct(rest[0], '<');
    let close = generics_close(rest);
    let after = if generic {
        rest.skip(close + 1)
    } else {
        rest
    };
    let optioned = after.len() > 0 && is_bracket_group(after.last());
    let clause = if optioned {
        after.drop_last()
    } else {
        after
    };
    &&& head.len() >= 1
    &&& (is_ident(head[0], "_"@) && definition.machine.name is None) || (head[0] matches TokenTree::Ident(
        name,
    ) && name@ != "_"@ && definition.machine.name == Some(name))
    &&& if generic {
        close < rest.len() && (definition.generics matches Some(generics) && same_trees(
            rest.subrange(1, close),
            generics@,
        ))
    } else {
        definition.generics is None
    }
    &&& if optioned {
        after.last() matches TokenTree::Group(_, options) && exists|fields: Seq<MachineField>|
            spells_options(options@, fields) && #[trigger] options_configure(definition.machine, fields)
    } else {
        options_configure(definition.machine, Seq::empty())
    }
    &&& if clause.len() == 0 {
        definition.where_clause is None
    } else {
        is_ident(clause[0], "where"@) && (definition.where_clause matches Some(predicates)
            && same_trees(clause.skip(1), predicates@))
    }
}

/// A written row of a table body reads, once normalized, as `row`.
pub open spec fn reads_as_row(written: Seq<TokenTree>, row: RawRow) -> bool {
    exists|normalized: Seq<TokenTree>| normalized_row(written, normalized) && spells_row(normalized, row)
}

/// The table body `body` holds the rows `rows`: each of its rows, split at
/// commas outside angle brackets and normalized, reads as the row at its
/// place.
pub open spec fn spells_body(body: Seq<TokenTree>, rows: Seq<RawRow>) -> bool {
    &&& rows.len() == table_rows(body).len()
    &&& forall|i: int| 0 <= i < rows.len() ==> reads_as_row(table_rows(body)[i], #[trigger] rows[i])
}

/// `tokens` spell the definition `definition`: a header, then its body in
/// braces.
pub open spec fn spells_definition(tokens: Seq<TokenTree>, definition: RawDefinition) -> bool {
    &&& tokens.len() >= 2
    &&& tokens.last() matches TokenTree::Group(delimiter, body) && delimiter == Delimiter::Brace
        && spells_body(body@, definition.machine.rows@)
    &&& spells_header(tokens.drop_last(), definition)
}

/// Why a definition cannot be read.
#[derive(Debug, PartialEq, Eq)]
pub enum DefinitionSyntaxError {
    /// The header names an option that no header has.
    UnknownOption(String),
    /// The tokens spell no definition.
    Malformed,
    /// The row at this index of the body, once normalized, spells no row.
    Row(usize),
}

/// Where the generics that open at `tokens[start]` close, relative to
/// `start`, or `end`.
fn find_generics_close(tokens: &Vec<TokenTree>, start: usize, end: usize) -> (found: usize)
    requires
        start < end <= tokens.len(),
    ensures
        start + 1 <= found <= end,
        found - start == generics_close(tokens@.subrange(start as int, end as int)),
{
    let ghost sub = tokens@.subrange(start as int, end as int);
    let ghost holds = closes_generics(sub);
    assert(sub[0] == tokens@[start as int]);
    let opens = match &tokens[start] {
        TokenTree::Punct(c, _) => *c == '<',
        _ => false,
    };
    let next_is_eq = start + 1 < end && match &tokens[start + 1] {
        TokenTree::Punct(c, _) => *c == '=',
        _ => false,
    };
    proof {
        if start + 1 < end {
            assert(sub[1] == tokens@[start + 1]);
        }
        assert(angle_depth(sub, 0) == 0);
        assert(angle_depth(sub, 1) == if opens_angle(sub, 0) { 1nat } else { 0nat });
    }
    let mut depth: usize = if opens && !next_is_eq {
        1
    } else {
        0
    };
    let mut index = start + 1;
    while index < end
        invariant
            start < index <= end <= tokens.len(),
            sub == tokens@.subrange(start as int, end as int),
            holds == closes_generics(sub),
            depth == angle_depth(sub, index - start),
            depth <= index - start,
            forall|i: int| 1 <= i < index - start ==> !#[trigger] holds(i),
        decreases end - index,
    {
        let ghost at = index - start;
        assert(sub[at] == tokens@[index as int]);
        let (is_open, is_close) = match &tokens[index] {
            TokenTree::Punct(c, _) => (*c == '<', *c == '>'),
            _ => (false, false),
        };
        if is_close && depth == 1 {
            proof {
                lemma_first_where_is(1, sub.len() as int, holds, at);
            }
            return index;
        }
        let next_is_eq = index + 1 < end && match &tokens[index + 1] {
            TokenTree::Punct(c, _) => *c == '=',
            _ => false,
        };
        proof {
            if index + 1 < end {
                assert(sub[at + 1] == tokens@[index + 1]);
            }
            assert(opens_angle(sub, at) == (is_open && !next_is_eq));
        }
        if is_open && !next_is_eq {
            depth = depth + 1;
        } else if is_close && depth > 0 {
            depth = depth - 1;
        }
        index = index + 1;
    }
    proof {
        lemma_first_where_is(1, sub.len() as int, holds, sub.len() as int);
    }
    end
}

/// Reads the header of a definition: `head` is the definition without its
/// body. The machine it returns has no rows.
fn parse_header(head: &Vec<TokenTree>) -> (result: Result<RawDefinition, DefinitionSyntaxError>)
    ensures
        result matches Ok(definition) ==> spells_header(head@, definition)
            && definition.machine.rows@.len() == 0,
        result is Err ==> forall|definition: RawDefinition| !spells_header(head@, definition),
        result matches Err(error) ==> !(error is Row),
        result matches Err(DefinitionSyntaxError::UnknownOption(keyword)) ==> !option_keyword(keyword@),
{
    let ghost all = head@;
    let len = head.len();
    if len == 0 {
        return Err(DefinitionSyntaxError::Malformed);
    }
    let name: Option<String> = match &head[0] {
        TokenTree::Ident(name) => if *name == String::from_str("_") {
            None
        } else {
            Some(name.clone())
        },
        _ => {
            return Err(DefinitionSyntaxError::Malformed);
        },
    };
    let ghost rest = all.skip(1);
    proof {
        if len > 1 {
            assert(rest[0] == all[1]);
        }
    }
    let generic = 1 < len && punct_is(&head[1], '<');
    let mut after_start: usize = 1;
    let mut generics: Option<Vec<TokenTree>> = None;
    if generic {
        let close = find_generics_close(head, 1, len);
        assert(all.subrange(1, len as int) =~= rest);
        if close == len {
            return Err(DefinitionSyntaxError::Malformed);
        }
        assert(rest.subrange(1, close - 1) =~= all.subrange(2, close as int));
        generics = Some(duplicate_range(head, 2, close));
        after_start = close + 1;
        assert(rest.skip(close - 1 + 1) =~= all.subrange(after_start as int, len as int));
    } else {
        assert(rest =~= all.subrange(1, len as int));
    }
    let ghost after = all.subrange(after_start as int, len as int);
    let optioned = after_start < len && match &head[len - 1] {
        TokenTree::Group(delimiter, _) => *delimiter == Delimiter::Bracket,
        _ => false,
    };
    proof {
        if after_start < len {
            assert(after.last() == all[len - 1]);
        }
    }
    let mut clause_end = len;
    let mut fields: Vec<MachineField> = Vec::new();
    if optioned {
        match &head[len - 1] {
            TokenTree::Group(_, content) => {
                assert(content@.subrange(0, content@.len() as int) =~= content@);
                match parse_options_in(content, 0, content.len()) {
                    Ok(options) => {
                        fields = options;
                    },
                    Err(MachineSyntaxError::UnknownKeyword(keyword)) => {
                        return Err(DefinitionSyntaxError::UnknownOption(keyword));
                    },
                    Err(MachineSyntaxError::Malformed) => {
                        return Err(DefinitionSyntaxError::Malformed);
                    },
                }
            },
            _ => {
                return Err(DefinitionSyntaxError::Malformed);
            },
        }
        clause_end = len - 1;
        assert(after.drop_last() =~= all.subrange(after_start as int, clause_end as int));
    }
    let ghost clause = all.subrange(after_start as int, clause_end as int);
    let mut where_clause: Option<Vec<TokenTree>> = None;
    if after_start < clause_end {
        assert(clause[0] == all[after_start as int]);
        if !ident_is(&head[after_start], "where") {
            return Err(DefinitionSyntaxError::Malformed);
        }
        assert(clause.skip(1) =~= all.subrange(after_start + 1, clause_end as int));
        where_clause = Some(duplicate_range(head, after_start + 1, clause_end));
    }
    let ghost options = fields@;
    let mut machine = RawMachine::from_fields(fields);
    machine.name = name;
    machine.rows = Vec::new();
    let definition = RawDefinition { machine, generics, where_clause };
    proof {
        if optioned {
            assert(spells_options(
                match all[len - 1] {
                    TokenTree::Group(_, content) => content@,
                    _ => Seq::empty(),
                },
                options,
            ));
            assert(options_configure(definition.machine, options));
        } else {
            assert(options =~= Seq::<MachineField>::empty());
        }
    }
    Ok(definition)
}

/// `tokens` spell no row.
pub open spec fn spells_no_row(tokens: Seq<TokenTree>) -> bool {
    forall|row: RawRow| !spells_row(tokens, row)
}

/// A written row, once normalized, spells no row.
pub open spec fn fails_once_normalized(written: Seq<TokenTree>) -> bool {
    exists|normalized: Seq<TokenTree>| #[trigger] normalized_row(written, normalized) && spells_no_row(normalized)
}

/// The row at `index` of a table body, once normalized, spells no row.
pub open spec fn body_row_fails(body: Seq<TokenTree>, index: int) -> bool {
    &&& 0 <= index < table_rows(body).len()
    &&& fails_once_normalized(table_rows(body)[index])
}

/// Reads the rows of a table body: splits it into rows, normalizes each and
/// reads it; fails with the index of the first row that reads as none.
fn parse_body(body: Vec<TokenTree>) -> (result: Result<Vec<RawRow>, usize>)
    ensures
        result matches Ok(rows) ==> spells_body(body@, rows@),
        result matches Err(index) ==> body_row_fails(body@, index as int),
{
    let ghost written = table_rows(body@);
    let split = split_transitions(body);
    let total = split.len();
    let mut pending = reversed(split);
    let ghost rows_written = split@;
    let mut rows: Vec<RawRow> = Vec::new();
    let mut failed: Option<usize> = None;
    while failed.is_none() && pending.len() > 0
        invariant
            total == written.len(),
            rows_written.len() == total,
            forall|i: int| 0 <= i < total ==> #[trigger] rows_written[i]@ == written[i],
            failed is None ==> rows.len() + pending.len() == total,
            failed is None ==> pending@ == rows_written.subrange(rows.len() as int, total as int).reverse(),
            failed is None ==> forall|i: int| 0 <= i < rows.len() ==> reads_as_row(written[i], #[trigger] rows@[i]),
            failed matches Some(index) ==> index < total && fails_once_normalized(written[index as int]),
        decreases pending.len(),
    {
        let row_tokens = pending.pop().unwrap();
        let index = rows.len();
        assert(row_tokens == rows_written[index as int]);
        let normalized = normalize_transition(row_tokens);
        match RawRow::parse(&normalized) {
            Ok(row) => {
                rows.push(row);
                proof {
                    assert(normalized_row(written[index as int], normalized@) && spells_row(normalized@, row));
                    assert(reads_as_row(written[index as int], rows@[index as int]));
                }
                assert(pending@ =~= rows_written.subrange(rows.len() as int, total as int).reverse());
            },
            Err(_) => {
                proof {
                    assert(normalized_row(written[index as int], normalized@));
                    assert(spells_no_row(normalized@));
                    assert(fails_once_normalized(written[index as int]));
                }
                failed = Some(index);
            },
        }
    }
    match failed {
        Some(index) => Err(index),
        None => Ok(rows),
    }
}

impl RawDefinition {
    /// Reads one definition: a header, then its body in braces, whose rows
    /// are split, normalized and read.
    pub fn parse(tokens: Vec<TokenTree>) -> (result: Result<RawDefinition, DefinitionSyntaxError>)
        ensures
            result matches Ok(definition) ==> spells_definition(tokens@, definition),
            result matches Err(error) ==> !(error is Row) ==> forall|definition: RawDefinition|
                !spells_definition(tokens@, definition),
            result matches Err(DefinitionSyntaxError::Row(index)) ==> tokens@.len() >= 2 && (
            tokens@.last() matches TokenTree::Group(_, body) && body_row_fails(body@, index as int)),
            result matches Err(DefinitionSyntaxError::UnknownOption(keyword)) ==> !option_keyword(
                keyword@,
            ),
    {
        let ghost all = tokens@;
        if tokens.len() < 2 {
            return Err(DefinitionSyntaxError::Malformed);
        }
        let mut head = tokens;
        let last = head.pop().unwrap();
        assert(head@ =~= all.drop_last());
        assert(last == all.last());
        let is_body = match &last {
            TokenTree::Group(delimiter, _) => *delimiter == Delimiter::Brace,
            _ => false,
        };
        if !is_body {
            return Err(DefinitionSyntaxError::Malformed);
        }
        let mut definition = match parse_header(&head) {
            Ok(definition) => definition,
            Err(error) => {
                return Err(error);
            },
        };
        let body = match last {
            TokenTree::Group(_, body) => body,
            _ => {
                return Err(DefinitionSyntaxError::Malformed);
            },
        };
        let ghost body_view = body@;
        match parse_body(body) {
            Ok(rows) => {
                let ghost before = definition;
                definition.machine.rows = rows;
                proof {
                    assert forall|fields: Seq<MachineField>|
                        #[trigger] options_configure(before.machine, fields) implies options_configure(
                        definition.machine,
                        fields,
                    ) by {}
                    assert(spells_header(all.drop_last(), definition));
                }
                Ok(definition)
            },
            Err(index) => Err(DefinitionSyntaxError::Row(index)),
        }
    }
}

/// Whether the token at an index of `tokens` is a body in braces.
pub open spec fn body_at(tokens: Seq<TokenTree>) -> spec_fn(int) -> bool {
    |i: int| tokens[i] matches TokenTree::Group(delimiter, _) && delimiter == Delimiter::Brace
}

/// The first body in braces among `tokens`, or their length.
pub open spec fn first_body(tokens: Seq<TokenTree>) -> int {
    first_where(0, tokens.len() as int, body_at(tokens))
}

/// The tokens after a definition that ends at `end`, past an optional comma.
pub open spec fn after_definition(tokens: Seq<TokenTree>, end: int) -> Seq<TokenTree> {
    let rest = tokens.skip(end);
    if rest.len() > 0 && is_punct(rest[0], ',') {
        rest.skip(1)
    } else {
        rest
    }
}

/// `tokens` spell the definitions `definitions`, each ending at its body,
/// separated by optional commas.
pub open spec fn spells_definitions(tokens: Seq<TokenTree>, definitions: Seq<RawDefinition>) -> bool
    decreases tokens.len(),
{
    if tokens.len() == 0 {
        definitions.len() == 0
    } else {
        let body = first_body(tokens);
        &&& 0 <= body < tokens.len()
        &&& definitions.len() > 0
        &&& spells_definition(tokens.take(body + 1), definitions[0])
        &&& spells_definitions(after_definition(tokens, body + 1), definitions.drop_first())
    }
}

/// The first body in braces among `tokens`.
fn find_body(tokens: &Vec<TokenTree>) -> (found: usize)
    ensures
        found == first_body(tokens@),
        found <= tokens.len(),
{
    let ghost holds = body_at(tokens@);
    let mut index: usize = 0;
    while index < tokens.len()
        invariant
            index <= tokens.len(),
            holds == body_at(tokens@),
            forall|i: int| 0 <= i < index ==> !#[trigger] holds(i),
        decreases tokens.len() - index,
    {
        let is_body = match &tokens[index] {
            TokenTree::Group(delimiter, _) => *delimiter == Delimiter::Brace,
            _ => false,
        };
        if is_body {
            proof {
                lemma_first_where_is(0, tokens@.len() as int, holds, index as int);
            }
            return index;
        }
        index = index + 1;
    }
    proof {
        lemma_first_where_is(0, tokens@.len() as int, holds, index as int);
    }
    index
}

/// Some definition among `tokens`, as they split into definitions, has a
/// body whose row at `index` spells no row once normalized.
pub open spec fn some_body_row_fails(tokens: Seq<TokenTree>, index: int) -> bool
    decreases tokens.len(),
{
    if tokens.len() == 0 {
        false
    } else {
        let body = first_body(tokens);
        &&& 0 <= body < tokens.len()
        &&& {
            ||| (tokens[body] matches TokenTree::Group(_, rows) && body_row_fails(rows@, index))
            ||| some_body_row_fails(after_definition(tokens, body + 1), index)
        }
    }
}

/// Reads one or more adjacent definitions, each ending at its body in
/// braces, separated by optional commas.
pub fn parse_definitions(tokens: Vec<TokenTree>) -> (result: Result<Vec<RawDefinition>, DefinitionSyntaxError>)
    ensures
        result matches Ok(definitions) ==> spells_definitions(tokens@, definitions@),
        result matches Err(DefinitionSyntaxError::Row(index)) ==> some_body_row_fails(tokens@, index as int),
        result matches Err(error) ==> !(error is Row) ==> forall|definitions: Seq<RawDefinition>|
            !spells_definitions(tokens@, definitions),
        result matches Err(DefinitionSyntaxError::UnknownOption(keyword)) ==> !option_keyword(
            keyword@,
        ),
    decreases tokens@.len(),
{
    let ghost all = tokens@;
    if tokens.len() == 0 {
        let none: Vec<RawDefinition> = Vec::new();
        assert(none@ =~= Seq::<RawDefinition>::empty());
        return Ok(none);
    }
    let body = find_body(&tokens);
    if body == tokens.len() {
        return Err(DefinitionSyntaxError::Malformed);
    }
    let mut first = tokens;
    let mut rest = first.split_off(body + 1);
    let comma = rest.len() > 0 && punct_is(&rest[0], ',');
    if comma {
        rest.remove(0);
    }
    proof {
        assert(first@ =~= all.take(body + 1));
        assert(rest@ =~= after_definition(all, body + 1));
    }
    let ghost taken = first@;
    let definition = match RawDefinition::parse(first) {
        Ok(definition) => definition,
        Err(error) => {
            proof {
                if error is Row {
                    assert(taken.last() == all[body as int]);
                }
            }
            return Err(error);
        },
    };
    let ghost remaining = rest@;
    match parse_definitions(rest) {
        Ok(others) => {
            let ghost other_view = others@;
            let mut definitions = others;
            definitions.insert(0, definition);
            proof {
                assert(definitions@.drop_first() =~= other_view);
                assert(definitions@[0] == definition);
            }
            Ok(definitions)
        },
        Err(error) => {
            proof {
                if !(error is Row) {
                    assert forall|definitions: Seq<RawDefinition>| !spells_definitions(all, definitions) by {
                        if spells_definitions(all, definitions) {
                            assert(spells_definitions(remaining, definitions.drop_first()));
                        }
                    }
                }
            }
            Err(error)
        },
    }
}

/// What syn reads from the text of generics `<...>`: each parameter, and
/// whether it has a default; `None` when the text is no generics.
pub uninterp spec fn generic_parameters(text: Seq<char>) -> Option<Seq<(ParamView, bool)>>;

/// Reads generics with `syn::parse_str::<syn::Generics>`: each parameter by
/// its kind and name (a lifetime with its `'`), and whether it has a default.
/// The contract claims only that the result is what syn gives for the text.
#[verifier::external_body]
fn read_generic_parameters(text: &String) -> (params: Option<Vec<(GenericParam, bool)>>)
    ensures
        match generic_parameters(text@) {
            Some(found) => params matches Some(read) && read@.len() == found.len() && forall|i: int|
                0 <= i < found.len() ==> (#[trigger] read@[i]).0@ == found[i].0 && read@[i].1
                    == found[i].1,
            None => params is None,
        },
{
    match syn::parse_str::<syn::Generics>(text) {
        Ok(generics) => Some(generics.params.iter().map(|param| match param {
            syn::GenericParam::Lifetime(param) => (GenericParam::Lifetime(param.lifetime.to_string()), false),
            syn::GenericParam::Type(param) => (GenericParam::Type(param.ident.to_string()), param.default.is_some()),
            syn::GenericParam::Const(param) => (GenericParam::Const(param.ident.to_string()), param.default.is_some()),
        }).collect()),
        Err(_) => None,
    }
}

/// The text of event generics whose inside is `inner`.
pub open spec fn generics_text(inner: Seq<TokenTree>) -> Seq<char> {
    "<"@ + tokens_text(inner) + ">"@
}

/// Whether the parameter at an index has a default.
pub open spec fn defaulted_at(found: Seq<(ParamView, bool)>) -> spec_fn(int) -> bool {
    |i: int| found[i].1
}

/// The first parameter with a default, or the count.
pub open spec fn first_defaulted(found: Seq<(ParamView, bool)>) -> int {
    first_where(0, found.len() as int, defaulted_at(found))
}

/// Why the event generics of a definition cannot be used.
#[derive(Debug, Clone, Copy, PartialEq, Eq, Structural)]
pub enum GenericsError {
    /// The generics are not generics that syn reads.
    Malformed,
    /// The parameter at this index has a default, which the generated
    /// methods that receive the parameters cannot carry.
    Defaulted(usize),
    /// A `where` clause is written without any declared parameter.
    WhereWithoutParameters,
}

/// The event generics of a definition: none without generics, else the
/// parameters that syn reads from them, provided that none has a default;
/// a `where` clause needs at least one parameter.
pub open spec fn definition_generics(
    generics: Option<Vec<TokenTree>>,
    where_clause: bool,
) -> Result<Seq<ParamView>, GenericsError> {
    match generics {
        None => if where_clause {
            Err(GenericsError::WhereWithoutParameters)
        } else {
            Ok(Seq::empty())
        },
        Some(inner) => match generic_parameters(generics_text(inner@)) {
            None => Err(GenericsError::Malformed),
            Some(found) => if first_defaulted(found) < found.len() {
                Err(GenericsError::Defaulted(first_defaulted(found) as usize))
            } else if where_clause && found.len() == 0 {
                Err(GenericsError::WhereWithoutParameters)
            } else {
                Ok(found.map_values(|param: (ParamView, bool)| param.0))
            },
        },
    }
}

impl RawDefinition {
    /// The parameters of the definition's event generics.
    pub fn event_generics(&self) -> (result: Result<Vec<GenericParam>, GenericsError>)
        ensures
            match definition_generics(self.generics, self.where_clause is Some) {
                Ok(params) => result matches Ok(read) && param_views(read@) == params,
                Err(error) => result == Err::<Vec<GenericParam>, GenericsError>(error),
            },
    {
        let generics = match &self.generics {
            None => {
                if self.where_clause.is_some() {
                    return Err(GenericsError::WhereWithoutParameters);
                }
                let none: Vec<GenericParam> = Vec::new();
                assert(param_views(none@) =~= Seq::<ParamView>::empty());
                return Ok(none);
            },
            Some(generics) => generics,
        };
        let mut text = String::from_str("<");
        append_tokens(&mut text, generics);
        text.append(">");
        let found = match read_generic_parameters(&text) {
            Some(found) => found,
            None => {
                return Err(GenericsError::Malformed);
            },
        };
        let ghost views = generic_parameters(text@)->Some_0;
        assert(text@ =~= generics_text(generics@));
        let ghost holds = defaulted_at(views);
        let mut index: usize = 0;
        while index < found.len()
            invariant
                index <= found@.len(),
                found@.len() == views.len(),
                forall|i: int|
                    0 <= i < views.len() ==> (#[trigger] found@[i]).0@ == views[i].0 && found@[i].1
                        == views[i].1,
                holds == defaulted_at(views),
                forall|i: int| 0 <= i < index ==> !#[trigger] holds(i),
                text@ == generics_text(generics@),
                self.generics == Some(*generics),
                generic_parameters(text@) == Some(views),
            decreases found@.len() - index,
        {
            if found[index].1 {
                proof {
                    lemma_first_where_is(0, views.len() as int, holds, index as int);
                }
                return Err(GenericsError::Defaulted(index));
            }
            index = index + 1;
        }
        proof {
            lemma_first_where_is(0, views.len() as int, holds, views.len() as int);
        }
        if self.where_clause.is_some() && found.len() == 0 {
            return Err(GenericsError::WhereWithoutParameters);
        }
        let mut pending = reversed(found);
        let mut params: Vec<GenericParam> = Vec::new();
        let ghost all = found@;
        while pending.len() > 0
            invariant
                all.len() == views.len(),
                forall|i: int| 0 <= i < views.len() ==> (#[trigger] all[i]).0@ == views[i].0,
                params.len() + pending.len() == all.len(),
                pending@ == all.subrange(params.len() as int, all.len() as int).reverse(),
                forall|i: int| 0 <= i < params.len() ==> (#[trigger] params@[i])@ == views[i].0,
            decreases pending.len(),
        {
            let (param, _) = pending.pop().unwrap();
            assert(param == all[params.len() as int].0);
            params.push(param);
            assert(pending@ =~= all.subrange(params.len() as int, all.len() as int).reverse());
        }
        proof {
            assert(param_views(params@) =~= views.map_values(|param: (ParamView, bool)| param.0));
        }
        Ok(params)
    }
}

} // verus!
