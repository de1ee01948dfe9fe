//! The rows of a transition table and their analysis: the starting state,
//! the states and events a table names, the payload types recorded for them
//! and, for every state, the transitions each trigger selects, with wildcard
//! rows expanded over the states.

use vstd::prelude::*;

use super::event::{event_key, event_key_text, same_event, trigger_key, Event, EventKind};
use super::guard::{AsyncIdent, GuardExpression};
use super::types::{
    collect_step, duplicate_data, generics_with_lifetimes, insert_name, insert_names,
    law_inserted_names_are_distinct, name_views, param_views, same_optional_data, with_lifetimes,
    Lifetimes, ParamView,
    type_uses_generic_param, uses_param, DataDefinitions, DataError, DataType, DataView,
    GenericParam, TypeShape,
};

verus! {

/// The source state of a row: `*Idle`, `Idle(Data)`, `_` and the like.
#[derive(Debug)]
pub struct InputState {
    /// Marked `*`: the machine starts here.
    pub start: bool,
    /// `_`: the row applies to every state.
    pub wildcard: bool,
    /// The state's name.
    pub ident: String,
    /// The state's payload type.
    pub data_type: Option<DataType>,
    /// The child machine of a composite state.
    pub composite: Option<String>,
    /// Whether the composite state is entered with history.
    pub history: bool,
}

/// The target of a row: `= Ready`, `= state<Child>`, or none for an internal
/// transition.
#[derive(Debug)]
pub struct OutputState {
    /// The target's name; a placeholder for an internal transition.
    pub ident: String,
    /// The row names no target and stays in its source state.
    pub internal_transition: bool,
    /// The target's payload type.
    pub data_type: Option<DataType>,
    /// The child machine entered by the target.
    pub composite: Option<String>,
}

/// `eval[guard] / action` inside an action sequence.
#[derive(Debug)]
pub struct EvalAction {
    /// The position of the `eval` among the row's actions.
    pub position: usize,
    /// The condition.
    pub guard: GuardExpression,
    /// The action run when the condition holds.
    pub action: AsyncIdent,
}

/// One row of a transition table, for one source state.
#[derive(Debug)]
pub struct StateTransition {
    /// The source state.
    pub in_state: InputState,
    /// The trigger.
    pub event: Event,
    /// The guard in `[...]`.
    pub guard: Option<GuardExpression>,
    /// The first action.
    pub action: Option<AsyncIdent>,
    /// The actions after the first.
    pub additional_actions: Vec<AsyncIdent>,
    /// The events queued by `process(...)`, as written.
    pub process_events: Vec<String>,
    /// Whether the row defers its event.
    pub defer: bool,
    /// The `eval[...] / action` steps of the action sequence.
    pub eval_actions: Vec<EvalAction>,
    /// The target.
    pub out_state: OutputState,
    /// Whether the row, as written, names no target.
    pub internal_transition: bool,
}

/// One row of a transition table as written, for all its source states:
/// `Idle | Ready + Start [ok] / run = Running`.
#[derive(Debug)]
pub struct StateTransitions {
    /// The source states, in order.
    pub in_states: Vec<InputState>,
    /// The trigger.
    pub event: Event,
    /// The guard in `[...]`.
    pub guard: Option<GuardExpression>,
    /// The first action.
    pub action: Option<AsyncIdent>,
    /// The actions after the first.
    pub additional_actions: Vec<AsyncIdent>,
    /// The events queued by `process(...)`, as written.
    pub process_events: Vec<String>,
    /// Whether the row defers its event.
    pub defer: bool,
    /// The `eval[...] / action` steps of the action sequence.
    pub eval_actions: Vec<EvalAction>,
    /// The target.
    pub out_state: OutputState,
}

/// A parsed transition table with its configuration.
#[derive(Debug)]
pub struct StateMachine {
    /// The machine's name.
    pub name: Option<String>,
    /// Attributes for the generated states type, as written.
    pub states_attr: Vec<String>,
    /// Attributes for the generated events type, as written.
    pub events_attr: Vec<String>,
    /// The type of the temporary context handed to callbacks.
    pub temporary_context_type: Option<DataType>,
    /// Whether callbacks return a custom error type.
    pub custom_error: bool,
    /// The rows, one per source state.
    pub transitions: Vec<StateTransition>,
    /// Whether entry and exit callbacks are async.
    pub entry_exit_async: bool,
    /// The error type fixed by typed `exception<E>` rows.
    pub fixed_error_type: Option<DataType>,
    /// The generic parameters of the machine's events.
    pub event_generics: Vec<GenericParam>,
}

/// One transition that a trigger selects in a state.
#[derive(Debug)]
pub struct Transition {
    /// The guard.
    pub guard: Option<GuardExpression>,
    /// The first action.
    pub action: Option<AsyncIdent>,
    /// The actions after the first.
    pub additional_actions: Vec<AsyncIdent>,
    /// The events queued by `process(...)`, as written.
    pub process_events: Vec<String>,
    /// Whether the event is deferred.
    pub defer: bool,
    /// The `eval` steps.
    pub eval_actions: Vec<EvalAction>,
    /// Whether the target is a composite state entered at its default.
    pub default_output: bool,
    /// The target state.
    pub out_state: String,
    /// Whether the row, as written, names no target.
    pub internal_transition: bool,
}

/// The transitions one trigger selects in one state.
#[derive(Debug)]
pub struct EventMapping {
    /// The state.
    pub in_state: String,
    /// The trigger's event name.
    pub event: String,
    /// The trigger's kind.
    pub event_kind: EventKind,
    /// Whether the trigger is a wildcard.
    pub event_wildcard: bool,
    /// Whether some row names this event as an outside type (`event<E>`).
    pub event_external: bool,
    /// The transitions, in the order of their rows.
    pub transitions: Vec<Transition>,
}

/// The triggers of one state and what each selects.
#[derive(Debug)]
pub struct StateEvents {
    /// The state.
    pub state: String,
    /// One entry per trigger, in the order the triggers were first met.
    pub mappings: Vec<EventMapping>,
}

/// The analysis of a transition table, ready for code generation.
#[derive(Debug)]
pub struct ParsedStateMachine {
    /// The machine's name.
    pub name: Option<String>,
    /// Attributes for the generated states type.
    pub states_attr: Vec<String>,
    /// Attributes for the generated events type.
    pub events_attr: Vec<String>,
    /// The temporary context type.
    pub temporary_context_type: Option<DataType>,
    /// Whether callbacks return a custom error type.
    pub custom_error: bool,
    /// Every state the table names, each once, in the order first met.
    pub states: Vec<String>,
    /// The state the machine starts in.
    pub starting_state: String,
    /// The payload types of the states.
    pub state_data: DataDefinitions,
    /// Every event the table names, each once, in the order first met.
    pub events: Vec<String>,
    /// The payload types of the events.
    pub event_data: DataDefinitions,
    /// For each state, in the order of `states`, its triggers.
    pub states_events_mapping: Vec<StateEvents>,
    /// Whether entry and exit callbacks are async.
    pub entry_exit_async: bool,
    /// The error type fixed by typed exception rows.
    pub fixed_error_type: Option<DataType>,
    /// The generic parameters of the machine's events.
    pub event_generics: Vec<GenericParam>,
}

/// Why a table cannot be turned into a machine.
#[derive(Debug, Clone, Copy, PartialEq, Eq, Structural)]
pub enum AnalysisError {
    /// Generic events cannot be deferred or queued by `process(...)`.
    GenericEventQueue,
    /// The payload type of `row`'s event does not use the generic parameter
    /// at `param`.
    UnusedGenericParameter { row: usize, param: usize },
    /// The completion row `row` takes its origin data by `&mut`.
    MutableCompletionData { row: usize },
    /// No row is marked as the start.
    NoStartingState,
    /// More than one row is marked as the start.
    MultipleStartingStates,
    /// A state payload type of `row` could not be recorded.
    StateData { row: usize, error: DataError },
    /// The event payload type of `row` could not be recorded.
    EventData { row: usize, error: DataError },
    /// `row` enters the state at `target` in `states`, which carries data,
    /// without an action to provide it.
    MissingDataAction { row: usize, target: usize },
    /// The wildcard `row` applies to no state.
    WildcardHasNoEffect { row: usize },
}

/// Typed exception rows of one machine name different error types: the row
/// at `row` differs from the first.
#[derive(Debug, Clone, Copy, PartialEq, Eq, Structural)]
pub struct ErrorTypeConflict {
    /// The first row whose exception type differs from the first one's.
    pub row: usize,
}

/// The key of a row's trigger in a state's transition map.
pub open spec fn row_key(row: StateTransition) -> Seq<char> {
    event_key_text(row.event.kind, row.event.wildcard, row.event.ident@)
}

/// The target a row reaches from `state`: an internal row stays there.
pub open spec fn out_name(row: StateTransition, state: Seq<char>) -> Seq<char> {
    if row.out_state.internal_transition {
        state
    } else {
        row.out_state.ident@
    }
}

/// The target of a row when it is a state of its own: every target but that
/// of an internal wildcard row.
pub open spec fn has_out_state(row: StateTransition) -> bool {
    !(row.out_state.internal_transition && row.in_state.wildcard)
}

/// The states a row names, in order: its source unless a wildcard, then its
/// target unless internal to a wildcard.
pub open spec fn row_states(row: StateTransition) -> Seq<Seq<char>> {
    let source: Seq<Seq<char>> = if row.in_state.wildcard {
        Seq::empty()
    } else {
        seq![row.in_state.ident@]
    };
    if has_out_state(row) {
        source.push(out_name(row, row.in_state.ident@))
    } else {
        source
    }
}

/// Whether a row's trigger names an event of the machine: not a wildcard,
/// and not an entry, exit or exception trigger.
pub open spec fn names_event(row: StateTransition) -> bool {
    &&& !row.event.wildcard
    &&& row.event.kind != EventKind::Entry
    &&& row.event.kind != EventKind::Exit
    &&& row.event.kind != EventKind::Exception
}

/// Whether a row records a payload type for its event: every event but a
/// completion without data.
pub open spec fn records_event_data(row: StateTransition) -> bool {
    names_event(row) && (row.event.kind != EventKind::Completion || row.event.data_type is Some)
}

/// The states named by the first `count` rows, each once, in the order met.
pub open spec fn states_of(rows: Seq<StateTransition>, count: int) -> Seq<Seq<char>>
    decreases count,
{
    if count <= 0 || count > rows.len() {
        Seq::empty()
    } else {
        insert_names(states_of(rows, count - 1), row_states(rows[count - 1]))
    }
}

/// The events named by the first `count` rows, each once, in the order met.
pub open spec fn events_of(rows: Seq<StateTransition>, count: int) -> Seq<Seq<char>>
    decreases count,
{
    if count <= 0 || count > rows.len() {
        Seq::empty()
    } else if names_event(rows[count - 1]) {
        insert_name(events_of(rows, count - 1), rows[count - 1].event.ident@)
    } else {
        events_of(rows, count - 1)
    }
}

/// The first index in `start..count` where `holds`, or `count`.
pub open spec fn first_where(start: int, count: int, holds: spec_fn(int) -> bool) -> int
    decreases count - start,
{
    if start >= count {
        count
    } else if holds(start) {
        start
    } else {
        first_where(start + 1, count, holds)
    }
}

/// Whether the events of a machine with generic parameters are deferred or
/// queued by some row.
pub open spec fn queues_generic_events(sm: StateMachine) -> bool {
    &&& sm.event_generics.len() > 0
    &&& exists|i: int|
        0 <= i < sm.transitions.len() && ((#[trigger] sm.transitions@[i]).defer
            || sm.transitions@[i].process_events.len() > 0)
}

/// A type or const parameter, which an event family must mention.
pub open spec fn is_value_param(param: GenericParam) -> bool {
    param is Type || param is Const
}

/// Whether the payload of `row`'s event must mention every type and const
/// parameter: it is an outside event, or it uses some parameter.
pub open spec fn must_use_generics(row: StateTransition, generics: Seq<GenericParam>) -> bool {
    &&& row.event.data_type is Some
    &&& (row.event.external || exists|g: int|
        0 <= g < generics.len() && uses_param(row.event.data_type->0.shape, #[trigger] generics[g]))
}

/// Whether the type or const parameter at `g` is missing from the payload
/// of `row`'s event.
pub open spec fn misses_generic(row: StateTransition, generics: Seq<GenericParam>, g: int) -> bool {
    is_value_param(generics[g]) && !uses_param(row.event.data_type->0.shape, generics[g])
}

/// Whether the event of `row` leaves out a parameter it must mention.
pub open spec fn misses_some_generic(row: StateTransition, generics: Seq<GenericParam>) -> bool {
    must_use_generics(row, generics) && exists|g: int|
        0 <= g < generics.len() && misses_generic(row, generics, g)
}

/// Whether `row` is a completion whose origin data is taken by `&mut`.
pub open spec fn mutable_completion(row: StateTransition) -> bool {
    &&& row.event.kind == EventKind::Completion
    &&& row.event.data_type matches Some(data_type) && data_type.shape matches TypeShape::Reference {
        mutable,
        ..
    } && mutable
}

/// The payload type of a row's target, from `state`: an internal row keeps
/// its source's payload.
pub open spec fn out_data(row: StateTransition) -> Option<DataType> {
    if row.out_state.internal_transition {
        row.in_state.data_type
    } else {
        row.out_state.data_type
    }
}

/// Records the payload types of one row, source state, then target, then
/// event, stopping at the first failure.
pub open spec fn collect_row(
    states: DataView,
    events: DataView,
    rows: Seq<StateTransition>,
    index: int,
) -> Result<(DataView, DataView), AnalysisError> {
    let row = rows[index];
    let after_source = if row.in_state.wildcard {
        Ok(states)
    } else {
        collect_step(states, row.in_state.ident@, row.in_state.data_type)
    };
    match after_source {
        Err(error) => Err(AnalysisError::StateData { row: index as usize, error }),
        Ok(states_in) => {
            let after_target = if has_out_state(row) {
                collect_step(states_in, out_name(row, row.in_state.ident@), out_data(row))
            } else {
                Ok(states_in)
            };
            match after_target {
                Err(error) => Err(AnalysisError::StateData { row: index as usize, error }),
                Ok(states_out) => if records_event_data(row) {
                    match collect_step(events, row.event.ident@, row.event.data_type) {
                        Err(error) => Err(AnalysisError::EventData { row: index as usize, error }),
                        Ok(events_out) => Ok((states_out, events_out)),
                    }
                } else {
                    Ok((states_out, events))
                },
            }
        },
    }
}

/// The payload types recorded by the first `count` rows, or the first
/// failure.
pub open spec fn collect_rows(rows: Seq<StateTransition>, count: int) -> Result<
    (DataView, DataView),
    AnalysisError,
>
    decreases count,
{
    if count <= 0 || count > rows.len() {
        Ok((empty_data(), empty_data()))
    } else {
        match collect_rows(rows, count - 1) {
            Err(error) => Err(error),
            Ok((states, events)) => collect_row(states, events, rows, count - 1),
        }
    }
}

/// Nothing recorded.
pub open spec fn empty_data() -> DataView {
    DataView { types: Map::empty(), all_lifetimes: Seq::empty(), lifetimes: Map::empty() }
}

/// Whether some row before `index` with the trigger `key` applies to `state`:
/// a wildcard, or a row from `state` itself.
pub open spec fn key_covered_before(
    rows: Seq<StateTransition>,
    index: int,
    state: Seq<char>,
    key: Seq<char>,
) -> bool {
    exists|r: int|
        0 <= r < index && row_key(#[trigger] rows[r]) == key && (rows[r].in_state.wildcard
            || rows[r].in_state.ident@ == state)
}

/// Whether row `index` selects a transition for `key` in `state`: a row from
/// that state, or a wildcard row where no earlier row already covers the
/// trigger in that state.
pub open spec fn contributes(
    rows: Seq<StateTransition>,
    index: int,
    state: Seq<char>,
    key: Seq<char>,
) -> bool {
    &&& row_key(rows[index]) == key
    &&& if rows[index].in_state.wildcard {
        !key_covered_before(rows, index, state, key)
    } else {
        rows[index].in_state.ident@ == state
    }
}

/// The rows among the first `count` that select a transition for `key` in
/// `state`, in order.
pub open spec fn contributing_rows(
    rows: Seq<StateTransition>,
    state: Seq<char>,
    key: Seq<char>,
    count: int,
) -> Seq<int>
    decreases count,
{
    if count <= 0 || count > rows.len() {
        Seq::empty()
    } else if contributes(rows, count - 1, state, key) {
        contributing_rows(rows, state, key, count - 1).push(count - 1)
    } else {
        contributing_rows(rows, state, key, count - 1)
    }
}

/// Whether the transition that `row` selects in `state` enters a state with
/// a payload without an action or a composite default to provide it.
pub open spec fn lacks_data_action(row: StateTransition, state: Seq<char>, data: DataView) -> bool {
    &&& data.types.contains_key(out_name(row, state))
    &&& row.action is None
    &&& row.out_state.composite is None
}

/// The failure met when row `index` is added to the transition maps, if any:
/// for a wildcard row, the first state in `states` it applies to whose
/// transition lacks a data action, or, when it applies to no state, that it
/// has no effect; for any other row, a missing data action.
pub open spec fn row_mapping_error(
    rows: Seq<StateTransition>,
    states: Seq<Seq<char>>,
    data: DataView,
    index: int,
) -> Option<AnalysisError> {
    let row = rows[index];
    if row.in_state.wildcard {
        let key = row_key(row);
        let first = first_where(
            0,
            states.len() as int,
            |s: int|
                !key_covered_before(rows, index, states[s], key) && lacks_data_action(
                    row,
                    states[s],
                    data,
                ),
        );
        if first < states.len() {
            Some(
                AnalysisError::MissingDataAction {
                    row: index as usize,
                    target: states.index_of(out_name(row, states[first])) as usize,
                },
            )
        } else if forall|s: int|
            0 <= s < states.len() ==> key_covered_before(rows, index, #[trigger] states[s], key) {
            Some(AnalysisError::WildcardHasNoEffect { row: index as usize })
        } else {
            None
        }
    } else if lacks_data_action(row, row.in_state.ident@, data) {
        Some(
            AnalysisError::MissingDataAction {
                row: index as usize,
                target: states.index_of(out_name(row, row.in_state.ident@)) as usize,
            },
        )
    } else {
        None
    }
}

/// The first failure met while adding rows `start..` to the transition maps.
pub open spec fn mapping_error_from(
    rows: Seq<StateTransition>,
    states: Seq<Seq<char>>,
    data: DataView,
    start: int,
) -> Option<AnalysisError>
    decreases rows.len() - start,
{
    if start < 0 || start >= rows.len() {
        None
    } else if row_mapping_error(rows, states, data, start) is Some {
        row_mapping_error(rows, states, data, start)
    } else {
        mapping_error_from(rows, states, data, start + 1)
    }
}

/// The first row whose event leaves out a generic parameter it must
/// mention, or the row count.
pub open spec fn first_unused_row(rows: Seq<StateTransition>, generics: Seq<GenericParam>) -> int {
    first_where(0, rows.len() as int, |r: int| misses_some_generic(rows[r], generics))
}

/// The first type or const parameter that the event of `row` leaves out.
pub open spec fn first_missed_param(row: StateTransition, generics: Seq<GenericParam>) -> int {
    first_where(0, generics.len() as int, |g: int| misses_generic(row, generics, g))
}

/// The first completion row taking its origin data by `&mut`, or the row
/// count.
pub open spec fn first_mutable_row(rows: Seq<StateTransition>) -> int {
    first_where(0, rows.len() as int, |r: int| mutable_completion(rows[r]))
}

/// The number of rows marked as the start.
pub open spec fn start_count(rows: Seq<StateTransition>, count: int) -> nat
    decreases count,
{
    if count <= 0 || count > rows.len() {
        0
    } else if rows[count - 1].in_state.start {
        start_count(rows, count - 1) + 1
    } else {
        start_count(rows, count - 1)
    }
}

/// The first failure of the analysis of `sm`, in the order the checks run,
/// or `None` when the table is accepted.
pub open spec fn analysis_error(sm: StateMachine) -> Option<AnalysisError> {
    let rows = sm.transitions@;
    let generics = sm.event_generics@;
    let unused_row = first_unused_row(rows, generics);
    let completion_row = first_mutable_row(rows);
    if queues_generic_events(sm) {
        Some(AnalysisError::GenericEventQueue)
    } else if unused_row < rows.len() {
        Some(
            AnalysisError::UnusedGenericParameter {
                row: unused_row as usize,
                param: first_missed_param(rows[unused_row], generics) as usize,
            },
        )
    } else if completion_row < rows.len() {
        Some(AnalysisError::MutableCompletionData { row: completion_row as usize })
    } else if start_count(rows, rows.len() as int) == 0 {
        Some(AnalysisError::NoStartingState)
    } else if start_count(rows, rows.len() as int) > 1 {
        Some(AnalysisError::MultipleStartingStates)
    } else {
        match collect_rows(rows, rows.len() as int) {
            Err(error) => Some(error),
            Ok((states, events)) => mapping_error_from(
                rows,
                states_of(rows, rows.len() as int),
                states,
                0,
            ),
        }
    }
}

/// What `first_where` finds.
pub(crate) proof fn lemma_first_where(start: int, count: int, holds: spec_fn(int) -> bool)
    requires
        start <= count,
    ensures
        start <= first_where(start, count, holds) <= count,
        first_where(start, count, holds) < count ==> holds(first_where(start, count, holds)),
        forall|i: int| start <= i < first_where(start, count, holds) ==> !#[trigger] holds(i),
    decreases count - start,
{
    if start < count && !holds(start) {
        lemma_first_where(start + 1, count, holds);
    }
}

/// `first_where` is the index before which nothing holds and at which,
/// unless it is `count`, something does.
pub(crate) proof fn lemma_first_where_is(start: int, count: int, holds: spec_fn(int) -> bool, found: int)
    requires
        start <= found <= count,
        found < count ==> holds(found),
        forall|i: int| start <= i < found ==> !#[trigger] holds(i),
    ensures
        first_where(start, count, holds) == found,
{
    lemma_first_where(start, count, holds);
    let first = first_where(start, count, holds);
    if first < found {
        assert(!holds(first));
    } else if found < first {
        assert(!holds(found));
    }
}

/// Reports whether a machine with generic events defers or queues events.
fn queues_generic_events_in(sm: &StateMachine) -> (queues: bool)
    ensures
        queues == queues_generic_events(*sm),
{
    if sm.event_generics.len() == 0 {
        return false;
    }
    let mut index: usize = 0;
    while index < sm.transitions.len()
        invariant
            sm.event_generics.len() > 0,
            forall|i: int|
                0 <= i < index ==> !((#[trigger] sm.transitions@[i]).defer
                    || sm.transitions@[i].process_events.len() > 0),
        decreases sm.transitions.len() - index,
    {
        let row = &sm.transitions[index];
        if row.defer || row.process_events.len() > 0 {
            assert(sm.transitions@[index as int] == *row);
            return true;
        }
        index = index + 1;
    }
    false
}

/// Reports whether `ty` mentions some parameter of `generics`.
fn uses_some_generic(ty: &TypeShape, generics: &Vec<GenericParam>) -> (used: bool)
    ensures
        used == exists|g: int| 0 <= g < generics.len() && uses_param(*ty, #[trigger] generics@[g]),
{
    let mut index: usize = 0;
    while index < generics.len()
        invariant
            forall|g: int| 0 <= g < index ==> !uses_param(*ty, #[trigger] generics@[g]),
        decreases generics.len() - index,
    {
        if type_uses_generic_param(ty, &generics[index]) {
            return true;
        }
        index = index + 1;
    }
    false
}

/// The first type or const parameter that the payload of `row`'s event
/// leaves out, when it must mention them all.
fn first_missed_generic(row: &StateTransition, generics: &Vec<GenericParam>) -> (missed: Option<usize>)
    ensures
        missed is Some <==> misses_some_generic(*row, generics@),
        missed matches Some(g) ==> g == first_missed_param(*row, generics@),
{
    let data_type = match &row.event.data_type {
        Some(data_type) => data_type,
        None => return None,
    };
    if !row.event.external && !uses_some_generic(&data_type.shape, generics) {
        return None;
    }
    let mut index: usize = 0;
    while index < generics.len()
        invariant
            row.event.data_type == Some(*data_type),
            must_use_generics(*row, generics@),
            forall|g: int| 0 <= g < index ==> !misses_generic(*row, generics@, g),
        decreases generics.len() - index,
    {
        let value_param = match &generics[index] {
            GenericParam::Lifetime(_) => false,
            _ => true,
        };
        if value_param && !type_uses_generic_param(&data_type.shape, &generics[index]) {
            proof {
                let holds = |g: int| misses_generic(*row, generics@, g);
                assert(misses_generic(*row, generics@, index as int));
                assert(holds(index as int));
                lemma_first_where_is(0, generics.len() as int, holds, index as int);
            }
            return Some(index);
        }
        index = index + 1;
    }
    None
}

/// The first row whose event leaves out a generic parameter it must
/// mention, with that parameter.
fn first_unused_generic(rows: &Vec<StateTransition>, generics: &Vec<GenericParam>) -> (found: Option<(usize, usize)>)
    ensures
        ({
            let first = first_unused_row(rows@, generics@);
            &&& found is None <==> first == rows.len()
            &&& first <= rows.len()
            &&& found matches Some((row, param)) ==> row == first && param == first_missed_param(
                rows@[first],
                generics@,
            )
        }),
{
    let mut index: usize = 0;
    while index < rows.len()
        invariant
            forall|r: int| 0 <= r < index ==> !misses_some_generic(rows@[r], generics@),
        decreases rows.len() - index,
    {
        if let Some(param) = first_missed_generic(&rows[index], generics) {
            proof {
                let holds = |r: int| misses_some_generic(rows@[r], generics@);
                assert(holds(index as int));
                lemma_first_where_is(0, rows.len() as int, holds, index as int);
            }
            return Some((index, param));
        }
        index = index + 1;
    }
    proof {
        let holds = |r: int| misses_some_generic(rows@[r], generics@);
        lemma_first_where_is(0, rows.len() as int, holds, rows.len() as int);
    }
    None
}

/// The first completion row that takes its origin data by `&mut`.
fn first_mutable_completion(rows: &Vec<StateTransition>) -> (found: Option<usize>)
    ensures
        ({
            let first = first_mutable_row(rows@);
            &&& found is None <==> first == rows.len()
            &&& first <= rows.len()
            &&& found matches Some(row) ==> row == first
        }),
{
    let mut index: usize = 0;
    while index < rows.len()
        invariant
            forall|r: int| 0 <= r < index ==> !mutable_completion(rows@[r]),
        decreases rows.len() - index,
    {
        let row = &rows[index];
        let mutable = row.event.kind == EventKind::Completion && match &row.event.data_type {
            Some(data_type) => match &data_type.shape {
                TypeShape::Reference { mutable, .. } => *mutable,
                _ => false,
            },
            None => false,
        };
        if mutable {
            proof {
                let holds = |r: int| mutable_completion(rows@[r]);
                assert(holds(index as int));
                lemma_first_where_is(0, rows.len() as int, holds, index as int);
            }
            return Some(index);
        }
        index = index + 1;
    }
    proof {
        let holds = |r: int| mutable_completion(rows@[r]);
        lemma_first_where_is(0, rows.len() as int, holds, rows.len() as int);
    }
    None
}

/// The count of start rows only grows with more rows.
proof fn lemma_start_count_grows(rows: Seq<StateTransition>, count: int, later: int)
    requires
        0 <= count <= later <= rows.len(),
    ensures
        start_count(rows, count) <= start_count(rows, later),
    decreases later - count,
{
    if count < later {
        lemma_start_count_grows(rows, count, later - 1);
    }
}

/// The row that marks the starting state, when exactly one does.
pub(crate) fn starting_row(rows: &Vec<StateTransition>) -> (found: Result<usize, AnalysisError>)
    ensures
        start_count(rows@, rows.len() as int) == 0 ==> found == Err::<usize, AnalysisError>(
            AnalysisError::NoStartingState,
        ),
        start_count(rows@, rows.len() as int) > 1 ==> found == Err::<usize, AnalysisError>(
            AnalysisError::MultipleStartingStates,
        ),
        start_count(rows@, rows.len() as int) == 1 ==> (found matches Ok(row) && row < rows.len()
            && rows@[row as int].in_state.start),
{
    let mut first: Option<usize> = None;
    let mut index: usize = 0;
    while index < rows.len()
        invariant
            index <= rows.len(),
            first is None ==> start_count(rows@, index as int) == 0,
            first matches Some(row) ==> start_count(rows@, index as int) == 1 && row < index
                && rows@[row as int].in_state.start,
        decreases rows.len() - index,
    {
        if rows[index].in_state.start {
            if first.is_some() {
                proof {
                    lemma_start_count_grows(rows@, index + 1, rows.len() as int);
                }
                return Err(AnalysisError::MultipleStartingStates);
            }
            first = Some(index);
        }
        index = index + 1;
    }
    match first {
        Some(row) => Ok(row),
        None => Err(AnalysisError::NoStartingState),
    }
}

/// Once recording has failed, further rows change nothing.
proof fn lemma_collect_stops(rows: Seq<StateTransition>, count: int, later: int)
    requires
        0 < count <= later <= rows.len(),
        collect_rows(rows, count) is Err,
    ensures
        collect_rows(rows, later) == collect_rows(rows, count),
    decreases later - count,
{
    if count < later {
        lemma_collect_stops(rows, count, later - 1);
    }
}

/// Where `name` stands in `names`, if it does.
fn position_of(names: &Vec<String>, name: &String) -> (found: Option<usize>)
    ensures
        found matches Some(i) ==> i < names@.len() && names@[i as int]@ == name@,
        found is None ==> !name_views(names@).contains(name@),
{
    let mut index: usize = 0;
    while index < names.len()
        invariant
            forall|j: int| 0 <= j < index ==> names@[j]@ != name@,
        decreases names.len() - index,
    {
        if names[index] == *name {
            return Some(index);
        }
        index = index + 1;
    }
    proof {
        if name_views(names@).contains(name@) {
            let j = choose|j: int| 0 <= j < name_views(names@).len() && name_views(names@)[j] == name@;
            assert(names@[j]@ == name@);
        }
    }
    None
}

/// Adds `name` at the end of `names` unless it is there already.
pub(crate) fn insert_name_into(names: &mut Vec<String>, name: &String)
    ensures
        name_views(final(names)@) == insert_name(name_views(old(names)@), name@),
{
    match position_of(names, name) {
        Some(i) => {
            proof {
                assert(name_views(names@)[i as int] == name@);
            }
        },
        None => {
            names.push(name.clone());
            assert(name_views(names@) =~= name_views(old(names)@).push(name@));
        },
    }
}

/// The payload type of a row's target, as `out_data` describes it.
fn row_out_data(row: &StateTransition) -> (data: Option<&DataType>)
    ensures
        data is Some <==> out_data(*row) is Some,
        data is Some ==> *data->0 == out_data(*row)->0,
{
    if row.out_state.internal_transition {
        row.in_state.data_type.as_ref()
    } else {
        row.out_state.data_type.as_ref()
    }
}

/// The name of a row's target, as `out_name` describes it for its source.
fn row_out_name(row: &StateTransition) -> (name: &String)
    ensures
        name@ == out_name(*row, row.in_state.ident@),
{
    if row.out_state.internal_transition {
        &row.in_state.ident
    } else {
        &row.out_state.ident
    }
}

/// The states, state payloads, events and event payloads that a table's
/// rows name, or the first payload that cannot be recorded.
fn collect_data(rows: &Vec<StateTransition>) -> (result: Result<
    (Vec<String>, DataDefinitions, Vec<String>, DataDefinitions),
    AnalysisError,
>)
    ensures
        match collect_rows(rows@, rows.len() as int) {
            Err(error) => result == Err::<
                (Vec<String>, DataDefinitions, Vec<String>, DataDefinitions),
                AnalysisError,
            >(error),
            Ok((state_view, event_view)) => result matches Ok((states, state_data, events, event_data))
                && name_views(states@) == states_of(rows@, rows.len() as int) && state_data.wf()
                && state_data@ == state_view && name_views(events@) == events_of(
                rows@,
                rows.len() as int,
            ) && event_data.wf() && event_data@ == event_view,
        },
{
    let mut states: Vec<String> = Vec::new();
    let mut state_data = DataDefinitions::new();
    let mut events: Vec<String> = Vec::new();
    let mut event_data = DataDefinitions::new();
    let mut index: usize = 0;
    assert(name_views(states@) =~= Seq::<Seq<char>>::empty());
    assert(name_views(events@) =~= Seq::<Seq<char>>::empty());
    assert(state_data@ == empty_data());
    while index < rows.len()
        invariant
            index <= rows.len(),
            state_data.wf(),
            event_data.wf(),
            name_views(states@) == states_of(rows@, index as int),
            name_views(events@) == events_of(rows@, index as int),
            collect_rows(rows@, index as int) == Ok::<(DataView, DataView), AnalysisError>(
                (state_data@, event_data@),
            ),
        decreases rows.len() - index,
    {
        let row = &rows[index];
        assert(*row == rows@[index as int]);
        let ghost before_states = name_views(states@);
        if !row.in_state.wildcard {
            insert_name_into(&mut states, &row.in_state.ident);
            match state_data.record(row.in_state.ident.clone(), row.in_state.data_type.as_ref()) {
                Ok(()) => {},
                Err(error) => {
                    proof {
                        lemma_collect_stops(rows@, index + 1, rows.len() as int);
                    }
                    return Err(AnalysisError::StateData { row: index, error });
                },
            }
        }
        let ghost after_source = name_views(states@);
        if !(row.out_state.internal_transition && row.in_state.wildcard) {
            let target = row_out_name(row);
            insert_name_into(&mut states, target);
            match state_data.record(target.clone(), row_out_data(row)) {
                Ok(()) => {},
                Err(error) => {
                    proof {
                        lemma_collect_stops(rows@, index + 1, rows.len() as int);
                    }
                    return Err(AnalysisError::StateData { row: index, error });
                },
            }
        }
        proof {
            let listed = row_states(*row);
            let source: Seq<Seq<char>> = if row.in_state.wildcard {
                Seq::empty()
            } else {
                seq![row.in_state.ident@]
            };
            assert(after_source == insert_names(before_states, source)) by {
                assert(insert_names(before_states, Seq::empty()) == before_states);
                if !row.in_state.wildcard {
                    assert(source.drop_last() =~= Seq::<Seq<char>>::empty());
                    assert(source.last() == row.in_state.ident@);
                } else {
                    assert(source =~= Seq::<Seq<char>>::empty());
                }
            }
            if has_out_state(*row) {
                assert(listed.drop_last() =~= source);
            } else {
                assert(listed =~= source);
            }
            assert(name_views(states@) == insert_names(before_states, listed));
        }
        let names_an_event = !row.event.wildcard && match row.event.kind {
            EventKind::Entry | EventKind::Exit | EventKind::Exception => false,
            _ => true,
        };
        if names_an_event {
            insert_name_into(&mut events, &row.event.ident);
            let records = match row.event.kind {
                EventKind::Completion => row.event.data_type.is_some(),
                _ => true,
            };
            if records {
                match event_data.record(row.event.ident.clone(), row.event.data_type.as_ref()) {
                    Ok(()) => {},
                    Err(error) => {
                        proof {
                            lemma_collect_stops(rows@, index + 1, rows.len() as int);
                        }
                        return Err(AnalysisError::EventData { row: index, error });
                    },
                }
            }
        }
        index = index + 1;
    }
    Ok((states, state_data, events, event_data))
}

/// The key of a mapping's trigger.
pub open spec fn mapping_key(mapping: EventMapping) -> Seq<char> {
    event_key_text(mapping.event_kind, mapping.event_wildcard, mapping.event@)
}

/// Whether some row names the event `name` as an outside type.
pub open spec fn external_event(rows: Seq<StateTransition>, name: Seq<char>) -> bool {
    exists|r: int|
        0 <= r < rows.len() && (#[trigger] rows[r]).event.external && rows[r].event.ident@ == name
}

/// `transition` is what `row` selects in `state`: its guard and actions, and
/// the target it reaches from there.
pub open spec fn transition_copies(transition: Transition, row: StateTransition, state: Seq<char>) -> bool {
    &&& transition.guard == row.guard
    &&& transition.action == row.action
    &&& transition.additional_actions@ == row.additional_actions@
    &&& transition.process_events@ == row.process_events@
    &&& transition.defer == row.defer
    &&& transition.eval_actions@ == row.eval_actions@
    &&& transition.default_output == row.out_state.composite is Some
    &&& transition.out_state@ == out_name(row, state)
    &&& transition.internal_transition == row.internal_transition
}

/// `mapping` holds, in row order, the transitions that the first `count`
/// rows select for its trigger in `state`, and names the trigger as the
/// first of those rows does.
pub open spec fn entry_describes(
    mapping: EventMapping,
    rows: Seq<StateTransition>,
    state: Seq<char>,
    count: int,
) -> bool {
    let selected = contributing_rows(rows, state, mapping_key(mapping), count);
    &&& selected.len() > 0
    &&& mapping.in_state@ == state
    &&& mapping.event@ == rows[selected[0]].event.ident@
    &&& mapping.event_kind == rows[selected[0]].event.kind
    &&& mapping.event_wildcard == rows[selected[0]].event.wildcard
    &&& mapping.event_external == external_event(rows, mapping.event@)
    &&& mapping.transitions@.len() == selected.len()
    &&& forall|t: int|
        0 <= t < selected.len() ==> transition_copies(
            #[trigger] mapping.transitions@[t],
            rows[selected[t]],
            state,
        )
}

/// `events` is the transition map of `state` after the first `count` rows:
/// one entry per trigger that some of those rows select in `state`, each
/// describing its transitions.
pub open spec fn state_describes(
    events: StateEvents,
    rows: Seq<StateTransition>,
    state: Seq<char>,
    count: int,
) -> bool {
    &&& events.state@ == state
    &&& forall|i: int, j: int|
        0 <= i < j < events.mappings.len() ==> mapping_key(events.mappings@[i]) != mapping_key(
            events.mappings@[j],
        )
    &&& forall|i: int|
        0 <= i < events.mappings.len() ==> entry_describes(
            #[trigger] events.mappings@[i],
            rows,
            state,
            count,
        )
    &&& forall|key: Seq<char>|
        #[trigger] contributing_rows(rows, state, key, count).len() > 0 ==> exists|i: int|
            0 <= i < events.mappings.len() && mapping_key(events.mappings@[i]) == key
}

/// A trigger is covered in a state exactly when some row selects a
/// transition for it there.
proof fn lemma_covered_iff_selected(
    rows: Seq<StateTransition>,
    state: Seq<char>,
    key: Seq<char>,
    count: int,
)
    requires
        0 <= count <= rows.len(),
    ensures
        contributing_rows(rows, state, key, count).len() > 0 <==> key_covered_before(
            rows,
            count,
            state,
            key,
        ),
    decreases count,
{
    if count > 0 {
        lemma_covered_iff_selected(rows, state, key, count - 1);
        let last = count - 1;
        if key_covered_before(rows, count, state, key) && !key_covered_before(
            rows,
            last,
            state,
            key,
        ) {
            let r = choose|r: int|
                0 <= r < count && row_key(#[trigger] rows[r]) == key && (rows[r].in_state.wildcard
                    || rows[r].in_state.ident@ == state);
            if r < last {
                assert(key_covered_before(rows, last, state, key));
            }
            assert(contributes(rows, last, state, key));
        }
        if contributing_rows(rows, state, key, count).len() > 0 && !key_covered_before(
            rows,
            last,
            state,
            key,
        ) {
            assert(contributes(rows, last, state, key));
            assert(row_key(rows[last]) == key);
        }
    }
}

/// Rows before `count` that select nothing in a state keep selecting
/// nothing, and a later row adds itself at the end when it selects.
proof fn lemma_selected_prefix(
    rows: Seq<StateTransition>,
    state: Seq<char>,
    key: Seq<char>,
    count: int,
)
    requires
        0 <= count < rows.len(),
    ensures
        contributing_rows(rows, state, key, count + 1) == if contributes(rows, count, state, key) {
            contributing_rows(rows, state, key, count).push(count)
        } else {
            contributing_rows(rows, state, key, count)
        },
{
}

/// A state's map after a row that selects nothing there.
proof fn lemma_describes_unchanged(
    events: StateEvents,
    rows: Seq<StateTransition>,
    state: Seq<char>,
    count: int,
)
    requires
        0 <= count < rows.len(),
        state_describes(events, rows, state, count),
        forall|key: Seq<char>| !contributes(rows, count, state, key),
    ensures
        state_describes(events, rows, state, count + 1),
{
    assert forall|key: Seq<char>|
        contributing_rows(rows, state, key, count + 1) == contributing_rows(
            rows,
            state,
            key,
            count,
        ) by {
        lemma_selected_prefix(rows, state, key, count);
    }
    assert forall|i: int| 0 <= i < events.mappings.len() implies entry_describes(
        #[trigger] events.mappings@[i],
        rows,
        state,
        count + 1,
    ) by {
        let key = mapping_key(events.mappings@[i]);
        assert(contributing_rows(rows, state, key, count + 1) == contributing_rows(
            rows,
            state,
            key,
            count,
        ));
    }
    assert forall|key: Seq<char>|
        #[trigger] contributing_rows(rows, state, key, count + 1).len() > 0 implies exists|i: int|
        0 <= i < events.mappings.len() && mapping_key(events.mappings@[i]) == key by {
        assert(contributing_rows(rows, state, key, count + 1) == contributing_rows(
            rows,
            state,
            key,
            count,
        ));
    }
}

/// A copy of a callback name.
pub(crate) fn copy_callback(callback: &AsyncIdent) -> (copy: AsyncIdent)
    ensures
        copy == *callback,
{
    AsyncIdent { ident: callback.ident.clone(), is_async: callback.is_async }
}

/// A copy of a list of callbacks.
pub(crate) fn copy_callbacks(callbacks: &Vec<AsyncIdent>) -> (copy: Vec<AsyncIdent>)
    ensures
        copy@ == callbacks@,
{
    let mut copy: Vec<AsyncIdent> = Vec::new();
    let mut index: usize = 0;
    while index < callbacks.len()
        invariant
            index <= callbacks.len(),
            copy@ == callbacks@.take(index as int),
        decreases callbacks.len() - index,
    {
        copy.push(copy_callback(&callbacks[index]));
        assert(copy@ =~= callbacks@.take(index + 1));
        index = index + 1;
    }
    assert(callbacks@.take(index as int) =~= callbacks@);
    copy
}

/// A copy of a list of texts.
fn copy_texts(texts: &Vec<String>) -> (copy: Vec<String>)
    ensures
        copy@ == texts@,
{
    let mut copy: Vec<String> = Vec::new();
    let mut index: usize = 0;
    while index < texts.len()
        invariant
            index <= texts.len(),
            copy@ == texts@.take(index as int),
        decreases texts.len() - index,
    {
        copy.push(texts[index].clone());
        assert(copy@ =~= texts@.take(index + 1));
        index = index + 1;
    }
    assert(texts@.take(index as int) =~= texts@);
    copy
}

/// A copy of a list of `eval` steps.
fn copy_eval_actions(steps: &Vec<EvalAction>) -> (copy: Vec<EvalAction>)
    ensures
        copy@ == steps@,
{
    let mut copy: Vec<EvalAction> = Vec::new();
    let mut index: usize = 0;
    while index < steps.len()
        invariant
            index <= steps.len(),
            copy@ == steps@.take(index as int),
        decreases steps.len() - index,
    {
        let step = &steps[index];
        copy.push(
            EvalAction {
                position: step.position,
                guard: step.guard.clone(),
                action: copy_callback(&step.action),
            },
        );
        assert(copy@ =~= steps@.take(index + 1));
        index = index + 1;
    }
    assert(steps@.take(index as int) =~= steps@);
    copy
}

/// The transition that `row` selects in the state `state`.
fn copy_transition(row: &StateTransition, state: &String) -> (transition: Transition)
    ensures
        transition_copies(transition, *row, state@),
{
    Transition {
        guard: match &row.guard {
            Some(guard) => Some(guard.clone()),
            None => None,
        },
        action: match &row.action {
            Some(action) => Some(copy_callback(action)),
            None => None,
        },
        additional_actions: copy_callbacks(&row.additional_actions),
        process_events: copy_texts(&row.process_events),
        defer: row.defer,
        eval_actions: copy_eval_actions(&row.eval_actions),
        default_output: row.out_state.composite.is_some(),
        out_state: if row.out_state.internal_transition {
            state.clone()
        } else {
            row.out_state.ident.clone()
        },
        internal_transition: row.internal_transition,
    }
}

/// Whether some row names the event `name` as an outside type.
fn is_external_event(rows: &Vec<StateTransition>, name: &String) -> (external: bool)
    ensures
        external == external_event(rows@, name@),
{
    let mut index: usize = 0;
    while index < rows.len()
        invariant
            forall|r: int|
                0 <= r < index ==> !((#[trigger] rows@[r]).event.external && rows@[r].event.ident@
                    == name@),
        decreases rows.len() - index,
    {
        if rows[index].event.external && rows[index].event.ident == *name {
            assert(rows@[index as int] == rows[index as int]);
            return true;
        }
        index = index + 1;
    }
    false
}

/// Where the entry for the trigger `key` stands in a state's map.
fn entry_index(events: &StateEvents, key: &String) -> (found: Option<usize>)
    ensures
        found matches Some(i) ==> i < events.mappings.len() && mapping_key(events.mappings@[i as int])
            == key@,
        found is None ==> forall|i: int|
            0 <= i < events.mappings.len() ==> mapping_key(#[trigger] events.mappings@[i]) != key@,
{
    let mut index: usize = 0;
    while index < events.mappings.len()
        invariant
            forall|i: int|
                0 <= i < index ==> mapping_key(#[trigger] events.mappings@[i]) != key@,
        decreases events.mappings.len() - index,
    {
        let mapping = &events.mappings[index];
        let mapping_trigger = trigger_key(mapping.event_kind, mapping.event_wildcard, &mapping.event);
        if mapping_trigger == *key {
            return Some(index);
        }
        index = index + 1;
    }
    None
}

/// Adds the transition that row `index` selects for `key` in the state of
/// `events`, to that trigger's entry or to a new one.
fn add_to_state(events: &mut StateEvents, rows: &Vec<StateTransition>, index: usize, key: &String)
    requires
        index < rows.len(),
        key@ == row_key(rows@[index as int]),
        state_describes(*old(events), rows@, old(events).state@, index as int),
        contributes(rows@, index as int, old(events).state@, key@),
    ensures
        state_describes(*final(events), rows@, old(events).state@, index + 1),
{
    let ghost state = events.state@;
    let ghost count = index as int;
    let ghost old_mappings = events.mappings@;
    let row = &rows[index];
    assert(*row == rows@[count]);
    let transition = copy_transition(row, &events.state);
    proof {
        assert forall|other: Seq<char>| other != key@ implies contributing_rows(
            rows@,
            state,
            other,
            count + 1,
        ) == contributing_rows(rows@, state, other, count) by {
            lemma_selected_prefix(rows@, state, other, count);
        }
        lemma_selected_prefix(rows@, state, key@, count);
    }
    match entry_index(events, key) {
        Some(j) => {
            let mut mapping = events.mappings.remove(j);
            let ghost old_entry = mapping;
            mapping.transitions.push(transition);
            events.mappings.insert(j, mapping);
            proof {
                assert(events.mappings@ =~= old_mappings.update(j as int, mapping));
                let selected = contributing_rows(rows@, state, key@, count);
                assert(entry_describes(old_entry, rows@, state, count));
                assert(contributing_rows(rows@, state, key@, count + 1) == selected.push(count));
                assert forall|t: int|
                    0 <= t < selected.len() + 1 implies transition_copies(
                    #[trigger] mapping.transitions@[t],
                    rows@[selected.push(count)[t]],
                    state,
                ) by {
                    if t < selected.len() {
                        assert(mapping.transitions@[t] == old_entry.transitions@[t]);
                    }
                }
                assert(entry_describes(mapping, rows@, state, count + 1));
                assert forall|i: int| 0 <= i < events.mappings.len() implies entry_describes(
                    #[trigger] events.mappings@[i],
                    rows@,
                    state,
                    count + 1,
                ) by {
                    if i != j {
                        assert(events.mappings@[i] == old_mappings[i]);
                        assert(entry_describes(old_mappings[i], rows@, state, count));
                        assert(mapping_key(old_mappings[i]) != key@);
                    }
                }
                assert forall|other: Seq<char>|
                    #[trigger] contributing_rows(rows@, state, other, count + 1).len()
                        > 0 implies exists|i: int|
                    0 <= i < events.mappings.len() && mapping_key(events.mappings@[i]) == other by {
                    if other == key@ {
                        assert(mapping_key(events.mappings@[j as int]) == other);
                    } else {
                        assert(contributing_rows(rows@, state, other, count).len() > 0);
                        let i = choose|i: int|
                            0 <= i < old_mappings.len() && mapping_key(old_mappings[i]) == other;
                        assert(i != j);
                        assert(events.mappings@[i] == old_mappings[i]);
                    }
                }
                assert forall|i: int, k: int|
                    0 <= i < k < events.mappings.len() implies mapping_key(events.mappings@[i])
                    != mapping_key(events.mappings@[k]) by {
                    assert(mapping_key(events.mappings@[i]) == mapping_key(old_mappings[i]));
                    assert(mapping_key(events.mappings@[k]) == mapping_key(old_mappings[k]));
                }
            }
        },
        None => {
            let mut transitions: Vec<Transition> = Vec::new();
            transitions.push(transition);
            let mapping = EventMapping {
                in_state: events.state.clone(),
                event: row.event.ident.clone(),
                event_kind: row.event.kind,
                event_wildcard: row.event.wildcard,
                event_external: is_external_event(rows, &row.event.ident),
                transitions,
            };
            events.mappings.push(mapping);
            proof {
                assert(events.mappings@ =~= old_mappings.push(mapping));
                if contributing_rows(rows@, state, key@, count).len() > 0 {
                    let i = choose|i: int|
                        0 <= i < old_mappings.len() && mapping_key(old_mappings[i]) == key@;
                    assert(mapping_key(old_mappings[i]) != key@);
                }
                let selected = contributing_rows(rows@, state, key@, count + 1);
                assert(selected =~= seq![count]);
                assert(mapping_key(mapping) == key@);
                assert(transition_copies(mapping.transitions@[0], rows@[selected[0]], state));
                assert(entry_describes(mapping, rows@, state, count + 1));
                assert forall|i: int| 0 <= i < events.mappings.len() implies entry_describes(
                    #[trigger] events.mappings@[i],
                    rows@,
                    state,
                    count + 1,
                ) by {
                    if i < old_mappings.len() {
                        assert(events.mappings@[i] == old_mappings[i]);
                        assert(entry_describes(old_mappings[i], rows@, state, count));
                        assert(mapping_key(old_mappings[i]) != key@);
                    }
                }
                assert forall|other: Seq<char>|
                    #[trigger] contributing_rows(rows@, state, other, count + 1).len()
                        > 0 implies exists|i: int|
                    0 <= i < events.mappings.len() && mapping_key(events.mappings@[i]) == other by {
                    if other == key@ {
                        assert(mapping_key(events.mappings@[old_mappings.len() as int]) == other);
                    } else {
                        assert(contributing_rows(rows@, state, other, count).len() > 0);
                        let i = choose|i: int|
                            0 <= i < old_mappings.len() && mapping_key(old_mappings[i]) == other;
                        assert(events.mappings@[i] == old_mappings[i]);
                    }
                }
                assert forall|i: int, k: int|
                    0 <= i < k < events.mappings.len() implies mapping_key(events.mappings@[i])
                    != mapping_key(events.mappings@[k]) by {
                    assert(events.mappings@[i] == old_mappings[i]);
                    if k < old_mappings.len() {
                        assert(events.mappings@[k] == old_mappings[k]);
                    }
                }
            }
        },
    }
}

/// The states of a table are distinct and include every state its rows
/// name.
proof fn lemma_states_of(rows: Seq<StateTransition>, count: int)
    requires
        0 <= count <= rows.len(),
    ensures
        states_of(rows, count).no_duplicates(),
        forall|r: int, i: int|
            0 <= r < count && 0 <= i < row_states(rows[r]).len() ==> states_of(rows, count).contains(
                #[trigger] row_states(rows[r])[i],
            ),
    decreases count,
{
    if count > 0 {
        lemma_states_of(rows, count - 1);
        let before = states_of(rows, count - 1);
        law_inserted_names_are_distinct(before, row_states(rows[count - 1]));
        assert forall|r: int, i: int|
            0 <= r < count && 0 <= i < row_states(rows[r]).len() implies states_of(
            rows,
            count,
        ).contains(#[trigger] row_states(rows[r])[i]) by {
            if r < count - 1 {
                let j = choose|j: int| 0 <= j < before.len() && before[j] == row_states(rows[r])[i];
                assert(states_of(rows, count).contains(before[j]));
            }
        }
    }
}

/// Rows that add no failure do not change the first failure.
proof fn lemma_mapping_error_skip(
    rows: Seq<StateTransition>,
    states: Seq<Seq<char>>,
    data: DataView,
    start: int,
    later: int,
)
    requires
        0 <= start <= later <= rows.len(),
        forall|r: int| start <= r < later ==> #[trigger] row_mapping_error(rows, states, data, r) is None,
    ensures
        mapping_error_from(rows, states, data, start) == mapping_error_from(rows, states, data, later),
    decreases later - start,
{
    if start < later {
        lemma_mapping_error_skip(rows, states, data, start + 1, later);
    }
}

/// Where a state stands among distinct states is `index_of`.
proof fn lemma_index_of_distinct(names: Seq<Seq<char>>, position: int)
    requires
        names.no_duplicates(),
        0 <= position < names.len(),
    ensures
        names.index_of(names[position]) == position,
{
    let i = names.index_of(names[position]);
    assert(0 <= i < names.len() && names[i] == names[position]);
}

/// The name of the target that `row` reaches from `state`.
fn target_name<'a>(row: &'a StateTransition, state: &'a String) -> (name: &'a String)
    ensures
        name@ == out_name(*row, state@),
{
    if row.out_state.internal_transition {
        state
    } else {
        &row.out_state.ident
    }
}

/// Whether the transition `row` selects in `state` enters a state with a
/// payload without an action or composite default to provide it.
fn misses_data_action(row: &StateTransition, state: &String, data: &DataDefinitions) -> (missing: bool)
    requires
        data.wf(),
    ensures
        missing == lacks_data_action(*row, state@, data@),
{
    data.data_type(target_name(row, state)).is_some() && row.action.is_none()
        && row.out_state.composite.is_none()
}

/// Builds the transition map of every state, row by row, expanding wildcard
/// rows over the states that do not yet cover their trigger; fails at the
/// first row that enters a state with data without an action, or whose
/// wildcard applies nowhere.
fn build_mappings(
    rows: &Vec<StateTransition>,
    states: &Vec<String>,
    state_data: &DataDefinitions,
) -> (result: Result<Vec<StateEvents>, AnalysisError>)
    requires
        name_views(states@) == states_of(rows@, rows.len() as int),
        state_data.wf(),
    ensures
        match mapping_error_from(rows@, name_views(states@), state_data@, 0) {
            Some(error) => result == Err::<Vec<StateEvents>, AnalysisError>(error),
            None => result matches Ok(table) && table@.len() == states@.len() && forall|i: int|
                0 <= i < table@.len() ==> state_describes(
                    #[trigger] table@[i],
                    rows@,
                    states@[i]@,
                    rows.len() as int,
                ),
        },
{
    let ghost names = name_views(states@);
    let ghost data = state_data@;
    proof {
        lemma_states_of(rows@, rows.len() as int);
    }
    let mut table: Vec<StateEvents> = Vec::new();
    let mut filled: usize = 0;
    while filled < states.len()
        invariant
            names == name_views(states@),
            filled <= states.len(),
            table@.len() == filled,
            forall|i: int|
                0 <= i < filled ==> state_describes(#[trigger] table@[i], rows@, names[i], 0),
        decreases states.len() - filled,
    {
        let events = StateEvents { state: states[filled].clone(), mappings: Vec::new() };
        assert(state_describes(events, rows@, names[filled as int], 0));
        table.push(events);
        filled = filled + 1;
    }
    let mut index: usize = 0;
    while index < rows.len()
        invariant
            index <= rows.len(),
            names == name_views(states@),
            names == states_of(rows@, rows.len() as int),
            names.no_duplicates(),
            forall|r: int, i: int|
                0 <= r < rows.len() && 0 <= i < row_states(rows@[r]).len() ==> names.contains(
                    #[trigger] row_states(rows@[r])[i],
                ),
            data == state_data@,
            state_data.wf(),
            table@.len() == states@.len(),
            forall|i: int|
                0 <= i < table@.len() ==> state_describes(
                    #[trigger] table@[i],
                    rows@,
                    names[i],
                    index as int,
                ),
            mapping_error_from(rows@, names, data, 0) == mapping_error_from(
                rows@,
                names,
                data,
                index as int,
            ),
        decreases rows.len() - index,
    {
        let row = &rows[index];
        assert(*row == rows@[index as int]);
        let key = event_key(&row.event);
        if row.in_state.wildcard {
            let mut added = false;
            let mut position: usize = 0;
            while position < states.len()
                invariant
                    index < rows.len(),
                    *row == rows@[index as int],
                    row.in_state.wildcard,
                    key@ == row_key(*row),
                    names == name_views(states@),
                    names.no_duplicates(),
                    forall|r: int, i: int|
                        0 <= r < rows.len() && 0 <= i < row_states(rows@[r]).len() ==> names.contains(
                            #[trigger] row_states(rows@[r])[i],
                        ),
                    data == state_data@,
                    state_data.wf(),
                    mapping_error_from(rows@, names, data, 0) == mapping_error_from(
                        rows@,
                        names,
                        data,
                        index as int,
                    ),
                    position <= states.len(),
                    table@.len() == states@.len(),
                    forall|i: int|
                        0 <= i < position ==> state_describes(
                            #[trigger] table@[i],
                            rows@,
                            names[i],
                            index + 1,
                        ),
                    forall|i: int|
                        position <= i < table@.len() ==> state_describes(
                            #[trigger] table@[i],
                            rows@,
                            names[i],
                            index as int,
                        ),
                    added <==> exists|i: int|
                        0 <= i < position && !key_covered_before(
                            rows@,
                            index as int,
                            #[trigger] names[i],
                            key@,
                        ),
                    forall|i: int|
                        0 <= i < position ==> !(!key_covered_before(
                            rows@,
                            index as int,
                            #[trigger] names[i],
                            key@,
                        ) && lacks_data_action(*row, names[i], data)),
                decreases states.len() - position,
            {
                let ghost state = names[position as int];
                assert(states@[position as int]@ == state);
                proof {
                    lemma_covered_iff_selected(rows@, state, key@, index as int);
                }
                let present = entry_index(&table[position], &key).is_some();
                if present {
                    proof {
                        let entry = table@[position as int];
                        assert(state_describes(entry, rows@, state, index as int));
                        let j = choose|j: int| 0 <= j < entry.mappings.len() && mapping_key(entry.mappings@[j]) == key@;
                        assert(entry_describes(entry.mappings@[j], rows@, state, index as int));
                        assert(key_covered_before(rows@, index as int, state, key@));
                        assert forall|other: Seq<char>| !contributes(rows@, index as int, state, other) by {}
                        lemma_describes_unchanged(entry, rows@, state, index as int);
                    }
                } else {
                    proof {
                        let entry = table@[position as int];
                        assert(state_describes(entry, rows@, state, index as int));
                        if contributing_rows(rows@, state, key@, index as int).len() > 0 {
                            let j = choose|j: int| 0 <= j < entry.mappings.len() && mapping_key(entry.mappings@[j]) == key@;
                            assert(mapping_key(entry.mappings@[j]) != key@);
                        }
                        assert(!key_covered_before(rows@, index as int, state, key@));
                    }
                    let ghost before = table@;
                    let mut entry = table.remove(position);
                    add_to_state(&mut entry, rows, index, &key);
                    if misses_data_action(row, &states[position], state_data) {
                        let target = target_name(row, &states[position]);
                        let found = position_of(states, target);
                        proof {
                            let aimed = out_name(*row, state);
                            if !row.out_state.internal_transition {
                                assert(has_out_state(*row));
                                assert(row_states(*row)[row_states(*row).len() - 1] == aimed);
                                assert(names.contains(aimed));
                            } else {
                                assert(names[position as int] == aimed);
                            }
                            if found is None {
                                assert(name_views(states@).contains(aimed));
                            }
                        }
                        let target_index = found.unwrap();
                        proof {
                            lemma_index_of_distinct(names, target_index as int);
                            assert(names[target_index as int] == out_name(*row, state));
                            let holds = |s: int|
                                !key_covered_before(rows@, index as int, names[s], key@) && lacks_data_action(
                                    *row,
                                    names[s],
                                    data,
                                );
                            assert(holds(position as int));
                            lemma_first_where_is(0, names.len() as int, holds, position as int);
                            assert(row_mapping_error(rows@, names, data, index as int) == Some(
                                AnalysisError::MissingDataAction { row: index, target: target_index },
                            ));
                        }
                        return Err(AnalysisError::MissingDataAction { row: index, target: target_index });
                    }
                    table.insert(position, entry);
                    proof {
                        assert(table@ =~= before.update(position as int, entry));
                    }
                    added = true;
                }
                position = position + 1;
            }
            if !added {
                proof {
                    let holds = |s: int|
                        !key_covered_before(rows@, index as int, names[s], key@) && lacks_data_action(
                            *row,
                            names[s],
                            data,
                        );
                    lemma_first_where_is(0, names.len() as int, holds, names.len() as int);
                    assert forall|s: int| 0 <= s < names.len() implies key_covered_before(
                        rows@,
                        index as int,
                        #[trigger] names[s],
                        key@,
                    ) by {}
                    assert(row_mapping_error(rows@, names, data, index as int) == Some(
                        AnalysisError::WildcardHasNoEffect { row: index },
                    ));
                }
                return Err(AnalysisError::WildcardHasNoEffect { row: index });
            }
            proof {
                let holds = |s: int|
                    !key_covered_before(rows@, index as int, names[s], key@) && lacks_data_action(
                        *row,
                        names[s],
                        data,
                    );
                lemma_first_where_is(0, names.len() as int, holds, names.len() as int);
                let i = choose|i: int| 0 <= i < names.len() && !key_covered_before(
                    rows@,
                    index as int,
                    #[trigger] names[i],
                    key@,
                );
                assert(row_mapping_error(rows@, names, data, index as int) is None);
                lemma_mapping_error_skip(rows@, names, data, index as int, index + 1);
            }
        } else {
            let ghost state = row.in_state.ident@;
            proof {
                assert(row_states(*row)[0] == state);
                assert(names.contains(state));
            }
            let found = position_of(states, &row.in_state.ident);
            let position = found.unwrap();
            proof {
                assert(names[position as int] == state);
                assert forall|i: int| 0 <= i < table@.len() && i != position implies state_describes(
                    #[trigger] table@[i],
                    rows@,
                    names[i],
                    index + 1,
                ) by {
                    assert(names[i] != state);
                    assert forall|other: Seq<char>| !contributes(rows@, index as int, names[i], other) by {}
                    lemma_describes_unchanged(table@[i], rows@, names[i], index as int);
                }
            }
            let ghost before = table@;
            let mut entry = table.remove(position);
            proof {
                assert(entry == before[position as int]);
            }
            add_to_state(&mut entry, rows, index, &key);
            if misses_data_action(row, &row.in_state.ident, state_data) {
                let target = row_out_name(row);
                let target_found = position_of(states, target);
                proof {
                    let aimed = out_name(*row, state);
                    assert(has_out_state(*row));
                    assert(row_states(*row)[row_states(*row).len() - 1] == aimed);
                    assert(names.contains(aimed));
                    if target_found is None {
                        assert(name_views(states@).contains(aimed));
                    }
                }
                let target_index = target_found.unwrap();
                proof {
                    lemma_index_of_distinct(names, target_index as int);
                    assert(row_mapping_error(rows@, names, data, index as int) == Some(
                        AnalysisError::MissingDataAction { row: index, target: target_index },
                    ));
                }
                return Err(AnalysisError::MissingDataAction { row: index, target: target_index });
            }
            table.insert(position, entry);
            proof {
                assert(table@ =~= before.update(position as int, entry));
                assert(row_mapping_error(rows@, names, data, index as int) is None);
                lemma_mapping_error_skip(rows@, names, data, index as int, index + 1);
            }
        }
        index = index + 1;
    }
    proof {
        assert forall|i: int| 0 <= i < table@.len() implies state_describes(
            #[trigger] table@[i],
            rows@,
            states@[i]@,
            rows.len() as int,
        ) by {
            assert(names[i] == states@[i]@);
        }
    }
    Ok(table)
}

/// `parsed` is the analysis of the accepted table `sm`: its configuration
/// carried over; its states and events, each once in the order first met;
/// the starting state; the payload types recorded row by row; and, for each
/// state, the map from trigger to the transitions the rows select there.
pub open spec fn analysis_of(sm: StateMachine, parsed: ParsedStateMachine) -> bool {
    let rows = sm.transitions@;
    let count = rows.len() as int;
    &&& parsed.name == sm.name
    &&& parsed.states_attr == sm.states_attr
    &&& parsed.events_attr == sm.events_attr
    &&& parsed.temporary_context_type == sm.temporary_context_type
    &&& parsed.custom_error == sm.custom_error
    &&& parsed.entry_exit_async == sm.entry_exit_async
    &&& parsed.fixed_error_type == sm.fixed_error_type
    &&& parsed.event_generics == sm.event_generics
    &&& name_views(parsed.states@) == states_of(rows, count)
    &&& exists|r: int|
        0 <= r < count && (#[trigger] rows[r]).in_state.start && parsed.starting_state@
            == rows[r].in_state.ident@
    &&& parsed.state_data.wf()
    &&& parsed.event_data.wf()
    &&& collect_rows(rows, count) == Ok::<(DataView, DataView), AnalysisError>(
        (parsed.state_data@, parsed.event_data@),
    )
    &&& name_views(parsed.events@) == events_of(rows, count)
    &&& parsed.states_events_mapping@.len() == parsed.states@.len()
    &&& forall|i: int|
        0 <= i < parsed.states_events_mapping@.len() ==> state_describes(
            #[trigger] parsed.states_events_mapping@[i],
            rows,
            parsed.states@[i]@,
            count,
        )
}

impl ParsedStateMachine {
    /// Analyses a parsed table: checks its generic events, its completion
    /// data and its starting state, records the states, events and payload
    /// types its rows name, and builds every state's transition map, with
    /// wildcard rows expanded over the states. Fails with the first problem,
    /// in that order, as `analysis_error` describes.
    pub fn new(sm: StateMachine) -> (result: Result<ParsedStateMachine, AnalysisError>)
        ensures
            match analysis_error(sm) {
                Some(error) => result == Err::<ParsedStateMachine, AnalysisError>(error),
                None => result matches Ok(parsed) && analysis_of(sm, parsed),
            },
    {
        let ghost rows = sm.transitions@;
        let ghost generics = sm.event_generics@;
        if queues_generic_events_in(&sm) {
            return Err(AnalysisError::GenericEventQueue);
        }
        if let Some((row, param)) = first_unused_generic(&sm.transitions, &sm.event_generics) {
            return Err(AnalysisError::UnusedGenericParameter { row, param });
        }
        if let Some(row) = first_mutable_completion(&sm.transitions) {
            return Err(AnalysisError::MutableCompletionData { row });
        }
        let start = match starting_row(&sm.transitions) {
            Ok(start) => start,
            Err(error) => return Err(error),
        };
        let (states, state_data, events, event_data) = match collect_data(&sm.transitions) {
            Ok(collected) => collected,
            Err(error) => return Err(error),
        };
        let states_events_mapping = match build_mappings(&sm.transitions, &states, &state_data) {
            Ok(table) => table,
            Err(error) => return Err(error),
        };
        let starting_state = sm.transitions[start].in_state.ident.clone();
        assert(rows[start as int].in_state.start);
        let StateMachine {
            name,
            states_attr,
            events_attr,
            temporary_context_type,
            custom_error,
            transitions,
            entry_exit_async,
            fixed_error_type,
            event_generics,
        } = sm;
        Ok(
            ParsedStateMachine {
                name,
                states_attr,
                events_attr,
                temporary_context_type,
                custom_error,
                states,
                starting_state,
                state_data,
                events,
                event_data,
                states_events_mapping,
                entry_exit_async,
                fixed_error_type,
                event_generics,
            },
        )
    }
}

/// A row that selects a transition is among the rows selected for its
/// trigger in that state.
proof fn lemma_selected_contains(
    rows: Seq<StateTransition>,
    state: Seq<char>,
    key: Seq<char>,
    count: int,
    row: int,
)
    requires
        0 <= row < count <= rows.len(),
        contributes(rows, row, state, key),
    ensures
        exists|t: int|
            0 <= t < contributing_rows(rows, state, key, count).len() && #[trigger] contributing_rows(
                rows,
                state,
                key,
                count,
            )[t] == row,
    decreases count,
{
    if row < count - 1 {
        lemma_selected_contains(rows, state, key, count - 1, row);
        let before = contributing_rows(rows, state, key, count - 1);
        let t = choose|t: int| 0 <= t < before.len() && #[trigger] before[t] == row;
        lemma_selected_prefix(rows, state, key, count - 1);
        assert(contributing_rows(rows, state, key, count)[t] == row);
    } else {
        lemma_selected_prefix(rows, state, key, count - 1);
        let selected = contributing_rows(rows, state, key, count);
        assert(selected[selected.len() - 1] == row);
    }
}

/// In an analysed table, the transition that row `row` selects in the state
/// at `position` is in that state's map, under the row's trigger.
proof fn lemma_selected_transition_is_mapped(
    sm: StateMachine,
    parsed: ParsedStateMachine,
    row: int,
    position: int,
)
    requires
        analysis_of(sm, parsed),
        0 <= row < sm.transitions.len(),
        0 <= position < parsed.states@.len(),
        contributes(sm.transitions@, row, parsed.states@[position]@, row_key(sm.transitions@[row])),
    ensures
        exists|j: int, t: int|
            #![trigger parsed.states_events_mapping@[position].mappings@[j].transitions@[t]]
            0 <= j < parsed.states_events_mapping@[position].mappings.len() && {
                let mapping = parsed.states_events_mapping@[position].mappings@[j];
                &&& mapping_key(mapping) == row_key(sm.transitions@[row])
                &&& 0 <= t < mapping.transitions.len()
                &&& transition_copies(
                    mapping.transitions@[t],
                    sm.transitions@[row],
                    parsed.states@[position]@,
                )
            },
{
    let rows = sm.transitions@;
    let count = rows.len() as int;
    let state = parsed.states@[position]@;
    let key = row_key(rows[row]);
    let events = parsed.states_events_mapping@[position];
    assert(state_describes(events, rows, state, count));
    lemma_selected_contains(rows, state, key, count, row);
    let selected = contributing_rows(rows, state, key, count);
    let t = choose|t: int| 0 <= t < selected.len() && #[trigger] selected[t] == row;
    let j = choose|j: int|
        0 <= j < events.mappings.len() && mapping_key(#[trigger] events.mappings@[j]) == key;
    assert(entry_describes(events.mappings@[j], rows, state, count));
    assert(transition_copies(events.mappings@[j].transitions@[t], rows[selected[t]], state));
}

/// The states of an analysed table are distinct and include every state
/// that a row names: its source unless a wildcard, and its target unless it
/// is the internal target of a wildcard.
pub proof fn law_states_are_distinct_and_complete(sm: StateMachine, parsed: ParsedStateMachine)
    requires
        analysis_of(sm, parsed),
    ensures
        name_views(parsed.states@).no_duplicates(),
        forall|r: int, i: int|
            0 <= r < sm.transitions.len() && 0 <= i < row_states(sm.transitions@[r]).len()
                ==> name_views(parsed.states@).contains(#[trigger] row_states(sm.transitions@[r])[i]),
{
    lemma_states_of(sm.transitions@, sm.transitions.len() as int);
}

/// No row of an analysed table is lost: a row from a named state is in that
/// state's map, under its trigger, with its guard, actions and target.
pub proof fn law_own_rows_are_mapped(sm: StateMachine, parsed: ParsedStateMachine, row: int)
    requires
        analysis_of(sm, parsed),
        0 <= row < sm.transitions.len(),
        !sm.transitions@[row].in_state.wildcard,
    ensures
        exists|position: int, j: int, t: int|
            #![trigger parsed.states_events_mapping@[position].mappings@[j].transitions@[t]]
            0 <= position < parsed.states@.len() && parsed.states@[position]@
                == sm.transitions@[row].in_state.ident@ && 0 <= j
                < parsed.states_events_mapping@[position].mappings.len() && {
                let mapping = parsed.states_events_mapping@[position].mappings@[j];
                &&& mapping_key(mapping) == row_key(sm.transitions@[row])
                &&& 0 <= t < mapping.transitions.len()
                &&& transition_copies(
                    mapping.transitions@[t],
                    sm.transitions@[row],
                    sm.transitions@[row].in_state.ident@,
                )
            },
{
    let rows = sm.transitions@;
    let state = rows[row].in_state.ident@;
    law_states_are_distinct_and_complete(sm, parsed);
    assert(row_states(rows[row])[0] == state);
    let names = name_views(parsed.states@);
    assert(names.contains(state));
    let position = choose|p: int| 0 <= p < names.len() && names[p] == state;
    assert(parsed.states@[position]@ == state);
    lemma_selected_transition_is_mapped(sm, parsed, row, position);
}

/// A wildcard row reaches every state of an analysed table in which no
/// earlier row already covers its trigger: that state's map holds the row's
/// transition from there.
pub proof fn law_wildcards_fill_uncovered_states(
    sm: StateMachine,
    parsed: ParsedStateMachine,
    row: int,
    position: int,
)
    requires
        analysis_of(sm, parsed),
        0 <= row < sm.transitions.len(),
        sm.transitions@[row].in_state.wildcard,
        0 <= position < parsed.states@.len(),
        !key_covered_before(
            sm.transitions@,
            row,
            parsed.states@[position]@,
            row_key(sm.transitions@[row]),
        ),
    ensures
        exists|j: int, t: int|
            #![trigger parsed.states_events_mapping@[position].mappings@[j].transitions@[t]]
            0 <= j < parsed.states_events_mapping@[position].mappings.len() && {
                let mapping = parsed.states_events_mapping@[position].mappings@[j];
                &&& mapping_key(mapping) == row_key(sm.transitions@[row])
                &&& 0 <= t < mapping.transitions.len()
                &&& transition_copies(
                    mapping.transitions@[t],
                    sm.transitions@[row],
                    parsed.states@[position]@,
                )
            },
{
    lemma_selected_transition_is_mapped(sm, parsed, row, position);
}

/// `copy` is a copy of the target `out_state`.
pub open spec fn same_output(out_state: OutputState, copy: OutputState) -> bool {
    &&& copy.ident == out_state.ident
    &&& copy.internal_transition == out_state.internal_transition
    &&& copy.composite == out_state.composite
    &&& same_optional_data(out_state.data_type, copy.data_type)
}

impl OutputState {
    /// A copy of the target.
    pub fn duplicate(&self) -> (copy: OutputState)
        ensures
            same_output(*self, copy),
    {
        OutputState {
            ident: self.ident.clone(),
            internal_transition: self.internal_transition,
            data_type: duplicate_data(&self.data_type),
            composite: match &self.composite {
                Some(name) => Some(name.clone()),
                None => None,
            },
        }
    }
}

/// `row` is the written row `written` for its source state `in_state`: the
/// source itself, and copies of everything else.
pub open spec fn row_for_source(row: StateTransition, written: StateTransitions, in_state: InputState) -> bool {
    &&& row.in_state == in_state
    &&& same_event(written.event, row.event)
    &&& row.guard == written.guard
    &&& row.action == written.action
    &&& row.additional_actions@ == written.additional_actions@
    &&& row.process_events@ == written.process_events@
    &&& row.defer == written.defer
    &&& row.eval_actions@ == written.eval_actions@
    &&& same_output(written.out_state, row.out_state)
    &&& row.internal_transition == written.out_state.internal_transition
}

impl StateMachine {
    /// A machine with no rows and the default configuration.
    pub fn new() -> (machine: StateMachine)
        ensures
            machine.name is None,
            machine.states_attr@.len() == 0,
            machine.events_attr@.len() == 0,
            machine.temporary_context_type is None,
            !machine.custom_error,
            machine.transitions@.len() == 0,
            !machine.entry_exit_async,
            machine.fixed_error_type is None,
            machine.event_generics@.len() == 0,
    {
        StateMachine {
            name: None,
            states_attr: Vec::new(),
            events_attr: Vec::new(),
            temporary_context_type: None,
            custom_error: false,
            transitions: Vec::new(),
            entry_exit_async: false,
            fixed_error_type: None,
            event_generics: Vec::new(),
        }
    }

    /// Adds one row per source state of the written row, in order.
    pub fn add_transitions(&mut self, transitions: StateTransitions)
        ensures
            final(self).transitions@.len() == old(self).transitions@.len()
                + transitions.in_states@.len(),
            forall|i: int|
                0 <= i < old(self).transitions@.len() ==> final(self).transitions@[i] == old(
                    self,
                ).transitions@[i],
            forall|k: int|
                0 <= k < transitions.in_states@.len() ==> row_for_source(
                    #[trigger] final(self).transitions@[old(self).transitions@.len() + k],
                    transitions,
                    transitions.in_states@[k],
                ),
            final(self).name == old(self).name,
            final(self).states_attr == old(self).states_attr,
            final(self).events_attr == old(self).events_attr,
            final(self).temporary_context_type == old(self).temporary_context_type,
            final(self).custom_error == old(self).custom_error,
            final(self).entry_exit_async == old(self).entry_exit_async,
            final(self).fixed_error_type == old(self).fixed_error_type,
            final(self).event_generics == old(self).event_generics,
    {
        let ghost written = transitions;
        let ghost start = self.transitions@.len();
        let StateTransitions {
            in_states,
            event,
            guard,
            action,
            additional_actions,
            process_events,
            defer,
            eval_actions,
            out_state,
        } = transitions;
        let ghost sources = in_states@;
        let count = in_states.len();
        assert(sources.len() == count);
        let mut pending = super::token::reversed(in_states);
        let mut added: usize = 0;
        while pending.len() > 0
            invariant
                sources.len() <= usize::MAX,
                added + pending.len() == sources.len(),
                pending@ == sources.subrange(added as int, sources.len() as int).reverse(),
                self.transitions@.len() == start + added,
                forall|i: int| 0 <= i < start ==> self.transitions@[i] == old(self).transitions@[i],
                forall|k: int|
                    0 <= k < added ==> row_for_source(
                        #[trigger] self.transitions@[start + k],
                        written,
                        sources[k],
                    ),
                event == written.event,
                guard == written.guard,
                action == written.action,
                additional_actions == written.additional_actions,
                process_events == written.process_events,
                defer == written.defer,
                eval_actions == written.eval_actions,
                out_state == written.out_state,
                self.name == old(self).name,
                self.states_attr == old(self).states_attr,
                self.events_attr == old(self).events_attr,
                self.temporary_context_type == old(self).temporary_context_type,
                self.custom_error == old(self).custom_error,
                self.entry_exit_async == old(self).entry_exit_async,
                self.fixed_error_type == old(self).fixed_error_type,
                self.event_generics == old(self).event_generics,
            decreases pending.len(),
        {
            let in_state = pending.pop().unwrap();
            assert(in_state == sources[added as int]);
            let row = StateTransition {
                in_state,
                event: event.duplicate(),
                guard: match &guard {
                    Some(expression) => Some(expression.clone()),
                    None => None,
                },
                action: match &action {
                    Some(callback) => Some(copy_callback(callback)),
                    None => None,
                },
                additional_actions: copy_callbacks(&additional_actions),
                process_events: copy_texts(&process_events),
                defer,
                eval_actions: copy_eval_actions(&eval_actions),
                out_state: out_state.duplicate(),
                internal_transition: out_state.internal_transition,
            };
            self.transitions.push(row);
            added = added + 1;
            assert(pending@ =~= sources.subrange(added as int, sources.len() as int).reverse());
        }
    }
}

/// Whether a row handles a named exception type, `exception<E>`.
pub open spec fn typed_exception(row: StateTransition) -> bool {
    row.event.kind == EventKind::Exception && !row.event.wildcard
}

/// The first typed exception row, or the row count.
pub open spec fn first_typed_exception(rows: Seq<StateTransition>) -> int {
    first_where(0, rows.len() as int, |r: int| typed_exception(rows[r]))
}

/// Whether row `r` handles an exception type other than that of row `first`.
pub open spec fn other_error_type(rows: Seq<StateTransition>, first: int, r: int) -> bool {
    typed_exception(rows[r]) && rows[r].event.data_type->0.text@ != rows[first].event.data_type->0.text@
}

impl StateMachine {
    /// Fixes the machine's error type from its typed exception rows: when
    /// there are some, they must all name the type of the first, which
    /// becomes the machine's custom error type; otherwise nothing changes.
    /// Reports the first row that names another type.
    pub fn settle_error_type(&mut self) -> (result: Result<(), ErrorTypeConflict>)
        requires
            forall|r: int|
                0 <= r < old(self).transitions@.len() && typed_exception(
                    #[trigger] old(self).transitions@[r],
                ) ==> old(self).transitions@[r].event.data_type is Some,
        ensures
            ({
                let rows = old(self).transitions@;
                let first = first_typed_exception(rows);
                let conflict = first_where(0, rows.len() as int, |r: int| other_error_type(rows, first, r));
                &&& first < rows.len() && conflict < rows.len() ==> result == Err::<(), ErrorTypeConflict>(
                    ErrorTypeConflict { row: conflict as usize },
                ) && *final(self) == *old(self)
                &&& first < rows.len() && conflict == rows.len() ==> result is Ok && final(self).custom_error
                    && same_optional_data(rows[first].event.data_type, final(self).fixed_error_type)
                    && final(self).transitions == old(self).transitions && final(self).name == old(self).name
                    && final(self).states_attr == old(self).states_attr && final(self).events_attr == old(self).events_attr
                    && final(self).temporary_context_type == old(self).temporary_context_type
                    && final(self).entry_exit_async == old(self).entry_exit_async
                    && final(self).event_generics == old(self).event_generics
                &&& first == rows.len() ==> result is Ok && *final(self) == *old(self)
            }),
    {
        let ghost rows = self.transitions@;
        let mut first: Option<usize> = None;
        let mut index: usize = 0;
        while index < self.transitions.len()
            invariant
                rows == self.transitions@,
                index <= rows.len(),
                first is None ==> forall|r: int| 0 <= r < index ==> !typed_exception(#[trigger] rows[r]),
                first matches Some(f) ==> typed_exception(rows[f as int]),
                first matches Some(f) ==> f < index && f == first_typed_exception(rows) && forall|r: int|
                    0 <= r < index ==> !other_error_type(rows, f as int, r),
                forall|r: int|
                    0 <= r < rows.len() && typed_exception(#[trigger] rows[r]) ==> rows[r].event.data_type is Some,
            decreases self.transitions.len() - index,
        {
            let row = &self.transitions[index];
            if row.event.kind == EventKind::Exception && !row.event.wildcard {
                match first {
                    None => {
                        proof {
                            let holds = |r: int| typed_exception(rows[r]);
                            assert(holds(index as int));
                            lemma_first_where_is(0, rows.len() as int, holds, index as int);
                        }
                        first = Some(index);
                    },
                    Some(f) => {
                        let known = match &self.transitions[f].event.data_type {
                            Some(data_type) => &data_type.text,
                            None => {
                                assert(typed_exception(rows[f as int]));
                                return Ok(());
                            },
                        };
                        let found = match &row.event.data_type {
                            Some(data_type) => &data_type.text,
                            None => {
                                assert(typed_exception(rows[index as int]));
                                return Ok(());
                            },
                        };
                        if *found != *known {
                            proof {
                                let holds = |r: int| other_error_type(rows, f as int, r);
                                assert(holds(index as int));
                                lemma_first_where_is(0, rows.len() as int, holds, index as int);
                            }
                            return Err(ErrorTypeConflict { row: index });
                        }
                    },
                }
            }
            index = index + 1;
        }
        match first {
            Some(f) => {
                proof {
                    let holds = |r: int| other_error_type(rows, f as int, r);
                    lemma_first_where_is(0, rows.len() as int, holds, rows.len() as int);
                }
                let fixed = duplicate_data(&self.transitions[f].event.data_type);
                self.fixed_error_type = fixed;
                self.custom_error = true;
                Ok(())
            },
            None => {
                proof {
                    let holds = |r: int| typed_exception(rows[r]);
                    lemma_first_where_is(0, rows.len() as int, holds, rows.len() as int);
                }
                Ok(())
            },
        }
    }
}

/// Whether `ty` mentions some parameter of `generics`.
pub open spec fn uses_some_param(ty: TypeShape, generics: Seq<GenericParam>) -> bool {
    exists|g: int| 0 <= g < generics.len() && uses_param(ty, #[trigger] generics[g])
}

/// Copies of a list of generic parameters.
fn copy_generics(generics: &Vec<GenericParam>) -> (copy: Vec<GenericParam>)
    ensures
        copy@ == generics@,
{
    let mut copy: Vec<GenericParam> = Vec::new();
    let mut index: usize = 0;
    while index < generics.len()
        invariant
            index <= generics.len(),
            copy@ == generics@.take(index as int),
        decreases generics.len() - index,
    {
        copy.push(generics[index].duplicate());
        assert(copy@ =~= generics@.take(index + 1));
        index = index + 1;
    }
    assert(generics@.take(index as int) =~= generics@);
    copy
}

impl ParsedStateMachine {
    /// The machine's event generics with every lifetime of `lifetimes`
    /// declared.
    pub fn event_generics_with_lifetimes(&self, lifetimes: &Lifetimes) -> (generics: Vec<GenericParam>)
        ensures
            param_views(generics@) == with_lifetimes(param_views(self.event_generics@), lifetimes@),
    {
        generics_with_lifetimes(copy_generics(&self.event_generics), lifetimes)
    }

    /// The generics of a callback that receives `event_type`: the event
    /// generics when that type mentions one of them, none otherwise, with
    /// every lifetime of `lifetimes` declared.
    pub fn callback_generics_with_lifetimes(
        &self,
        lifetimes: &Lifetimes,
        event_type: Option<&DataType>,
    ) -> (generics: Vec<GenericParam>)
        ensures
            param_views(generics@) == with_lifetimes(
                if event_type matches Some(data_type) && uses_some_param(
                    data_type.shape,
                    self.event_generics@,
                ) {
                    param_views(self.event_generics@)
                } else {
                    Seq::empty()
                },
                lifetimes@,
            ),
    {
        let uses_event_generics = match event_type {
            Some(data_type) => self.type_uses_event_generics(data_type),
            None => false,
        };
        let generics = if uses_event_generics {
            copy_generics(&self.event_generics)
        } else {
            let none: Vec<GenericParam> = Vec::new();
            assert(param_views(none@) =~= Seq::<ParamView>::empty());
            none
        };
        generics_with_lifetimes(generics, lifetimes)
    }

    /// Whether `event_type` mentions one of the machine's event generics.
    pub fn type_uses_event_generics(&self, event_type: &DataType) -> (used: bool)
        ensures
            used == uses_some_param(event_type.shape, self.event_generics@),
    {
        uses_some_generic(&event_type.shape, &self.event_generics)
    }
}

} // verus!
