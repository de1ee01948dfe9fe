//! What the tables of a machine hold, as their expansions read them: the
//! payload type of each state, the events that the tables share, and the
//! first start state.

use vstd::prelude::*;

use super::event::EventKind;
use super::guard::AsyncIdent;
use super::machine::{copy_callback, copy_callbacks, StateMachine, StateTransition};
use super::types::{distinct_keys, keyed_map, name_views, DataType};

verus! {

/// One side of a row, by position: the source of row `side / 2` at an even
/// position, its target at an odd one; each with its payload type and its
/// `state<..>` reference.
pub open spec fn row_side(rows: Seq<StateTransition>, side: int) -> (Seq<char>, Option<DataType>, Option<String>) {
    let row = rows[side / 2];
    if side % 2 == 0 {
        (row.in_state.ident@, row.in_state.data_type, row.in_state.composite)
    } else {
        (row.out_state.ident@, row.out_state.data_type, row.out_state.composite)
    }
}

/// The payload types recorded after one more side: a side that enters one
/// of the `structural` child tables, or has no payload type, records
/// nothing; a state's first type is recorded; a later, different type is a
/// conflict at that state.
pub open spec fn payload_step(
    types: Map<Seq<char>, Seq<char>>,
    state: Seq<char>,
    data: Option<DataType>,
    child: Option<String>,
    structural: Seq<Seq<char>>,
) -> Result<Map<Seq<char>, Seq<char>>, Seq<char>> {
    if child matches Some(name) && structural.contains(name@) {
        Ok(types)
    } else {
        match data {
            None => Ok(types),
            Some(data_type) => if !types.contains_key(state) {
                Ok(types.insert(state, data_type.text@))
            } else if types[state] == data_type.text@ {
                Ok(types)
            } else {
                Err(state)
            },
        }
    }
}

/// The payload type text of each state after the first `sides` sides of
/// the rows, or the state of the first conflict.
pub open spec fn payloads_after(rows: Seq<StateTransition>, sides: int, structural: Seq<Seq<char>>) -> Result<
    Map<Seq<char>, Seq<char>>,
    Seq<char>,
>
    decreases sides,
{
    if sides <= 0 {
        Ok(Map::empty())
    } else {
        match payloads_after(rows, sides - 1, structural) {
            Err(state) => Err(state),
            Ok(types) => {
                let (state, data, child) = row_side(rows, sides - 1);
                payload_step(types, state, data, child, structural)
            },
        }
    }
}

/// The entries of a list of states and payload types by their views.
pub open spec fn payload_views(entries: Seq<(String, DataType)>) -> Seq<(Seq<char>, Seq<char>)> {
    entries.map_values(|entry: (String, DataType)| (entry.0@, entry.1.text@))
}

/// A state given two different payload types.
#[derive(Debug, PartialEq, Eq)]
pub struct PayloadConflict {
    /// The state.
    pub state: String,
}

/// Where the entry of `state` stands, if there is one.
fn payload_position(entries: &Vec<(String, DataType)>, state: &String) -> (found: Option<usize>)
    ensures
        found matches Some(i) ==> i < entries@.len() && entries@[i as int].0@ == state@,
        found is None ==> forall|i: int| 0 <= i < entries@.len() ==> (#[trigger] entries@[i]).0@ != state@,
{
    let mut index: usize = 0;
    while index < entries.len()
        invariant
            index <= entries@.len(),
            forall|i: int| 0 <= i < index ==> (#[trigger] entries@[i]).0@ != state@,
        decreases entries@.len() - index,
    {
        if entries[index].0 == *state {
            return Some(index);
        }
        index = index + 1;
    }
    None
}

/// Looking a key up among distinct entries.
proof fn lemma_keyed_entry(entries: Seq<(Seq<char>, Seq<char>)>, key: Seq<char>)
    requires
        distinct_keys(entries),
    ensures
        keyed_map(entries).contains_key(key) <==> exists|i: int| 0 <= i < entries.len() && (#[trigger] entries[i]).0 == key,
        forall|i: int| 0 <= i < entries.len() && (#[trigger] entries[i]).0 == key ==> keyed_map(entries)[key] == entries[i].1,
    decreases entries.len(),
{
    if entries.len() > 0 {
        lemma_keyed_entry(entries.drop_last(), key);
        assert forall|i: int| 0 <= i < entries.drop_last().len() implies (#[trigger] entries.drop_last()[i]) == entries[i] by {}
        if exists|i: int| 0 <= i < entries.len() && (#[trigger] entries[i]).0 == key {
            let i = choose|i: int| 0 <= i < entries.len() && (#[trigger] entries[i]).0 == key;
            if i < entries.len() - 1 {
                assert(entries.drop_last()[i] == entries[i]);
            }
        }
    }
}

/// Whether `name` is among `names`.
fn contains_name(names: &Vec<String>, name: &String) -> (found: bool)
    ensures
        found == name_views(names@).contains(name@),
{
    let mut index: usize = 0;
    while index < names.len()
        invariant
            index <= names@.len(),
            forall|i: int| 0 <= i < index ==> (#[trigger] names@[i])@ != name@,
        decreases names@.len() - index,
    {
        if names[index] == *name {
            assert(name_views(names@)[index as int] == name@);
            return true;
        }
        index = index + 1;
    }
    proof {
        if name_views(names@).contains(name@) {
            let i = choose|i: int| 0 <= i < names@.len() && #[trigger] name_views(names@)[i] == name@;
            assert(names@[i]@ == name@);
        }
    }
    false
}

/// Whether the reference names one of the `structural` tables.
fn enters_structural(child: &Option<String>, structural: &Vec<String>) -> (found: bool)
    ensures
        found == (child matches Some(name) && name_views(structural@).contains(name@)),
{
    match child {
        Some(name) => contains_name(structural, name),
        None => false,
    }
}

/// Records one side: see `payload_step`.
fn record_payload(
    entries: &mut Vec<(String, DataType)>,
    state: &String,
    data: &Option<DataType>,
    child: &Option<String>,
    structural: &Vec<String>,
) -> (recorded: bool)
    requires
        distinct_keys(payload_views(old(entries)@)),
    ensures
        distinct_keys(payload_views(final(entries)@)),
        match payload_step(
            keyed_map(payload_views(old(entries)@)),
            state@,
            *data,
            *child,
            name_views(structural@),
        ) {
            Ok(types) => recorded && keyed_map(payload_views(final(entries)@)) == types,
            Err(_) => !recorded,
        },
{
    let ghost before = payload_views(entries@);
    proof {
        lemma_keyed_entry(before, state@);
    }
    if enters_structural(child, structural) {
        return true;
    }
    match data {
        None => true,
        Some(data_type) => match payload_position(entries, state) {
            Some(i) => {
                assert(before[i as int] == (entries@[i as int].0@, entries@[i as int].1.text@));
                entries[i].1.text == data_type.text
            },
            None => {
                proof {
                    assert forall|i: int| 0 <= i < before.len() implies (#[trigger] before[i]).0 != state@ by {
                        assert(before[i].0 == entries@[i].0@);
                    }
                }
                entries.push((state.clone(), data_type.duplicate()));
                proof {
                    let after = payload_views(entries@);
                    assert(after =~= before.push((state@, data_type.text@)));
                    assert(after.drop_last() =~= before);
                }
                true
            },
        },
    }
}

/// Records the payload type of every state that the rows of `machine` name,
/// leaving out sides that enter one of the `structural` child tables; a
/// state given two different types is refused: see `payloads_after`.
pub fn state_payloads(machine: &StateMachine, structural: &Vec<String>) -> (result: Result<
    Vec<(String, DataType)>,
    PayloadConflict,
>)
    ensures
        ({
            let rows = machine.transitions@;
            let children = name_views(structural@);
            match payloads_after(rows, 2 * rows.len() as int, children) {
                Ok(types) => result matches Ok(entries) && distinct_keys(payload_views(entries@))
                    && keyed_map(payload_views(entries@)) == types,
                Err(state) => result matches Err(conflict) && conflict.state@ == state,
            }
        }),
{
    let ghost rows = machine.transitions@;
    let ghost children = name_views(structural@);
    let mut entries: Vec<(String, DataType)> = Vec::new();
    let mut index: usize = 0;
    assert(keyed_map(payload_views(entries@)) =~= Map::empty());
    while index < machine.transitions.len()
        invariant
            rows == machine.transitions@,
            children == name_views(structural@),
            index <= rows.len(),
            distinct_keys(payload_views(entries@)),
            payloads_after(rows, 2 * index, children) == Ok::<Map<Seq<char>, Seq<char>>, Seq<char>>(
                keyed_map(payload_views(entries@)),
            ),
        decreases rows.len() - index,
    {
        let row = &machine.transitions[index];
        assert(row_side(rows, 2 * index) == (row.in_state.ident@, row.in_state.data_type, row.in_state.composite));
        assert(row_side(rows, 2 * index + 1) == (row.out_state.ident@, row.out_state.data_type, row.out_state.composite));
        if !record_payload(&mut entries, &row.in_state.ident, &row.in_state.data_type, &row.in_state.composite, structural) {
            proof {
                lemma_payload_error_stays(rows, 2 * index + 1, 2 * rows.len() as int, children);
            }
            return Err(PayloadConflict { state: row.in_state.ident.clone() });
        }
        if !record_payload(&mut entries, &row.out_state.ident, &row.out_state.data_type, &row.out_state.composite, structural) {
            proof {
                lemma_payload_error_stays(rows, 2 * index + 2, 2 * rows.len() as int, children);
            }
            return Err(PayloadConflict { state: row.out_state.ident.clone() });
        }
        index = index + 1;
    }
    Ok(entries)
}

/// Once a conflict is found, later sides keep it.
proof fn lemma_payload_error_stays(rows: Seq<StateTransition>, sides: int, later: int, structural: Seq<Seq<char>>)
    requires
        0 < sides <= later,
        payloads_after(rows, sides, structural) is Err,
    ensures
        payloads_after(rows, later, structural) == payloads_after(rows, sides, structural),
    decreases later - sides,
{
    if sides < later {
        lemma_payload_error_stays(rows, sides, later - 1, structural);
    }
}

/// A row's trigger is one of the events a machine dispatches: an ordinary
/// or unexpected event, not a wildcard.
pub open spec fn dispatched(row: StateTransition) -> bool {
    (row.event.kind == EventKind::Normal || row.event.kind == EventKind::Unexpected)
        && !row.event.wildcard
}

/// The text of an optional payload type.
pub open spec fn type_text(data: Option<DataType>) -> Option<Seq<char>> {
    match data {
        Some(data_type) => Some(data_type.text@),
        None => None,
    }
}

/// What an event's entry records: its payload type's text and whether it
/// comes from outside.
pub open spec fn event_entry(row: StateTransition) -> (Option<Seq<char>>, bool) {
    (type_text(row.event.data_type), row.event.external)
}

/// The events after the first `count` rows, starting from `events`: each
/// event's first row is recorded; when `strict`, a later row of the same
/// event with another payload type or origin is a conflict at that event.
pub open spec fn events_from(
    events: Map<Seq<char>, (Option<Seq<char>>, bool)>,
    rows: Seq<StateTransition>,
    count: int,
    strict: bool,
) -> Result<Map<Seq<char>, (Option<Seq<char>>, bool)>, Seq<char>>
    decreases count,
{
    if count <= 0 {
        Ok(events)
    } else {
        match events_from(events, rows, count - 1, strict) {
            Err(key) => Err(key),
            Ok(known) => {
                let row = rows[count - 1];
                let key = row.event.ident@;
                if !dispatched(row) {
                    Ok(known)
                } else if !known.contains_key(key) {
                    Ok(known.insert(key, event_entry(row)))
                } else if !strict || known[key] == event_entry(row) {
                    Ok(known)
                } else {
                    Err(key)
                }
            },
        }
    }
}

/// The events of the first `count` member tables, the members' rows read in
/// turn.
pub open spec fn member_events(machines: Seq<StateMachine>, members: Seq<usize>, count: int) -> Result<
    Map<Seq<char>, (Option<Seq<char>>, bool)>,
    Seq<char>,
>
    decreases count,
{
    if count <= 0 {
        Ok(Map::empty())
    } else {
        match member_events(machines, members, count - 1) {
            Err(key) => Err(key),
            Ok(known) => {
                let rows = machines[members[count - 1] as int].transitions@;
                events_from(known, rows, rows.len() as int, true)
            },
        }
    }
}

/// An event of a machine: its name, payload type and origin.
#[derive(Debug)]
pub struct EventInfo {
    /// The event's name.
    pub ident: String,
    /// Its payload type.
    pub data_type: Option<DataType>,
    /// Whether it comes from outside.
    pub external: bool,
}

/// The events by their views.
pub open spec fn event_views(events: Seq<EventInfo>) -> Seq<(Seq<char>, (Option<Seq<char>>, bool))> {
    events.map_values(|event: EventInfo| (event.ident@, (type_text(event.data_type), event.external)))
}

/// An event whose rows give it two payload types or origins.
#[derive(Debug, PartialEq, Eq)]
pub struct EventConflict {
    /// The event.
    pub event: String,
}

/// Where the entry of `name` stands, if there is one.
fn event_position(events: &Vec<EventInfo>, name: &String) -> (found: Option<usize>)
    ensures
        found matches Some(i) ==> i < events@.len() && events@[i as int].ident@ == name@,
        found is None ==> forall|i: int| 0 <= i < events@.len() ==> (#[trigger] events@[i]).ident@ != name@,
{
    let mut index: usize = 0;
    while index < events.len()
        invariant
            index <= events@.len(),
            forall|i: int| 0 <= i < index ==> (#[trigger] events@[i]).ident@ != name@,
        decreases events@.len() - index,
    {
        if events[index].ident == *name {
            return Some(index);
        }
        index = index + 1;
    }
    None
}

/// A copy of an optional payload type.
fn copy_type(data: &Option<DataType>) -> (copy: Option<DataType>)
    ensures
        type_text(copy) == type_text(*data),
{
    match data {
        Some(data_type) => Some(data_type.duplicate()),
        None => None,
    }
}

/// Whether two optional payload types have the same text.
fn same_type_text(a: &Option<DataType>, b: &Option<DataType>) -> (same: bool)
    ensures
        same == (type_text(*a) == type_text(*b)),
{
    match (a, b) {
        (Some(x), Some(y)) => x.text == y.text,
        (None, None) => true,
        _ => false,
    }
}

/// Looking a key up among distinct event entries.
proof fn lemma_event_entry(entries: Seq<(Seq<char>, (Option<Seq<char>>, bool))>, key: Seq<char>)
    requires
        distinct_keys(entries),
    ensures
        keyed_map(entries).contains_key(key) <==> exists|i: int| 0 <= i < entries.len() && (#[trigger] entries[i]).0 == key,
        forall|i: int| 0 <= i < entries.len() && (#[trigger] entries[i]).0 == key ==> keyed_map(entries)[key] == entries[i].1,
    decreases entries.len(),
{
    if entries.len() > 0 {
        lemma_event_entry(entries.drop_last(), key);
        assert forall|i: int| 0 <= i < entries.drop_last().len() implies (#[trigger] entries.drop_last()[i]) == entries[i] by {}
        if exists|i: int| 0 <= i < entries.len() && (#[trigger] entries[i]).0 == key {
            let i = choose|i: int| 0 <= i < entries.len() && (#[trigger] entries[i]).0 == key;
            if i < entries.len() - 1 {
                assert(entries.drop_last()[i] == entries[i]);
            }
        }
    }
}

/// Adds the events of `rows` to `events`: see `events_from`.
fn gather_events(rows: &Vec<StateTransition>, events: &mut Vec<EventInfo>, strict: bool) -> (conflict: Option<String>)
    requires
        distinct_keys(event_views(old(events)@)),
    ensures
        distinct_keys(event_views(final(events)@)),
        match events_from(keyed_map(event_views(old(events)@)), rows@, rows@.len() as int, strict) {
            Ok(known) => conflict is None && keyed_map(event_views(final(events)@)) == known,
            Err(key) => conflict matches Some(name) && name@ == key,
        },
{
    let ghost start = keyed_map(event_views(events@));
    let mut index: usize = 0;
    while index < rows.len()
        invariant
            index <= rows@.len(),
            start == keyed_map(event_views(old(events)@)),
            distinct_keys(event_views(events@)),
            events_from(start, rows@, index as int, strict) == Ok::<
                Map<Seq<char>, (Option<Seq<char>>, bool)>,
                Seq<char>,
            >(keyed_map(event_views(events@))),
        decreases rows@.len() - index,
    {
        let row = &rows[index];
        let kind_counts = match row.event.kind {
            EventKind::Normal => true,
            EventKind::Unexpected => true,
            _ => false,
        };
        if kind_counts && !row.event.wildcard {
            let ghost before = event_views(events@);
            proof {
                lemma_event_entry(before, row.event.ident@);
            }
            match event_position(events, &row.event.ident) {
                Some(i) => {
                    assert(before[i as int] == (events@[i as int].ident@, (type_text(events@[i as int].data_type), events@[i as int].external)));
                    if strict && !(same_type_text(&events[i].data_type, &row.event.data_type)
                        && events[i].external == row.event.external) {
                        proof {
                            lemma_events_error_stays(start, rows@, index + 1, rows@.len() as int, strict);
                        }
                        return Some(row.event.ident.clone());
                    }
                },
                None => {
                    proof {
                        assert forall|i: int| 0 <= i < before.len() implies (#[trigger] before[i]).0 != row.event.ident@ by {
                            assert(before[i].0 == events@[i].ident@);
                        }
                    }
                    let info = EventInfo {
                        ident: row.event.ident.clone(),
                        data_type: copy_type(&row.event.data_type),
                        external: row.event.external,
                    };
                    events.push(info);
                    proof {
                        let after = event_views(events@);
                        assert(after =~= before.push((row.event.ident@, event_entry(*row))));
                        assert(after.drop_last() =~= before);
                    }
                },
            }
        }
        index = index + 1;
    }
    None
}

/// Once a conflict is found, later rows keep it.
proof fn lemma_events_error_stays(
    events: Map<Seq<char>, (Option<Seq<char>>, bool)>,
    rows: Seq<StateTransition>,
    count: int,
    later: int,
    strict: bool,
)
    requires
        0 < count <= later,
        events_from(events, rows, count, strict) is Err,
    ensures
        events_from(events, rows, later, strict) == events_from(events, rows, count, strict),
    decreases later - count,
{
    if count < later {
        lemma_events_error_stays(events, rows, count, later - 1, strict);
    }
}

/// The events a table dispatches, each by its first row: see `events_from`.
pub fn machine_events(machine: &StateMachine) -> (events: Vec<EventInfo>)
    ensures
        distinct_keys(event_views(events@)),
        events_from(Map::empty(), machine.transitions@, machine.transitions@.len() as int, false)
            == Ok::<Map<Seq<char>, (Option<Seq<char>>, bool)>, Seq<char>>(keyed_map(event_views(events@))),
{
    let mut events: Vec<EventInfo> = Vec::new();
    assert(keyed_map(event_views(events@)) =~= Map::empty());
    gather_events(&machine.transitions, &mut events, false);
    proof {
        lemma_lenient_events(Map::empty(), machine.transitions@, machine.transitions@.len() as int);
    }
    events
}

/// Without the strict check, reading events never fails.
proof fn lemma_lenient_events(events: Map<Seq<char>, (Option<Seq<char>>, bool)>, rows: Seq<StateTransition>, count: int)
    ensures
        events_from(events, rows, count, false) is Ok,
    decreases count,
{
    if count > 0 {
        lemma_lenient_events(events, rows, count - 1);
    }
}

/// The events that the member tables of a composite tree dispatch, each by
/// its first row; rows of one event in any of the tables must agree on its
/// payload type and origin: see `member_events`.
pub fn shared_events(machines: &Vec<StateMachine>, members: &Vec<usize>) -> (result: Result<
    Vec<EventInfo>,
    EventConflict,
>)
    requires
        forall|m: int| 0 <= m < members@.len() ==> (#[trigger] members@[m]) < machines@.len(),
    ensures
        match member_events(machines@, members@, members@.len() as int) {
            Ok(known) => result matches Ok(events) && distinct_keys(event_views(events@)) && keyed_map(
                event_views(events@),
            ) == known,
            Err(key) => result matches Err(conflict) && conflict.event@ == key,
        },
{
    let mut events: Vec<EventInfo> = Vec::new();
    assert(keyed_map(event_views(events@)) =~= Map::empty());
    let mut m: usize = 0;
    while m < members.len()
        invariant
            forall|i: int| 0 <= i < members@.len() ==> (#[trigger] members@[i]) < machines@.len(),
            m <= members@.len(),
            distinct_keys(event_views(events@)),
            member_events(machines@, members@, m as int) == Ok::<
                Map<Seq<char>, (Option<Seq<char>>, bool)>,
                Seq<char>,
            >(keyed_map(event_views(events@))),
        decreases members@.len() - m,
    {
        let table = &machines[members[m]];
        match gather_events(&table.transitions, &mut events, true) {
            Some(event) => {
                proof {
                    lemma_members_error_stays(machines@, members@, m + 1, members@.len() as int);
                }
                return Err(EventConflict { event });
            },
            None => {},
        }
        m = m + 1;
    }
    Ok(events)
}

/// Once a conflict is found, later members keep it.
proof fn lemma_members_error_stays(machines: Seq<StateMachine>, members: Seq<usize>, count: int, later: int)
    requires
        0 < count <= later,
        member_events(machines, members, count) is Err,
    ensures
        member_events(machines, members, later) == member_events(machines, members, count),
    decreases later - count,
{
    if count < later {
        lemma_members_error_stays(machines, members, count, later - 1);
    }
}

/// The first start state of a table, if it has one.
pub open spec fn first_start(rows: Seq<StateTransition>) -> Option<Seq<char>>
    decreases rows.len(),
{
    if rows.len() == 0 {
        None
    } else if rows[0].in_state.start {
        Some(rows[0].in_state.ident@)
    } else {
        first_start(rows.drop_first())
    }
}

/// Returns the source state of the first row marked as the start.
pub fn initial_state(machine: &StateMachine) -> (state: Option<&String>)
    ensures
        match first_start(machine.transitions@) {
            Some(name) => state matches Some(found) && found@ == name,
            None => state is None,
        },
{
    let ghost rows = machine.transitions@;
    let mut index: usize = 0;
    assert(rows.skip(0) =~= rows);
    while index < machine.transitions.len()
        invariant
            rows == machine.transitions@,
            index <= rows.len(),
            first_start(rows) == first_start(rows.skip(index as int)),
        decreases rows.len() - index,
    {
        assert(rows.skip(index as int).drop_first() =~= rows.skip(index + 1));
        if machine.transitions[index].in_state.start {
            return Some(&machine.transitions[index].in_state.ident);
        }
        index = index + 1;
    }
    None
}

/// The callbacks a row runs, its first action then the others.
pub open spec fn row_callbacks(row: StateTransition) -> Seq<AsyncIdent> {
    match row.action {
        Some(action) => seq![action] + row.additional_actions@,
        None => row.additional_actions@,
    }
}

/// A state's entry and exit callbacks, each once set.
pub type HooksView = (Option<Seq<AsyncIdent>>, Option<Seq<AsyncIdent>>);

/// The entry and exit callbacks of each state after the first `count`
/// rows: an `on_entry` row sets its source's entry callbacks, an `on_exit`
/// row its exit callbacks; a later row of the same kind replaces them.
pub open spec fn hooks_after(rows: Seq<StateTransition>, count: int) -> Map<Seq<char>, HooksView>
    decreases count,
{
    if count <= 0 {
        Map::empty()
    } else {
        let hooks = hooks_after(rows, count - 1);
        let row = rows[count - 1];
        let state = row.in_state.ident@;
        let known: HooksView = if hooks.contains_key(state) {
            hooks[state]
        } else {
            (None, None)
        };
        if row.event.kind == EventKind::Entry {
            hooks.insert(state, (Some(row_callbacks(row)), known.1))
        } else if row.event.kind == EventKind::Exit {
            hooks.insert(state, (known.0, Some(row_callbacks(row))))
        } else {
            hooks
        }
    }
}

/// A state's entry and exit callbacks.
#[derive(Debug)]
pub struct StateHooks {
    /// The state.
    pub state: String,
    /// The callbacks run on entering it, once some row sets them.
    pub entry: Option<Vec<AsyncIdent>>,
    /// The callbacks run on leaving it, once some row sets them.
    pub exit: Option<Vec<AsyncIdent>>,
}

/// The hooks by their views.
pub open spec fn hooks_views(hooks: Seq<StateHooks>) -> Seq<(Seq<char>, HooksView)> {
    hooks.map_values(
        |hook: StateHooks|
            (
                hook.state@,
                (
                    match hook.entry {
                        Some(calls) => Some(calls@),
                        None => None,
                    },
                    match hook.exit {
                        Some(calls) => Some(calls@),
                        None => None,
                    },
                ),
            ),
    )
}

/// The callbacks of a row, copied.
fn callbacks_of(row: &StateTransition) -> (calls: Vec<AsyncIdent>)
    ensures
        calls@ == row_callbacks(*row),
{
    let mut calls: Vec<AsyncIdent> = Vec::new();
    match &row.action {
        Some(action) => calls.push(copy_callback(action)),
        None => {},
    }
    let mut rest = copy_callbacks(&row.additional_actions);
    calls.append(&mut rest);
    assert(calls@ =~= row_callbacks(*row));
    calls
}

/// Where the hooks of `state` stand, if there are any.
fn hooks_position(hooks: &Vec<StateHooks>, state: &String) -> (found: Option<usize>)
    ensures
        found matches Some(i) ==> i < hooks@.len() && hooks@[i as int].state@ == state@,
        found is None ==> forall|i: int| 0 <= i < hooks@.len() ==> (#[trigger] hooks@[i]).state@ != state@,
{
    let mut index: usize = 0;
    while index < hooks.len()
        invariant
            index <= hooks@.len(),
            forall|i: int| 0 <= i < index ==> (#[trigger] hooks@[i]).state@ != state@,
        decreases hooks@.len() - index,
    {
        if hooks[index].state == *state {
            return Some(index);
        }
        index = index + 1;
    }
    None
}

/// Looking a key up among distinct hook entries.
proof fn lemma_hooks_entry(entries: Seq<(Seq<char>, HooksView)>, key: Seq<char>)
    requires
        distinct_keys(entries),
    ensures
        keyed_map(entries).contains_key(key) <==> exists|i: int| 0 <= i < entries.len() && (#[trigger] entries[i]).0 == key,
        forall|i: int| 0 <= i < entries.len() && (#[trigger] entries[i]).0 == key ==> keyed_map(entries)[key] == entries[i].1,
    decreases entries.len(),
{
    if entries.len() > 0 {
        lemma_hooks_entry(entries.drop_last(), key);
        assert forall|i: int| 0 <= i < entries.drop_last().len() implies (#[trigger] entries.drop_last()[i]) == entries[i] by {}
        if exists|i: int| 0 <= i < entries.len() && (#[trigger] entries[i]).0 == key {
            let i = choose|i: int| 0 <= i < entries.len() && (#[trigger] entries[i]).0 == key;
            if i < entries.len() - 1 {
                assert(entries.drop_last()[i] == entries[i]);
            }
        }
    }
}

/// Replacing the value of a present key among distinct entries replaces it
/// in their map.
proof fn lemma_hooks_update(entries: Seq<(Seq<char>, HooksView)>, i: int, value: HooksView)
    requires
        distinct_keys(entries),
        0 <= i < entries.len(),
    ensures
        distinct_keys(entries.update(i, (entries[i].0, value))),
        keyed_map(entries.update(i, (entries[i].0, value))) == keyed_map(entries).insert(entries[i].0, value),
    decreases entries.len(),
{
    let updated = entries.update(i, (entries[i].0, value));
    if i == entries.len() - 1 {
        assert(updated.drop_last() =~= entries.drop_last());
    } else {
        lemma_hooks_update(entries.drop_last(), i, value);
        assert(updated.drop_last() =~= entries.drop_last().update(i, (entries[i].0, value)));
        assert(keyed_map(updated) =~= keyed_map(entries).insert(entries[i].0, value));
    }
}

/// The entry and exit callbacks of each state of a table: see
/// `hooks_after`.
pub fn state_hooks(machine: &StateMachine) -> (hooks: Vec<StateHooks>)
    ensures
        distinct_keys(hooks_views(hooks@)),
        keyed_map(hooks_views(hooks@)) == hooks_after(machine.transitions@, machine.transitions@.len() as int),
{
    let ghost rows = machine.transitions@;
    let mut hooks: Vec<StateHooks> = Vec::new();
    assert(keyed_map(hooks_views(hooks@)) =~= Map::empty());
    let mut index: usize = 0;
    while index < machine.transitions.len()
        invariant
            rows == machine.transitions@,
            index <= rows.len(),
            distinct_keys(hooks_views(hooks@)),
            keyed_map(hooks_views(hooks@)) == hooks_after(rows, index as int),
        decreases rows.len() - index,
    {
        let row = &machine.transitions[index];
        let entry = match row.event.kind {
            EventKind::Entry => true,
            _ => false,
        };
        let exit = match row.event.kind {
            EventKind::Exit => true,
            _ => false,
        };
        if entry || exit {
            let ghost before = hooks_views(hooks@);
            proof {
                lemma_hooks_entry(before, row.in_state.ident@);
            }
            let calls = callbacks_of(row);
            match hooks_position(&hooks, &row.in_state.ident) {
                Some(i) => {
                    assert(before[i as int].0 == hooks@[i as int].state@);
                    let mut hook = hooks.remove(i);
                    let ghost old_hook = hook;
                    if entry {
                        hook.entry = Some(calls);
                    } else {
                        hook.exit = Some(calls);
                    }
                    let ghost value = hooks_views(seq![hook])[0].1;
                    hooks.insert(i, hook);
                    proof {
                        assert(hooks_views(seq![old_hook])[0] == before[i as int]);
                        lemma_hooks_update(before, i as int, value);
                        assert(hooks_views(hooks@) =~= before.update(i as int, (before[i as int].0, value)));
                    }
                },
                None => {
                    proof {
                        assert forall|i: int| 0 <= i < before.len() implies (#[trigger] before[i]).0 != row.in_state.ident@ by {
                            assert(before[i].0 == hooks@[i].state@);
                        }
                    }
                    let hook = if entry {
                        StateHooks { state: row.in_state.ident.clone(), entry: Some(calls), exit: None }
                    } else {
                        StateHooks { state: row.in_state.ident.clone(), entry: None, exit: Some(calls) }
                    };
                    hooks.push(hook);
                    proof {
                        let after = hooks_views(hooks@);
                        assert(after =~= before.push(hooks_views(seq![hook])[0]));
                        assert(after.drop_last() =~= before);
                    }
                },
            }
        }
        index = index + 1;
    }
    hooks
}

/// The payload type a row's callbacks receive: the event's own, or, for a
/// named completion, that of the first ordinary row of the same event.
pub open spec fn callback_event_type(rows: Seq<StateTransition>, row: StateTransition) -> Option<DataType> {
    if row.event.data_type is Some {
        row.event.data_type
    } else if row.event.kind == EventKind::Completion && !row.event.wildcard {
        let first = first_typed_origin(rows, row.event.ident@);
        if first < rows.len() {
            rows[first].event.data_type
        } else {
            None
        }
    } else {
        None
    }
}

/// The first ordinary row of the named event, or the row count.
pub open spec fn first_typed_origin(rows: Seq<StateTransition>, name: Seq<char>) -> int {
    super::machine::first_where(0, rows.len() as int, origin_at(rows, name))
}

/// Whether the row at an index is an ordinary row of the named event.
pub open spec fn origin_at(rows: Seq<StateTransition>, name: Seq<char>) -> spec_fn(int) -> bool {
    |r: int| rows[r].event.kind == EventKind::Normal && rows[r].event.ident@ == name
}

/// Returns the payload type that the callbacks of `row` receive: see
/// `callback_event_type`.
pub fn transition_event_type<'a>(machine: &'a StateMachine, row: &'a StateTransition) -> (data: Option<&'a DataType>)
    ensures
        match callback_event_type(machine.transitions@, *row) {
            Some(data_type) => data matches Some(found) && *found == data_type,
            None => data is None,
        },
{
    if let Some(data_type) = &row.event.data_type {
        return Some(data_type);
    }
    let completion = match row.event.kind {
        EventKind::Completion => true,
        _ => false,
    };
    if !completion || row.event.wildcard {
        return None;
    }
    let ghost rows = machine.transitions@;
    let ghost holds = origin_at(rows, row.event.ident@);
    let mut index: usize = 0;
    while index < machine.transitions.len()
        invariant
            rows == machine.transitions@,
            holds == origin_at(rows, row.event.ident@),
            row.event.data_type is None,
            row.event.kind == EventKind::Completion,
            !row.event.wildcard,
            index <= rows.len(),
            forall|r: int| 0 <= r < index ==> !#[trigger] holds(r),
        decreases rows.len() - index,
    {
        let candidate = &machine.transitions[index];
        let ordinary = match candidate.event.kind {
            EventKind::Normal => true,
            _ => false,
        };
        if ordinary && candidate.event.ident == row.event.ident {
            proof {
                super::machine::lemma_first_where_is(0, rows.len() as int, holds, index as int);
            }
            return match &candidate.event.data_type {
                Some(data_type) => Some(data_type),
                None => None,
            };
        }
        index = index + 1;
    }
    proof {
        super::machine::lemma_first_where_is(0, rows.len() as int, holds, rows.len() as int);
    }
    None
}

} // verus!
