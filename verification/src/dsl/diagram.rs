//! The Graphviz diagram of a machine: its states, one node per transition
//! naming its trigger, guard and actions, and the edges between states. Every
//! list is sorted, so that the same machine always yields the same text.

use vstd::prelude::*;

use super::event::EventKind;
use super::guard::{guard_text, GuardExpression};
use super::machine::{EventMapping, ParsedStateMachine, StateEvents, Transition};
use super::text_order::{lemma_texts_order_is_total, rows_view, sort_texts, texts_order, texts_view};

verus! {

broadcast use Seq::lemma_flatten_push, vstd::seq_lib::group_to_multiset_ensures;

/// The node name of a trigger.
pub open spec fn event_id(mapping: EventMapping) -> Seq<char> {
    match mapping.event_kind {
        EventKind::Normal => mapping.event@,
        EventKind::Unexpected => if mapping.event_wildcard {
            "unexpected_any"@
        } else {
            "unexpected_"@ + mapping.event@
        },
        EventKind::Completion => "completion_"@ + mapping.event@,
        EventKind::Entry => "on_entry"@,
        EventKind::Exit => "on_exit"@,
        EventKind::Exception => "exception"@,
    }
}

/// The label of a trigger, as the table writes it.
pub open spec fn event_label(mapping: EventMapping) -> Seq<char> {
    match mapping.event_kind {
        EventKind::Normal => mapping.event@,
        EventKind::Unexpected => if mapping.event_wildcard {
            "unexpected<_>"@
        } else {
            "unexpected<"@ + mapping.event@ + ">"@
        },
        EventKind::Completion => "completion<"@ + mapping.event@ + ">"@,
        EventKind::Entry => "on_entry<_>"@,
        EventKind::Exit => "on_exit<_>"@,
        EventKind::Exception => "exception<_>"@,
    }
}

/// `items` joined by `separator`.
pub open spec fn join_with(items: Seq<Seq<char>>, separator: Seq<char>) -> Seq<char>
    decreases items.len(),
{
    if items.len() == 0 {
        Seq::empty()
    } else if items.len() == 1 {
        items[0]
    } else {
        join_with(items.drop_last(), separator) + separator + items.last()
    }
}

/// The names of a transition's actions, the first action first.
pub open spec fn action_names(transition: Transition) -> Seq<Seq<char>> {
    let rest = transition.additional_actions@.map_values(|action: super::guard::AsyncIdent| action.ident@);
    match transition.action {
        Some(action) => seq![action.ident@] + rest,
        None => rest,
    }
}

/// The guard of a transition as code, `_` for none.
pub open spec fn guard_column(transition: Transition) -> Seq<char> {
    match transition.guard {
        Some(guard) => guard_text(guard),
        None => "_"@,
    }
}

/// The node of a transition: trigger name, trigger label, guard, actions.
pub open spec fn event_row(mapping: EventMapping, transition: Transition) -> Seq<Seq<char>> {
    seq![event_id(mapping), event_label(mapping), guard_column(transition), join_with(action_names(transition), ","@)]
}

/// The edge of a transition: source state, target state, trigger name.
pub open spec fn edge_row(state: Seq<char>, mapping: EventMapping, transition: Transition) -> Seq<Seq<char>> {
    seq![state, transition.out_state@, event_id(mapping)]
}

/// The nodes of the transitions of one trigger, in order.
pub open spec fn mapping_event_rows(mapping: EventMapping) -> Seq<Seq<Seq<char>>> {
    mapping.transitions@.map_values(|transition: Transition| event_row(mapping, transition))
}

/// The edges of the transitions of one trigger, in order.
pub open spec fn mapping_edge_rows(state: Seq<char>, mapping: EventMapping) -> Seq<Seq<Seq<char>>> {
    mapping.transitions@.map_values(|transition: Transition| edge_row(state, mapping, transition))
}

/// The nodes of one state's triggers, trigger by trigger.
pub open spec fn event_rows_by_mapping(events: StateEvents) -> Seq<Seq<Seq<Seq<char>>>> {
    events.mappings@.map_values(|mapping: EventMapping| mapping_event_rows(mapping))
}

/// The edges of one state's triggers, trigger by trigger.
pub open spec fn edge_rows_by_mapping(events: StateEvents) -> Seq<Seq<Seq<Seq<char>>>> {
    events.mappings@.map_values(|mapping: EventMapping| mapping_edge_rows(events.state@, mapping))
}

/// The nodes of the transitions of one state.
pub open spec fn state_event_rows(events: StateEvents) -> Seq<Seq<Seq<char>>> {
    event_rows_by_mapping(events).flatten()
}

/// The edges of the transitions of one state.
pub open spec fn state_edge_rows(events: StateEvents) -> Seq<Seq<Seq<char>>> {
    edge_rows_by_mapping(events).flatten()
}

/// The nodes of a machine's transitions, state by state.
pub open spec fn event_rows_by_state(sm: ParsedStateMachine) -> Seq<Seq<Seq<Seq<char>>>> {
    sm.states_events_mapping@.map_values(|events: StateEvents| state_event_rows(events))
}

/// The edges of a machine's transitions, state by state.
pub open spec fn edge_rows_by_state(sm: ParsedStateMachine) -> Seq<Seq<Seq<Seq<char>>>> {
    sm.states_events_mapping@.map_values(|events: StateEvents| state_edge_rows(events))
}

/// The nodes of every transition of a machine.
pub open spec fn diagram_event_rows(sm: ParsedStateMachine) -> Seq<Seq<Seq<char>>> {
    event_rows_by_state(sm).flatten()
}

/// The edges of every transition of a machine.
pub open spec fn diagram_edge_rows(sm: ParsedStateMachine) -> Seq<Seq<Seq<char>>> {
    edge_rows_by_state(sm).flatten()
}

/// The states of a machine, one row each.
pub open spec fn diagram_state_rows(sm: ParsedStateMachine) -> Seq<Seq<Seq<char>>> {
    sm.states@.map_values(|state: String| seq![state@])
}

/// The kind of a line of the diagram.
#[derive(Clone, Copy)]
pub enum LineKind {
    /// A state: its name.
    State,
    /// A transition node: trigger name, label, guard, actions.
    Event,
    /// An edge: source, target, trigger name.
    Edge,
}

/// The number of texts in a row of the given kind.
pub open spec fn row_width(kind: LineKind) -> nat {
    match kind {
        LineKind::State => 1,
        LineKind::Event => 4,
        LineKind::Edge => 3,
    }
}

/// The diagram line of a row.
pub open spec fn line_text(kind: LineKind, row: Seq<Seq<char>>) -> Seq<char> {
    match kind {
        LineKind::State => "\t"@ + row[0] + " [shape=box color=\"red\" fillcolor=\"#ffbb33\" style=filled]"@,
        LineKind::Event => "\t"@ + row[0] + " [shape=box label=\""@ + row[1] + "\\n["@ + row[2] + "] / "@
            + row[3] + "\"]"@,
        LineKind::Edge => "\t"@ + row[0] + " -> "@ + row[1] + " [color=blue label="@ + row[2] + "];"@,
    }
}

/// The lines of rows, one per row, joined by line breaks.
pub open spec fn lines_text(kind: LineKind, rows: Seq<Seq<Seq<char>>>) -> Seq<char> {
    join_with(rows.map_values(|row: Seq<Seq<char>>| line_text(kind, row)), "\n"@)
}

/// The diagram text for a start state and sorted rows.
pub open spec fn diagram_text(
    start: Seq<char>,
    states: Seq<Seq<Seq<char>>>,
    events: Seq<Seq<Seq<char>>>,
    edges: Seq<Seq<Seq<char>>>,
) -> Seq<char> {
    "digraph G {\n    rankdir=\"LR\";\n    node [fontname=Arial];\n    edge [fontname=Arial];\n    s [shape=circle size=2 color=\"black\" style=filled]\n    \n    s -> "@
        + start + "\n"@ + lines_text(LineKind::State, states) + "\n\n"@ + lines_text(
        LineKind::Event,
        events,
    ) + "\n\n"@ + lines_text(LineKind::Edge, edges) + "\n}"@
}

/// The diagram of a machine.
pub open spec fn machine_diagram(sm: ParsedStateMachine) -> Seq<char> {
    diagram_text(
        sm.starting_state@,
        diagram_state_rows(sm).sort_by(texts_order()),
        diagram_event_rows(sm).sort_by(texts_order()),
        diagram_edge_rows(sm).sort_by(texts_order()),
    )
}

/// The node name of a trigger.
fn event_id_of(mapping: &EventMapping) -> (id: String)
    ensures
        id@ == event_id(*mapping),
{
    match mapping.event_kind {
        EventKind::Normal => mapping.event.clone(),
        EventKind::Unexpected => if mapping.event_wildcard {
            String::from_str("unexpected_any")
        } else {
            String::from_str("unexpected_").concat(mapping.event.as_str())
        },
        EventKind::Completion => String::from_str("completion_").concat(mapping.event.as_str()),
        EventKind::Entry => String::from_str("on_entry"),
        EventKind::Exit => String::from_str("on_exit"),
        EventKind::Exception => String::from_str("exception"),
    }
}

/// The label of a trigger.
fn event_label_of(mapping: &EventMapping) -> (label: String)
    ensures
        label@ == event_label(*mapping),
{
    match mapping.event_kind {
        EventKind::Normal => mapping.event.clone(),
        EventKind::Unexpected => if mapping.event_wildcard {
            String::from_str("unexpected<_>")
        } else {
            String::from_str("unexpected<").concat(mapping.event.as_str()).concat(">")
        },
        EventKind::Completion => String::from_str("completion<").concat(mapping.event.as_str()).concat(
            ">",
        ),
        EventKind::Entry => String::from_str("on_entry<_>"),
        EventKind::Exit => String::from_str("on_exit<_>"),
        EventKind::Exception => String::from_str("exception<_>"),
    }
}

/// The names of a transition's actions joined by commas.
fn actions_column(transition: &Transition) -> (text: String)
    ensures
        text@ == join_with(action_names(*transition), ","@),
{
    let ghost names = action_names(*transition);
    let ghost rest = transition.additional_actions@.map_values(
        |action: super::guard::AsyncIdent| action.ident@,
    );
    let mut text = String::new();
    let offset: usize = match &transition.action {
        Some(action) => {
            text.append(action.ident.as_str());
            1
        },
        None => 0,
    };
    proof {
        assert(names.len() == rest.len() + offset);
        if offset == 1 {
            assert(names.take(1) =~= seq![names[0]]);
        } else {
            assert(names =~= rest);
        }
    }
    assert(text@ == join_with(names.take(offset as int), ","@));
    let mut index: usize = 0;
    while index < transition.additional_actions.len()
        invariant
            names == action_names(*transition),
            rest == transition.additional_actions@.map_values(
                |action: super::guard::AsyncIdent| action.ident@,
            ),
            names.len() == rest.len() + offset,
            offset <= 1,
            forall|i: int| 0 <= i < rest.len() ==> #[trigger] names[i + offset] == rest[i],
            index <= transition.additional_actions.len(),
            text@ == join_with(names.take(index + offset), ","@),
        decreases transition.additional_actions.len() - index,
    {
        let ghost count = index + offset;
        let ghost before = names.take(count);
        if index > 0 || offset > 0 {
            text.append(",");
        }
        text.append(transition.additional_actions[index].ident.as_str());
        proof {
            let after = names.take(count + 1);
            assert(after.drop_last() =~= before);
            assert(names[index + offset] == rest[index as int]);
            assert(after.last() == transition.additional_actions@[index as int].ident@);
            if count == 0 {
                assert(after =~= seq![after.last()]);
                assert(text@ =~= join_with(after, ","@));
            } else {
                assert(text@ =~= join_with(after, ","@));
            }
        }
        index = index + 1;
    }
    assert(names.take(index + offset) =~= names);
    text
}

/// The guard of a transition as code, `_` for none.
fn guard_column_of(transition: &Transition) -> (text: String)
    ensures
        text@ == guard_column(*transition),
{
    match &transition.guard {
        Some(guard) => guard.to_string(),
        None => String::from_str("_"),
    }
}

/// Appends the node and the edge of each transition of one trigger.
fn push_mapping_rows(
    events: &mut Vec<Vec<String>>,
    edges: &mut Vec<Vec<String>>,
    state: &String,
    mapping: &EventMapping,
)
    requires
        forall|i: int| 0 <= i < old(events)@.len() ==> (#[trigger] old(events)@[i]).len() == 4,
        forall|i: int| 0 <= i < old(edges)@.len() ==> (#[trigger] old(edges)@[i]).len() == 3,
    ensures
        forall|i: int| 0 <= i < final(events)@.len() ==> (#[trigger] final(events)@[i]).len() == 4,
        forall|i: int| 0 <= i < final(edges)@.len() ==> (#[trigger] final(edges)@[i]).len() == 3,
        rows_view(final(events)@) == rows_view(old(events)@) + mapping_event_rows(*mapping),
        rows_view(final(edges)@) == rows_view(old(edges)@) + mapping_edge_rows(state@, *mapping),
{
    let ghost events_before = rows_view(events@);
    let ghost edges_before = rows_view(edges@);
    let mut index: usize = 0;
    while index < mapping.transitions.len()
        invariant
            index <= mapping.transitions.len(),
            forall|i: int| 0 <= i < events@.len() ==> (#[trigger] events@[i]).len() == 4,
            forall|i: int| 0 <= i < edges@.len() ==> (#[trigger] edges@[i]).len() == 3,
            rows_view(events@) == events_before + mapping_event_rows(*mapping).take(index as int),
            rows_view(edges@) == edges_before + mapping_edge_rows(state@, *mapping).take(
                index as int,
            ),
        decreases mapping.transitions.len() - index,
    {
        let transition = &mapping.transitions[index];
        let id = event_id_of(mapping);
        let mut node: Vec<String> = Vec::new();
        node.push(id.clone());
        node.push(event_label_of(mapping));
        node.push(guard_column_of(transition));
        node.push(actions_column(transition));
        let mut edge: Vec<String> = Vec::new();
        edge.push(state.clone());
        edge.push(transition.out_state.clone());
        edge.push(id);
        let ghost old_events = events@;
        let ghost old_edges = edges@;
        events.push(node);
        edges.push(edge);
        proof {
            assert(texts_view(node) =~= event_row(*mapping, mapping.transitions@[index as int]));
            assert(texts_view(edge) =~= edge_row(state@, *mapping, mapping.transitions@[index as int]));
            assert(rows_view(events@) =~= rows_view(old_events).push(texts_view(node)));
            assert(rows_view(edges@) =~= rows_view(old_edges).push(texts_view(edge)));
            assert(mapping_event_rows(*mapping).take(index + 1) =~= mapping_event_rows(*mapping).take(
                index as int,
            ).push(texts_view(node)));
            assert(mapping_edge_rows(state@, *mapping).take(index + 1) =~= mapping_edge_rows(
                state@,
                *mapping,
            ).take(index as int).push(texts_view(edge)));
        }
        index = index + 1;
    }
    assert(mapping_event_rows(*mapping).take(index as int) =~= mapping_event_rows(*mapping));
    assert(mapping_edge_rows(state@, *mapping).take(index as int) =~= mapping_edge_rows(
        state@,
        *mapping,
    ));
}

/// Appends the nodes and edges of one state's transitions.
fn push_state_rows(events: &mut Vec<Vec<String>>, edges: &mut Vec<Vec<String>>, state: &StateEvents)
    requires
        forall|i: int| 0 <= i < old(events)@.len() ==> (#[trigger] old(events)@[i]).len() == 4,
        forall|i: int| 0 <= i < old(edges)@.len() ==> (#[trigger] old(edges)@[i]).len() == 3,
    ensures
        forall|i: int| 0 <= i < final(events)@.len() ==> (#[trigger] final(events)@[i]).len() == 4,
        forall|i: int| 0 <= i < final(edges)@.len() ==> (#[trigger] final(edges)@[i]).len() == 3,
        rows_view(final(events)@) == rows_view(old(events)@) + state_event_rows(*state),
        rows_view(final(edges)@) == rows_view(old(edges)@) + state_edge_rows(*state),
{
    let ghost events_before = rows_view(events@);
    let ghost edges_before = rows_view(edges@);
    let ghost by_event = event_rows_by_mapping(*state);
    let ghost by_edge = edge_rows_by_mapping(*state);
    let mut index: usize = 0;
    assert(by_event.take(0).flatten() =~= Seq::<Seq<Seq<char>>>::empty());
    assert(by_edge.take(0).flatten() =~= Seq::<Seq<Seq<char>>>::empty());
    assert(events_before + Seq::<Seq<Seq<char>>>::empty() =~= events_before);
    assert(edges_before + Seq::<Seq<Seq<char>>>::empty() =~= edges_before);
    while index < state.mappings.len()
        invariant
            index <= state.mappings.len(),
            forall|i: int| 0 <= i < events@.len() ==> (#[trigger] events@[i]).len() == 4,
            forall|i: int| 0 <= i < edges@.len() ==> (#[trigger] edges@[i]).len() == 3,
            by_event == event_rows_by_mapping(*state),
            by_edge == edge_rows_by_mapping(*state),
            rows_view(events@) == events_before + by_event.take(index as int).flatten(),
            rows_view(edges@) == edges_before + by_edge.take(index as int).flatten(),
        decreases state.mappings.len() - index,
    {
        push_mapping_rows(events, edges, &state.state, &state.mappings[index]);
        proof {
            assert(by_event.take(index + 1) =~= by_event.take(index as int).push(by_event[index as int]));
            assert(by_edge.take(index + 1) =~= by_edge.take(index as int).push(by_edge[index as int]));
            assert(rows_view(events@) =~= events_before + by_event.take(index + 1).flatten());
            assert(rows_view(edges@) =~= edges_before + by_edge.take(index + 1).flatten());
        }
        index = index + 1;
    }
    assert(by_event.take(index as int) =~= by_event);
    assert(by_edge.take(index as int) =~= by_edge);
}

/// The nodes and the edges of every transition of a machine.
fn transition_rows(sm: &ParsedStateMachine) -> (rows: (Vec<Vec<String>>, Vec<Vec<String>>))
    ensures
        rows_view(rows.0@) == diagram_event_rows(*sm),
        rows_view(rows.1@) == diagram_edge_rows(*sm),
        forall|i: int| 0 <= i < rows.0@.len() ==> (#[trigger] rows.0@[i]).len() == 4,
        forall|i: int| 0 <= i < rows.1@.len() ==> (#[trigger] rows.1@[i]).len() == 3,
{
    let ghost by_event = event_rows_by_state(*sm);
    let ghost by_edge = edge_rows_by_state(*sm);
    let mut events: Vec<Vec<String>> = Vec::new();
    let mut edges: Vec<Vec<String>> = Vec::new();
    let mut index: usize = 0;
    assert(rows_view(events@) =~= by_event.take(0).flatten());
    assert(rows_view(edges@) =~= by_edge.take(0).flatten());
    while index < sm.states_events_mapping.len()
        invariant
            index <= sm.states_events_mapping.len(),
            forall|i: int| 0 <= i < events@.len() ==> (#[trigger] events@[i]).len() == 4,
            forall|i: int| 0 <= i < edges@.len() ==> (#[trigger] edges@[i]).len() == 3,
            by_event == event_rows_by_state(*sm),
            by_edge == edge_rows_by_state(*sm),
            rows_view(events@) == by_event.take(index as int).flatten(),
            rows_view(edges@) == by_edge.take(index as int).flatten(),
        decreases sm.states_events_mapping.len() - index,
    {
        push_state_rows(&mut events, &mut edges, &sm.states_events_mapping[index]);
        proof {
            assert(by_event.take(index + 1) =~= by_event.take(index as int).push(by_event[index as int]));
            assert(by_edge.take(index + 1) =~= by_edge.take(index as int).push(by_edge[index as int]));
        }
        index = index + 1;
    }
    assert(by_event.take(index as int) =~= by_event);
    assert(by_edge.take(index as int) =~= by_edge);
    (events, edges)
}

/// The diagram line of a row of the given kind.
fn line_of(kind: LineKind, row: &Vec<String>) -> (line: String)
    requires
        row.len() == row_width(kind),
    ensures
        line@ == line_text(kind, texts_view(*row)),
{
    let ghost texts = texts_view(*row);
    assert(texts[0] == row@[0]@);
    match kind {
        LineKind::State => String::from_str("\t").concat(row[0].as_str()).concat(
            " [shape=box color=\"red\" fillcolor=\"#ffbb33\" style=filled]",
        ),
        LineKind::Event => {
            assert(texts[1] == row@[1]@);
            assert(texts[2] == row@[2]@);
            assert(texts[3] == row@[3]@);
            String::from_str("\t").concat(row[0].as_str()).concat(" [shape=box label=\"").concat(
                row[1].as_str(),
            ).concat("\\n[").concat(row[2].as_str()).concat("] / ").concat(row[3].as_str()).concat(
                "\"]",
            )
        },
        LineKind::Edge => {
            assert(texts[1] == row@[1]@);
            assert(texts[2] == row@[2]@);
            String::from_str("\t").concat(row[0].as_str()).concat(" -> ").concat(row[1].as_str()).concat(
                " [color=blue label=",
            ).concat(row[2].as_str()).concat("];")
        },
    }
}

/// Appends the lines of rows, joined by line breaks.
fn append_lines(text: &mut String, kind: LineKind, rows: &Vec<Vec<String>>)
    requires
        forall|i: int| 0 <= i < rows@.len() ==> (#[trigger] rows@[i]).len() == row_width(kind),
    ensures
        final(text)@ == old(text)@ + lines_text(kind, rows_view(rows@)),
{
    let ghost start = text@;
    let ghost lines = rows_view(rows@).map_values(|row: Seq<Seq<char>>| line_text(kind, row));
    let mut index: usize = 0;
    assert(lines.take(0).len() == 0);
    assert(start + join_with(lines.take(0), "\n"@) =~= start);
    while index < rows.len()
        invariant
            index <= rows.len(),
            lines == rows_view(rows@).map_values(|row: Seq<Seq<char>>| line_text(kind, row)),
            forall|i: int| 0 <= i < rows@.len() ==> (#[trigger] rows@[i]).len() == row_width(kind),
            text@ == start + join_with(lines.take(index as int), "\n"@),
        decreases rows.len() - index,
    {
        let ghost before = lines.take(index as int);
        if index > 0 {
            text.append("\n");
        }
        let line = line_of(kind, &rows[index]);
        text.append(line.as_str());
        proof {
            let after = lines.take(index + 1);
            assert(after.drop_last() =~= before);
            assert(rows_view(rows@)[index as int] == texts_view(rows@[index as int]));
            assert(after.last() == line@);
            if index == 0 {
                assert(after =~= seq![line@]);
            }
            assert(text@ =~= start + join_with(after, "\n"@));
        }
        index = index + 1;
    }
    assert(lines.take(index as int) =~= lines);
}

/// Rows of `sorted` are rows of `rows`, which all have the width of `kind`.
proof fn lemma_sorted_widths(rows: Seq<Vec<String>>, sorted: Seq<Vec<String>>, kind: LineKind)
    requires
        rows_view(sorted) == rows_view(rows).sort_by(texts_order()),
        forall|i: int| 0 <= i < rows.len() ==> (#[trigger] rows[i]).len() == row_width(kind),
    ensures
        forall|i: int| 0 <= i < sorted.len() ==> (#[trigger] sorted[i]).len() == row_width(kind),
{
    super::text_order::lemma_texts_order_is_total();
    rows_view(rows).lemma_sort_by_ensures(texts_order());
    assert forall|i: int| 0 <= i < sorted.len() implies (#[trigger] sorted[i]).len() == row_width(kind) by {
        let row = rows_view(sorted)[i];
        assert(rows_view(sorted).contains(row));
        assert(rows_view(rows).contains(row));
        let j = choose|j: int| 0 <= j < rows_view(rows).len() && rows_view(rows)[j] == row;
        assert(rows_view(rows)[j].len() == rows[j]@.len());
        assert(row.len() == sorted[i]@.len());
    }
}

/// Writes the Graphviz diagram of a machine: the start arrow, the states,
/// one node per transition with its trigger, guard and actions, and the
/// edges, each list in sorted order.
pub fn generate_diagram(sm: &ParsedStateMachine) -> (diagram: String)
    ensures
        diagram@ == machine_diagram(*sm),
{
    let mut states: Vec<Vec<String>> = Vec::new();
    let mut index: usize = 0;
    while index < sm.states.len()
        invariant
            index <= sm.states.len(),
            rows_view(states@) == diagram_state_rows(*sm).take(index as int),
            forall|i: int| 0 <= i < states@.len() ==> (#[trigger] states@[i]).len() == 1,
        decreases sm.states.len() - index,
    {
        let mut row: Vec<String> = Vec::new();
        row.push(sm.states[index].clone());
        let ghost before = states@;
        states.push(row);
        proof {
            assert(texts_view(row) =~= seq![sm.states@[index as int]@]);
            assert(rows_view(states@) =~= rows_view(before).push(texts_view(row)));
            assert(diagram_state_rows(*sm).take(index + 1) =~= diagram_state_rows(*sm).take(
                index as int,
            ).push(texts_view(row)));
        }
        index = index + 1;
    }
    assert(diagram_state_rows(*sm).take(index as int) =~= diagram_state_rows(*sm));
    let (events, edges) = transition_rows(sm);
    let ghost state_rows = states@;
    let ghost event_rows = events@;
    let ghost edge_rows = edges@;
    let states = sort_texts(states);
    let events = sort_texts(events);
    let edges = sort_texts(edges);
    proof {
        lemma_sorted_widths(state_rows, states@, LineKind::State);
        lemma_sorted_widths(event_rows, events@, LineKind::Event);
        lemma_sorted_widths(edge_rows, edges@, LineKind::Edge);
    }
    let mut text = String::from_str(
        "digraph G {\n    rankdir=\"LR\";\n    node [fontname=Arial];\n    edge [fontname=Arial];\n    s [shape=circle size=2 color=\"black\" style=filled]\n    \n    s -> ",
    );
    text.append(sm.starting_state.as_str());
    text.append("\n");
    append_lines(&mut text, LineKind::State, &states);
    text.append("\n\n");
    append_lines(&mut text, LineKind::Event, &events);
    text.append("\n\n");
    append_lines(&mut text, LineKind::Edge, &edges);
    text.append("\n}");
    text
}

/// Sorting a list of rows depends only on which rows it holds, how many
/// times each.
proof fn lemma_sorted_rows_agree(rows: Seq<Seq<Seq<char>>>, others: Seq<Seq<Seq<char>>>)
    requires
        rows.to_multiset() == others.to_multiset(),
    ensures
        rows.sort_by(texts_order()) == others.sort_by(texts_order()),
{
    lemma_texts_order_is_total();
    rows.lemma_sort_by_ensures(texts_order());
    others.lemma_sort_by_ensures(texts_order());
    vstd::seq_lib::lemma_sorted_unique(rows.sort_by(texts_order()), others.sort_by(texts_order()), texts_order());
}

/// The diagram of a machine does not depend on the order in which its
/// states, triggers and transitions are listed: two machines with the same
/// start state and the same states, transition nodes and edges, each as
/// many times, have the same diagram.
pub proof fn law_diagram_ignores_order(sm: ParsedStateMachine, other: ParsedStateMachine)
    requires
        sm.starting_state@ == other.starting_state@,
        diagram_state_rows(sm).to_multiset() == diagram_state_rows(other).to_multiset(),
        diagram_event_rows(sm).to_multiset() == diagram_event_rows(other).to_multiset(),
        diagram_edge_rows(sm).to_multiset() == diagram_edge_rows(other).to_multiset(),
    ensures
        machine_diagram(sm) == machine_diagram(other),
{
    lemma_sorted_rows_agree(diagram_state_rows(sm), diagram_state_rows(other));
    lemma_sorted_rows_agree(diagram_event_rows(sm), diagram_event_rows(other));
    lemma_sorted_rows_agree(diagram_edge_rows(sm), diagram_edge_rows(other));
}

/// A guard written as code is never shorter than a call's `()`.
proof fn lemma_guard_text_is_long(guard: GuardExpression)
    ensures
        guard_text(guard).len() >= 2,
    decreases guard,
{
    match guard {
        GuardExpression::Guard(_) => {
            reveal_strlit("()");
            reveal_strlit("().await");
        },
        GuardExpression::Not(inner) => lemma_guard_text_is_long(*inner),
        GuardExpression::Group(inner) => lemma_guard_text_is_long(*inner),
        GuardExpression::And(left, right) => {
            lemma_guard_text_is_long(*left);
        },
        GuardExpression::Or(left, right) => {
            lemma_guard_text_is_long(*left);
        },
    }
}

/// The node of a transition shows its guard: a guarded transition's guard
/// column is the guard written as code, which is never the `_` that marks a
/// transition without a guard.
pub proof fn law_node_shows_guard(mapping: EventMapping, transition: Transition)
    ensures
        transition.guard matches Some(guard) ==> event_row(mapping, transition)[2] == guard_text(
            guard,
        ) && event_row(mapping, transition)[2] != "_"@,
        transition.guard is None ==> event_row(mapping, transition)[2] == "_"@,
{
    if let Some(guard) = transition.guard {
        lemma_guard_text_is_long(guard);
        reveal_strlit("_");
        assert(guard_text(guard).len() != "_"@.len());
    }
}

} // verus!
