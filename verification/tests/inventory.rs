use sml::dsl::{
    state_hooks, transition_event_type, AsyncIdent,
    initial_state, machine_events, shared_events, state_payloads, DataType, Event, EventConflict,
    EventKind, InputState, OutputState, PayloadConflict, StateMachine, StateTransition, TypeShape,
};

fn data(text: &str) -> DataType {
    DataType {
        text: text.to_string(),
        shape: TypeShape::Path { qualified: false, segments: vec![text.to_string()], nested: Vec::new() },
    }
}

fn source(name: &str, start: bool, payload: Option<&str>, composite: Option<&str>) -> InputState {
    InputState {
        start,
        wildcard: false,
        ident: name.to_string(),
        data_type: payload.map(data),
        composite: composite.map(|child| child.to_string()),
        history: false,
    }
}

fn target(name: &str, payload: Option<&str>, composite: Option<&str>) -> OutputState {
    OutputState {
        ident: name.to_string(),
        internal_transition: false,
        data_type: payload.map(data),
        composite: composite.map(|child| child.to_string()),
    }
}

fn trigger(name: &str, kind: EventKind, payload: Option<&str>, external: bool) -> Event {
    Event { ident: name.to_string(), data_type: payload.map(data), kind, wildcard: false, external }
}

fn row(in_state: InputState, event: Event, out_state: OutputState) -> StateTransition {
    StateTransition {
        in_state,
        event,
        guard: None,
        action: None,
        additional_actions: Vec::new(),
        process_events: Vec::new(),
        defer: false,
        eval_actions: Vec::new(),
        out_state,
        internal_transition: false,
    }
}

fn table(transitions: Vec<StateTransition>) -> StateMachine {
    StateMachine {
        name: Some("Table".to_string()),
        states_attr: Vec::new(),
        events_attr: Vec::new(),
        temporary_context_type: None,
        custom_error: false,
        transitions,
        entry_exit_async: false,
        fixed_error_type: None,
        event_generics: Vec::new(),
    }
}

fn plain(name: &str) -> Event {
    trigger(name, EventKind::Normal, None, false)
}

#[test]
fn payload_types_are_recorded_once_per_state() {
    let machine = table(vec![
        row(source("Idle", true, Some("u8"), None), plain("Go"), target("Busy", Some("String"), None)),
        row(source("Busy", false, None, None), plain("Stop"), target("Idle", Some("u8"), None)),
    ]);
    let mut payloads = state_payloads(&machine, &Vec::new()).unwrap();
    payloads.sort_by(|a, b| a.0.cmp(&b.0));
    let texts: Vec<(String, String)> =
        payloads.into_iter().map(|(state, ty)| (state, ty.text)).collect();
    assert_eq!(
        texts,
        vec![("Busy".to_string(), "String".to_string()), ("Idle".to_string(), "u8".to_string())]
    );
}

#[test]
fn a_state_with_two_payload_types_is_refused() {
    let machine = table(vec![
        row(source("Idle", true, Some("u8"), None), plain("Go"), target("Busy", None, None)),
        row(source("Busy", false, None, None), plain("Stop"), target("Idle", Some("u16"), None)),
    ]);
    assert_eq!(
        state_payloads(&machine, &Vec::new()).unwrap_err(),
        PayloadConflict { state: "Idle".to_string() }
    );
}

#[test]
fn states_that_enter_a_child_table_carry_no_payload_of_their_own() {
    let machine = table(vec![
        row(source("Idle", true, None, None), plain("Go"), target("Busy", Some("Child"), Some("Child"))),
        row(source("Busy", false, Some("Other"), None), plain("Stop"), target("Idle", None, None)),
    ]);
    let payloads = state_payloads(&machine, &vec!["Child".to_string()]).unwrap();
    assert_eq!(payloads.len(), 1);
    assert_eq!(payloads[0].0, "Busy");
    assert_eq!(payloads[0].1.text, "Other");
    assert_eq!(
        state_payloads(&machine, &Vec::new()).unwrap_err(),
        PayloadConflict { state: "Busy".to_string() }
    );
}

#[test]
fn events_keep_their_first_row_and_skip_lifecycle_triggers() {
    let machine = table(vec![
        row(source("Idle", true, None, None), trigger("Go", EventKind::Normal, Some("u8"), false), target("Busy", None, None)),
        row(source("Busy", false, None, None), trigger("Go", EventKind::Normal, None, true), target("Idle", None, None)),
        row(source("Busy", false, None, None), trigger("_", EventKind::Entry, None, false), target("Busy", None, None)),
        row(source("Busy", false, None, None), trigger("Oops", EventKind::Unexpected, None, false), target("Idle", None, None)),
        row(source("Busy", false, None, None), trigger("Next", EventKind::Completion, None, false), target("Idle", None, None)),
    ]);
    let events = machine_events(&machine);
    assert_eq!(events.len(), 2);
    assert_eq!(events[0].ident, "Go");
    assert_eq!(events[0].data_type.as_ref().map(|ty| ty.text.clone()), Some("u8".to_string()));
    assert!(!events[0].external);
    assert_eq!(events[1].ident, "Oops");
}

#[test]
fn tables_of_a_tree_must_agree_on_their_events() {
    let parent = table(vec![row(
        source("Idle", true, None, None),
        trigger("Go", EventKind::Normal, Some("u8"), false),
        target("Busy", None, None),
    )]);
    let agreeing = table(vec![row(
        source("In", true, None, None),
        trigger("Go", EventKind::Normal, Some("u8"), false),
        target("Out", None, None),
    )]);
    let disagreeing = table(vec![row(
        source("In", true, None, None),
        trigger("Go", EventKind::Normal, Some("u16"), false),
        target("Out", None, None),
    )]);
    let machines = vec![parent, agreeing, disagreeing];
    assert_eq!(shared_events(&machines, &vec![0, 1]).unwrap().len(), 1);
    assert_eq!(
        shared_events(&machines, &vec![0, 2]).unwrap_err(),
        EventConflict { event: "Go".to_string() }
    );
}

#[test]
fn the_initial_state_is_the_first_start_row() {
    let machine = table(vec![
        row(source("Before", false, None, None), plain("Go"), target("Idle", None, None)),
        row(source("Idle", true, None, None), plain("Go"), target("Busy", None, None)),
        row(source("Busy", true, None, None), plain("Go"), target("Idle", None, None)),
    ]);
    assert_eq!(initial_state(&machine), Some(&"Idle".to_string()));
    assert_eq!(initial_state(&table(Vec::new())), None);
}

fn hooked(state: &str, kind: EventKind, action: &str, more: &[&str]) -> StateTransition {
    let mut hook = row(source(state, false, None, None), trigger("_", kind, None, false), target(state, None, None));
    hook.action = Some(AsyncIdent { ident: action.to_string(), is_async: false });
    hook.additional_actions =
        more.iter().map(|name| AsyncIdent { ident: name.to_string(), is_async: true }).collect();
    hook
}

fn idents(calls: &Option<Vec<AsyncIdent>>) -> Option<Vec<String>> {
    calls.as_ref().map(|calls| calls.iter().map(|call| call.ident.clone()).collect())
}

#[test]
fn entry_and_exit_hooks_are_kept_per_state_and_the_last_row_wins() {
    let machine = table(vec![
        row(source("Idle", true, None, None), plain("Go"), target("Busy", None, None)),
        hooked("Busy", EventKind::Entry, "start", &["light"]),
        hooked("Busy", EventKind::Exit, "stop", &[]),
        hooked("Idle", EventKind::Exit, "leave", &[]),
        hooked("Busy", EventKind::Entry, "restart", &[]),
    ]);
    let hooks = state_hooks(&machine);
    assert_eq!(hooks.len(), 2);
    assert_eq!(hooks[0].state, "Busy");
    assert_eq!(idents(&hooks[0].entry), Some(vec!["restart".to_string()]));
    assert_eq!(idents(&hooks[0].exit), Some(vec!["stop".to_string()]));
    assert_eq!(hooks[1].state, "Idle");
    assert_eq!(idents(&hooks[1].entry), None);
    assert_eq!(idents(&hooks[1].exit), Some(vec!["leave".to_string()]));
    let first = state_hooks(&table(vec![hooked("Busy", EventKind::Entry, "start", &["light"])]));
    assert_eq!(idents(&first[0].entry), Some(vec!["start".to_string(), "light".to_string()]));
    assert!(first[0].entry.as_ref().unwrap()[1].is_async);
}

#[test]
fn a_named_completion_takes_the_payload_of_its_event() {
    let machine = table(vec![
        row(source("Idle", true, None, None), trigger("Go", EventKind::Normal, Some("u8"), false), target("Busy", None, None)),
        row(source("Busy", false, None, None), trigger("Go", EventKind::Completion, None, false), target("Idle", None, None)),
        row(source("Busy", false, None, None), trigger("Other", EventKind::Completion, None, false), target("Idle", None, None)),
    ]);
    let inherited = transition_event_type(&machine, &machine.transitions[1]);
    assert_eq!(inherited.map(|ty| ty.text.clone()), Some("u8".to_string()));
    assert!(transition_event_type(&machine, &machine.transitions[2]).is_none());
    let own = transition_event_type(&machine, &machine.transitions[0]);
    assert_eq!(own.map(|ty| ty.text.clone()), Some("u8".to_string()));
}
