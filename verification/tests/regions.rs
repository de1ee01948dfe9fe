use sml::dsl::{
    discover_regions, plan_orthogonal, validate_supported, Event, EventKind, InputState,
    OrthogonalError, OutputState, Region, RegionError, StateMachine, StateTransition,
};

fn source(name: &str, start: bool) -> InputState {
    InputState {
        start,
        wildcard: false,
        ident: name.to_string(),
        data_type: None,
        composite: None,
        history: false,
    }
}

fn wildcard_source() -> InputState {
    InputState {
        start: false,
        wildcard: true,
        ident: "_".to_string(),
        data_type: None,
        composite: None,
        history: false,
    }
}

fn target(name: &str) -> OutputState {
    OutputState {
        ident: name.to_string(),
        internal_transition: false,
        data_type: None,
        composite: None,
    }
}

fn internal() -> OutputState {
    OutputState {
        ident: "_".to_string(),
        internal_transition: true,
        data_type: None,
        composite: None,
    }
}

fn trigger(name: &str, kind: EventKind) -> Event {
    Event { ident: name.to_string(), data_type: None, kind, wildcard: false, external: false }
}

fn row(in_state: InputState, event: Event, out_state: OutputState) -> StateTransition {
    let internal_transition = out_state.internal_transition;
    StateTransition {
        in_state,
        event,
        guard: None,
        action: None,
        additional_actions: Vec::new(),
        process_events: Vec::new(),
        defer: false,
        eval_actions: Vec::new(),
        out_state,
        internal_transition,
    }
}

fn machine(transitions: Vec<StateTransition>) -> StateMachine {
    StateMachine {
        name: Some("Split".to_string()),
        states_attr: Vec::new(),
        events_attr: Vec::new(),
        temporary_context_type: None,
        custom_error: false,
        transitions,
        entry_exit_async: false,
        fixed_error_type: None,
        event_generics: Vec::new(),
    }
}

fn sorted_states(region: &Region) -> Vec<String> {
    let mut states = region.states.clone();
    states.sort();
    states
}

fn normal(name: &str) -> Event {
    trigger(name, EventKind::Normal)
}

#[test]
fn each_start_state_owns_the_states_connected_to_it() {
    let sm = machine(vec![
        row(source("Idle", true), normal("Play"), target("Playing")),
        row(source("Playing", false), normal("Stop"), target("Idle")),
        row(source("Quiet", true), normal("Loud"), target("Noisy")),
        row(source("Noisy", false), normal("Calm"), target("Hushed")),
    ]);
    let regions = discover_regions(&sm).unwrap();
    assert_eq!(regions.len(), 2);
    assert_eq!(regions[0].initial, "Idle");
    assert_eq!(regions[0].states[0], "Idle");
    assert_eq!(sorted_states(&regions[0]), vec!["Idle".to_string(), "Playing".to_string()]);
    assert_eq!(regions[1].initial, "Quiet");
    assert_eq!(regions[1].states[0], "Quiet");
    assert_eq!(
        sorted_states(&regions[1]),
        vec!["Hushed".to_string(), "Noisy".to_string(), "Quiet".to_string()]
    );
}

#[test]
fn rows_join_their_states_in_both_directions() {
    // `Back` is only ever a source; it reaches `Idle`, so it belongs to Idle's region.
    let sm = machine(vec![
        row(source("Idle", true), normal("Go"), target("Busy")),
        row(source("Back", false), normal("Return"), target("Idle")),
        row(source("Other", true), normal("Tick"), internal()),
    ]);
    let regions = discover_regions(&sm).unwrap();
    assert_eq!(
        sorted_states(&regions[0]),
        vec!["Back".to_string(), "Busy".to_string(), "Idle".to_string()]
    );
    assert_eq!(sorted_states(&regions[1]), vec!["Other".to_string()]);
}

#[test]
fn regions_that_meet_report_the_later_start_state() {
    // The first region already reaches `C` through `B`, so the second one
    // meets it at its own start state.
    let sm = machine(vec![
        row(source("A", true), normal("Go"), target("B")),
        row(source("C", true), normal("Go"), target("B")),
    ]);
    assert_eq!(
        discover_regions(&sm).unwrap_err(),
        RegionError::Overlap { region: 1, state: "C".to_string() }
    );
}

#[test]
fn a_state_without_a_start_state_is_reported() {
    let sm = machine(vec![
        row(source("A", true), normal("Go"), target("B")),
        row(source("Lost", false), normal("Go"), target("Gone")),
    ]);
    match discover_regions(&sm).unwrap_err() {
        RegionError::Unconnected { state } => {
            assert!(state == "Lost" || state == "Gone");
        }
        other => panic!("unexpected error {other:?}"),
    }
}

#[test]
fn the_terminal_state_and_wildcard_rows_join_nothing() {
    // Both regions may end in `X`, and a wildcard row links no region.
    let sm = machine(vec![
        row(source("A", true), normal("Stop"), target("X")),
        row(source("B", true), normal("Stop"), target("X")),
        row(wildcard_source(), normal("Reset"), target("A")),
    ]);
    let regions = discover_regions(&sm).unwrap();
    assert_eq!(regions.len(), 2);
    assert_eq!(regions[0].states, vec!["A".to_string()]);
    assert_eq!(regions[1].states, vec!["B".to_string()]);
}

#[test]
fn a_completion_that_stays_put_is_not_supported_in_regions() {
    let sm = machine(vec![
        row(source("A", true), normal("Go"), target("B")),
        row(source("B", false), trigger("Go", EventKind::Completion), target("A")),
        row(source("C", true), trigger("Go", EventKind::Completion), internal()),
    ]);
    assert_eq!(validate_supported(&sm), Err(2));
    let fine = machine(vec![
        row(source("A", true), normal("Go"), target("B")),
        row(source("B", false), trigger("Go", EventKind::Completion), target("A")),
    ]);
    assert_eq!(validate_supported(&fine), Ok(()));
}

#[test]
fn a_split_table_must_be_named_and_fit_before_its_regions_are_found() {
    let mut unnamed = machine(vec![
        row(source("A", true), normal("Go"), target("B")),
        row(source("C", true), normal("Go"), target("D")),
    ]);
    unnamed.name = None;
    assert_eq!(plan_orthogonal(&unnamed).unwrap_err(), OrthogonalError::Unnamed);
    let staying = machine(vec![
        row(source("A", true), normal("Go"), target("B")),
        row(source("C", true), trigger("Go", EventKind::Completion), internal()),
    ]);
    assert_eq!(
        plan_orthogonal(&staying).unwrap_err(),
        OrthogonalError::StayingCompletion { row: 1 }
    );
    let meeting = machine(vec![
        row(source("A", true), normal("Go"), target("B")),
        row(source("C", true), normal("Go"), target("B")),
    ]);
    assert_eq!(
        plan_orthogonal(&meeting).unwrap_err(),
        OrthogonalError::Region(RegionError::Overlap { region: 1, state: "C".to_string() })
    );
    let fine = machine(vec![
        row(source("A", true), normal("Go"), target("B")),
        row(source("C", true), normal("Go"), target("D")),
    ]);
    assert_eq!(plan_orthogonal(&fine).unwrap().len(), 2);
}

#[test]
fn a_split_table_expands_to_one_state_per_region() {
    let split = machine(vec![
        row(source("A", true), normal("Go"), target("B")),
        row(source("C", true), normal("Go"), target("D")),
    ]);
    let regions = plan_orthogonal(&split).unwrap();
    let tokens = sml::dsl::generate_orthogonal_code(&split, &regions, &Vec::new()).unwrap();
    let expected = [
        "# [allow (missing_docs ) ] pub enum SplitStates {A , B , C , D } ",
        "impl PartialEq for SplitStates {fn eq (& self , other : & Self ) -> bool ",
        "{core :: mem :: discriminant (self ) == core :: mem :: discriminant (other ) } } ",
        "# [allow (missing_docs ) ] pub enum SplitEvents {Go } ",
        "# [derive (Debug , PartialEq ) ] pub enum SplitError < E = () > {InvalidEvent , ",
        "TransitionsFailed , GuardFailed (E ) , ActionFailed (E ) , QueueFull , } ",
        "pub struct SplitStateMachine < T : SplitStateMachineContext > ",
        "{states : [SplitStates ; 2 ] , context : T , } ",
        "impl < T : SplitStateMachineContext > SplitStateMachine < T > {",
        "pub fn new (context : T ) -> Self ",
        "{Self {states : [SplitStates :: A , SplitStates :: C ] , context , } } ",
        "pub fn state (& self , region : usize ) -> Option < & SplitStates > ",
        "{self . states . get (region ) } ",
        "pub fn is (& self , expected : & [SplitStates ; 2 ] ) -> bool {self . states == * expected } ",
        "pub fn is_region (& self , region : usize , expected : & SplitStates ) -> bool ",
        "{self . states . get (region ) . map_or (false , | state | state == expected ) } ",
        "pub fn is_terminated (& self ) -> bool ",
        "{self . states . iter () . all (| state | matches ! (state , SplitStates :: X ) ) } ",
        "pub fn context (& self ) -> & T {& self . context } ",
        "pub fn context_mut (& mut self ) -> & mut T {& mut self . context } } ",
        "impl < T : SplitStateMachineContext > :: sml :: Terminated for SplitStateMachine < T > ",
        "{fn is_terminated (& self ) -> bool {self . is_terminated () } } ",
    ]
    .concat();
    assert_eq!(sml::dsl::render_tokens(&tokens), expected);
    let mut unnamed = split;
    unnamed.name = None;
    assert!(sml::dsl::generate_orthogonal_code(&unnamed, &regions, &Vec::new()).is_none());
}

#[test]
fn a_deferring_split_table_keeps_a_bounded_deferred_queue() {
    let mut waits = row(source("A", true), normal("Go"), target("B"));
    waits.defer = true;
    let split = machine(vec![waits, row(source("C", true), normal("Go"), target("D"))]);
    let regions = plan_orthogonal(&split).unwrap();
    let tokens = sml::dsl::generate_orthogonal_code(&split, &regions, &Vec::new()).unwrap();
    let text = sml::dsl::render_tokens(&tokens);
    assert!(text.contains(
        "{states : [SplitStates ; 2 ] , context : T , deferred : :: sml :: utility :: EventQueue < SplitEvents , 16 > , } "
    ));
    assert!(text.contains("deferred : :: sml :: utility :: EventQueue :: new () , } } "));
    let sixteen = sml::dsl::TokenTree::Literal("16".to_string());
    assert!(tokens.iter().any(|token| match token {
        sml::dsl::TokenTree::Group(sml::dsl::Delimiter::Brace, inner) => inner.contains(&sixteen),
        _ => false,
    }));
}

#[test]
fn a_state_payload_of_a_split_table_needs_its_tokens() {
    let mut filled = target("B");
    filled.data_type = Some(sml::dsl::DataType {
        text: "u8".to_string(),
        shape: sml::dsl::TypeShape::Path {
            qualified: false,
            segments: vec!["u8".to_string()],
            nested: Vec::new(),
        },
    });
    let split = machine(vec![
        row(source("A", true), normal("Go"), filled),
        row(source("C", true), normal("Go"), target("D")),
    ]);
    let regions = plan_orthogonal(&split).unwrap();
    assert!(sml::dsl::generate_orthogonal_code(&split, &regions, &Vec::new()).is_none());
    let payloads = vec![("u8".to_string(), vec![sml::dsl::TokenTree::Ident("u8".to_string())])];
    let tokens = sml::dsl::generate_orthogonal_code(&split, &regions, &payloads).unwrap();
    let text = sml::dsl::render_tokens(&tokens);
    assert!(text.starts_with("# [allow (missing_docs ) ] pub enum SplitStates {A , B (u8 ) , C , D } "));
}
