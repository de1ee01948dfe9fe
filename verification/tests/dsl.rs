use sml::dsl::{
    normalize_direction, normalize_transition, split_transitions, type_uses_generic_param,
    AnalysisError, AsyncIdent, DataDefinitions, DataError, DataType, Delimiter, Event, EventKind,
    GenericParam, InputState, Lifetimes, OutputState, ParsedStateMachine, Spacing, StateMachine,
    StateTransition, TokenTree, TypeShape,
};

fn alone(c: char) -> TokenTree {
    TokenTree::Punct(c, Spacing::Alone)
}

fn joint(c: char) -> TokenTree {
    TokenTree::Punct(c, Spacing::Joint)
}

fn ident(name: &str) -> TokenTree {
    TokenTree::Ident(name.to_string())
}

fn literal(text: &str) -> TokenTree {
    TokenTree::Literal(text.to_string())
}

fn path(name: &str, nested: Vec<TypeShape>) -> TypeShape {
    TypeShape::Path { qualified: false, segments: vec![name.to_string()], nested }
}

fn lifetime(name: &str) -> TypeShape {
    TypeShape::Lifetime(name.to_string())
}

fn reference(lifetime: Option<&str>, referent: TypeShape) -> TypeShape {
    TypeShape::Reference {
        lifetime: lifetime.map(|name| name.to_string()),
        mutable: false,
        referent: Box::new(referent),
    }
}

fn data(text: &str, shape: TypeShape) -> DataType {
    DataType { text: text.to_string(), shape }
}

fn names(lifetimes: &Lifetimes) -> Vec<String> {
    lifetimes.as_slice().to_vec()
}

fn source(name: &str, start: bool) -> InputState {
    InputState {
        start,
        wildcard: false,
        ident: name.to_string(),
        data_type: None,
        composite: None,
        history: false,
    }
}

fn wildcard_source() -> InputState {
    InputState {
        start: false,
        wildcard: true,
        ident: "_".to_string(),
        data_type: None,
        composite: None,
        history: false,
    }
}

fn target(name: &str) -> OutputState {
    OutputState {
        ident: name.to_string(),
        internal_transition: false,
        data_type: None,
        composite: None,
    }
}

fn internal() -> OutputState {
    OutputState {
        ident: "_".to_string(),
        internal_transition: true,
        data_type: None,
        composite: None,
    }
}

fn event(name: &str) -> Event {
    Event {
        ident: name.to_string(),
        data_type: None,
        kind: EventKind::Normal,
        wildcard: false,
        external: false,
    }
}

fn row(in_state: InputState, trigger: Event, out_state: OutputState) -> StateTransition {
    let internal_transition = out_state.internal_transition;
    StateTransition {
        in_state,
        event: trigger,
        guard: None,
        action: None,
        additional_actions: Vec::new(),
        process_events: Vec::new(),
        defer: false,
        eval_actions: Vec::new(),
        out_state,
        internal_transition,
    }
}

fn machine(transitions: Vec<StateTransition>) -> StateMachine {
    StateMachine {
        name: Some("Player".to_string()),
        states_attr: Vec::new(),
        events_attr: Vec::new(),
        temporary_context_type: None,
        custom_error: false,
        transitions,
        entry_exit_async: false,
        fixed_error_type: None,
        event_generics: Vec::new(),
    }
}

fn analysis_error(sm: StateMachine) -> AnalysisError {
    match ParsedStateMachine::new(sm) {
        Ok(_) => panic!("the table was accepted"),
        Err(error) => error,
    }
}

#[test]
fn reverse_transition_is_normalized_to_forward_form() {
    let normalized = normalize_direction(vec![
        literal("\"open\"_s"),
        joint('<'),
        alone('='),
        alone('*'),
        literal("\"empty\"_s"),
        alone('+'),
        ident("event"),
        alone('<'),
        ident("OpenClose"),
        alone('>'),
        alone('/'),
        ident("open_drawer"),
    ]);
    assert_eq!(
        normalized,
        vec![
            alone('*'),
            literal("\"empty\"_s"),
            alone('+'),
            ident("event"),
            alone('<'),
            ident("OpenClose"),
            alone('>'),
            alone('/'),
            ident("open_drawer"),
            alone('='),
            literal("\"open\"_s"),
        ]
    );
}

#[test]
fn anonymous_transition_gets_completion_trigger() {
    let normalized = normalize_transition(vec![
        alone('*'),
        literal("\"idle\"_s"),
        alone('/'),
        ident("start"),
        alone('='),
        literal("\"ready\"_s"),
    ]);
    assert_eq!(
        normalized,
        vec![
            alone('*'),
            literal("\"idle\"_s"),
            alone('+'),
            ident("completion"),
            alone('<'),
            ident("_"),
            alone('>'),
            alone('/'),
            ident("start"),
            alone('='),
            literal("\"ready\"_s"),
        ]
    );
}

#[test]
fn transition_split_ignores_generic_argument_commas() {
    let transitions = split_transitions(vec![
        alone('*'),
        ident("Idle"),
        alone('+'),
        ident("event"),
        alone('<'),
        ident("Message"),
        alone('<'),
        joint('\''),
        ident("a"),
        alone(','),
        ident("T"),
        alone(','),
        ident("N"),
        joint('>'),
        alone('>'),
        alone('='),
        ident("Ready"),
        alone(','),
        ident("Ready"),
        alone('+'),
        ident("event"),
        alone('<'),
        ident("Done"),
        alone('>'),
        alone('='),
        ident("X"),
        alone(','),
    ]);
    assert_eq!(transitions.len(), 2);
}

#[test]
fn split_drops_empty_rows_and_keeps_comparisons() {
    let rows = split_transitions(vec![
        alone(','),
        ident("A"),
        joint('<'),
        alone('='),
        ident("B"),
        alone(','),
        alone(','),
        ident("C"),
    ]);
    assert_eq!(rows.len(), 2);
    assert_eq!(rows[0], vec![ident("A"), joint('<'), alone('='), ident("B")]);
    assert_eq!(rows[1], vec![ident("C")]);
}

#[test]
fn rows_that_name_a_trigger_or_nothing_are_left_alone() {
    let named = vec![ident("Idle"), alone('+'), ident("Start"), alone('='), ident("Ready")];
    assert_eq!(
        normalize_transition(named),
        vec![ident("Idle"), alone('+'), ident("Start"), alone('='), ident("Ready")]
    );
    assert_eq!(normalize_transition(vec![ident("Idle")]), vec![ident("Idle")]);
}

#[test]
fn guarded_anonymous_row_gets_its_trigger_before_the_guard() {
    let guard = TokenTree::Group(Delimiter::Bracket, vec![ident("ready")]);
    let normalized = normalize_transition(vec![ident("Idle"), guard, alone('='), ident("Run")]);
    assert_eq!(normalized.len(), 9);
    assert_eq!(normalized[1], alone('+'));
    assert_eq!(normalized[2], ident("completion"));
    assert_eq!(normalized[6], TokenTree::Group(Delimiter::Bracket, vec![ident("ready")]));
}

#[test]
fn reverse_row_with_completion_gets_both_normalizations() {
    let normalized = normalize_transition(vec![
        ident("Ready"),
        joint('<'),
        alone('='),
        ident("Boot"),
        alone('/'),
        ident("init"),
    ]);
    assert_eq!(
        normalized,
        vec![
            ident("Boot"),
            alone('+'),
            ident("completion"),
            alone('<'),
            ident("_"),
            alone('>'),
            alone('/'),
            ident("init"),
            alone('='),
            ident("Ready"),
        ]
    );
}

#[test]
fn collects_consistent_types_and_lifetimes() {
    let mut definitions = DataDefinitions::new();
    definitions
        .collect("event".to_owned(), Some(data("& 'a str", reference(Some("'a"), path("str", vec![])))))
        .unwrap();
    definitions
        .collect("event".to_owned(), Some(data("& 'a str", reference(Some("'a"), path("str", vec![])))))
        .unwrap();
    assert_eq!(definitions.len(), 1);
    assert_eq!(definitions.all_lifetimes().as_slice().len(), 1);
    assert_eq!(definitions.lifetimes_of(&"event".to_string()).unwrap().as_slice().len(), 1);
}

#[test]
fn rejects_conflicting_or_missing_redefinitions() {
    let mut definitions = DataDefinitions::new();
    definitions.collect("event".to_owned(), Some(data("u8", path("u8", vec![])))).unwrap();
    assert!(definitions.collect("event".to_owned(), Some(data("u16", path("u16", vec![])))).is_err());
    assert!(definitions.collect("event".to_owned(), None).is_err());
}

#[test]
fn ignores_absent_first_definition() {
    let mut definitions = DataDefinitions::new();
    definitions.collect("event".to_owned(), None).unwrap();
    assert_eq!(definitions.len(), 0);
}

#[test]
fn recorded_types_are_kept_by_name_and_errors_change_nothing() {
    let mut definitions = DataDefinitions::new();
    definitions.collect("count".to_owned(), Some(data("u32", path("u32", vec![])))).unwrap();
    assert_eq!(
        definitions.collect("count".to_owned(), Some(data("u64", path("u64", vec![])))),
        Err(DataError::Conflict)
    );
    assert_eq!(
        definitions.collect("text".to_owned(), Some(data("& str", reference(None, path("str", vec![]))))),
        Err(DataError::MissingLifetime)
    );
    assert_eq!(definitions.len(), 1);
    assert_eq!(definitions.data_type(&"count".to_string()).unwrap(), "u32");
    assert!(definitions.data_type(&"text".to_string()).is_none());
    assert!(definitions.lifetimes_of(&"count".to_string()).is_none());
}

#[test]
fn extracts_nested_and_generic_lifetimes_without_duplicates() {
    let ty = TypeShape::Tuple(vec![
        reference(Some("'a"), path("str", vec![])),
        path("Wrapper", vec![lifetime("'b"), reference(Some("'a"), path("u8", vec![]))]),
    ]);
    let lifetimes = Lifetimes::from_type(&ty).unwrap();
    assert_eq!(lifetimes.as_slice().len(), 2);
    assert_eq!(lifetimes.to_token_text(), "'a , 'b ,");
}

#[test]
fn rejects_reference_without_explicit_lifetime() {
    let error = Lifetimes::from_type(&reference(None, path("str", vec![]))).unwrap_err();
    assert!(error.message().contains("lifetime is not defined"));
}

#[test]
fn subtraction_forms_remove_shared_lifetimes() {
    let left = Lifetimes::from_type(&path("Pair", vec![lifetime("'a"), lifetime("'b")])).unwrap();
    let right = Lifetimes::from_type(&path("Item", vec![lifetime("'b")])).unwrap();
    let left_again = Lifetimes::from_type(&path("Pair", vec![lifetime("'a"), lifetime("'b")])).unwrap();
    let right_again = Lifetimes::from_type(&path("Item", vec![lifetime("'b")])).unwrap();
    assert_eq!((left_again - right_again).as_slice().len(), 1);
    let left_owned = Lifetimes::from_type(&path("Pair", vec![lifetime("'a"), lifetime("'b")])).unwrap();
    assert_eq!((left_owned - &right).as_slice().len(), 1);
    let right_owned = Lifetimes::from_type(&path("Item", vec![lifetime("'b")])).unwrap();
    assert_eq!((&left - right_owned).as_slice().len(), 1);
    assert_eq!((&left - &right).as_slice().len(), 1);
}

#[test]
fn empty_lifetimes_emit_no_tokens_and_other_types_are_ignored() {
    let empty = Lifetimes::from_type(&path("u8", vec![])).unwrap();
    assert!(empty.is_empty());
    assert!(empty.to_token_text().is_empty());
}

#[test]
fn lifetimes_keep_first_order_and_skip_duplicates() {
    let mut lifetimes = Lifetimes::new();
    lifetimes.insert(&"'b".to_string());
    lifetimes.insert(&"'a".to_string());
    lifetimes.insert(&"'b".to_string());
    assert_eq!(names(&lifetimes), vec!["'b".to_string(), "'a".to_string()]);
    let other = Lifetimes::from_type(&path("Both", vec![lifetime("'c"), lifetime("'a")])).unwrap();
    lifetimes.extend(&other);
    assert_eq!(names(&lifetimes), vec!["'b".to_string(), "'a".to_string(), "'c".to_string()]);
    assert_eq!(lifetimes.to_token_text(), "'b , 'a , 'c ,");
    assert_eq!(names(&lifetimes.difference(&other)), vec!["'b".to_string()]);
}

#[test]
fn tuple_scan_stops_at_a_reference_without_lifetime() {
    let mut lifetimes = Lifetimes::new();
    let ty = TypeShape::Tuple(vec![
        reference(Some("'a"), path("u8", vec![])),
        reference(None, path("u8", vec![])),
        reference(Some("'z"), path("u8", vec![])),
    ]);
    assert!(lifetimes.insert_from_type(&ty).is_err());
    assert_eq!(names(&lifetimes), vec!["'a".to_string()]);
}

#[test]
fn generic_parameters_are_found_where_they_are_used() {
    let message = path(
        "Message",
        vec![lifetime("'a"), path("T", vec![]), path("N", vec![])],
    );
    assert!(type_uses_generic_param(&message, &GenericParam::Type("T".to_string())));
    assert!(type_uses_generic_param(&message, &GenericParam::Const("N".to_string())));
    assert!(type_uses_generic_param(&message, &GenericParam::Lifetime("'a".to_string())));
    assert!(!type_uses_generic_param(&message, &GenericParam::Type("U".to_string())));
    let qualified = TypeShape::Path {
        qualified: true,
        segments: vec!["T".to_string()],
        nested: vec![],
    };
    assert!(!type_uses_generic_param(&qualified, &GenericParam::Type("T".to_string())));
    let assoc = TypeShape::Path {
        qualified: false,
        segments: vec!["N".to_string(), "Item".to_string()],
        nested: vec![],
    };
    assert!(type_uses_generic_param(&assoc, &GenericParam::Type("N".to_string())));
    assert!(!type_uses_generic_param(&assoc, &GenericParam::Const("N".to_string())));
    let array = TypeShape::Array {
        element: Box::new(path("u8", vec![])),
        length: vec![TypeShape::Value { qualified: false, segments: vec!["N".to_string()] }],
    };
    assert!(type_uses_generic_param(&array, &GenericParam::Const("N".to_string())));
    assert!(!type_uses_generic_param(&array, &GenericParam::Type("N".to_string())));
}

#[test]
fn analysis_collects_states_events_and_transition_maps() {
    let parsed = ParsedStateMachine::new(machine(vec![
        row(source("Idle", true), event("Start"), target("Running")),
        row(source("Running", false), event("Stop"), target("Idle")),
        row(source("Running", false), event("Tick"), internal()),
    ]))
    .unwrap();
    assert_eq!(parsed.name, Some("Player".to_string()));
    assert_eq!(parsed.starting_state, "Idle");
    assert_eq!(parsed.states, vec!["Idle".to_string(), "Running".to_string()]);
    assert_eq!(
        parsed.events,
        vec!["Start".to_string(), "Stop".to_string(), "Tick".to_string()]
    );
    assert_eq!(parsed.states_events_mapping.len(), 2);
    let running = &parsed.states_events_mapping[1];
    assert_eq!(running.state, "Running");
    assert_eq!(running.mappings.len(), 2);
    assert_eq!(running.mappings[0].event, "Stop");
    assert_eq!(running.mappings[0].transitions[0].out_state, "Idle");
    assert_eq!(running.mappings[1].event, "Tick");
    assert_eq!(running.mappings[1].transitions[0].out_state, "Running");
    assert!(running.mappings[1].transitions[0].internal_transition);
}

#[test]
fn wildcard_rows_reach_only_uncovered_states() {
    let parsed = ParsedStateMachine::new(machine(vec![
        row(source("Idle", true), event("Start"), target("Running")),
        row(source("Running", false), event("Reset"), target("Running")),
        row(wildcard_source(), event("Reset"), target("Idle")),
    ]))
    .unwrap();
    assert_eq!(parsed.states, vec!["Idle".to_string(), "Running".to_string()]);
    let idle = &parsed.states_events_mapping[0];
    assert_eq!(idle.mappings.len(), 2);
    assert_eq!(idle.mappings[1].event, "Reset");
    assert_eq!(idle.mappings[1].transitions.len(), 1);
    assert_eq!(idle.mappings[1].transitions[0].out_state, "Idle");
    let running = &parsed.states_events_mapping[1];
    assert_eq!(running.mappings.len(), 1);
    assert_eq!(running.mappings[0].transitions.len(), 1);
    assert_eq!(running.mappings[0].transitions[0].out_state, "Running");
}

#[test]
fn later_rows_for_the_same_trigger_join_its_entry() {
    let mut guarded = row(source("Idle", true), event("Go"), target("A"));
    guarded.action = Some(AsyncIdent { ident: "first".to_string(), is_async: false });
    let parsed = ParsedStateMachine::new(machine(vec![
        guarded,
        row(source("Idle", false), event("Go"), target("B")),
    ]))
    .unwrap();
    let idle = &parsed.states_events_mapping[0];
    assert_eq!(idle.mappings.len(), 1);
    assert_eq!(idle.mappings[0].transitions.len(), 2);
    assert_eq!(idle.mappings[0].transitions[0].out_state, "A");
    assert_eq!(idle.mappings[0].transitions[0].action.as_ref().unwrap().ident, "first");
    assert_eq!(idle.mappings[0].transitions[1].out_state, "B");
}

#[test]
fn analysis_reports_start_problems() {
    assert_eq!(
        analysis_error(machine(vec![row(source("Idle", false), event("Go"), target("X"))])),
        AnalysisError::NoStartingState
    );
    assert_eq!(
        analysis_error(machine(vec![
            row(source("Idle", true), event("Go"), target("X")),
            row(source("Other", true), event("Go"), target("X")),
        ])),
        AnalysisError::MultipleStartingStates
    );
}

#[test]
fn wildcard_without_effect_is_reported() {
    assert_eq!(
        analysis_error(machine(vec![
            row(source("Idle", true), event("Go"), internal()),
            row(wildcard_source(), event("Go"), target("Idle")),
        ])),
        AnalysisError::WildcardHasNoEffect { row: 1 }
    );
}

#[test]
fn data_states_need_an_action_to_be_entered() {
    let mut entering = row(source("Idle", true), event("Load"), target("Loaded"));
    entering.out_state.data_type = Some(data("u32", path("u32", vec![])));
    assert_eq!(
        analysis_error(machine(vec![entering])),
        AnalysisError::MissingDataAction { row: 0, target: 1 }
    );
    let mut produced = row(source("Idle", true), event("Load"), target("Loaded"));
    produced.out_state.data_type = Some(data("u32", path("u32", vec![])));
    produced.action = Some(AsyncIdent { ident: "load".to_string(), is_async: false });
    let parsed = ParsedStateMachine::new(machine(vec![produced])).unwrap();
    assert_eq!(parsed.state_data.data_type(&"Loaded".to_string()).unwrap(), "u32");
}

#[test]
fn conflicting_payloads_are_reported_with_their_row() {
    let mut first = row(source("Idle", true), event("Load"), target("Loaded"));
    first.event.data_type = Some(data("u32", path("u32", vec![])));
    let mut second = row(source("Loaded", false), event("Load"), target("Idle"));
    second.event.data_type = Some(data("u64", path("u64", vec![])));
    assert_eq!(
        analysis_error(machine(vec![first, second])),
        AnalysisError::EventData { row: 1, error: DataError::Conflict }
    );
}

#[test]
fn generic_events_must_use_every_parameter_and_cannot_be_queued() {
    let mut partial = row(source("Idle", true), event("Message"), internal());
    partial.event.external = true;
    partial.event.data_type = Some(data("Message < T >", path("Message", vec![path("T", vec![])])));
    let mut sm = machine(vec![partial]);
    sm.event_generics = vec![
        GenericParam::Lifetime("'a".to_string()),
        GenericParam::Type("T".to_string()),
        GenericParam::Const("N".to_string()),
    ];
    assert_eq!(analysis_error(sm), AnalysisError::UnusedGenericParameter { row: 0, param: 2 });

    let mut deferred = row(source("Idle", true), event("Go"), internal());
    deferred.defer = true;
    let mut queued = machine(vec![deferred]);
    queued.event_generics = vec![GenericParam::Type("T".to_string())];
    assert_eq!(analysis_error(queued), AnalysisError::GenericEventQueue);
}

#[test]
fn completion_origin_data_cannot_be_borrowed_mutably() {
    let mut completion = row(source("Idle", true), event("Boot"), target("Ready"));
    completion.event.kind = EventKind::Completion;
    completion.event.data_type = Some(data(
        "& 'a mut Boot",
        TypeShape::Reference {
            lifetime: Some("'a".to_string()),
            mutable: true,
            referent: Box::new(path("Boot", vec![])),
        },
    ));
    assert_eq!(
        analysis_error(machine(vec![completion])),
        AnalysisError::MutableCompletionData { row: 0 }
    );
}

#[test]
fn external_flags_follow_every_row_of_an_event() {
    let mut outside = row(source("Running", false), event("Start"), target("Idle"));
    outside.event.external = true;
    let parsed = ParsedStateMachine::new(machine(vec![
        row(source("Idle", true), event("Start"), target("Running")),
        outside,
    ]))
    .unwrap();
    assert!(parsed.states_events_mapping[0].mappings[0].event_external);
    assert!(parsed.states_events_mapping[1].mappings[0].event_external);
}

fn exception_row(name: &str, error: &str) -> StateTransition {
    let mut handler = row(source(name, false), event("Failed"), internal());
    handler.event.kind = EventKind::Exception;
    handler.event.data_type = Some(data(error, path(error, vec![])));
    handler
}

#[test]
fn typed_exceptions_fix_the_error_type() {
    let mut sm = machine(vec![
        row(source("Idle", true), event("Go"), target("Busy")),
        exception_row("Busy", "MyError"),
    ]);
    assert!(sm.settle_error_type().is_ok());
    assert!(sm.custom_error);
    assert_eq!(sm.fixed_error_type.as_ref().unwrap().text, "MyError");

    let mut plain = machine(vec![row(source("Idle", true), event("Go"), target("Busy"))]);
    assert!(plain.settle_error_type().is_ok());
    assert!(!plain.custom_error);
    assert!(plain.fixed_error_type.is_none());
}

#[test]
fn unrelated_exception_types_are_refused() {
    let mut sm = machine(vec![
        exception_row("Idle", "First"),
        row(source("Idle", true), event("Go"), target("Busy")),
        exception_row("Busy", "Second"),
    ]);
    assert_eq!(sm.settle_error_type().unwrap_err().row, 2);
    assert!(!sm.custom_error);
}

#[test]
fn written_rows_expand_to_one_row_per_source() {
    let mut sm = StateMachine::new();
    assert!(sm.transitions.is_empty());
    sm.add_transitions(sml::dsl::StateTransitions {
        in_states: vec![source("Idle", true), source("Ready", false)],
        event: event("Start"),
        guard: None,
        action: Some(AsyncIdent { ident: "run".to_string(), is_async: true }),
        additional_actions: vec![AsyncIdent { ident: "log".to_string(), is_async: false }],
        process_events: vec!["Next {}".to_string()],
        defer: false,
        eval_actions: Vec::new(),
        out_state: target("Running"),
    });
    assert_eq!(sm.transitions.len(), 2);
    assert_eq!(sm.transitions[0].in_state.ident, "Idle");
    assert_eq!(sm.transitions[1].in_state.ident, "Ready");
    for written in &sm.transitions {
        assert_eq!(written.event.ident, "Start");
        assert_eq!(written.action.as_ref().unwrap().ident, "run");
        assert_eq!(written.additional_actions.len(), 1);
        assert_eq!(written.process_events, vec!["Next {}".to_string()]);
        assert_eq!(written.out_state.ident, "Running");
        assert!(!written.internal_transition);
    }
}

fn kind_event(name: &str, kind: EventKind, wildcard: bool) -> Event {
    Event { ident: name.to_string(), data_type: None, kind, wildcard, external: false }
}

#[test]
fn diagram_distinguishes_completion_and_unexpected_triggers() {
    let parsed = machine(vec![
        row(source("Idle", true), event("Start"), target("Step")),
        row(source("Step", false), kind_event("Start", EventKind::Completion, false), target("Done")),
        row(source("Done", false), kind_event("Reset", EventKind::Unexpected, false), target("Error")),
        row(source("Done", false), kind_event("__AnyEvent", EventKind::Unexpected, true), target("Error")),
    ]);
    let machine = ParsedStateMachine::new(parsed).unwrap();
    let diagram = sml::dsl::generate_diagram(&machine);
    assert!(diagram.contains("completion<Start>"));
    assert!(diagram.contains("unexpected<Reset>"));
    assert!(diagram.contains("unexpected<_>"));
}

#[test]
fn diagram_lists_states_nodes_and_edges_in_sorted_order() {
    let mut open = row(source("Open", false), event("Close"), target("Closed"));
    open.action = Some(AsyncIdent { ident: "shut".to_string(), is_async: false });
    open.additional_actions = vec![AsyncIdent { ident: "log".to_string(), is_async: true }];
    let parsed = machine(vec![
        row(source("Closed", true), event("Open"), target("Open")),
        open,
    ]);
    let machine = ParsedStateMachine::new(parsed).unwrap();
    let diagram = sml::dsl::generate_diagram(&machine);
    let expected = "digraph G {
    rankdir=\"LR\";
    node [fontname=Arial];
    edge [fontname=Arial];
    s [shape=circle size=2 color=\"black\" style=filled]
    
    s -> Closed
\tClosed [shape=box color=\"red\" fillcolor=\"#ffbb33\" style=filled]
\tOpen [shape=box color=\"red\" fillcolor=\"#ffbb33\" style=filled]

\tClose [shape=box label=\"Close\\n[_] / shut,log\"]
\tOpen [shape=box label=\"Open\\n[_] / \"]

\tClosed -> Open [color=blue label=Open];
\tOpen -> Closed [color=blue label=Close];
}";
    assert_eq!(diagram, expected);
}

#[test]
fn diagram_does_not_depend_on_row_order() {
    let forward = machine(vec![
        row(source("Closed", true), event("Open"), target("Opened")),
        row(source("Opened", false), event("Close"), target("Closed")),
    ]);
    let backward = machine(vec![
        row(source("Opened", false), event("Close"), target("Closed")),
        row(source("Closed", true), event("Open"), target("Opened")),
    ]);
    let forward = ParsedStateMachine::new(forward).unwrap();
    let backward = ParsedStateMachine::new(backward).unwrap();
    assert_eq!(sml::dsl::generate_diagram(&forward), sml::dsl::generate_diagram(&backward));
}

#[test]
fn the_plan_names_the_generated_types_events_and_callbacks() {
    let mut open = row(source("Open", false), event("Close"), target("Closed"));
    open.action = Some(AsyncIdent { ident: "shut".to_string(), is_async: false });
    open.additional_actions = vec![
        AsyncIdent { ident: "log".to_string(), is_async: true },
        AsyncIdent { ident: "shut".to_string(), is_async: false },
    ];
    let mut outside = event("Open");
    outside.external = true;
    let mut closed = row(source("Closed", true), outside, target("Open"));
    closed.action = Some(AsyncIdent { ident: "log".to_string(), is_async: true });
    let ready = AsyncIdent { ident: "ready".to_string(), is_async: false };
    let armed = AsyncIdent { ident: "armed".to_string(), is_async: false };
    closed.guard = Some(sml::dsl::GuardExpression::And(
        Box::new(sml::dsl::GuardExpression::Guard(ready.clone())),
        Box::new(sml::dsl::GuardExpression::Not(Box::new(sml::dsl::GuardExpression::Or(
            Box::new(sml::dsl::GuardExpression::Guard(armed)),
            Box::new(sml::dsl::GuardExpression::Guard(ready)),
        )))),
    ));
    let finish = row(
        source("Closed", false),
        kind_event("Close", EventKind::Completion, false),
        target("Open"),
    );
    let anonymous = row(
        source("Open", false),
        kind_event("__AnyCompletion", EventKind::Completion, true),
        target("Closed"),
    );
    let machine = ParsedStateMachine::new(machine(vec![closed, open, finish, anonymous])).unwrap();
    let plan = sml::dsl::plan_machine(&machine);
    assert_eq!(plan.states_name, "PlayerStates");
    assert_eq!(plan.events_name, "PlayerEvents");
    assert_eq!(plan.machine_name, "PlayerStateMachine");
    assert_eq!(plan.context_name, "PlayerStateMachineContext");
    assert_eq!(plan.error_name, "PlayerError");
    assert_eq!(plan.completion_origin_name, "PlayerCompletionOrigin");
    assert_eq!(plan.outside_events, vec!["Open".to_string()]);
    assert_eq!(plan.completion_events, vec!["Close".to_string()]);
    assert!(plan.anonymous_completion);
    let mut actions = plan.actions.clone();
    actions.sort();
    assert_eq!(actions, vec!["log".to_string(), "shut".to_string()]);
    assert_eq!(plan.guards, vec!["ready".to_string(), "armed".to_string()]);
    assert_eq!(plan.state_variants, vec!["Closed".to_string(), "Open".to_string()]);
    assert_eq!(plan.event_variants, vec!["Close".to_string(), "Open".to_string()]);
}

#[test]
fn a_flat_machine_expands_to_its_types_and_state_api() {
    let mut playing = source("Playing", false);
    playing.data_type = Some(data("u32", path("u32", Vec::new())));
    let mut start = row(source("Idle", true), event("Play"), target("Playing"));
    start.action = Some(AsyncIdent { ident: "start".to_string(), is_async: false });
    let machine =
        ParsedStateMachine::new(machine(vec![start, row(playing, event("Stop"), target("Idle"))]))
            .unwrap();
    let payloads = vec![("u32".to_string(), vec![ident("u32")])];
    let tokens = sml::dsl::generate_code(&machine, &payloads);
    let expected = [
        "# [derive (Debug , PartialEq ) ] pub enum PlayerError < T = () > {InvalidEvent , ",
        "TransitionsFailed , GuardFailed (T ) , ActionFailed (T ) , QueueFull , } ",
        "# [allow (missing_docs ) ] pub enum PlayerStates < > {Idle , Playing (u32 ) } ",
        "impl < > PartialEq for PlayerStates < > {fn eq (& self , other : & Self ) -> bool ",
        "{use core :: mem :: discriminant ; discriminant (self ) == discriminant (other ) } } ",
        "# [allow (missing_docs ) ] pub enum PlayerEvents {Play , Stop } ",
        "impl PartialEq for PlayerEvents {fn eq (& self , other : & Self ) -> bool ",
        "{use core :: mem :: discriminant ; discriminant (self ) == discriminant (other ) } } ",
        "pub struct PlayerStateMachine < __SmlContext : PlayerStateMachineContext > ",
        "{state : PlayerStates < > , context : __SmlContext , } ",
        "impl < __SmlContext : PlayerStateMachineContext > PlayerStateMachine < __SmlContext > {",
        "pub fn new_with_state (context : __SmlContext , initial_state : PlayerStates < > ) ",
        "-> Self {PlayerStateMachine {state : initial_state , context , } } ",
        "pub fn state (& self ) -> & PlayerStates < > {& self . state } ",
        "pub fn is (& self , expected : & PlayerStates < > ) -> bool {self . state == * expected } ",
        "pub fn is_terminated (& self ) -> bool {false } ",
        "pub fn set_state (& mut self , state : PlayerStates < > ) -> PlayerStates < > ",
        "{core :: mem :: replace (& mut self . state , state ) } ",
        "pub fn context (& self ) -> & __SmlContext {& self . context } ",
        "pub fn context_mut (& mut self ) -> & mut __SmlContext {& mut self . context } } ",
    ]
    .concat();
    assert_eq!(sml::dsl::render_tokens(&tokens), expected);
}

#[test]
fn the_context_parameter_avoids_the_names_the_types_use() {
    let machine = ParsedStateMachine::new(machine(vec![
        row(source("Idle", true), event("Play"), target("X")),
    ]))
    .unwrap();
    let payloads = vec![("__SmlContext".to_string(), vec![ident("__SmlContext")])];
    let text = sml::dsl::render_tokens(&sml::dsl::generate_code(&machine, &payloads));
    assert!(text.contains("pub struct PlayerStateMachine < __SmlContext1 : PlayerStateMachineContext >"));
    assert!(text.contains("pub fn is_terminated (& self ) -> bool {matches ! (self . state , PlayerStates :: X ) } "));
}

#[test]
fn event_payloads_and_lifetimes_reach_the_events_enum() {
    let mut ping = event("Ping");
    ping.data_type = Some(data("&'a u8", reference(Some("'a"), path("u8", Vec::new()))));
    let machine = ParsedStateMachine::new(machine(vec![
        row(source("Idle", true), ping, target("Idle")),
    ]))
    .unwrap();
    let payloads = vec![(
        "&'a u8".to_string(),
        vec![alone('&'), joint('\''), ident("a"), ident("u8")],
    )];
    let text = sml::dsl::render_tokens(&sml::dsl::generate_code(&machine, &payloads));
    assert!(text.contains("pub enum PlayerEvents < 'a > {Ping (& 'a u8 ) } "));
    assert!(text.contains("impl < 'a > PartialEq for PlayerEvents < 'a > {fn eq "));
}

#[test]
fn an_outside_event_type_converts_into_the_events_enum() {
    let mut ping = event("Ping");
    ping.external = true;
    ping.data_type = Some(data("Ping", path("Ping", Vec::new())));
    let machine =
        ParsedStateMachine::new(machine(vec![row(source("Idle", true), ping, target("Idle"))]))
            .unwrap();
    let payloads = vec![("Ping".to_string(), vec![ident("Ping")])];
    let text = sml::dsl::render_tokens(&sml::dsl::generate_code(&machine, &payloads));
    let expected = [
        "# [allow (missing_docs ) ] pub enum PlayerEvents {Ping (Ping ) } ",
        "impl From < Ping > for PlayerEvents {fn from (event : Ping ) -> Self ",
        "{Self :: Ping (event ) } } ",
        "impl PartialEq for PlayerEvents {",
    ]
    .concat();
    assert!(text.contains(&expected));
}
