use sml::dsl::{
    check_table, has_composite, plan_composite, route, CompositeError, Event, EventKind,
    GenericParam, InputState, Layout, OutputState, RoutingError, StateMachine, StateTransition,
    TableFault,
};

fn source(name: &str, start: bool, composite: Option<&str>) -> InputState {
    InputState {
        start,
        wildcard: false,
        ident: name.to_string(),
        data_type: None,
        composite: composite.map(|child| child.to_string()),
        history: false,
    }
}

fn target(name: &str, composite: Option<&str>) -> OutputState {
    OutputState {
        ident: name.to_string(),
        internal_transition: false,
        data_type: None,
        composite: composite.map(|child| child.to_string()),
    }
}

fn internal() -> OutputState {
    OutputState { ident: "_".to_string(), internal_transition: true, data_type: None, composite: None }
}

fn trigger(name: &str, kind: EventKind) -> Event {
    Event { ident: name.to_string(), data_type: None, kind, wildcard: false, external: false }
}

fn row(in_state: InputState, event: Event, out_state: OutputState) -> StateTransition {
    let internal_transition = out_state.internal_transition;
    StateTransition {
        in_state,
        event,
        guard: None,
        action: None,
        additional_actions: Vec::new(),
        process_events: Vec::new(),
        defer: false,
        eval_actions: Vec::new(),
        out_state,
        internal_transition,
    }
}

fn go(from: &str, start: bool, to: &str) -> StateTransition {
    row(source(from, start, None), trigger("Go", EventKind::Normal), target(to, None))
}

fn table(name: Option<&str>, transitions: Vec<StateTransition>) -> StateMachine {
    StateMachine {
        name: name.map(|name| name.to_string()),
        states_attr: Vec::new(),
        events_attr: Vec::new(),
        temporary_context_type: None,
        custom_error: false,
        transitions,
        entry_exit_async: false,
        fixed_error_type: None,
        event_generics: Vec::new(),
    }
}

fn generic(mut machine: StateMachine) -> StateMachine {
    machine.event_generics = vec![GenericParam::Type("T".to_string())];
    machine
}

fn enters(from: &str, start: bool, to: &str, child: &str) -> StateTransition {
    row(source(from, start, None), trigger("Go", EventKind::Normal), target(to, Some(child)))
}

fn player_and_child() -> Vec<StateMachine> {
    vec![
        table(Some("Sub"), vec![go("Inner", true, "Deeper")]),
        table(
            Some("Player"),
            vec![enters("Idle", true, "Busy", "Sub"), go("Busy", false, "Idle")],
        ),
    ]
}

#[test]
fn one_table_is_flat_or_split_into_regions() {
    assert_eq!(route(&vec![table(None, vec![go("A", true, "B")])]), Ok(Layout::Flat));
    let split = table(None, vec![go("A", true, "B"), go("C", true, "D")]);
    assert_eq!(route(&vec![split]), Ok(Layout::Orthogonal));
    let generic_split = generic(table(None, vec![go("A", true, "B"), go("C", true, "D")]));
    assert_eq!(route(&vec![generic_split]), Err(RoutingError::GenericOrthogonal));
    let generic_flat = generic(table(None, vec![go("A", true, "B")]));
    assert_eq!(route(&vec![generic_flat]), Ok(Layout::Flat));
    assert_eq!(route(&Vec::new()), Err(RoutingError::NoMachine));
}

#[test]
fn several_tables_form_a_tree_only_through_references() {
    assert_eq!(route(&player_and_child()), Ok(Layout::Composite));
    let unrelated = vec![
        table(Some("A"), vec![go("One", true, "Two")]),
        table(Some("B"), vec![enters("One", true, "Two", "Elsewhere")]),
    ];
    assert_eq!(route(&unrelated), Ok(Layout::Separate));
    let mut tables = player_and_child();
    tables.push(generic(table(Some("Other"), vec![go("P", true, "Q")])));
    assert_eq!(route(&tables), Err(RoutingError::GenericComposite { machine: 2 }));
}

#[test]
fn a_source_reference_hides_the_target_reference() {
    let tables = player_and_child();
    let masked = row(
        source("Idle", true, Some("Unknown")),
        trigger("Go", EventKind::Normal),
        target("Busy", Some("Sub")),
    );
    let parent = table(Some("Player"), vec![masked]);
    assert!(!has_composite(&parent, &tables));
    assert!(has_composite(&tables[1], &tables));
    assert!(!has_composite(&tables[0], &tables));
}

#[test]
fn the_parent_is_the_table_nobody_refers_to() {
    let tables = vec![
        table(Some("Mid"), vec![enters("M", true, "N", "Leaf")]),
        table(Some("Leaf"), vec![go("L", true, "K")]),
        table(Some("Top"), vec![enters("T", true, "U", "Mid")]),
    ];
    let plan = plan_composite(&tables).unwrap();
    assert_eq!(plan.parent, 2);
    assert_eq!(plan.children, vec!["Mid".to_string()]);
    // `Mid` refers to a table itself, so the tree needs the general expansion.
    assert_eq!(plan.child, None);
}

#[test]
fn a_tree_with_one_plain_child_is_checked_and_planned() {
    let plan = plan_composite(&player_and_child()).unwrap();
    assert_eq!(plan.parent, 1);
    assert_eq!(plan.children, vec!["Sub".to_string()]);
    assert_eq!(plan.child, Some(0));
}

#[test]
fn children_are_listed_once_in_the_order_met() {
    let tables = vec![
        table(
            Some("Top"),
            vec![
                enters("A", true, "B", "Left"),
                row(source("B", false, Some("Left")), trigger("Go", EventKind::Normal), target("C", Some("Right"))),
                enters("C", false, "A", "Left"),
            ],
        ),
        table(Some("Left"), vec![go("L", true, "M")]),
        table(Some("Right"), vec![go("R", true, "S")]),
    ];
    let plan = plan_composite(&tables).unwrap();
    assert_eq!(plan.parent, 0);
    assert_eq!(plan.children, vec!["Left".to_string(), "Right".to_string()]);
    assert_eq!(plan.child, None);
}

#[test]
fn unfit_tables_are_reported_parent_first() {
    let no_start = vec![
        table(Some("Sub"), vec![go("Inner", false, "Deeper")]),
        table(Some("Player"), vec![enters("Idle", true, "Busy", "Sub")]),
    ];
    assert_eq!(
        plan_composite(&no_start).unwrap_err(),
        CompositeError::Table { machine: 0, fault: TableFault::NoInitialState }
    );
    let staying = vec![
        table(Some("Sub"), vec![go("Inner", false, "Deeper")]),
        table(
            Some("Player"),
            vec![
                enters("Idle", true, "Busy", "Sub"),
                row(source("Busy", false, None), trigger("Go", EventKind::Completion), internal()),
            ],
        ),
    ];
    assert_eq!(
        plan_composite(&staying).unwrap_err(),
        CompositeError::Table { machine: 1, fault: TableFault::StayingCompletion { row: 1 } }
    );
    let unrelated = vec![table(Some("A"), vec![go("One", true, "Two")])];
    assert_eq!(plan_composite(&unrelated).unwrap_err(), CompositeError::NoParent);
}

#[test]
fn a_table_fault_names_the_first_problem() {
    assert_eq!(check_table(&table(None, vec![go("A", false, "B")])), Some(TableFault::NoInitialState));
    assert_eq!(check_table(&table(None, vec![go("A", true, "B")])), None);
}

fn names_and_owners(nodes: &[sml::dsl::TreeNode]) -> Vec<(String, String, usize, usize)> {
    nodes
        .iter()
        .map(|node| (node.name.clone(), node.parent.clone(), node.depth, node.machine))
        .collect()
}

#[test]
fn the_tree_is_walked_level_by_level() {
    let tables = vec![
        table(
            Some("Top"),
            vec![enters("A", true, "B", "Left"), enters("B", false, "C", "Right")],
        ),
        table(Some("Left"), vec![enters("L", true, "M", "Deep")]),
        table(Some("Right"), vec![go("R", true, "S")]),
        table(Some("Deep"), vec![go("D", true, "E")]),
    ];
    let nodes = sml::dsl::composite_tree(&tables, 0).unwrap();
    assert_eq!(
        names_and_owners(&nodes),
        vec![
            ("Left".to_string(), "Top".to_string(), 1, 1),
            ("Right".to_string(), "Top".to_string(), 1, 2),
            ("Deep".to_string(), "Left".to_string(), 2, 3),
        ]
    );
}

#[test]
fn a_table_owned_twice_or_a_cycle_is_refused() {
    let shared = vec![
        table(
            Some("Top"),
            vec![enters("A", true, "B", "Left"), enters("B", false, "C", "Right")],
        ),
        table(Some("Left"), vec![enters("L", true, "M", "Leaf")]),
        table(Some("Right"), vec![enters("R", true, "S", "Leaf")]),
        table(Some("Leaf"), vec![go("D", true, "E")]),
    ];
    assert_eq!(
        sml::dsl::composite_tree(&shared, 0).unwrap_err(),
        sml::dsl::TreeError::Shared { reference: "Leaf".to_string() }
    );
    let cycle = vec![
        table(Some("Top"), vec![enters("A", true, "B", "Loop")]),
        table(Some("Loop"), vec![enters("L", true, "M", "Back")]),
        table(Some("Back"), vec![enters("K", true, "N", "Loop")]),
    ];
    assert_eq!(
        sml::dsl::composite_tree(&cycle, 0).unwrap_err(),
        sml::dsl::TreeError::Shared { reference: "Loop".to_string() }
    );
}

fn left_and_right(top_starts: bool, right_starts: bool) -> Vec<StateMachine> {
    vec![
        table(
            Some("Top"),
            vec![enters("A", top_starts, "B", "Left"), enters("B", false, "C", "Right")],
        ),
        table(Some("Left"), vec![go("L", true, "M")]),
        table(Some("Right"), vec![go("R", right_starts, "S")]),
    ]
}

#[test]
fn unfit_tables_in_the_tree_are_reported_in_walk_order() {
    assert_eq!(
        sml::dsl::composite_tree(&left_and_right(true, false), 0).unwrap_err(),
        sml::dsl::TreeError::Table { machine: 2, fault: TableFault::NoInitialState }
    );
    assert_eq!(
        sml::dsl::composite_tree(&left_and_right(false, false), 0).unwrap_err(),
        sml::dsl::TreeError::Table { machine: 0, fault: TableFault::NoInitialState }
    );
    assert_eq!(sml::dsl::composite_tree(&left_and_right(true, true), 0).unwrap().len(), 2);
}

#[test]
fn a_parent_with_one_child_expands_to_both_levels_of_state() {
    let tables = player_and_child();
    let plan = plan_composite(&tables).unwrap();
    let tokens = sml::dsl::generate_composite_code(&tables, &plan).unwrap();
    let expected = [
        "pub struct PlayerStateMachine < T : PlayerStateMachineContext > ",
        "{state : PlayerStates , child_state : PlayerSubStates , context : T , } ",
        "impl < T : PlayerStateMachineContext > PlayerStateMachine < T > {",
        "pub fn new (context : T ) -> Self ",
        "{Self {state : PlayerStates :: Idle , child_state : PlayerSubStates :: Inner , context , } } ",
        "pub fn state (& self ) -> & PlayerStates {& self . state } ",
        "pub fn child_state (& self ) -> & PlayerSubStates {& self . child_state } ",
        "pub fn set_state (& mut self , state : PlayerStates ) -> PlayerStates ",
        "{core :: mem :: replace (& mut self . state , state ) } ",
        "pub fn set_child_state (& mut self , state : PlayerSubStates ) -> PlayerSubStates ",
        "{core :: mem :: replace (& mut self . child_state , state ) } ",
        "pub fn is (& self , expected : & PlayerStates ) -> bool {self . state == * expected } ",
        "pub fn is_child (& self , expected : & PlayerSubStates ) -> bool ",
        "{self . child_state == * expected } ",
        "pub fn child_is_active (& self ) -> bool {matches ! (self . state , PlayerStates :: Sub ) } ",
        "pub fn is_terminated (& self ) -> bool {false } ",
        "pub fn context (& self ) -> & T {& self . context } ",
        "pub fn context_mut (& mut self ) -> & mut T {& mut self . context } } ",
        "impl < T : PlayerStateMachineContext > :: sml :: Terminated for PlayerStateMachine < T > ",
        "{fn is_terminated (& self ) -> bool {self . is_terminated () } } ",
    ]
    .concat();
    assert_eq!(sml::dsl::render_tokens(&tokens), expected);
    let tree =
        sml::dsl::CompositePlan { parent: plan.parent, children: plan.children.clone(), child: None };
    assert!(sml::dsl::generate_composite_code(&tables, &tree).is_none());
}
