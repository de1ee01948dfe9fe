use sml::dsl::{
    diagnose_event, diagnose_input_state, Diagnostic, payload_is_supported, render_tokens, state_ident, ActionItem, DataType, Delimiter, Event,
    EventKind, EventName, RawEvent, RawInputState, RawOutputState, RawRow, RowTypes, Spacing,
    StateName, StateTransitions, TokenTree, TypeShape,
};

fn row_tree(tree: proc_macro2::TokenTree) -> TokenTree {
    match tree {
        proc_macro2::TokenTree::Group(group) => {
            let delimiter = match group.delimiter() {
                proc_macro2::Delimiter::Parenthesis => Delimiter::Parenthesis,
                proc_macro2::Delimiter::Brace => Delimiter::Brace,
                proc_macro2::Delimiter::Bracket => Delimiter::Bracket,
                proc_macro2::Delimiter::None => Delimiter::Invisible,
            };
            TokenTree::Group(delimiter, group.stream().into_iter().map(row_tree).collect())
        }
        proc_macro2::TokenTree::Ident(ident) => TokenTree::Ident(ident.to_string()),
        proc_macro2::TokenTree::Punct(punct) => {
            let spacing = match punct.spacing() {
                proc_macro2::Spacing::Alone => Spacing::Alone,
                proc_macro2::Spacing::Joint => Spacing::Joint,
            };
            TokenTree::Punct(punct.as_char(), spacing)
        }
        proc_macro2::TokenTree::Literal(literal) => TokenTree::Literal(literal.to_string()),
    }
}

fn lex(source: &str) -> Vec<TokenTree> {
    source
        .parse::<proc_macro2::TokenStream>()
        .unwrap()
        .into_iter()
        .map(row_tree)
        .collect()
}

fn input_state(source: &str) -> Option<RawInputState> {
    RawInputState::parse(&lex(source)).filter(|state| state.resolves())
}

fn trigger(source: &str) -> Option<RawEvent> {
    RawEvent::parse(&lex(source)).filter(|event| event.resolves())
}

fn transition(source: &str) -> Option<RawRow> {
    RawRow::parse(&lex(source)).ok().filter(|row| row.resolves())
}

fn simple_type(name: &str) -> DataType {
    DataType {
        text: name.to_string(),
        shape: TypeShape::Path { qualified: false, segments: vec![name.to_string()], nested: Vec::new() },
    }
}

fn lowered(source: &str) -> StateTransitions {
    let row = transition(source).unwrap();
    let types = RowTypes {
        in_states: row
            .in_states
            .iter()
            .map(|state| state.payload.as_ref().map(|_| simple_type("u8")))
            .collect(),
        event: row.event.payload.as_ref().or(row.event.event_type.as_ref()).map(|_| simple_type("u32")),
        out_state: row.out_state.payload.as_ref().map(|_| simple_type("u16")),
    };
    row.into_transitions(types).unwrap()
}

fn lowered_trigger(trigger: &str) -> Event {
    lowered(&format!("Idle {trigger}")).event
}

fn event_ident(event: &RawEvent) -> String {
    event.name.resolve().unwrap()
}

fn state_name(name: &StateName) -> String {
    name.resolve().unwrap()
}

#[test]
fn input_state_with_data() {
    let state = input_state("*Start(u8)").unwrap();
    assert!(state.start);
    assert!(!state.wildcard);
    assert!(state.payload.is_some());
}

#[test]
fn history_marker_is_not_state_data() {
    let state = input_state("\"idle\"_s(H)").unwrap();
    assert!(state.history);
    assert!(state.payload.is_none());
}

#[test]
fn parenthesized_initial_state_matches_cpp_spelling() {
    let state = input_state("*(\"idle\"_s)").unwrap();
    assert!(state.start);
    assert_eq!(state_name(&state.name), "Idle");
}

#[test]
fn wildcard() {
    let wildcard = input_state("_").unwrap();
    assert!(wildcard.wildcard);
    assert!(!wildcard.start);
    assert!(wildcard.payload.is_none());
}

#[test]
fn start() {
    let start = input_state("*Start").unwrap();
    assert!(start.start);
    assert!(!start.wildcard);
    assert!(start.payload.is_none());
}

#[test]
fn state_without_data() {
    let state = input_state("State").unwrap();
    assert!(!state.start);
    assert!(!state.wildcard);
    assert!(state.payload.is_none());
}

#[test]
fn cpp_string_state_literal() {
    let state = input_state("\"fin wait 1\"_s").unwrap();
    assert_eq!(state_name(&state.name), "FinWait1");
}

#[test]
fn state_with_data() {
    let state = input_state("State(u8)").unwrap();
    assert!(!state.start);
    assert!(!state.wildcard);
    assert!(state.payload.is_some());
}

#[test]
fn start_wildcards_payload_wildcards_and_unsupported_types_are_refused() {
    assert!(RawInputState::parse(&lex("*_")).is_none());
    assert!(RawInputState::parse(&lex("_(u8)")).is_none());
    let never = RawInputState::parse(&lex("State1(!)")).unwrap();
    assert!(!never.resolves());
    assert!(RawInputState::parse(&lex("Idle Ready")).is_none());
    assert!(RawInputState::parse(&lex("(*Idle)")).is_none());
}

#[test]
fn composite_and_terminal_states_are_named() {
    let child = input_state("state<Player>").unwrap();
    assert_eq!(child.name, StateName::Composite("Player".to_string()));
    assert_eq!(state_name(&child.name), "Player");
    let terminal = input_state("sml::X").unwrap();
    assert_eq!(state_name(&terminal.name), "X");
    assert!(RawInputState::parse(&lex("sml::Y")).is_none());
    let resumed = input_state("state<Player>(H)").unwrap();
    assert!(resumed.history);
}

#[test]
fn parses_normal_unexpected_and_completion_events() {
    let normal = lowered_trigger("+ Start");
    assert_eq!(normal.kind, EventKind::Normal);
    assert_eq!(normal.ident, "Start");

    let named = lowered_trigger("+ \"connection established\"_e");
    assert_eq!(named.kind, EventKind::Normal);
    assert_eq!(named.ident, "ConnectionEstablished");

    let unexpected = lowered_trigger("+ unexpected<Reset>");
    assert_eq!(unexpected.kind, EventKind::Unexpected);
    assert!(!unexpected.wildcard);
    assert_eq!(unexpected.ident, "Reset");

    let wildcard = lowered_trigger("+ unexpected<_>");
    assert_eq!(wildcard.kind, EventKind::Unexpected);
    assert!(wildcard.wildcard);

    let completion = lowered_trigger("+ completion<Start>(u32)");
    assert_eq!(completion.kind, EventKind::Completion);
    assert_eq!(completion.ident, "Start");
    assert!(completion.data_type.is_some());

    let anonymous = lowered_trigger("+ completion<_>");
    assert_eq!(anonymous.kind, EventKind::Completion);
    assert!(anonymous.wildcard);

    let qualified_entry = lowered_trigger("+ sml::on_entry<_>");
    assert_eq!(qualified_entry.kind, EventKind::Entry);

    let exception = lowered_trigger("+ exception<_>");
    assert_eq!(exception.kind, EventKind::Exception);
    assert!(exception.wildcard);
}

#[test]
fn parses_all_event_kinds_and_external_types() {
    let external = lowered_trigger("+ event<Start>");
    assert!(external.external);
    assert!(external.data_type.is_some());

    let unexpected = lowered_trigger("+ unexpected_event<Start>");
    assert!(unexpected.external);
    assert!(unexpected.data_type.is_some());

    let wildcard = lowered_trigger("+ unexpected_event<_>");
    assert!(!wildcard.external);
    assert!(wildcard.data_type.is_none());

    let exit = lowered_trigger("+ on_exit<_>");
    assert_eq!(exit.kind, EventKind::Exit);

    let exception = lowered_trigger("+ exception<MyError>");
    assert_eq!(exception.kind, EventKind::Exception);
    assert!(exception.data_type.is_some());
}

#[test]
fn raw_triggers_keep_their_written_names() {
    let named = trigger("+ \"connection established\"_e").unwrap();
    assert_eq!(named.name, EventName::Literal("\"connection established\"_e".to_string()));
    assert_eq!(event_ident(&named), "ConnectionEstablished");
    let external = trigger("+ event<Start>").unwrap();
    assert!(external.payload.is_none());
    assert_eq!(event_ident(&external), "Start");
}

#[test]
fn accepts_supported_payload_shapes() {
    for ty in ["[u8; 4]", "Payload", "*mut u8", "&'static u8", "[u8]", "(u8, u16)"] {
        let source = format!("+ Start({ty})");
        assert!(trigger(&source).is_some(), "{}", ty);
    }
}

#[test]
fn rejects_bad_named_suffix_invalid_payload_and_wildcard_data() {
    assert!(diagnose_event(&lex("+ \"bad name\"_s")).unwrap_err().message().contains("suffix `_e`"));
    assert!(diagnose_event(&lex("+ Start(fn())")).unwrap_err().message().contains("invalid type"));
    assert!(diagnose_event(&lex("+ unexpected<_>(u8)"))
        .unwrap_err()
        .message()
        .contains("wildcard trigger"));
}

#[test]
fn parses_action_sequence_queue_operations_and_eval() {
    let transition = lowered(
        "Idle | Ready + Start [allowed] / (first, async second, process(Next {}), defer, eval[ready] / async third) = Running",
    );
    assert_eq!(transition.in_states.len(), 2);
    assert_eq!(transition.action.unwrap().ident, "first");
    assert_eq!(transition.additional_actions.len(), 1);
    assert_eq!(transition.process_events.len(), 1);
    assert!(transition.defer);
    assert_eq!(transition.eval_actions.len(), 1);
    assert_eq!(transition.eval_actions[0].position, 4);
    assert!(transition.eval_actions[0].action.is_async);
}

#[test]
fn parses_single_actions_and_internal_transitions() {
    let asynchronous = lowered("Idle + Start / async begin = Ready");
    assert!(asynchronous.action.unwrap().is_async);

    let process = lowered("Idle + Start / process(Next {})");
    assert_eq!(process.process_events.len(), 1);
    assert!(process.out_state.internal_transition);

    let defer = lowered("Idle + Start / defer");
    assert!(defer.defer);

    let bare = lowered("Idle + Start");
    assert!(bare.action.is_none());
    assert!(bare.out_state.internal_transition);
}

#[test]
fn raw_steps_keep_their_order_and_lowering_sorts_them() {
    let row = transition("Idle + Start / (first, async second, process(Next {}), defer) = Running")
        .unwrap();
    assert_eq!(row.actions.len(), 4);
    assert!(matches!(row.actions[3], ActionItem::Defer));
    let lowered_row = lowered("Idle + Start / (first, async second, process(Next {}), defer) = Running");
    assert_eq!(lowered_row.additional_actions[0].ident, "second");
    assert!(lowered_row.additional_actions[0].is_async);
    assert_eq!(lowered_row.process_events, vec!["Next {} ".to_string()]);
    assert_eq!(lowered_row.out_state.ident, "Running");
}

#[test]
fn composite_states_and_typed_rows_infer_their_types() {
    let row = lowered("*state<Player>(H) + Start = state<Menu>");
    let source = &row.in_states[0];
    assert_eq!(source.ident, "Player");
    assert_eq!(source.composite.as_deref(), Some("Player"));
    assert!(source.history);
    assert!(source.data_type.is_none());
    assert_eq!(row.out_state.ident, "Menu");
    assert_eq!(row.out_state.data_type.as_ref().unwrap().text, "Menu");
    let typed = lowered("\"fin wait 1\"_s(u8) + Close = Closed(u16)");
    assert_eq!(typed.in_states[0].ident, "FinWait1");
    assert_eq!(typed.in_states[0].data_type.as_ref().unwrap().text, "u8");
    assert_eq!(typed.out_state.data_type.as_ref().unwrap().text, "u16");
    let bad = transition("Idle + \"bad\"_s = Done").is_none();
    assert!(bad);
}

#[test]
fn rejects_wildcard_patterns_and_async_queue_operators() {
    assert!(RawRow::parse(&lex("_ | Idle + Start")).is_err());
    for source in [
        "Idle + Start / async defer",
        "Idle + Start / async process(Next {})",
        "Idle + Start / (async defer)",
        "Idle + Start / (async process(Next {}))",
        "Idle + Start / (async eval[ready] / run)",
    ] {
        assert!(RawRow::parse(&lex(source)).is_err(), "{}", source);
    }
}

#[test]
fn targets_internal_markers_and_payloads_are_read() {
    let internal = RawOutputState::parse(&lex("= _")).unwrap();
    assert!(internal.internal);
    let empty = RawOutputState::parse(&Vec::new()).unwrap();
    assert!(empty.internal);
    let carried = RawOutputState::parse(&lex("= Running(u8)")).unwrap();
    assert!(!carried.internal);
    assert!(carried.payload.is_some());
    assert!(RawOutputState::parse(&lex("= _(u8)")).is_none());
    assert!(RawOutputState::parse(&lex("Running")).is_none());
    let child = RawOutputState::parse(&lex("= state<Player>")).unwrap();
    assert_eq!(child.name, StateName::Composite("Player".to_string()));
}

#[test]
fn guards_bad_guards_and_trailing_tokens_decide_a_row() {
    let guarded = transition("Idle + Start [a && !b] = Ready").unwrap();
    assert!(guarded.guard.is_some());
    assert!(RawRow::parse(&lex("Idle + Start [a b] = Ready")).is_err());
    assert!(RawRow::parse(&lex("Idle + Start = Ready Extra")).is_err());
    assert!(RawRow::parse(&lex("Idle Start = Ready")).is_err());
    let empty_sequence = transition("Idle + Start / () = Ready").unwrap();
    assert!(empty_sequence.actions.is_empty());
    assert!(RawRow::parse(&lex("Idle + Start / eval[a] / run = Ready")).is_err());
}

#[test]
fn payload_types_are_told_apart_by_their_text() {
    assert_eq!(render_tokens(&lex("[u8; 4]")), "[u8 ; 4 ] ");
    assert_eq!(render_tokens(&lex("a::B<C>")), "a :: B < C > ");
    assert!(payload_is_supported(&lex("(u8, &'static str)")));
    assert!(!payload_is_supported(&lex("fn()")));
    assert!(!payload_is_supported(&lex("+")));
    assert_eq!(state_ident("99 red"), "S99Red");
}

#[test]
#[should_panic(expected = "Wildcards can't be used as the starting state.")]
fn wildcard_used_as_start() {
    if let Err(diagnostic) = diagnose_input_state(&lex("*_")) {
        panic!("{}", diagnostic.message());
    }
}

#[test]
#[should_panic(expected = "Wildcard states cannot have data associated with it.")]
fn wildcard_with_data() {
    if let Err(diagnostic) = diagnose_input_state(&lex("_(u8)")) {
        panic!("{}", diagnostic.message());
    }
}

#[test]
#[should_panic(expected = "This is an invalid type for states.")]
fn invalid_type() {
    if let Err(diagnostic) = diagnose_input_state(&lex("State1(!)")) {
        panic!("{}", diagnostic.message());
    }
}

#[test]
fn each_refusal_names_its_reason() {
    assert_eq!(diagnose_input_state(&lex("*_")).unwrap_err(), Diagnostic::WildcardStart);
    assert_eq!(diagnose_input_state(&lex("_(u8)")).unwrap_err(), Diagnostic::WildcardStateData);
    assert_eq!(diagnose_input_state(&lex("State1(!)")).unwrap_err(), Diagnostic::InvalidStateType);
    assert_eq!(diagnose_input_state(&lex("+ +")).unwrap_err(), Diagnostic::Malformed);
    assert!(diagnose_input_state(&lex("*Start(u8)")).unwrap().start);
    assert_eq!(diagnose_event(&lex("+ \"bad name\"_s")).unwrap_err(), Diagnostic::EventSuffix);
    assert_eq!(diagnose_event(&lex("+ Start(fn())")).unwrap_err(), Diagnostic::InvalidEventType);
    assert_eq!(
        diagnose_event(&lex("+ unexpected<_>(u8)")).unwrap_err(),
        Diagnostic::WildcardTriggerData
    );
    assert_eq!(diagnose_event(&lex("Start")).unwrap_err(), Diagnostic::Malformed);
    assert_eq!(diagnose_event(&lex("+ \"named\"_e")).unwrap().kind, EventKind::Normal);
    assert_eq!(
        Diagnostic::WildcardStart.message(),
        "Wildcards can't be used as the starting state."
    );
}
