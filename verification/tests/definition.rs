use sml::dsl::{
    normalize_transition, parse_definitions, payload_is_supported, render_tokens, DataType,
    DefinitionSyntaxError, Delimiter, ErrorTypeConflict, GenericParam, GenericsError,
    MachineSyntaxError, RawDefinition, RawMachine, RawRow, RowTypes, Spacing, StateMachine,
    TokenTree, TypeShape,
};

fn def_tree(tree: proc_macro2::TokenTree) -> TokenTree {
    match tree {
        proc_macro2::TokenTree::Group(group) => {
            let delimiter = match group.delimiter() {
                proc_macro2::Delimiter::Parenthesis => Delimiter::Parenthesis,
                proc_macro2::Delimiter::Brace => Delimiter::Brace,
                proc_macro2::Delimiter::Bracket => Delimiter::Bracket,
                proc_macro2::Delimiter::None => Delimiter::Invisible,
            };
            TokenTree::Group(delimiter, group.stream().into_iter().map(def_tree).collect())
        }
        proc_macro2::TokenTree::Ident(ident) => TokenTree::Ident(ident.to_string()),
        proc_macro2::TokenTree::Punct(punct) => {
            let spacing = match punct.spacing() {
                proc_macro2::Spacing::Alone => Spacing::Alone,
                proc_macro2::Spacing::Joint => Spacing::Joint,
            };
            TokenTree::Punct(punct.as_char(), spacing)
        }
        proc_macro2::TokenTree::Literal(literal) => TokenTree::Literal(literal.to_string()),
    }
}

fn def_lex(source: &str) -> Vec<TokenTree> {
    source
        .parse::<proc_macro2::TokenStream>()
        .unwrap()
        .into_iter()
        .map(def_tree)
        .collect()
}

fn typed(tokens: &Vec<TokenTree>) -> DataType {
    let text = render_tokens(tokens);
    let name = text.trim().to_string();
    DataType {
        text: name.clone(),
        shape: TypeShape::Path { qualified: false, segments: vec![name], nested: Vec::new() },
    }
}

fn row_types(row: &RawRow) -> RowTypes {
    RowTypes {
        in_states: row.in_states.iter().map(|state| state.payload.as_ref().map(typed)).collect(),
        event: row.event.payload.as_ref().or(row.event.event_type.as_ref()).map(typed),
        out_state: row.out_state.payload.as_ref().map(typed),
    }
}

fn machine_of(raw: RawMachine) -> StateMachine {
    let types = raw.rows.iter().map(row_types).collect();
    let context = raw.temporary_context.as_ref().map(typed);
    raw.into_machine(context, types).unwrap()
}

fn definition_machine(definition: RawDefinition) -> Result<StateMachine, ErrorTypeConflict> {
    let generics = definition.event_generics().unwrap();
    let mut machine = machine_of(definition.machine);
    machine.event_generics = generics;
    machine.settle_error_type().map(|()| machine)
}

fn native(source: &str) -> Result<RawMachine, MachineSyntaxError> {
    RawMachine::parse_fields(&def_lex(source))
}

fn cpp(source: &str) -> Result<RawDefinition, DefinitionSyntaxError> {
    RawDefinition::parse(def_lex(source))
}

#[test]
fn parses_every_native_configuration_field() {
    let raw = native(
        r#"
        name: Player,
        custom_error: true,
        temporary_context: (&'static str, [u8; 2]),
        states_attr: #[derive(Debug)] #[repr(u8)],
        events_attr: #[derive(Clone)],
        entry_exit_async: true,
        transitions: {
            *Idle + Start = Running,
            Running + Stop = Idle,
        },
        "#,
    )
    .unwrap();
    let machine = machine_of(raw);
    assert_eq!(machine.name.unwrap(), "Player");
    assert!(machine.custom_error);
    assert!(machine.temporary_context_type.is_some());
    assert_eq!(machine.states_attr.len(), 2);
    assert_eq!(machine.events_attr.len(), 1);
    assert!(machine.entry_exit_async);
    assert_eq!(machine.transitions.len(), 2);
}

#[test]
fn false_flags_and_missing_trailing_commas_remain_false() {
    let machine = machine_of(
        native("custom_error: false, entry_exit_async: false, transitions: {*Idle + Start = Idle}")
            .unwrap(),
    );
    assert!(!machine.custom_error);
    assert!(!machine.entry_exit_async);
    assert_eq!(machine.transitions.len(), 1);

    let empty = machine_of(native("").unwrap());
    assert!(empty.transitions.is_empty());
}

#[test]
fn accepts_every_supported_temporary_context_shape() {
    for ty in ["[u8; 4]", "Context", "*mut u8", "&'static mut u8", "[u8]", "(u8, u16)"] {
        let source = format!("temporary_context: {ty}");
        let raw = native(&source).unwrap();
        assert!(payload_is_supported(raw.temporary_context.as_ref().unwrap()), "{}", ty);
    }
}

#[test]
fn rejects_invalid_context_and_unknown_keyword() {
    let invalid = native("temporary_context: fn()").unwrap();
    assert!(!payload_is_supported(invalid.temporary_context.as_ref().unwrap()));

    let unknown = native("mystery: true").unwrap_err();
    assert_eq!(unknown, MachineSyntaxError::UnknownKeyword("mystery".to_string()));
}

#[test]
fn native_fields_keep_the_last_value_and_every_row() {
    let raw = native(
        "name: First, name: Second, transitions: { *A + E = B }, custom_error: true, custom_error: false, transitions: { B + F = A },",
    )
    .unwrap();
    assert_eq!(raw.name.as_deref(), Some("Second"));
    assert!(raw.custom_error);
    assert_eq!(raw.rows.len(), 2);
    assert!(native("name: A,, custom_error: true").is_err());
    assert!(native("transitions: { *A + E = B } name: X").is_err());
    assert_eq!(native("transitions:").unwrap().rows.len(), 0);
    assert!(native("custom_error: maybe").is_err());
}

#[test]
fn parses_native_machine_configuration() {
    let definition = cpp(
        r#"Configured[
            custom_error,
            entry_exit_async,
            temporary_context: &mut u32,
            states_attr: #[derive(Debug)],
            events_attr: #[derive(Clone)]
        ] {
            *"idle"_s + event<Start> = X,
        }"#,
    )
    .unwrap();
    let machine = definition_machine(definition).unwrap();
    assert!(machine.custom_error);
    assert!(machine.entry_exit_async);
    assert!(machine.temporary_context_type.is_some());
    assert_eq!(machine.states_attr.len(), 1);
    assert_eq!(machine.events_attr.len(), 1);
}

#[test]
fn parses_event_generics_and_where_clause() {
    let definition = cpp(
        r#"Generic<'a, T: Clone, const N: usize>
        where
            T: core::fmt::Debug,
        {
            *Idle + event<Message<'a, T, N>> = X,
        }"#,
    )
    .unwrap();
    let generics = definition.event_generics().unwrap();
    assert_eq!(generics.len(), 3);
    assert_eq!(
        generics,
        vec![
            GenericParam::Lifetime("'a".to_string()),
            GenericParam::Type("T".to_string()),
            GenericParam::Const("N".to_string()),
        ]
    );
    assert!(definition.where_clause.is_some());
    let machine = definition_machine(definition).unwrap();
    let event = &machine.transitions[0].event;
    assert_eq!(event.ident, "Message");
    assert!(event.data_type.is_some());
}

#[test]
fn parses_unnamed_and_adjacent_definitions() {
    let definitions =
        parse_definitions(def_lex("_ { *Idle + Start = X }, Named { *Idle + Stop = X },")).unwrap();
    assert_eq!(definitions.len(), 2);
    assert!(definitions[0].machine.name.is_none());
    assert_eq!(definitions[1].machine.name.as_ref().unwrap(), "Named");
}

#[test]
fn rejects_unknown_option_and_unrelated_exception_types() {
    assert_eq!(
        cpp("Bad[unknown] { *Idle + Start = X }").unwrap_err(),
        DefinitionSyntaxError::UnknownOption("unknown".to_string())
    );
    let conflicting = cpp(
        "Bad {
            *Idle + exception<First> = X,
             Idle + exception<Second> = X,
        }",
    )
    .unwrap();
    assert_eq!(definition_machine(conflicting).unwrap_err(), ErrorTypeConflict { row: 1 });
}

#[test]
fn typed_exception_sets_fixed_error_and_normalization_handles_noop_forms() {
    let definition = cpp("Errors { *Idle + exception<MyError> = X }").unwrap();
    let machine = definition_machine(definition).unwrap();
    assert!(machine.custom_error);
    assert!(machine.fixed_error_type.is_some());

    assert_eq!(normalize_transition(def_lex("Idle + Start = Ready")), def_lex("Idle + Start = Ready"));
    assert_eq!(normalize_transition(def_lex("Idle")), def_lex("Idle"));
}

#[test]
fn definition_rows_are_normalized_and_bad_rows_are_located() {
    let definition = cpp("Door { \"open\"_s <= *\"closed\"_s + event<Push>, \"closed\"_s / lock = \"locked\"_s }")
        .unwrap();
    assert_eq!(definition.machine.rows.len(), 2);
    let machine = definition_machine(definition).unwrap();
    assert_eq!(machine.transitions[0].in_state.ident, "Closed");
    assert_eq!(machine.transitions[0].out_state.ident, "Open");
    assert_eq!(machine.transitions[1].event.ident, "__AnyCompletion");
    assert_eq!(cpp("Door { *A + E = B, C D }").unwrap_err(), DefinitionSyntaxError::Row(1));
    assert_eq!(cpp("Door *A").unwrap_err(), DefinitionSyntaxError::Malformed);
    assert_eq!(cpp("Door Extra { *A + E = B }").unwrap_err(), DefinitionSyntaxError::Malformed);
}

#[test]
fn generics_with_defaults_or_a_bare_where_clause_are_refused() {
    let defaulted = cpp("G<T = u8> { *A + event<M<T>> = X }").unwrap();
    assert_eq!(defaulted.event_generics().unwrap_err(), GenericsError::Defaulted(0));
    let bare = cpp("G where T: Clone { *A + E = X }").unwrap();
    assert_eq!(bare.event_generics().unwrap_err(), GenericsError::WhereWithoutParameters);
    let none = cpp("G { *A + E = X }").unwrap();
    assert!(none.event_generics().unwrap().is_empty());
}
