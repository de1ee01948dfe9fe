//! The logic of the transition-table language: names, event triggers, guard
//! expressions, lifetimes and payload types, token normalization, and the
//! analysis of a parsed table.

mod codegen;
mod composite;
mod composite_code;
mod definition;
mod diagnostics;
mod emit;
mod diagram;
mod event;
mod event_specs;
mod guard;
mod inventory;
mod machine;
mod names;
mod orthogonal_code;
mod plan;
mod regions;
mod resolve;
mod text_order;
mod row;
mod token;
mod types;

pub use codegen::{
    arrow, context_ident, conversion_text, conversions_text, event_payload_text, param_name, payload_idents, source_idents, token_idents, context_method_text, error_enum, error_enum_text, field_text,
    flat_expansion, generate_code, impl_head_text, is_method_text, is_terminated_method_text,
    lemma_same_trees_text, lifetimes_text, machine_impl, machine_impl_text, machine_struct,
    machine_struct_text, method_head_text, new_with_state_text, param_text, params_text,
    path_text, payload_at, payload_entry, payloads_cover, queue_path_text, receiver_text,
    set_state_method_text, state_api_text, state_method_text, variant_text,
    variants_text, allow_missing_docs_text, eq_by_variant_text, events_enum, events_enum_text,
    events_eq, events_eq_text, states_enum, states_enum_text, states_eq, states_eq_text,
    states_type_text, terminated_text, type_arguments_text, event_arguments,
};
pub use composite::{
    add_reference, any_nests, check_table, child_tables, children_of, fault_of, first_generic,
    first_named, first_reference_row, generic_at, has_composite, law_composite_layout_has_parent,
    layout_of, mentions, named, named_at, names_table, nested_tree, nests_at, nests_table,
    parent_of, plan_composite, plan_found, reference_name, referenced, refers_to_table, root_at,
    route, row_mentions, row_reference, single_child, splits_into_regions, table_of,
    CompositeError, CompositePlan, Layout, RoutingError, TableFault,
};
pub use composite::{
    at_depth, composite_tree, entry_views, law_tables_have_one_owner, met_before, next_level,
    node_views, owned_by, stops_at, table_name, tree_found, tree_level, tree_order, visit_order,
    TreeError, TreeNode,
};
pub use composite_code::{
    composite_access_text, composite_api_text, composite_expansion, composite_impl_text,
    composite_new_text, composite_plan_expansion, composite_struct_text, composite_tests_text,
    field_getter_text, field_is_text, field_setter_text, generate_composite_code, has_state,
    parent_payload, parent_terminated_text, refers, start_row, start_value_text, state_test_text,
};
pub use orthogonal_code::{
    all_regions_is_text, all_terminated_text, any_defers, context_bound_text, default_call_text,
    deferred_field_text, generate_orthogonal_code, initial_text, initials_text, is_region_text,
    orthogonal_expansion, orthogonal_impl_text, split_states_text, state_payloads_given,
    state_type, state_variants_of, table_states, typed_variant_text, discriminant_text,
    event_payloads_given, event_type, event_variants_of, is_table_event, split_events_text,
    table_events, law_state_payload_from_any_row, row_gives_type, orthogonal_new_text, orthogonal_struct_text,
    region_method_text, region_state_text, state_has_payload, states_array_text,
    terminated_impl_text,
};
pub use emit::{
    alone, group_text, joint, lemma_text_concat, lemma_text_push, mark_text, push_all, push_group,
    push_mark, push_name, push_word, word_text,
};
pub use diagnostics::{
    diagnose_event, diagnose_input_state, diagnostic_text, starts_as_wildcard_data,
    starts_as_wildcard_start, wildcard_with_payload, wrong_event_suffix, Diagnostic,
};
pub use definition::{
    some_body_row_fails,
    after_definition, attribute_text, attribute_texts, body_at, body_row_fails, closes_generics,
    configured_context, configured_custom_error, configured_entry_exit_async,
    configured_events_attr, configured_name, configured_rows, configured_states_attr,
    configures, defaulted_at, definition_generics, expands, fails_once_normalized, field_keyword,
    first_body, first_defaulted, first_separator, generic_parameters, generics_close,
    generics_text, option_keyword, options_configure, parse_definitions, reads_as_row,
    rows_resolve, separator_at, spells_attributes, spells_body, spells_definition,
    spells_definitions, spells_field, spells_field_value, spells_fields, spells_flag,
    spells_header, spells_no_row, spells_option, spells_options, spells_rows, string_views,
    DefinitionSyntaxError, GenericsError, MachineField, MachineSyntaxError, RawDefinition,
    RawMachine,
};
pub use diagram::{
    action_names, diagram_edge_rows, diagram_event_rows, diagram_state_rows, diagram_text,
    edge_row, edge_rows_by_mapping, edge_rows_by_state, event_id, event_label, event_row,
    event_rows_by_mapping, event_rows_by_state, generate_diagram, guard_column, join_with, law_diagram_ignores_order, law_node_shows_guard,
    line_text, lines_text, machine_diagram, mapping_edge_rows, mapping_event_rows, row_width,
    state_edge_rows, state_event_rows, LineKind,
};
pub use event::{
    event_key, event_key_text, is_query_event, law_event_keys_are_distinct, plain_ident,
    same_event, same_trigger, spec_is_query_event, trigger_key, Event, EventKind,
};
pub use event_specs::{
    add_spec, is_static_type, law_offers_commute, law_same_specs_list_alike, offered, static_type,
    strictly_sorted, EventSpec, EventSpecs,
};
pub use guard::{
    and_at, call_text, call_views, callback_name, calls_spell_callbacks, free_of, guard_callbacks,
    guard_contains_async, guard_has_async, guard_text, guard_visit_order,
    law_guard_spelling_is_unambiguous, law_spelled_guards_have_parsed_form,
    law_written_guard_parses_back, lays_out, lays_out_binary, operator_at, or_at,
    parsed_conjunction, parsed_form, parsed_negation, parsed_operand, spells_conjunction,
    spells_guard, spells_negation, spells_primary, visit_guards, AsyncIdent, GuardExpression,
    GuardSyntaxError,
};
pub use inventory::{
    dispatched, event_entry, event_views, events_from, first_start, initial_state,
    machine_events, member_events, payload_step, payload_views, payloads_after, row_side,
    shared_events, state_payloads, type_text, EventConflict, EventInfo, PayloadConflict,
};
pub use inventory::{
    callback_event_type, first_typed_origin, hooks_after, hooks_views, origin_at, row_callbacks,
    state_hooks, transition_event_type, HooksView, StateHooks,
};
pub use machine::{
    analysis_error, analysis_of, collect_row, collect_rows, contributes, contributing_rows,
    empty_data, entry_describes, events_of, external_event, first_missed_param,
    first_mutable_row, first_typed_exception, first_unused_row, first_where, has_out_state,
    is_value_param, key_covered_before, lacks_data_action, law_own_rows_are_mapped,
    law_states_are_distinct_and_complete, law_wildcards_fill_uncovered_states, mapping_error_from,
    mapping_key, misses_generic, misses_some_generic, must_use_generics, mutable_completion,
    names_event, other_error_type, out_data, out_name, queues_generic_events,
    records_event_data, row_for_source, row_key, row_mapping_error, row_states, same_output,
    start_count, state_describes, states_of, transition_copies, typed_exception, uses_some_param, AnalysisError,
    ErrorTypeConflict, EvalAction, EventMapping, InputState, OutputState, ParsedStateMachine,
    StateEvents, StateMachine, StateTransition, StateTransitions, Transition,
};
pub use plan::{
    action_callbacks, all_mappings, anonymous_completion, completion_events, generated_name,
    insert_calls, outside_events, plan_machine, plans, transition_actions, transitions_actions,
    defers_events, guard_callback_names, single_rows, sorted_names, transition_guards, transitions_guards,
    GeneratedMachine,
};
pub use names::{
    candidate, decimal, decimal_bytes, first_free, free_at, fresh_type_ident,
    law_fresh_name_is_unreserved, name_texts, ascii_upper, is_ascii_alphanumeric, is_ascii_digit, law_state_ident_is_an_identifier,
    law_state_ident_is_idempotent, pascal_words, state_ident, state_ident_text,
};
pub use regions::{
    adjacent, claimed, connected, covered, discover_regions, first_overlap,
    first_staying_completion, initials, joins, law_regions_partition_states, links, named_state,
    names_of, overlap_at, overlaps, owned, owner_names, owners_distinct, region_state,
    regions_found, stays_on_completion, validate_supported, walks, OrthogonalError, Region,
    RegionError, plan_orthogonal,
};
pub use resolve::{
    carries_payload, TypeKind,
    close_text, event_name_ident, event_resolves, input_state_resolves, lowered_actions,
    lowered_event, lowered_input, lowered_output, names_type, open_text,
    optional_payload_supported, output_state_resolves, payload_is_supported, payload_supported,
    payload_type_kind, render_tokens, row_names_resolve, row_resolves, state_name_ident,
    lowers_row, step_calls, step_defers, step_evals, step_processes, string_literal_parts,
    tokens_text, RowTypes,
};
pub use row::{
    actions_end, angle_trigger, event_type_name, first_bar, path_type_name, referent_tokens, typed_trigger, first_comma, guard_end, names_trigger, punct_at,
    spells_action_item, spells_action_items, spells_actions, spells_event, spells_input_state,
    spells_output_state, spells_payload, spells_row, spells_state_list, spells_state_name,
    spells_trigger, spells_unmarked_state, stops_trigger, trigger_body, trigger_end, trigger_start,
    ActionItem, EventName, RawEvent, RawInputState, RawOutputState, RawRow, RowSyntaxError,
    StateName,
};
pub use text_order::{
    lemma_text_less_asymmetric, lemma_text_less_irreflexive, lemma_text_less_total,
    lemma_text_less_transitive, lemma_texts_order_is_total, rows_view, sort_texts, text_is_less,
    text_le, text_less, texts_are_less, texts_le, texts_less, texts_order, texts_view,
};
pub use token::{
    angle_depth, arrow_at, arrow_from, directed_row, ends_trigger, forward_row, has_punct,
    is_bracket_group, is_completion_trigger, is_ident, is_punct, law_normalized_row_has_trigger,
    law_reverse_row_reads_forward, law_rows_with_trigger_are_kept,
    law_split_keeps_every_row_token, normalize_direction, normalize_transition, normalized_row,
    opens_angle, row_scan, row_tokens, separates_rows, split_transitions, table_rows,
    token_is_punct, trigger_end_from, Delimiter, Spacing, TokenTree,
};
pub use types::{
    any_uses_param, collect_step, copy_names, declares_lifetime, generics_with_lifetimes, distinct_keys, duplicate_data,
    elements_lifetime_scan, insert_name, insert_names, keyed_map, law_declared_lifetimes_stay_declared,
    law_inserted_names_are_distinct, law_same_shapes_read_the_same, lifetime_list_text, lifetime_scan, name_views, path_lifetimes,
    param_views, same_data_type, same_optional_data, same_shape, with_lifetimes, type_uses_generic_param, uses_param,
    DataDefinitions, DataError, DataType, DataView, GenericParam, Lifetimes, MissingLifetime,
    ParamView, TypeShape,
};
