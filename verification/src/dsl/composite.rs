//! How a set of tables is expanded: one flat machine, one machine split into
//! orthogonal regions, separate machines, or a composite tree whose parent
//! table enters child tables through `state<Child>` references.

use vstd::prelude::*;

use super::machine::{
    first_where, insert_name_into, lemma_first_where, lemma_first_where_is, start_count,
    starting_row, AnalysisError, StateMachine, StateTransition,
};
use super::regions::{first_staying_completion, lemma_staying_completion_bounds, validate_supported};
use super::types::{insert_name, name_views};

verus! {

/// The table is named `name`.
pub open spec fn named(machine: StateMachine, name: Seq<char>) -> bool {
    machine.name matches Some(n) && n@ == name
}

/// Some table is named `name`.
pub open spec fn names_table(machines: Seq<StateMachine>, name: Seq<char>) -> bool {
    exists|m: int| 0 <= m < machines.len() && named(#[trigger] machines[m], name)
}

/// The child table a row refers to: its source's `state<..>` reference,
/// else its target's.
pub open spec fn row_reference(row: StateTransition) -> Option<String> {
    match row.in_state.composite {
        Some(child) => Some(child),
        None => row.out_state.composite,
    }
}

/// The row refers to one of the tables.
pub open spec fn refers_to_table(row: StateTransition, machines: Seq<StateMachine>) -> bool {
    row_reference(row) matches Some(child) && names_table(machines, child@)
}

/// Some row of the table refers to one of the tables.
pub open spec fn nests_table(machine: StateMachine, machines: Seq<StateMachine>) -> bool {
    exists|r: int|
        0 <= r < machine.transitions@.len() && refers_to_table(
            #[trigger] machine.transitions@[r],
            machines,
        )
}

/// Some table refers to one of the tables.
pub open spec fn any_nests(machines: Seq<StateMachine>) -> bool {
    exists|m: int| 0 <= m < machines.len() && nests_table(#[trigger] machines[m], machines)
}

/// Whether the table at an index declares generic event parameters.
pub open spec fn generic_at(machines: Seq<StateMachine>) -> spec_fn(int) -> bool {
    |m: int| machines[m].event_generics@.len() > 0
}

/// The first table that declares generic event parameters, or the count.
pub open spec fn first_generic(machines: Seq<StateMachine>) -> int {
    first_where(0, machines.len() as int, generic_at(machines))
}

/// The table has more than one start state.
pub open spec fn splits_into_regions(machine: StateMachine) -> bool {
    start_count(machine.transitions@, machine.transitions@.len() as int) > 1
}

/// How a set of tables is expanded.
#[derive(Debug, Clone, Copy, PartialEq, Eq)]
pub enum Layout {
    /// One table with one start state.
    Flat,
    /// One table whose start states each begin a region.
    Orthogonal,
    /// Several tables, one of which enters another.
    Composite,
    /// Several unrelated tables, each expanded on its own.
    Separate,
}

/// Why a set of tables cannot be expanded.
#[derive(Debug, Clone, Copy, PartialEq, Eq)]
pub enum RoutingError {
    /// No table was given.
    NoMachine,
    /// A composite tree whose table at `machine` declares generic events.
    GenericComposite { machine: usize },
    /// A table split into regions that declares generic events.
    GenericOrthogonal,
}

/// The layout of a set of tables: several tables form a composite tree when
/// one refers to another, which then must not declare generic events, and
/// are separate otherwise; one table is split into regions when it has
/// several start states, which then must not declare generic events.
pub open spec fn layout_of(machines: Seq<StateMachine>) -> Result<Layout, RoutingError> {
    if machines.len() == 0 {
        Err(RoutingError::NoMachine)
    } else if machines.len() > 1 {
        if any_nests(machines) {
            let generic = first_generic(machines);
            if generic < machines.len() {
                Err(RoutingError::GenericComposite { machine: generic as usize })
            } else {
                Ok(Layout::Composite)
            }
        } else {
            Ok(Layout::Separate)
        }
    } else if splits_into_regions(machines[0]) {
        if machines[0].event_generics@.len() > 0 {
            Err(RoutingError::GenericOrthogonal)
        } else {
            Ok(Layout::Orthogonal)
        }
    } else {
        Ok(Layout::Flat)
    }
}

/// Whether the table is named `name`.
fn is_named(machine: &StateMachine, name: &String) -> (found: bool)
    ensures
        found == named(*machine, name@),
{
    match &machine.name {
        Some(own) => *own == *name,
        None => false,
    }
}

/// Where the first table named `name` stands, if any.
fn table_position(machines: &Vec<StateMachine>, name: &String) -> (found: Option<usize>)
    ensures
        found matches Some(m) ==> m == first_named(machines@, name@) && m < machines@.len(),
        found is None <==> !names_table(machines@, name@),
{
    let ghost holds = named_at(machines@, name@);
    let mut index: usize = 0;
    while index < machines.len()
        invariant
            holds == named_at(machines@, name@),
            index <= machines@.len(),
            forall|m: int| 0 <= m < index ==> !#[trigger] holds(m),
        decreases machines@.len() - index,
    {
        if is_named(&machines[index], name) {
            proof {
                lemma_first_where_is(0, machines@.len() as int, holds, index as int);
            }
            return Some(index);
        }
        index = index + 1;
    }
    proof {
        if names_table(machines@, name@) {
            let m = choose|m: int| 0 <= m < machines@.len() && named(#[trigger] machines@[m], name@);
            assert(holds(m));
        }
    }
    None
}

/// Whether the table at an index is named `name`.
pub open spec fn named_at(machines: Seq<StateMachine>, name: Seq<char>) -> spec_fn(int) -> bool {
    |m: int| named(machines[m], name)
}

/// The first table named `name`, or the count.
pub open spec fn first_named(machines: Seq<StateMachine>, name: Seq<char>) -> int {
    first_where(0, machines.len() as int, named_at(machines, name))
}

/// Whether some table is named by the reference.
fn reference_is_table(reference: &Option<String>, machines: &Vec<StateMachine>) -> (found: bool)
    ensures
        found == (reference matches Some(child) && names_table(machines@, child@)),
{
    match reference {
        Some(child) => table_position(machines, child).is_some(),
        None => false,
    }
}

/// Whether the row refers to one of the tables.
fn row_refers(row: &StateTransition, machines: &Vec<StateMachine>) -> (found: bool)
    ensures
        found == refers_to_table(*row, machines@),
{
    match &row.in_state.composite {
        Some(_) => reference_is_table(&row.in_state.composite, machines),
        None => reference_is_table(&row.out_state.composite, machines),
    }
}

/// The first row of the table that refers to one of the tables, or the
/// row count.
pub open spec fn first_reference_row(machine: StateMachine, machines: Seq<StateMachine>) -> int {
    first_where(
        0,
        machine.transitions@.len() as int,
        |r: int| refers_to_table(machine.transitions@[r], machines),
    )
}

/// The first row of `machine` that refers to one of the tables, if any.
fn reference_row(machine: &StateMachine, machines: &Vec<StateMachine>) -> (found: Option<usize>)
    ensures
        found matches Some(r) ==> r == first_reference_row(*machine, machines@) && r
            < machine.transitions@.len() && refers_to_table(machine.transitions@[r as int], machines@),
        found is None <==> !nests_table(*machine, machines@),
{
    let ghost rows = machine.transitions@;
    let ghost holds = |r: int| refers_to_table(rows[r], machines@);
    let mut index: usize = 0;
    while index < machine.transitions.len()
        invariant
            rows == machine.transitions@,
            holds == (|r: int| refers_to_table(rows[r], machines@)),
            index <= rows.len(),
            forall|r: int| 0 <= r < index ==> !#[trigger] holds(r),
        decreases rows.len() - index,
    {
        if row_refers(&machine.transitions[index], machines) {
            proof {
                lemma_first_where_is(0, rows.len() as int, holds, index as int);
            }
            return Some(index);
        }
        index = index + 1;
    }
    proof {
        if nests_table(*machine, machines@) {
            let r = choose|r: int| 0 <= r < rows.len() && refers_to_table(#[trigger] rows[r], machines@);
            assert(holds(r));
        }
    }
    None
}

/// Reports whether some row of `machine` enters or leaves one of the given
/// tables through a `state<..>` reference.
pub fn has_composite(machine: &StateMachine, machines: &Vec<StateMachine>) -> (found: bool)
    ensures
        found == nests_table(*machine, machines@),
{
    reference_row(machine, machines).is_some()
}

/// Whether the table has more than one start state.
fn has_regions(machine: &StateMachine) -> (found: bool)
    ensures
        found == splits_into_regions(*machine),
{
    match starting_row(&machine.transitions) {
        Err(AnalysisError::MultipleStartingStates) => true,
        _ => false,
    }
}

/// Decides how a set of tables is expanded: see `layout_of`.
pub fn route(machines: &Vec<StateMachine>) -> (layout: Result<Layout, RoutingError>)
    ensures
        layout == layout_of(machines@),
{
    if machines.len() == 0 {
        return Err(RoutingError::NoMachine);
    }
    if machines.len() > 1 {
        let mut nested = false;
        let mut index: usize = 0;
        while index < machines.len()
            invariant
                index <= machines@.len(),
                nested <==> exists|m: int| 0 <= m < index && nests_table(#[trigger] machines@[m], machines@),
            decreases machines@.len() - index,
        {
            if has_composite(&machines[index], machines) {
                nested = true;
            }
            index = index + 1;
        }
        if !nested {
            return Ok(Layout::Separate);
        }
        assert(any_nests(machines@));
        let ghost holds = generic_at(machines@);
        let mut m: usize = 0;
        while m < machines.len()
            invariant
                machines@.len() > 1,
                any_nests(machines@),
                holds == generic_at(machines@),
                m <= machines@.len(),
                forall|i: int| 0 <= i < m ==> !#[trigger] holds(i),
            decreases machines@.len() - m,
        {
            if machines[m].event_generics.len() > 0 {
                proof {
                    lemma_first_where_is(0, machines@.len() as int, holds, m as int);
                }
                return Err(RoutingError::GenericComposite { machine: m });
            }
            m = m + 1;
        }
        proof {
            lemma_first_where_is(0, machines@.len() as int, holds, machines@.len() as int);
        }
        return Ok(Layout::Composite);
    }
    let machine = &machines[0];
    if has_regions(machine) {
        if machine.event_generics.len() > 0 {
            Err(RoutingError::GenericOrthogonal)
        } else {
            Ok(Layout::Orthogonal)
        }
    } else {
        Ok(Layout::Flat)
    }
}

/// The row names `name` in a `state<..>` reference, at its source or its
/// target.
pub open spec fn row_mentions(row: StateTransition, name: Seq<char>) -> bool {
    ||| row.in_state.composite matches Some(child) && child@ == name
    ||| row.out_state.composite matches Some(child) && child@ == name
}

/// Some row of the table names `name` in a `state<..>` reference.
pub open spec fn mentions(machine: StateMachine, name: Seq<char>) -> bool {
    exists|r: int| 0 <= r < machine.transitions@.len() && row_mentions(#[trigger] machine.transitions@[r], name)
}

/// Some table names `name` in a `state<..>` reference.
pub open spec fn referenced(machines: Seq<StateMachine>, name: Seq<char>) -> bool {
    exists|m: int| 0 <= m < machines.len() && mentions(#[trigger] machines[m], name)
}

/// The table at an index refers to a table and is itself named and
/// referred to by none: the root of a composite tree.
pub open spec fn root_at(machines: Seq<StateMachine>) -> spec_fn(int) -> bool {
    |m: int|
        nests_table(machines[m], machines) && (machines[m].name matches Some(name) && !referenced(
            machines,
            name@,
        ))
}

/// Whether the table at an index refers to a table.
pub open spec fn nests_at(machines: Seq<StateMachine>) -> spec_fn(int) -> bool {
    |m: int| nests_table(machines[m], machines)
}

/// The parent of a composite tree: the first root, else the first table
/// that refers to a table, else the count.
pub open spec fn parent_of(machines: Seq<StateMachine>) -> int {
    let root = first_where(0, machines.len() as int, root_at(machines));
    if root < machines.len() {
        root
    } else {
        first_where(0, machines.len() as int, nests_at(machines))
    }
}

/// `names` with the table that a reference names added, when it names one.
pub open spec fn add_reference(
    names: Seq<Seq<char>>,
    reference: Option<String>,
    machines: Seq<StateMachine>,
) -> Seq<Seq<char>> {
    match reference {
        Some(child) => if names_table(machines, child@) {
            insert_name(names, child@)
        } else {
            names
        },
        None => names,
    }
}

/// The tables that the first `count` rows refer to, each once, in the order
/// met, a row's source before its target.
pub open spec fn children_of(rows: Seq<StateTransition>, count: int, machines: Seq<StateMachine>) -> Seq<Seq<char>>
    decreases count,
{
    if count <= 0 || count > rows.len() {
        Seq::empty()
    } else {
        let row = rows[count - 1];
        add_reference(
            add_reference(children_of(rows, count - 1, machines), row.in_state.composite, machines),
            row.out_state.composite,
            machines,
        )
    }
}

/// The tables that a table refers to, each once, in the order met.
pub open spec fn child_tables(machine: StateMachine, machines: Seq<StateMachine>) -> Seq<Seq<char>> {
    children_of(machine.transitions@, machine.transitions@.len() as int, machines)
}

/// The first table of a name.
pub open spec fn table_of(machines: Seq<StateMachine>, name: Seq<char>) -> StateMachine {
    machines[first_named(machines, name)]
}

/// Whether the tree needs the general expansion: the parent refers to
/// several tables, a child refers to tables itself, or the parent or a child
/// is split into regions.
pub open spec fn nested_tree(
    machines: Seq<StateMachine>,
    parent: StateMachine,
    children: Seq<Seq<char>>,
) -> bool {
    ||| children.len() > 1
    ||| exists|c: int| 0 <= c < children.len() && nests_table(table_of(machines, #[trigger] children[c]), machines)
    ||| exists|c: int| 0 <= c < children.len() && splits_into_regions(table_of(machines, #[trigger] children[c]))
    ||| splits_into_regions(parent)
}

/// The name a row's reference gives, or the empty name.
pub open spec fn reference_name(row: StateTransition) -> Seq<char> {
    match row_reference(row) {
        Some(child) => child@,
        None => Seq::empty(),
    }
}

/// The child of a tree with one child: the first table named by the first
/// row of the parent that refers to a table.
pub open spec fn single_child(machines: Seq<StateMachine>, parent: StateMachine) -> int {
    first_named(machines, reference_name(parent.transitions@[first_reference_row(parent, machines)]))
}

/// Why a table cannot take part in a composite tree.
#[derive(Debug, Clone, Copy, PartialEq, Eq)]
pub enum TableFault {
    /// It has no start state.
    NoInitialState,
    /// The completion row at `row` stays in its source state.
    StayingCompletion { row: usize },
}

/// What is wrong with a table of a composite tree, if anything: a missing
/// start state first, else the first completion row that stays put.
pub open spec fn fault_of(machine: StateMachine) -> Option<TableFault> {
    let rows = machine.transitions@;
    if start_count(rows, rows.len() as int) == 0 {
        Some(TableFault::NoInitialState)
    } else if first_staying_completion(rows) < rows.len() {
        Some(TableFault::StayingCompletion { row: first_staying_completion(rows) as usize })
    } else {
        None
    }
}

/// Why a set of tables does not form a composite tree.
#[derive(Debug, Clone, Copy, PartialEq, Eq)]
pub enum CompositeError {
    /// No table refers to another.
    NoParent,
    /// The table at `machine` cannot take part.
    Table { machine: usize, fault: TableFault },
}

/// The shape of a composite tree.
#[derive(Debug)]
pub struct CompositePlan {
    /// The parent table.
    pub parent: usize,
    /// The tables the parent refers to, each once, in the order met.
    pub children: Vec<String>,
    /// The one child table, checked with the parent, when the tree needs no
    /// general expansion; `None` when it does.
    pub child: Option<usize>,
}

/// What planning a composite tree gives: no parent when no table refers to
/// another; else the parent and its children; and, for a tree with one plain
/// child, that child, once the parent and then the child are found fit.
pub open spec fn plan_found(machines: Seq<StateMachine>, result: Result<CompositePlan, CompositeError>) -> bool {
    let p = parent_of(machines);
    let parent = machines[p];
    let children = child_tables(parent, machines);
    let nested = nested_tree(machines, parent, children);
    let child = single_child(machines, parent);
    match result {
        Err(CompositeError::NoParent) => p == machines.len(),
        Err(CompositeError::Table { machine, fault }) => {
            &&& p < machines.len()
            &&& !nested
            &&& if fault_of(parent) is Some {
                machine == p && fault_of(parent) == Some(fault)
            } else {
                machine == child && fault_of(machines[child]) == Some(fault)
            }
        },
        Ok(plan) => {
            &&& p < machines.len()
            &&& plan.parent == p
            &&& name_views(plan.children@) == children
            &&& if nested {
                plan.child is None
            } else {
                &&& plan.child == Some(child as usize)
                &&& fault_of(parent) is None
                &&& fault_of(machines[child]) is None
            }
        },
    }
}

/// Whether some row of the table names `name` in a `state<..>` reference.
fn mentions_name(machine: &StateMachine, name: &String) -> (found: bool)
    ensures
        found == mentions(*machine, name@),
{
    let mut index: usize = 0;
    while index < machine.transitions.len()
        invariant
            index <= machine.transitions@.len(),
            forall|r: int| 0 <= r < index ==> !row_mentions(#[trigger] machine.transitions@[r], name@),
        decreases machine.transitions@.len() - index,
    {
        let row = &machine.transitions[index];
        let at_source = match &row.in_state.composite {
            Some(child) => *child == *name,
            None => false,
        };
        let at_target = match &row.out_state.composite {
            Some(child) => *child == *name,
            None => false,
        };
        if at_source || at_target {
            return true;
        }
        index = index + 1;
    }
    false
}

/// Whether some table names `name` in a `state<..>` reference.
fn is_referenced(machines: &Vec<StateMachine>, name: &String) -> (found: bool)
    ensures
        found == referenced(machines@, name@),
{
    let mut index: usize = 0;
    while index < machines.len()
        invariant
            index <= machines@.len(),
            forall|m: int| 0 <= m < index ==> !mentions(#[trigger] machines@[m], name@),
        decreases machines@.len() - index,
    {
        if mentions_name(&machines[index], name) {
            return true;
        }
        index = index + 1;
    }
    false
}

/// Whether the table at `index` is the root of a composite tree.
fn is_root(machines: &Vec<StateMachine>, index: usize) -> (found: bool)
    requires
        index < machines@.len(),
    ensures
        found == root_at(machines@)(index as int),
{
    if !has_composite(&machines[index], machines) {
        return false;
    }
    match &machines[index].name {
        Some(name) => !is_referenced(machines, name),
        None => false,
    }
}

/// The parent of a composite tree, if some table refers to another.
fn composite_parent(machines: &Vec<StateMachine>) -> (found: Option<usize>)
    ensures
        found matches Some(p) ==> p == parent_of(machines@) && p < machines@.len(),
        found is None <==> parent_of(machines@) == machines@.len(),
{
    let ghost all = machines@;
    let ghost roots = root_at(all);
    let ghost nesters = nests_at(all);
    let mut index: usize = 0;
    while index < machines.len()
        invariant
            all == machines@,
            roots == root_at(all),
            index <= all.len(),
            forall|m: int| 0 <= m < index ==> !#[trigger] roots(m),
        decreases all.len() - index,
    {
        if is_root(machines, index) {
            proof {
                lemma_first_where_is(0, all.len() as int, roots, index as int);
            }
            return Some(index);
        }
        index = index + 1;
    }
    proof {
        lemma_first_where_is(0, all.len() as int, roots, all.len() as int);
    }
    let mut index: usize = 0;
    while index < machines.len()
        invariant
            all == machines@,
            nesters == nests_at(all),
            first_where(0, all.len() as int, root_at(all)) == all.len(),
            index <= all.len(),
            forall|m: int| 0 <= m < index ==> !#[trigger] nesters(m),
        decreases all.len() - index,
    {
        if has_composite(&machines[index], machines) {
            proof {
                lemma_first_where_is(0, all.len() as int, nesters, index as int);
            }
            return Some(index);
        }
        index = index + 1;
    }
    proof {
        lemma_first_where_is(0, all.len() as int, nesters, all.len() as int);
    }
    None
}

/// Adds the table that a reference names to `names`, when it names one.
fn add_reference_into(names: &mut Vec<String>, reference: &Option<String>, machines: &Vec<StateMachine>)
    ensures
        name_views(final(names)@) == add_reference(name_views(old(names)@), *reference, machines@),
{
    match reference {
        Some(child) => {
            if table_position(machines, child).is_some() {
                insert_name_into(names, child);
            }
        },
        None => {},
    }
}

/// The tables that `machine` refers to, each once, in the order met.
fn child_references(machine: &StateMachine, machines: &Vec<StateMachine>) -> (children: Vec<String>)
    ensures
        name_views(children@) == child_tables(*machine, machines@),
{
    let ghost rows = machine.transitions@;
    let mut children: Vec<String> = Vec::new();
    let mut index: usize = 0;
    while index < machine.transitions.len()
        invariant
            rows == machine.transitions@,
            index <= rows.len(),
            name_views(children@) == children_of(rows, index as int, machines@),
        decreases rows.len() - index,
    {
        let row = &machine.transitions[index];
        add_reference_into(&mut children, &row.in_state.composite, machines);
        add_reference_into(&mut children, &row.out_state.composite, machines);
        index = index + 1;
    }
    children
}

/// Every table that the rows refer to is one of the tables.
proof fn lemma_children_are_tables(rows: Seq<StateTransition>, count: int, machines: Seq<StateMachine>)
    requires
        0 <= count <= rows.len(),
    ensures
        forall|c: int|
            0 <= c < children_of(rows, count, machines).len() ==> names_table(
                machines,
                #[trigger] children_of(rows, count, machines)[c],
            ),
    decreases count,
{
    if count > 0 {
        lemma_children_are_tables(rows, count - 1, machines);
        let row = rows[count - 1];
        let before = children_of(rows, count - 1, machines);
        lemma_reference_adds_tables(before, row.in_state.composite, machines);
        lemma_reference_adds_tables(
            add_reference(before, row.in_state.composite, machines),
            row.out_state.composite,
            machines,
        );
    }
}

/// Adding a reference keeps every name a table's.
proof fn lemma_reference_adds_tables(
    names: Seq<Seq<char>>,
    reference: Option<String>,
    machines: Seq<StateMachine>,
)
    requires
        forall|c: int| 0 <= c < names.len() ==> names_table(machines, #[trigger] names[c]),
    ensures
        forall|c: int|
            0 <= c < add_reference(names, reference, machines).len() ==> names_table(
                machines,
                #[trigger] add_reference(names, reference, machines)[c],
            ),
{
    match reference {
        Some(child) => {
            if names_table(machines, child@) && !names.contains(child@) {
                let added = names.push(child@);
                assert forall|c: int| 0 <= c < added.len() implies names_table(machines, #[trigger] added[c]) by {
                    if c < names.len() {
                        assert(added[c] == names[c]);
                    }
                }
            }
        },
        None => {},
    }
}

/// The first table of a name that some table has is one of the tables.
proof fn lemma_first_named(machines: Seq<StateMachine>, name: Seq<char>)
    requires
        names_table(machines, name),
    ensures
        0 <= first_named(machines, name) < machines.len(),
        named(machines[first_named(machines, name)], name),
{
    lemma_first_where(0, machines.len() as int, named_at(machines, name));
    let m = choose|m: int| 0 <= m < machines.len() && named(#[trigger] machines[m], name);
    assert(named_at(machines, name)(m));
}

/// The parent of a composite tree refers to some table.
proof fn lemma_parent_nests(machines: Seq<StateMachine>)
    requires
        parent_of(machines) < machines.len(),
    ensures
        nests_table(machines[parent_of(machines)], machines),
{
    lemma_first_where(0, machines.len() as int, root_at(machines));
    lemma_first_where(0, machines.len() as int, nests_at(machines));
    let root = first_where(0, machines.len() as int, root_at(machines));
    if root < machines.len() {
        assert(root_at(machines)(root));
    } else {
        assert(nests_at(machines)(parent_of(machines)));
    }
}

/// Finds what is wrong with a table of a composite tree, if anything: see
/// `fault_of`.
pub fn check_table(machine: &StateMachine) -> (fault: Option<TableFault>)
    ensures
        fault == fault_of(*machine),
{
    match starting_row(&machine.transitions) {
        Err(AnalysisError::NoStartingState) => return Some(TableFault::NoInitialState),
        _ => {},
    }
    proof {
        lemma_staying_completion_bounds(machine.transitions@);
    }
    match validate_supported(machine) {
        Ok(()) => None,
        Err(row) => Some(TableFault::StayingCompletion { row }),
    }
}

/// Plans the expansion of a composite tree: finds its parent and the
/// parent's children, decides whether the tree needs the general expansion,
/// and otherwise checks the parent and its one child: see `plan_found`.
pub fn plan_composite(machines: &Vec<StateMachine>) -> (result: Result<CompositePlan, CompositeError>)
    ensures
        plan_found(machines@, result),
{
    let ghost all = machines@;
    let p = match composite_parent(machines) {
        Some(p) => p,
        None => return Err(CompositeError::NoParent),
    };
    let parent = &machines[p];
    let children = child_references(parent, machines);
    let ghost names = child_tables(*parent, all);
    proof {
        lemma_children_are_tables(parent.transitions@, parent.transitions@.len() as int, all);
    }
    let mut nested = children.len() > 1 || has_regions(parent);
    let mut c: usize = 0;
    while c < children.len()
        invariant
            all == machines@,
            name_views(children@) == names,
            forall|i: int| 0 <= i < names.len() ==> names_table(all, #[trigger] names[i]),
            c <= names.len(),
            nested <==> (names.len() > 1 || splits_into_regions(*parent) || exists|i: int|
                0 <= i < c && (nests_table(table_of(all, #[trigger] names[i]), all) || splits_into_regions(
                    table_of(all, names[i]),
                ))),
        decreases names.len() - c,
    {
        assert(names[c as int] == children@[c as int]@);
        proof {
            lemma_first_named(all, names[c as int]);
        }
        match table_position(machines, &children[c]) {
            Some(t) => {
                if has_composite(&machines[t], machines) || has_regions(&machines[t]) {
                    nested = true;
                }
            },
            None => {},
        }
        c = c + 1;
    }
    assert(nested == nested_tree(all, *parent, names));
    if nested {
        return Ok(CompositePlan { parent: p, children, child: None });
    }
    proof {
        lemma_parent_nests(all);
    }
    let r = match reference_row(parent, machines) {
        Some(r) => r,
        None => vstd::pervasive::unreached(),
    };
    let row = &parent.transitions[r];
    let reference = match &row.in_state.composite {
        Some(_) => &row.in_state.composite,
        None => &row.out_state.composite,
    };
    let child = match reference {
        Some(name) => match table_position(machines, name) {
            Some(child) => child,
            None => vstd::pervasive::unreached(),
        },
        None => vstd::pervasive::unreached(),
    };
    match check_table(parent) {
        Some(fault) => return Err(CompositeError::Table { machine: p, fault }),
        None => {},
    }
    match check_table(&machines[child]) {
        Some(fault) => Err(CompositeError::Table { machine: child, fault }),
        None => Ok(CompositePlan { parent: p, children, child: Some(child) }),
    }
}

/// Tables laid out as a composite tree always have a parent, and that
/// parent refers to one of the tables.
pub proof fn law_composite_layout_has_parent(machines: Seq<StateMachine>)
    requires
        layout_of(machines) == Ok::<Layout, RoutingError>(Layout::Composite),
    ensures
        parent_of(machines) < machines.len(),
        nests_table(machines[parent_of(machines)], machines),
{
    let m = choose|m: int| 0 <= m < machines.len() && nests_table(#[trigger] machines[m], machines);
    lemma_first_where(0, machines.len() as int, root_at(machines));
    lemma_first_where(0, machines.len() as int, nests_at(machines));
    if first_where(0, machines.len() as int, nests_at(machines)) == machines.len() {
        assert(nests_at(machines)(m));
    }
    lemma_parent_nests(machines);
}

/// A table's name, or the empty name.
pub open spec fn table_name(machine: StateMachine) -> Seq<char> {
    match machine.name {
        Some(name) => name@,
        None => Seq::empty(),
    }
}

/// Each name, paired with the table that owns it.
pub open spec fn owned_by(names: Seq<Seq<char>>, owner: Seq<char>) -> Seq<(Seq<char>, Seq<char>)> {
    names.map_values(|name: Seq<char>| (name, owner))
}

/// The children of the tables of one level of a tree, each with its owner,
/// in the order of their owners.
pub open spec fn next_level(machines: Seq<StateMachine>, level: Seq<(Seq<char>, Seq<char>)>) -> Seq<
    (Seq<char>, Seq<char>),
>
    decreases level.len(),
{
    if level.len() == 0 {
        Seq::empty()
    } else {
        let owner = level.last().0;
        next_level(machines, level.drop_last()) + owned_by(
            child_tables(table_of(machines, owner), machines),
            owner,
        )
    }
}

/// The tables at one depth below the root, each with its owner: the root's
/// children first, then their children, and so on.
pub open spec fn tree_level(machines: Seq<StateMachine>, root: int, depth: nat) -> Seq<
    (Seq<char>, Seq<char>),
>
    decreases depth,
{
    if depth == 0 {
        owned_by(child_tables(machines[root], machines), table_name(machines[root]))
    } else {
        next_level(machines, tree_level(machines, root, (depth - 1) as nat))
    }
}

/// A level's entries with the depth of the tables in it.
pub open spec fn at_depth(level: Seq<(Seq<char>, Seq<char>)>, depth: nat) -> Seq<
    (Seq<char>, Seq<char>, nat),
> {
    level.map_values(|entry: (Seq<char>, Seq<char>)| (entry.0, entry.1, depth))
}

/// The tables of the first `depth` levels below the root, level by level,
/// each with its owner and its depth, the root's children at depth 1.
pub open spec fn visit_order(machines: Seq<StateMachine>, root: int, depth: nat) -> Seq<
    (Seq<char>, Seq<char>, nat),
>
    decreases depth,
{
    if depth == 0 {
        Seq::empty()
    } else {
        visit_order(machines, root, (depth - 1) as nat) + at_depth(
            tree_level(machines, root, (depth - 1) as nat),
            depth,
        )
    }
}

/// The tables below the root, as far as a tree of the given tables can
/// reach, in breadth-first order.
pub open spec fn tree_order(machines: Seq<StateMachine>, root: int) -> Seq<(Seq<char>, Seq<char>, nat)> {
    visit_order(machines, root, (machines.len() + 1) as nat)
}

/// The table at `index` of the order was met before.
pub open spec fn met_before(order: Seq<(Seq<char>, Seq<char>, nat)>, index: int) -> bool {
    exists|j: int| 0 <= j < index && (#[trigger] order[j]).0 == order[index].0
}

/// Whether the traversal stops at an index: the table there was met
/// before, or cannot take part.
pub open spec fn stops_at(machines: Seq<StateMachine>, order: Seq<(Seq<char>, Seq<char>, nat)>) -> spec_fn(
    int,
) -> bool {
    |index: int| met_before(order, index) || fault_of(table_of(machines, order[index].0)) is Some
}

/// A table of a composite tree below its root.
#[derive(Debug)]
pub struct TreeNode {
    /// The table's name.
    pub name: String,
    /// The name of the table that owns it.
    pub parent: String,
    /// How far below the root it stands; the root's children stand at 1.
    pub depth: usize,
    /// The first table of that name.
    pub machine: usize,
}

/// The nodes, each by its name, its owner's name and its depth.
pub open spec fn node_views(nodes: Seq<TreeNode>) -> Seq<(Seq<char>, Seq<char>, nat)> {
    nodes.map_values(|node: TreeNode| (node.name@, node.parent@, node.depth as nat))
}

/// Why the tables below a root do not form a tree.
#[derive(Debug, PartialEq, Eq)]
pub enum TreeError {
    /// `reference` is owned by two tables, or the references form a cycle.
    Shared { reference: String },
    /// The table at `machine` cannot take part.
    Table { machine: usize, fault: TableFault },
}

/// What walking the tree below a root gives: nothing when the root has no
/// children; else the root's own fault first; else the first table, in
/// breadth-first order, that was met before or cannot take part; else every
/// table below the root with its owner and depth, the walk having come to
/// its end.
pub open spec fn tree_found(machines: Seq<StateMachine>, root: int, result: Result<Vec<TreeNode>, TreeError>) -> bool {
    let order = tree_order(machines, root);
    let stop = first_where(0, order.len() as int, stops_at(machines, order));
    if order.len() == 0 {
        result matches Ok(nodes) && nodes@.len() == 0
    } else if fault_of(machines[root]) is Some {
        result == Err::<Vec<TreeNode>, TreeError>(
            TreeError::Table { machine: root as usize, fault: fault_of(machines[root])->0 },
        )
    } else if stop < order.len() {
        if met_before(order, stop) {
            result matches Err(TreeError::Shared { reference }) && reference@ == order[stop].0
        } else {
            let table = first_named(machines, order[stop].0);
            result == Err::<Vec<TreeNode>, TreeError>(
                TreeError::Table { machine: table as usize, fault: fault_of(machines[table])->0 },
            )
        }
    } else {
        &&& result matches Ok(nodes)
        &&& node_views(nodes@) == order
        &&& forall|i: int| 0 <= i < nodes@.len() ==> (#[trigger] nodes@[i]).machine == first_named(machines, nodes@[i].name@)
        &&& tree_level(machines, root, (machines.len() + 1) as nat).len() == 0
    }
}

/// A duplicate-free list of table names is no longer than the list of
/// tables.
proof fn lemma_distinct_tables_fit(machines: Seq<StateMachine>, names: Seq<Seq<char>>)
    requires
        names.no_duplicates(),
        forall|i: int| 0 <= i < names.len() ==> names_table(machines, #[trigger] names[i]),
    ensures
        names.len() <= machines.len(),
{
    let positions = names.map_values(|name: Seq<char>| first_named(machines, name));
    assert forall|i: int, j: int|
        0 <= i < positions.len() && 0 <= j < positions.len() && i != j implies positions[i]
        != positions[j] by {
        lemma_first_named(machines, names[i]);
        lemma_first_named(machines, names[j]);
    }
    assert(positions.no_duplicates());
    positions.unique_seq_to_set();
    assert forall|p: int| positions.to_set().contains(p) implies vstd::set_lib::set_int_range(
        0,
        machines.len() as int,
    ).contains(p) by {
        let i = choose|i: int| 0 <= i < positions.len() && positions[i] == p;
        lemma_first_named(machines, names[i]);
    }
    vstd::set_lib::lemma_int_range(0, machines.len() as int);
    vstd::set_lib::lemma_len_subset(
        positions.to_set(),
        vstd::set_lib::set_int_range(0, machines.len() as int),
    );
}

/// The children of the tables of a level are tables.
proof fn lemma_next_level_tables(machines: Seq<StateMachine>, level: Seq<(Seq<char>, Seq<char>)>)
    ensures
        forall|i: int|
            0 <= i < next_level(machines, level).len() ==> names_table(
                machines,
                (#[trigger] next_level(machines, level)[i]).0,
            ),
    decreases level.len(),
{
    if level.len() > 0 {
        let owner = level.last().0;
        let table = table_of(machines, owner);
        lemma_next_level_tables(machines, level.drop_last());
        lemma_children_are_tables(table.transitions@, table.transitions@.len() as int, machines);
        let before = next_level(machines, level.drop_last());
        let added = owned_by(child_tables(table, machines), owner);
        assert forall|i: int| 0 <= i < next_level(machines, level).len() implies names_table(
            machines,
            (#[trigger] next_level(machines, level)[i]).0,
        ) by {
            if i < before.len() {
                assert(next_level(machines, level)[i] == before[i]);
            } else {
                assert(next_level(machines, level)[i] == added[i - before.len()]);
            }
        }
    }
}

/// Every table of every level is one of the tables.
proof fn lemma_level_tables(machines: Seq<StateMachine>, root: int, depth: nat)
    requires
        0 <= root < machines.len(),
    ensures
        forall|i: int|
            0 <= i < tree_level(machines, root, depth).len() ==> names_table(
                machines,
                (#[trigger] tree_level(machines, root, depth)[i]).0,
            ),
    decreases depth,
{
    if depth == 0 {
        let parent = machines[root];
        lemma_children_are_tables(parent.transitions@, parent.transitions@.len() as int, machines);
        let level = tree_level(machines, root, depth);
        assert forall|i: int| 0 <= i < level.len() implies names_table(machines, (#[trigger] level[i]).0) by {
            assert(level[i].0 == child_tables(parent, machines)[i]);
        }
    } else {
        lemma_next_level_tables(machines, tree_level(machines, root, (depth - 1) as nat));
    }
}

/// After an empty level every level is empty, and the order stays as it
/// was.
proof fn lemma_empty_level_ends(machines: Seq<StateMachine>, root: int, depth: nat, later: nat)
    requires
        depth <= later,
        tree_level(machines, root, depth).len() == 0,
    ensures
        tree_level(machines, root, later).len() == 0,
        visit_order(machines, root, later + 1) == visit_order(machines, root, depth + 1),
        visit_order(machines, root, depth + 1) == visit_order(machines, root, depth),
    decreases later - depth,
{
    assert(at_depth(tree_level(machines, root, depth), depth + 1) =~= Seq::empty());
    if depth < later {
        lemma_empty_level_ends(machines, root, depth, (later - 1) as nat);
        assert(at_depth(tree_level(machines, root, later), later + 1) =~= Seq::empty());
        assert(visit_order(machines, root, later + 1) =~= visit_order(machines, root, later));
    }
}

/// A shorter walk is a prefix of a longer one.
proof fn lemma_order_prefix(machines: Seq<StateMachine>, root: int, depth: nat, later: nat)
    requires
        depth <= later,
    ensures
        visit_order(machines, root, depth).len() <= visit_order(machines, root, later).len(),
        forall|i: int|
            0 <= i < visit_order(machines, root, depth).len() ==> visit_order(machines, root, later)[i]
                == (#[trigger] visit_order(machines, root, depth)[i]),
    decreases later - depth,
{
    if depth < later {
        lemma_order_prefix(machines, root, depth, (later - 1) as nat);
    }
}

/// Taking one more entry of a level adds that entry's children.
proof fn lemma_next_level_step(machines: Seq<StateMachine>, level: Seq<(Seq<char>, Seq<char>)>, k: int)
    requires
        0 <= k < level.len(),
    ensures
        next_level(machines, level.take(k + 1)) == next_level(machines, level.take(k)) + owned_by(
            child_tables(table_of(machines, level[k].0), machines),
            level[k].0,
        ),
{
    assert(level.take(k + 1).drop_last() =~= level.take(k));
    assert(level.take(k + 1).last() == level[k]);
}

/// The entries of a list of pairs by their views.
pub open spec fn entry_views(entries: Seq<(String, String)>) -> Seq<(Seq<char>, Seq<char>)> {
    entries.map_values(|entry: (String, String)| (entry.0@, entry.1@))
}

/// Pairs each name with `owner`.
fn owned_entries(names: &Vec<String>, owner: &String) -> (entries: Vec<(String, String)>)
    ensures
        entry_views(entries@) == owned_by(name_views(names@), owner@),
{
    let mut entries: Vec<(String, String)> = Vec::new();
    let mut index: usize = 0;
    while index < names.len()
        invariant
            index <= names@.len(),
            entries@.len() == index,
            forall|i: int|
                0 <= i < index ==> (#[trigger] entries@[i]).0@ == names@[i]@ && entries@[i].1@ == owner@,
        decreases names@.len() - index,
    {
        let name = names[index].clone();
        let own = owner.clone();
        entries.push((name, own));
        index = index + 1;
    }
    assert(entry_views(entries@) =~= owned_by(name_views(names@), owner@));
    entries
}

/// Whether some node is named `name`.
fn has_node(nodes: &Vec<TreeNode>, name: &String) -> (found: bool)
    ensures
        found == exists|j: int| 0 <= j < nodes@.len() && (#[trigger] nodes@[j]).name@ == name@,
{
    let mut index: usize = 0;
    while index < nodes.len()
        invariant
            index <= nodes@.len(),
            forall|j: int| 0 <= j < index ==> (#[trigger] nodes@[j]).name@ != name@,
        decreases nodes@.len() - index,
    {
        if nodes[index].name == *name {
            return true;
        }
        index = index + 1;
    }
    false
}

/// Walks the tree of tables below a named root, breadth first: each table
/// a table refers to becomes its child, one level deeper. A table met twice
/// is owned by two tables or closes a cycle; every table met, and the root
/// with it, must be fit to take part: see `tree_found`.
pub fn composite_tree(machines: &Vec<StateMachine>, root: usize) -> (result: Result<Vec<TreeNode>, TreeError>)
    requires
        root < machines@.len(),
        machines@[root as int].name is Some,
    ensures
        tree_found(machines@, root as int, result),
{
    let ghost all = machines@;
    let ghost total = (all.len() + 1) as nat;
    let count = machines.len();
    let root_name = match &machines[root].name {
        Some(name) => name.clone(),
        None => vstd::pervasive::unreached(),
    };
    let children = child_references(&machines[root], machines);
    let mut current = owned_entries(&children, &root_name);
    proof {
        lemma_order_prefix(all, root as int, 1, total);
        assert(visit_order(all, root as int, 0) == Seq::<(Seq<char>, Seq<char>, nat)>::empty());
        assert(visit_order(all, root as int, 1) == visit_order(all, root as int, 0) + at_depth(
            tree_level(all, root as int, 0),
            1,
        ));
        assert(visit_order(all, root as int, 1) =~= at_depth(tree_level(all, root as int, 0), 1));
    }
    if current.len() == 0 {
        proof {
            lemma_empty_level_ends(all, root as int, 0, all.len() as nat);
        }
        return Ok(Vec::new());
    }
    match check_table(&machines[root]) {
        Some(fault) => return Err(TreeError::Table { machine: root, fault }),
        None => {},
    }
    let mut nodes: Vec<TreeNode> = Vec::new();
    let mut depth: usize = 0;
    while current.len() > 0
        invariant
            all == machines@,
            all.len() == count,
            total == all.len() + 1,
            root < all.len(),
            fault_of(all[root as int]) is None,
            entry_views(current@) == tree_level(all, root as int, depth as nat),
            node_views(nodes@) == visit_order(all, root as int, depth as nat),
            depth <= nodes@.len() <= all.len(),
            forall|i: int, j: int|
                0 <= i < nodes@.len() && 0 <= j < nodes@.len() && i != j ==> (#[trigger] nodes@[i]).name@
                    != (#[trigger] nodes@[j]).name@,
            forall|i: int|
                0 <= i < nodes@.len() ==> {
                    &&& names_table(all, (#[trigger] nodes@[i]).name@)
                    &&& fault_of(table_of(all, nodes@[i].name@)) is None
                    &&& nodes@[i].machine == first_named(all, nodes@[i].name@)
                },
            tree_order(all, root as int).len() > 0,
        decreases all.len() - nodes@.len(),
    {
        let ghost level = entry_views(current@);
        let ghost base = nodes@.len();
        proof {
            lemma_level_tables(all, root as int, depth as nat);
            lemma_order_prefix(all, root as int, (depth + 1) as nat, total);
            assert(visit_order(all, root as int, (depth + 1) as nat) == visit_order(all, root as int, depth as nat)
                + at_depth(level, (depth + 1) as nat));
        }
        let mut next: Vec<(String, String)> = Vec::new();
        let mut k: usize = 0;
        while k < current.len()
            invariant
                all == machines@,
                all.len() == count,
                total == all.len() + 1,
                root < all.len(),
                fault_of(all[root as int]) is None,
                level == entry_views(current@),
                level == tree_level(all, root as int, depth as nat),
                forall|i: int| 0 <= i < level.len() ==> names_table(all, (#[trigger] level[i]).0),
                visit_order(all, root as int, (depth + 1) as nat) == visit_order(all, root as int, depth as nat)
                    + at_depth(level, (depth + 1) as nat),
                visit_order(all, root as int, (depth + 1) as nat).len() <= tree_order(all, root as int).len(),
                forall|i: int|
                    0 <= i < visit_order(all, root as int, (depth + 1) as nat).len() ==> tree_order(all, root as int)[i]
                        == (#[trigger] visit_order(all, root as int, (depth + 1) as nat)[i]),
                base == visit_order(all, root as int, depth as nat).len(),
                depth <= base,
                level.len() > 0,
                k <= level.len(),
                node_views(nodes@) == visit_order(all, root as int, depth as nat) + at_depth(level.take(k as int), (depth + 1) as nat),
                entry_views(next@) == next_level(all, level.take(k as int)),
                nodes@.len() <= all.len(),
                forall|i: int, j: int|
                    0 <= i < nodes@.len() && 0 <= j < nodes@.len() && i != j ==> (#[trigger] nodes@[i]).name@
                        != (#[trigger] nodes@[j]).name@,
                forall|i: int|
                    0 <= i < nodes@.len() ==> {
                        &&& names_table(all, (#[trigger] nodes@[i]).name@)
                        &&& fault_of(table_of(all, nodes@[i].name@)) is None
                        &&& nodes@[i].machine == first_named(all, nodes@[i].name@)
                    },
            decreases level.len() - k,
        {
            let ghost order = tree_order(all, root as int);
            let ghost at = nodes@.len() as int;
            let name = &current[k].0;
            let owner = &current[k].1;
            proof {
                assert(level[k as int] == (name@, owner@));
                assert(node_views(nodes@).len() == at);
                assert(at == base + k);
                let walked = visit_order(all, root as int, (depth + 1) as nat);
                let earlier = visit_order(all, root as int, depth as nat);
                assert(walked.len() == base + level.len());
                assert(walked[at] == at_depth(level, (depth + 1) as nat)[k as int]);
                assert(order[at] == walked[at]);
                assert(order[at] == (name@, owner@, (depth + 1) as nat));
                assert forall|i: int| 0 <= i < at implies order[i] == #[trigger] node_views(nodes@)[i] by {
                    assert(order[i] == walked[i]);
                    if i < base {
                        assert(walked[i] == earlier[i]);
                        assert(node_views(nodes@)[i] == earlier[i]);
                    } else {
                        assert(walked[i] == at_depth(level, (depth + 1) as nat)[i - base]);
                        assert(node_views(nodes@)[i] == at_depth(level.take(k as int), (depth + 1) as nat)[i - base]);
                    }
                }
            }
            if has_node(&nodes, name) {
                proof {
                    let j = choose|j: int| 0 <= j < nodes@.len() && (#[trigger] nodes@[j]).name@ == name@;
                    assert(order[j] == node_views(nodes@)[j]);
                    assert(met_before(order, at));
                    assert(stops_at(all, order)(at));
                    assert forall|i: int| 0 <= i < at implies !#[trigger] stops_at(all, order)(i) by {
                        assert(order[i] == node_views(nodes@)[i]);
                        if met_before(order, i) {
                            let j = choose|j: int| 0 <= j < i && (#[trigger] order[j]).0 == order[i].0;
                            assert(order[j] == node_views(nodes@)[j]);
                        }
                    }
                    lemma_first_where_is(0, order.len() as int, stops_at(all, order), at);
                }
                return Err(TreeError::Shared { reference: name.clone() });
            }
            proof {
                lemma_first_named(all, name@);
            }
            let table = match table_position(machines, name) {
                Some(table) => table,
                None => vstd::pervasive::unreached(),
            };
            proof {
                assert(!met_before(order, at)) by {
                    if met_before(order, at) {
                        let j = choose|j: int| 0 <= j < at && (#[trigger] order[j]).0 == order[at].0;
                        assert(order[j] == node_views(nodes@)[j]);
                        assert(nodes@[j].name@ == name@);
                    }
                }
                assert forall|i: int| 0 <= i < at implies !#[trigger] stops_at(all, order)(i) by {
                    assert(order[i] == node_views(nodes@)[i]);
                    if met_before(order, i) {
                        let j = choose|j: int| 0 <= j < i && (#[trigger] order[j]).0 == order[i].0;
                        assert(order[j] == node_views(nodes@)[j]);
                    }
                }
            }
            match check_table(&machines[table]) {
                Some(fault) => {
                    proof {
                        assert(stops_at(all, order)(at));
                        lemma_first_where_is(0, order.len() as int, stops_at(all, order), at);
                    }
                    return Err(TreeError::Table { machine: table, fault });
                },
                None => {},
            }
            proof {
                let names = nodes@.map_values(|n: TreeNode| n.name@).push(name@);
                assert forall|i: int| 0 <= i < names.len() implies names_table(all, #[trigger] names[i]) by {
                    if i < at {
                        assert(names[i] == nodes@[i].name@);
                    }
                }
                assert forall|i: int, j: int| 0 <= i < names.len() && 0 <= j < names.len() && i != j implies names[i] != names[j] by {
                    if i < at {
                        assert(names[i] == nodes@[i].name@);
                    }
                    if j < at {
                        assert(names[j] == nodes@[j].name@);
                    }
                }
                lemma_distinct_tables_fit(all, names);
            }
            let grandchildren = child_references(&machines[table], machines);
            let mut added = owned_entries(&grandchildren, name);
            let node = TreeNode { name: name.clone(), parent: owner.clone(), depth: depth + 1, machine: table };
            let ghost before = nodes@;
            nodes.push(node);
            let ghost next_before = next@;
            let ghost added_view = added@;
            next.append(&mut added);
            proof {
                assert(level.take(k + 1) =~= level.take(k as int).push(level[k as int]));
                assert(node_views(nodes@) =~= node_views(before).push((name@, owner@, (depth + 1) as nat)));
                assert(at_depth(level.take(k + 1), (depth + 1) as nat) =~= at_depth(level.take(k as int), (depth + 1) as nat).push((name@, owner@, (depth + 1) as nat)));
                assert(node_views(nodes@) =~= visit_order(all, root as int, depth as nat) + at_depth(level.take(k + 1), (depth + 1) as nat));
                lemma_next_level_step(all, level, k as int);
                assert(next@ == next_before + added_view);
                assert(entry_views(next@) =~= entry_views(next_before) + entry_views(added_view));
                assert(nodes@[at] == node);
                assert forall|i: int| 0 <= i < at implies nodes@[i] == before[i] by {}
            }
            k = k + 1;
        }
        proof {
            assert(level.take(level.len() as int) =~= level);
            assert(node_views(nodes@).len() == base + level.len());
            assert(nodes@.len() == base + level.len());
        }
        current = next;
        depth = depth + 1;
    }
    proof {
        let order = tree_order(all, root as int);
        lemma_empty_level_ends(all, root as int, depth as nat, all.len() as nat);
        lemma_order_prefix(all, root as int, depth as nat, total);
        assert(order == node_views(nodes@));
        assert forall|i: int| 0 <= i < order.len() implies !#[trigger] stops_at(all, order)(i) by {
            assert(order[i] == node_views(nodes@)[i]);
            if met_before(order, i) {
                let j = choose|j: int| 0 <= j < i && (#[trigger] order[j]).0 == order[i].0;
                assert(order[j] == node_views(nodes@)[j]);
            }
        }
        lemma_first_where_is(0, order.len() as int, stops_at(all, order), order.len() as int);
    }
    Ok(nodes)
}

/// Each entry of the next level is a child of some entry of the level,
/// which owns it.
proof fn lemma_next_level_owners(machines: Seq<StateMachine>, level: Seq<(Seq<char>, Seq<char>)>, i: int)
    requires
        0 <= i < next_level(machines, level).len(),
    ensures
        exists|k: int|
            0 <= k < level.len() && (#[trigger] level[k]).0 == next_level(machines, level)[i].1
                && child_tables(table_of(machines, level[k].0), machines).contains(
                next_level(machines, level)[i].0,
            ),
    decreases level.len(),
{
    let owner = level.last().0;
    let before = next_level(machines, level.drop_last());
    let added = owned_by(child_tables(table_of(machines, owner), machines), owner);
    if i < before.len() {
        assert(next_level(machines, level)[i] == before[i]);
        lemma_next_level_owners(machines, level.drop_last(), i);
        let k = choose|k: int|
            0 <= k < level.drop_last().len() && (#[trigger] level.drop_last()[k]).0 == before[i].1
                && child_tables(table_of(machines, level.drop_last()[k].0), machines).contains(before[i].0);
        assert(level[k] == level.drop_last()[k]);
    } else {
        let k = level.len() - 1;
        assert(next_level(machines, level)[i] == added[i - before.len()]);
        assert(level[k] == level.last());
        assert(child_tables(table_of(machines, owner), machines)[i - before.len()] == added[i - before.len()].0);
    }
}

/// Where an entry of a walk stands: in some level, after the levels before
/// it.
proof fn lemma_order_entry(machines: Seq<StateMachine>, root: int, depth: nat, i: int)
    requires
        0 <= i < visit_order(machines, root, depth).len(),
    ensures
        exists|d: nat|
            d < depth && visit_order(machines, root, d).len() <= i < visit_order(machines, root, d + 1).len()
                && visit_order(machines, root, depth)[i] == #[trigger] at_depth(tree_level(machines, root, d), d + 1)[i
                - visit_order(machines, root, d).len()],
    decreases depth,
{
    let below = (depth - 1) as nat;
    lemma_order_prefix(machines, root, below, depth);
    if i < visit_order(machines, root, below).len() {
        lemma_order_entry(machines, root, below, i);
        let d = choose|d: nat|
            d < below && visit_order(machines, root, d).len() <= i < visit_order(machines, root, d + 1).len()
                && visit_order(machines, root, below)[i] == #[trigger] at_depth(tree_level(machines, root, d), d + 1)[i
                - visit_order(machines, root, d).len()];
        assert(visit_order(machines, root, depth)[i] == visit_order(machines, root, below)[i]);
    } else {
        assert(visit_order(machines, root, depth)[i] == at_depth(tree_level(machines, root, below), below + 1)[i
            - visit_order(machines, root, below).len()]);
    }
}

/// The tree below a root is a tree: every table in it has one owner, and
/// that owner is the root, for the root's children, or a table met earlier
/// one level up, which refers to it.
pub proof fn law_tables_have_one_owner(machines: Seq<StateMachine>, root: int, nodes: Vec<TreeNode>)
    requires
        0 <= root < machines.len(),
        tree_found(machines, root, Ok(nodes)),
    ensures
        forall|i: int, j: int|
            0 <= i < nodes@.len() && 0 <= j < nodes@.len() && i != j ==> (#[trigger] nodes@[i]).name@
                != (#[trigger] nodes@[j]).name@,
        forall|i: int|
            0 <= i < nodes@.len() && (#[trigger] nodes@[i]).depth == 1 ==> nodes@[i].parent@ == table_name(
                machines[root],
            ) && child_tables(machines[root], machines).contains(nodes@[i].name@),
        forall|i: int|
            0 <= i < nodes@.len() && (#[trigger] nodes@[i]).depth != 1 ==> exists|j: int|
                0 <= j < i && (#[trigger] nodes@[j]).name@ == nodes@[i].parent@ && nodes@[j].depth + 1
                    == nodes@[i].depth && child_tables(table_of(machines, nodes@[j].name@), machines).contains(
                    nodes@[i].name@,
                ),
{
    let order = tree_order(machines, root);
    let total = (machines.len() + 1) as nat;
    if order.len() > 0 {
        let stop = first_where(0, order.len() as int, stops_at(machines, order));
        lemma_first_where(0, order.len() as int, stops_at(machines, order));
        assert(node_views(nodes@) == order);
        assert forall|i: int, j: int|
            0 <= i < nodes@.len() && 0 <= j < nodes@.len() && i != j implies (#[trigger] nodes@[i]).name@
            != (#[trigger] nodes@[j]).name@ by {
            assert(order[i] == node_views(nodes@)[i]);
            assert(order[j] == node_views(nodes@)[j]);
            if i < j {
                assert(!stops_at(machines, order)(j));
            } else {
                assert(!stops_at(machines, order)(i));
            }
        }
        assert forall|i: int| 0 <= i < nodes@.len() implies {
            &&& (#[trigger] nodes@[i]).depth == 1 ==> nodes@[i].parent@ == table_name(machines[root])
                && child_tables(machines[root], machines).contains(nodes@[i].name@)
            &&& nodes@[i].depth != 1 ==> exists|j: int|
                0 <= j < i && (#[trigger] nodes@[j]).name@ == nodes@[i].parent@ && nodes@[j].depth + 1
                    == nodes@[i].depth && child_tables(table_of(machines, nodes@[j].name@), machines).contains(
                    nodes@[i].name@,
                )
        } by {
            assert(order[i] == node_views(nodes@)[i]);
            lemma_order_entry(machines, root, total, i);
            let d = choose|d: nat|
                d < total && visit_order(machines, root, d).len() <= i < visit_order(machines, root, d + 1).len()
                    && order[i] == #[trigger] at_depth(tree_level(machines, root, d), d + 1)[i
                    - visit_order(machines, root, d).len()];
            let start = visit_order(machines, root, d).len() as int;
            let level = tree_level(machines, root, d);
            assert(visit_order(machines, root, d + 1) == visit_order(machines, root, d) + at_depth(level, d + 1));
            let entry = level[i - start];
            assert(order[i] == (entry.0, entry.1, d + 1));
            if d == 0 {
                assert(entry.0 == child_tables(machines[root], machines)[i - start]);
            } else {
                let up = (d - 1) as nat;
                let above = tree_level(machines, root, up);
                lemma_next_level_owners(machines, above, i - start);
                let k = choose|k: int|
                    0 <= k < above.len() && (#[trigger] above[k]).0 == entry.1 && child_tables(
                        table_of(machines, above[k].0),
                        machines,
                    ).contains(entry.0);
                let up_start = visit_order(machines, root, up).len() as int;
                let j = up_start + k;
                assert(visit_order(machines, root, d) == visit_order(machines, root, up) + at_depth(above, d));
                lemma_order_prefix(machines, root, d, total);
                assert(order[j] == visit_order(machines, root, d)[j]);
                assert(order[j] == (above[k].0, above[k].1, d));
                assert(order[j] == node_views(nodes@)[j]);
                assert(nodes@[j].name@ == nodes@[i].parent@);
            }
        }
    }
}

} // verus!
