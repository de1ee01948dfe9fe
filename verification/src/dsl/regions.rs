//! The orthogonal regions of a machine with several start states: each
//! start state owns the states connected to it by the machine's rows, read
//! in both directions; regions must not share a state, and every state must
//! belong to one.

use vstd::prelude::*;

use super::event::EventKind;
use super::machine::{first_where, lemma_first_where, lemma_first_where_is, StateMachine, StateTransition};

verus! {

/// A row links its source and its target: it has a named source, a target,
/// and the target is not the terminal state `X`.
pub open spec fn links(row: StateTransition) -> bool {
    &&& !row.in_state.wildcard
    &&& !row.internal_transition
    &&& row.out_state.ident@ != "X"@
}

/// The row links `a` and `b`, in either direction.
pub open spec fn joins(row: StateTransition, a: Seq<char>, b: Seq<char>) -> bool {
    &&& links(row)
    &&& ((row.in_state.ident@ == a && row.out_state.ident@ == b) || (row.in_state.ident@ == b
        && row.out_state.ident@ == a))
}

/// Some row links `a` and `b`.
pub open spec fn adjacent(rows: Seq<StateTransition>, a: Seq<char>, b: Seq<char>) -> bool {
    exists|r: int| 0 <= r < rows.len() && #[trigger] joins(rows[r], a, b)
}

/// `path` goes from state to adjacent state.
pub open spec fn walks(rows: Seq<StateTransition>, path: Seq<Seq<char>>) -> bool {
    &&& path.len() > 0
    &&& forall|i: int| 0 <= i < path.len() - 1 ==> adjacent(rows, #[trigger] path[i], path[i + 1])
}

/// Some path leads from `a` to `b`.
pub open spec fn connected(rows: Seq<StateTransition>, a: Seq<char>, b: Seq<char>) -> bool {
    exists|path: Seq<Seq<char>>| #[trigger] walks(rows, path) && path[0] == a && path.last() == b
}

/// A state that belongs in a region: the named source of a row, or the
/// target of a linking row.
pub open spec fn region_state(rows: Seq<StateTransition>, state: Seq<char>) -> bool {
    exists|r: int|
        0 <= r < rows.len() && ((!(#[trigger] rows[r]).in_state.wildcard && rows[r].in_state.ident@
            == state) || (links(rows[r]) && rows[r].out_state.ident@ == state))
}

/// The start states of the rows marked `*`, in order.
pub open spec fn initials(rows: Seq<StateTransition>) -> Seq<Seq<char>>
    decreases rows.len(),
{
    if rows.len() == 0 {
        Seq::empty()
    } else {
        let before = initials(rows.drop_last());
        if rows.last().in_state.start {
            before.push(rows.last().in_state.ident@)
        } else {
            before
        }
    }
}

/// The start state at `index` is connected to an earlier one.
pub open spec fn overlaps(rows: Seq<StateTransition>, index: int) -> bool {
    exists|j: int| 0 <= j < index && connected(rows, initials(rows)[j], #[trigger] initials(rows)[index])
}

/// Whether the start state at an index is connected to an earlier one.
pub open spec fn overlap_at(rows: Seq<StateTransition>) -> spec_fn(int) -> bool {
    |index: int| overlaps(rows, index)
}

/// The first start state connected to an earlier one, or the count.
pub open spec fn first_overlap(rows: Seq<StateTransition>) -> int {
    first_where(0, initials(rows).len() as int, overlap_at(rows))
}

/// Some start state is connected to `state`.
pub open spec fn covered(rows: Seq<StateTransition>, state: Seq<char>) -> bool {
    exists|i: int| 0 <= i < initials(rows).len() && connected(rows, #[trigger] initials(rows)[i], state)
}

/// A one-state path connects a state to itself.
proof fn lemma_connected_self(rows: Seq<StateTransition>, a: Seq<char>)
    ensures
        connected(rows, a, a),
{
    let path = seq![a];
    assert(walks(rows, path));
}

/// Adjacency goes both ways.
proof fn lemma_adjacent_symmetric(rows: Seq<StateTransition>, a: Seq<char>, b: Seq<char>)
    requires
        adjacent(rows, a, b),
    ensures
        adjacent(rows, b, a),
{
    let r = choose|r: int| 0 <= r < rows.len() && #[trigger] joins(rows[r], a, b);
    assert(joins(rows[r], b, a));
}

/// Connection goes both ways.
proof fn lemma_connected_symmetric(rows: Seq<StateTransition>, a: Seq<char>, b: Seq<char>)
    requires
        connected(rows, a, b),
    ensures
        connected(rows, b, a),
{
    let path = choose|path: Seq<Seq<char>>| #[trigger] walks(rows, path) && path[0] == a && path.last() == b;
    let back = path.reverse();
    assert forall|i: int| 0 <= i < back.len() - 1 implies adjacent(rows, #[trigger] back[i], back[i + 1]) by {
        let k = path.len() - 2 - i;
        assert(back[i] == path[k + 1]);
        assert(back[i + 1] == path[k]);
        assert(adjacent(rows, path[k], path[k + 1]));
        lemma_adjacent_symmetric(rows, path[k], path[k + 1]);
    }
    assert(walks(rows, back));
    assert(back[0] == b);
    assert(back.last() == a);
}

/// Connection chains.
proof fn lemma_connected_transitive(rows: Seq<StateTransition>, a: Seq<char>, b: Seq<char>, c: Seq<char>)
    requires
        connected(rows, a, b),
        connected(rows, b, c),
    ensures
        connected(rows, a, c),
{
    let first = choose|path: Seq<Seq<char>>| #[trigger] walks(rows, path) && path[0] == a && path.last() == b;
    let second = choose|path: Seq<Seq<char>>| #[trigger] walks(rows, path) && path[0] == b && path.last() == c;
    let joined = first + second.drop_first();
    assert forall|i: int| 0 <= i < joined.len() - 1 implies adjacent(rows, #[trigger] joined[i], joined[i + 1]) by {
        if i < first.len() - 1 {
            assert(joined[i] == first[i]);
            assert(joined[i + 1] == first[i + 1]);
        } else if i == first.len() - 1 {
            assert(joined[i] == b);
            assert(second[0] == b);
            assert(joined[i + 1] == second[1]);
            assert(adjacent(rows, second[0], second[1]));
        } else {
            let k = i - first.len() + 1;
            assert(joined[i] == second[k]);
            assert(joined[i + 1] == second[k + 1]);
            assert(adjacent(rows, second[k], second[k + 1]));
        }
    }
    assert(walks(rows, joined));
    assert(joined[0] == a);
    if second.len() == 1 {
        assert(joined =~= first);
    } else {
        assert(joined.last() == second.last());
    }
}

/// A connection extends by an adjacent state.
proof fn lemma_connected_step(rows: Seq<StateTransition>, a: Seq<char>, b: Seq<char>, c: Seq<char>)
    requires
        connected(rows, a, b),
        adjacent(rows, b, c),
    ensures
        connected(rows, a, c),
{
    let step = seq![b, c];
    assert(walks(rows, step));
    assert(connected(rows, b, c));
    lemma_connected_transitive(rows, a, b, c);
}

/// A set of states that holds `a` and every state adjacent to one it holds
/// holds every state connected to `a`.
proof fn lemma_closed_holds_connected(
    rows: Seq<StateTransition>,
    held: spec_fn(Seq<char>) -> bool,
    a: Seq<char>,
    b: Seq<char>,
)
    requires
        held(a),
        forall|s: Seq<char>, n: Seq<char>| held(s) && #[trigger] adjacent(rows, s, n) ==> held(n),
        connected(rows, a, b),
    ensures
        held(b),
{
    let path = choose|path: Seq<Seq<char>>| #[trigger] walks(rows, path) && path[0] == a && path.last() == b;
    lemma_closed_holds_path(rows, held, path, path.len() - 1);
}

/// A closed set that holds the start of a path holds each of its states.
proof fn lemma_closed_holds_path(
    rows: Seq<StateTransition>,
    held: spec_fn(Seq<char>) -> bool,
    path: Seq<Seq<char>>,
    index: int,
)
    requires
        walks(rows, path),
        held(path[0]),
        forall|s: Seq<char>, n: Seq<char>| held(s) && #[trigger] adjacent(rows, s, n) ==> held(n),
        0 <= index < path.len(),
    ensures
        held(path[index]),
    decreases index,
{
    if index > 0 {
        lemma_closed_holds_path(rows, held, path, index - 1);
        assert(adjacent(rows, path[index - 1], path[index]));
    }
}

/// A state that some row names as its source or target.
pub open spec fn named_state(rows: Seq<StateTransition>, state: Seq<char>) -> bool {
    exists|r: int|
        0 <= r < rows.len() && ((#[trigger] rows[r]).in_state.ident@ == state || rows[r].out_state.ident@
            == state)
}

/// A state connected to a named state is a named state.
proof fn lemma_connected_named(rows: Seq<StateTransition>, a: Seq<char>, b: Seq<char>)
    requires
        named_state(rows, a),
        connected(rows, a, b),
    ensures
        named_state(rows, b),
{
    let path = choose|path: Seq<Seq<char>>| #[trigger] walks(rows, path) && path[0] == a && path.last() == b;
    if path.len() > 1 {
        let last = path.len() - 2;
        assert(adjacent(rows, path[last], path[last + 1]));
        let r = choose|r: int| 0 <= r < rows.len() && #[trigger] joins(rows[r], path[last], path[last + 1]);
        assert(path[last + 1] == b);
    }
}

/// Distinct named states are at most twice as many as the rows.
proof fn lemma_named_bound(rows: Seq<StateTransition>, names: Seq<Seq<char>>)
    requires
        names.no_duplicates(),
        forall|k: int| 0 <= k < names.len() ==> named_state(rows, #[trigger] names[k]),
    ensures
        names.len() <= 2 * rows.len(),
{
    let sources = rows.map_values(|row: StateTransition| row.in_state.ident@);
    let targets = rows.map_values(|row: StateTransition| row.out_state.ident@);
    let candidates = sources + targets;
    assert forall|x: Seq<char>| names.to_set().contains(x) implies candidates.to_set().contains(x) by {
        let k = choose|k: int| 0 <= k < names.len() && names[k] == x;
        assert(named_state(rows, names[k]));
        let r = choose|r: int|
            0 <= r < rows.len() && ((#[trigger] rows[r]).in_state.ident@ == x || rows[r].out_state.ident@
                == x);
        if rows[r].in_state.ident@ == x {
            assert(candidates[r] == x);
        } else {
            assert(candidates[rows.len() + r] == x);
        }
    }
    names.unique_seq_to_set();
    candidates.lemma_cardinality_of_set();
    vstd::set_lib::lemma_len_subset(names.to_set(), candidates.to_set());
}

/// The texts of strings.
pub open spec fn names_of(texts: Seq<String>) -> Seq<Seq<char>> {
    texts.map_values(|text: String| text@)
}

/// `state` is claimed by the region at `index`.
pub open spec fn owned(owners: Seq<(String, usize)>, state: Seq<char>, index: int) -> bool {
    exists|k: int| 0 <= k < owners.len() && (#[trigger] owners[k]).0@ == state && owners[k].1 == index
}

/// `state` is claimed by some region.
pub open spec fn claimed(owners: Seq<(String, usize)>, state: Seq<char>) -> bool {
    exists|k: int| 0 <= k < owners.len() && (#[trigger] owners[k]).0@ == state
}

/// No state is claimed twice.
pub open spec fn owners_distinct(owners: Seq<(String, usize)>) -> bool {
    forall|k: int, m: int| 0 <= k < m < owners.len() ==> (#[trigger] owners[k]).0@ != (#[trigger] owners[m]).0@
}

/// The states claimed, in order.
pub open spec fn owner_names(owners: Seq<(String, usize)>) -> Seq<Seq<char>> {
    owners.map_values(|owner: (String, usize)| owner.0@)
}

/// A region of an orthogonal machine: its start state and the states
/// connected to it.
#[derive(Debug)]
pub struct Region {
    /// The start state.
    pub initial: String,
    /// The states of the region, each once, the start state first.
    pub states: Vec<String>,
}

/// Why the start states of a machine do not split it into regions.
#[derive(Debug, PartialEq, Eq)]
pub enum RegionError {
    /// The region of the start state at `region` reaches `state`, which an
    /// earlier region holds.
    Overlap { region: usize, state: String },
    /// `state` is connected to no start state.
    Unconnected { state: String },
}

/// The region that claims `state`, if any.
fn find_owner(owners: &Vec<(String, usize)>, state: &String) -> (found: Option<usize>)
    ensures
        found matches Some(index) ==> owned(owners@, state@, index as int),
        found is None ==> !claimed(owners@, state@),
{
    let mut k: usize = 0;
    while k < owners.len()
        invariant
            k <= owners@.len(),
            forall|m: int| 0 <= m < k ==> (#[trigger] owners@[m]).0@ != state@,
        decreases owners@.len() - k,
    {
        if owners[k].0 == *state {
            assert(owners@[k as int].0@ == state@);
            return Some(owners[k].1);
        }
        k = k + 1;
    }
    None
}

/// Whether a row links its source and its target.
fn row_links(row: &StateTransition) -> (linked: bool)
    ensures
        linked == links(*row),
{
    !row.in_state.wildcard && !row.internal_transition && !(row.out_state.ident == String::from_str("X"))
}

/// Adds to `worklist` every state adjacent to `state`.
fn push_neighbors(rows: &Vec<StateTransition>, state: &String, worklist: &mut Vec<String>)
    ensures
        final(worklist)@.len() >= old(worklist)@.len(),
        forall|k: int| 0 <= k < old(worklist)@.len() ==> final(worklist)@[k] == old(worklist)@[k],
        forall|k: int|
            old(worklist)@.len() <= k < final(worklist)@.len() ==> adjacent(
                rows@,
                state@,
                #[trigger] final(worklist)@[k]@,
            ),
        forall|n: Seq<char>| adjacent(rows@, state@, n) ==> names_of(final(worklist)@).contains(n),
{
    let ghost start = worklist@;
    let mut r: usize = 0;
    while r < rows.len()
        invariant
            r <= rows@.len(),
            worklist@.len() >= start.len(),
            forall|k: int| 0 <= k < start.len() ==> worklist@[k] == start[k],
            forall|k: int|
                start.len() <= k < worklist@.len() ==> adjacent(rows@, state@, #[trigger] worklist@[k]@),
            forall|q: int, n: Seq<char>|
                0 <= q < r && #[trigger] joins(rows@[q], state@, n) ==> names_of(worklist@).contains(n),
        decreases rows@.len() - r,
    {
        let row = &rows[r];
        if row_links(row) {
            let ghost before = worklist@;
            if row.in_state.ident == *state {
                worklist.push(row.out_state.ident.clone());
                proof {
                    assert(joins(rows@[r as int], state@, row.out_state.ident@));
                    assert(names_of(worklist@)[worklist@.len() - 1] == row.out_state.ident@);
                }
            }
            if row.out_state.ident == *state {
                worklist.push(row.in_state.ident.clone());
                proof {
                    assert(joins(rows@[r as int], state@, row.in_state.ident@));
                    assert(names_of(worklist@)[worklist@.len() - 1] == row.in_state.ident@);
                }
            }
            proof {
                assert forall|q: int, n: Seq<char>|
                    0 <= q < r + 1 && #[trigger] joins(rows@[q], state@, n) implies names_of(worklist@).contains(n) by {
                    if q < r {
                        assert(names_of(before).contains(n));
                        let k = choose|k: int| 0 <= k < names_of(before).len() && names_of(before)[k] == n;
                        assert(names_of(worklist@)[k] == n);
                    } else {
                        if row.in_state.ident@ == state@ && row.out_state.ident@ == n {
                        } else {
                            assert(row.out_state.ident@ == state@ && row.in_state.ident@ == n);
                        }
                    }
                }
            }
        }
        r = r + 1;
    }
}

/// The start states of the rows marked `*`, in order.
fn start_states(rows: &Vec<StateTransition>) -> (starts: Vec<String>)
    ensures
        names_of(starts@) == initials(rows@),
{
    let mut starts: Vec<String> = Vec::new();
    let mut r: usize = 0;
    while r < rows.len()
        invariant
            r <= rows@.len(),
            names_of(starts@) == initials(rows@.take(r as int)),
        decreases rows@.len() - r,
    {
        let ghost before = starts@;
        if rows[r].in_state.start {
            starts.push(rows[r].in_state.ident.clone());
        }
        proof {
            let next = rows@.take(r + 1);
            assert(next.drop_last() =~= rows@.take(r as int));
            assert(next.last() == rows@[r as int]);
            assert(names_of(starts@) =~= initials(next));
        }
        r = r + 1;
    }
    assert(rows@.take(r as int) =~= rows@);
    starts
}

/// Claims for the region at `index` the states connected to `start`, unless
/// one of them is claimed by another region, which it then returns.
#[verifier::rlimit(60)]
fn explore_region(
    rows: &Vec<StateTransition>,
    start: &String,
    index: usize,
    owners: &mut Vec<(String, usize)>,
) -> (result: Result<Vec<String>, (String, usize)>)
    requires
        owners_distinct(old(owners)@),
        forall|k: int| 0 <= k < old(owners)@.len() ==> (#[trigger] old(owners)@[k]).1 < index,
        forall|k: int| 0 <= k < old(owners)@.len() ==> named_state(rows@, (#[trigger] old(owners)@[k]).0@),
        named_state(rows@, start@),
    ensures
        result matches Ok(states) ==> {
            &&& owners_distinct(final(owners)@)
            &&& forall|k: int| 0 <= k < final(owners)@.len() ==> (#[trigger] final(owners)@[k]).1 <= index
            &&& forall|k: int|
                0 <= k < final(owners)@.len() ==> named_state(rows@, (#[trigger] final(owners)@[k]).0@)
            &&& forall|s: Seq<char>| owned(final(owners)@, s, index as int) <==> connected(rows@, start@, s)
            &&& forall|s: Seq<char>, j: int|
                j != index ==> (owned(final(owners)@, s, j) <==> owned(old(owners)@, s, j))
            &&& names_of(states@).no_duplicates()
            &&& forall|s: Seq<char>| names_of(states@).contains(s) <==> owned(final(owners)@, s, index as int)
        },
        result matches Err((state, owner)) ==> connected(rows@, start@, state@) && owner != index
            && owned(old(owners)@, state@, owner as int),
{
    let ghost before = owners@;
    let mut worklist: Vec<String> = Vec::new();
    worklist.push(start.clone());
    let mut states: Vec<String> = Vec::new();
    proof {
        lemma_connected_self(rows@, start@);
        assert(names_of(worklist@)[0] == start@);
    }
    while worklist.len() > 0
        invariant
            before == old(owners)@,
            owners_distinct(owners@),
            owners@.len() >= before.len(),
            forall|k: int| 0 <= k < before.len() ==> owners@[k] == before[k],
            forall|k: int| before.len() <= k < owners@.len() ==> (#[trigger] owners@[k]).1 == index,
            forall|k: int| 0 <= k < before.len() ==> (#[trigger] before[k]).1 < index,
            forall|k: int| 0 <= k < owners@.len() ==> named_state(rows@, (#[trigger] owners@[k]).0@),
            named_state(rows@, start@),
            forall|s: Seq<char>| owned(owners@, s, index as int) ==> connected(rows@, start@, s),
            forall|k: int| 0 <= k < worklist@.len() ==> connected(rows@, start@, (#[trigger] worklist@[k])@),
            forall|s: Seq<char>, n: Seq<char>|
                owned(owners@, s, index as int) && #[trigger] adjacent(rows@, s, n) ==> owned(
                    owners@,
                    n,
                    index as int,
                ) || names_of(worklist@).contains(n),
            owned(owners@, start@, index as int) || names_of(worklist@).contains(start@),
            names_of(states@).no_duplicates(),
            forall|s: Seq<char>| names_of(states@).contains(s) <==> owned(owners@, s, index as int),
        decreases 2 * rows@.len() - owners@.len(), worklist@.len(),
    {
        proof {
            lemma_named_bound(rows@, owner_names(owners@));
        }
        let ghost old_list = worklist@;
        let state = worklist.pop().unwrap();
        proof {
            assert(state == old_list[old_list.len() - 1]);
            assert(worklist@ =~= old_list.drop_last());
            assert forall|n: Seq<char>| names_of(old_list).contains(n) && n != state@ implies names_of(
                worklist@,
            ).contains(n) by {
                let k = choose|k: int| 0 <= k < names_of(old_list).len() && names_of(old_list)[k] == n;
                assert(k != old_list.len() - 1);
                assert(names_of(worklist@)[k] == n);
            }
        }
        match find_owner(owners, &state) {
            Some(owner) => {
                if owner != index {
                    proof {
                        let k = choose|k: int|
                            0 <= k < owners@.len() && (#[trigger] owners@[k]).0@ == state@ && owners@[k].1
                                == owner;
                        assert(k < before.len());
                        assert(owners@[k] == before[k]);
                        assert(owned(before, state@, owner as int));
                        assert(connected(rows@, start@, old_list[old_list.len() - 1]@));
                        assert(connected(rows@, start@, state@));
                        assert(owned(old(owners)@, state@, owner as int));
                    }
                    return Err((state, owner));
                }
            },
            None => {
                let ghost old_owners = owners@;
                let ghost old_states = states@;
                proof {
                    lemma_connected_named(rows@, start@, state@);
                    assert(owner_names(old_owners).no_duplicates());
                    assert(owner_names(old_owners.push((state, index))).no_duplicates()) by {
                        let names = owner_names(old_owners.push((state, index)));
                        assert forall|k: int, m: int| 0 <= k < m < names.len() implies names[k] != names[m] by {
                            if m == names.len() - 1 {
                                assert(old_owners[k].0@ != state@);
                            } else {
                                assert(old_owners[k].0@ != old_owners[m].0@);
                            }
                        }
                    }
                    assert forall|k: int| 0 <= k < owner_names(old_owners.push((state, index))).len() implies named_state(
                        rows@,
                        #[trigger] owner_names(old_owners.push((state, index)))[k],
                    ) by {
                        if k < old_owners.len() {
                            assert(named_state(rows@, old_owners[k].0@));
                        }
                    }
                    lemma_named_bound(rows@, owner_names(old_owners.push((state, index))));
                }
                owners.push((state.clone(), index));
                states.push(state.clone());
                let ghost list_before = worklist@;
                push_neighbors(rows, &state, &mut worklist);
                proof {
                    assert forall|s: Seq<char>, j: int|
                        owned(old_owners, s, j) implies owned(owners@, s, j) by {
                        let k = choose|k: int| 0 <= k < old_owners.len() && (#[trigger] old_owners[k]).0@ == s && old_owners[k].1 == j;
                        assert(owners@[k] == old_owners[k]);
                    }
                    let last = owners@.len() - 1;
                    assert(owners@[last].0@ == state@ && owners@[last].1 == index);
                    assert(owned(owners@, state@, index as int));
                    assert forall|s: Seq<char>| owned(owners@, s, index as int) implies connected(rows@, start@, s) by {
                        let k = choose|k: int| 0 <= k < owners@.len() && (#[trigger] owners@[k]).0@ == s && owners@[k].1 == index;
                        if k < last {
                            assert(owned(old_owners, s, index as int));
                        }
                    }
                    assert forall|k: int| 0 <= k < worklist@.len() implies connected(rows@, start@, (#[trigger] worklist@[k])@) by {
                        if k < list_before.len() {
                            assert(worklist@[k] == list_before[k]);
                        } else {
                            lemma_connected_step(rows@, start@, state@, worklist@[k]@);
                        }
                    }
                    assert forall|n: Seq<char>| names_of(list_before).contains(n) implies names_of(worklist@).contains(n) by {
                        let k = choose|k: int| 0 <= k < names_of(list_before).len() && names_of(list_before)[k] == n;
                        assert(names_of(worklist@)[k] == n);
                    }
                    assert forall|s: Seq<char>, n: Seq<char>|
                        owned(owners@, s, index as int) && #[trigger] adjacent(rows@, s, n) implies owned(
                            owners@,
                            n,
                            index as int,
                        ) || names_of(worklist@).contains(n) by {
                        if s == state@ {
                        } else {
                            let k = choose|k: int| 0 <= k < owners@.len() && (#[trigger] owners@[k]).0@ == s && owners@[k].1 == index;
                            assert(k != last);
                            assert(owned(old_owners, s, index as int));
                            if !owned(old_owners, n, index as int) {
                                assert(names_of(old_list).contains(n));
                                if n != state@ {
                                    assert(names_of(list_before).contains(n));
                                }
                            }
                        }
                    }
                    assert(names_of(states@) =~= names_of(old_states).push(state@));
                    assert(names_of(states@).no_duplicates()) by {
                        assert(!names_of(old_states).contains(state@));
                        let names = names_of(states@);
                        assert forall|k: int, m: int| 0 <= k < m < names.len() implies names[k] != names[m] by {
                            if m == names.len() - 1 {
                                assert(names[k] == names_of(old_states)[k]);
                                assert(names_of(old_states).contains(names[k]));
                            } else {
                                assert(names[k] == names_of(old_states)[k]);
                                assert(names[m] == names_of(old_states)[m]);
                            }
                        }
                    }
                    assert forall|s: Seq<char>| names_of(states@).contains(s) <==> owned(owners@, s, index as int) by {
                        if names_of(states@).contains(s) {
                            let k = choose|k: int| 0 <= k < names_of(states@).len() && names_of(states@)[k] == s;
                            if k < old_states.len() {
                                assert(names_of(old_states)[k] == s);
                                assert(names_of(old_states).contains(s));
                            }
                        }
                        if owned(owners@, s, index as int) {
                            let k = choose|k: int| 0 <= k < owners@.len() && (#[trigger] owners@[k]).0@ == s && owners@[k].1 == index;
                            if k < last {
                                assert(owned(old_owners, s, index as int));
                                assert(names_of(old_states).contains(s));
                                let m = choose|m: int| 0 <= m < names_of(old_states).len() && names_of(old_states)[m] == s;
                                assert(names_of(states@)[m] == s);
                            } else {
                                assert(names_of(states@)[names_of(states@).len() - 1] == s);
                            }
                        }
                    }
                    assert(owners_distinct(owners@)) by {
                        assert forall|k: int, m: int| 0 <= k < m < owners@.len() implies (#[trigger] owners@[k]).0@ != (#[trigger] owners@[m]).0@ by {
                            if m == last {
                                assert(owners@[k] == old_owners[k]);
                            } else {
                                assert(owners@[k] == old_owners[k]);
                                assert(owners@[m] == old_owners[m]);
                            }
                        }
                    }
                    assert forall|k: int| 0 <= k < owners@.len() implies named_state(rows@, (#[trigger] owners@[k]).0@) by {
                        if k < last {
                            assert(owners@[k] == old_owners[k]);
                        }
                    }
                }
            },
        }
    }
    proof {
        let held = |s: Seq<char>| owned(owners@, s, index as int);
        assert forall|s: Seq<char>, n: Seq<char>| held(s) && #[trigger] adjacent(rows@, s, n) implies held(n) by {
            assert(!names_of(worklist@).contains(n));
        }
        assert(held(start@));
        assert forall|s: Seq<char>| connected(rows@, start@, s) implies owned(owners@, s, index as int) by {
            lemma_closed_holds_connected(rows@, held, start@, s);
        }
        assert forall|s: Seq<char>, j: int|
            j != index implies (owned(owners@, s, j) <==> owned(before, s, j)) by {
            if owned(owners@, s, j) {
                let k = choose|k: int| 0 <= k < owners@.len() && (#[trigger] owners@[k]).0@ == s && owners@[k].1 == j;
                assert(k < before.len());
                assert(owners@[k] == before[k]);
            }
            if owned(before, s, j) {
                let k = choose|k: int| 0 <= k < before.len() && (#[trigger] before[k]).0@ == s && before[k].1 == j;
                assert(owners@[k] == before[k]);
            }
        }
        assert forall|k: int| 0 <= k < owners@.len() implies (#[trigger] owners@[k]).1 <= index by {
            if k < before.len() {
                assert(owners@[k] == before[k]);
            }
        }
    }
    Ok(states)
}

/// What the regions of a machine's rows are: an overlap at the first start
/// state connected to an earlier one, else a state connected to no start
/// state, else for each start state the states connected to it.
pub open spec fn regions_found(rows: Seq<StateTransition>, result: Result<Vec<Region>, RegionError>) -> bool {
    let starts = initials(rows);
    let first = first_overlap(rows);
    match result {
        Err(RegionError::Overlap { region, state }) => {
            &&& first < starts.len()
            &&& region == first
            &&& connected(rows, starts[first], state@)
            &&& exists|j: int| 0 <= j < first && connected(rows, #[trigger] starts[j], state@)
        },
        Err(RegionError::Unconnected { state }) => {
            &&& first == starts.len()
            &&& region_state(rows, state@)
            &&& !covered(rows, state@)
        },
        Ok(regions) => {
            &&& first == starts.len()
            &&& forall|s: Seq<char>| region_state(rows, s) ==> covered(rows, s)
            &&& regions@.len() == starts.len()
            &&& forall|i: int|
                0 <= i < regions@.len() ==> {
                    &&& (#[trigger] regions@[i]).initial@ == starts[i]
                    &&& names_of(regions@[i].states@).no_duplicates()
                    &&& forall|s: Seq<char>| names_of(regions@[i].states@).contains(s) <==> connected(rows, starts[i], s)
                }
        },
    }
}

/// Splits a machine with several start states into its regions: each start
/// state, in order, takes the states connected to it by the rows, read in
/// both directions; regions must not share a state and every state must
/// belong to one.
pub fn discover_regions(machine: &StateMachine) -> (result: Result<Vec<Region>, RegionError>)
    ensures
        regions_found(machine.transitions@, result),
{
    let rows = &machine.transitions;
    let ghost all = rows@;
    let starts = start_states(rows);
    let ghost initial = initials(all);
    let mut owners: Vec<(String, usize)> = Vec::new();
    let mut regions: Vec<Region> = Vec::new();
    let mut index: usize = 0;
    while index < starts.len()
        invariant
            all == rows@,
            all == machine.transitions@,
            names_of(starts@) == initial,
            initial == initials(all),
            index <= starts@.len(),
            owners_distinct(owners@),
            forall|k: int| 0 <= k < owners@.len() ==> (#[trigger] owners@[k]).1 < index,
            forall|k: int| 0 <= k < owners@.len() ==> named_state(all, (#[trigger] owners@[k]).0@),
            forall|j: int, s: Seq<char>|
                #![trigger owned(owners@, s, j)]
                #![trigger connected(all, initial[j], s)]
                0 <= j < index ==> (owned(owners@, s, j) <==> connected(all, initial[j], s)),
            forall|j: int| 0 <= j < index ==> !#[trigger] overlap_at(all)(j),
            regions@.len() == index,
            forall|i: int|
                0 <= i < index ==> {
                    &&& (#[trigger] regions@[i]).initial@ == initial[i]
                    &&& names_of(regions@[i].states@).no_duplicates()
                    &&& forall|s: Seq<char>| names_of(regions@[i].states@).contains(s) <==> connected(all, initial[i], s)
                },
        decreases starts@.len() - index,
    {
        let start = &starts[index];
        let ghost start_view = initial[index as int];
        assert(start@ == start_view);
        proof {
            assert(named_state(all, start_view)) by {
                lemma_initial_named(all, index as int);
            }
        }
        let ghost before = owners@;
        match explore_region(rows, start, index, &mut owners) {
            Ok(states) => {
                proof {
                    assert(!overlap_at(all)(index as int)) by {
                        if overlaps(all, index as int) {
                            let j = choose|j: int| 0 <= j < index && connected(all, initial[j], #[trigger] initial[index as int]);
                            assert(owned(before, start_view, j));
                            lemma_connected_self(all, start_view);
                            assert(owned(owners@, start_view, index as int));
                            assert(owned(owners@, start_view, j));
                            let k1 = choose|k: int| 0 <= k < owners@.len() && (#[trigger] owners@[k]).0@ == start_view && owners@[k].1 == j;
                            let k2 = choose|k: int| 0 <= k < owners@.len() && (#[trigger] owners@[k]).0@ == start_view && owners@[k].1 == index;
                            assert(k1 != k2);
                        }
                    }
                    assert forall|j: int, s: Seq<char>|
                        #![trigger owned(owners@, s, j)]
                        #![trigger connected(all, initial[j], s)]
                        0 <= j < index + 1 implies (owned(owners@, s, j) <==> connected(all, initial[j], s)) by {
                        if j < index {
                            assert(owned(owners@, s, j) <==> owned(before, s, j));
                        }
                    }
                }
                regions.push(Region { initial: start.clone(), states });
            },
            Err((state, owner)) => {
                proof {
                    assert(owner < index);
                    assert(connected(all, initial[owner as int], state@));
                    lemma_connected_symmetric(all, start_view, state@);
                    lemma_connected_transitive(all, initial[owner as int], state@, start_view);
                    assert(overlaps(all, index as int));
                    lemma_first_where_is(0, initial.len() as int, overlap_at(all), index as int);
                }
                return Err(RegionError::Overlap { region: index, state });
            },
        }
        index = index + 1;
    }
    proof {
        lemma_first_where_is(0, initial.len() as int, overlap_at(all), initial.len() as int);
    }
    let mut r: usize = 0;
    while r < rows.len()
        invariant
            all == rows@,
            all == machine.transitions@,
            initial == initials(all),
            first_overlap(all) == initial.len(),
            r <= all.len(),
            forall|j: int, s: Seq<char>|
                #![trigger owned(owners@, s, j)]
                #![trigger connected(all, initial[j], s)]
                0 <= j < initial.len() ==> (owned(owners@, s, j) <==> connected(all, initial[j], s)),
            forall|k: int| 0 <= k < owners@.len() ==> (#[trigger] owners@[k]).1 < initial.len(),
            forall|q: int|
                0 <= q < r ==> (!(#[trigger] all[q]).in_state.wildcard ==> claimed(owners@, all[q].in_state.ident@))
                    && (links(all[q]) ==> claimed(owners@, all[q].out_state.ident@)),
        decreases all.len() - r,
    {
        let row = &rows[r];
        if !row.in_state.wildcard && find_owner(&owners, &row.in_state.ident).is_none() {
            proof {
                lemma_unclaimed_uncovered(all, owners@, row.in_state.ident@);
                assert(all[r as int] == *row);
                assert(region_state(all, row.in_state.ident@));
            }
            return Err(RegionError::Unconnected { state: row.in_state.ident.clone() });
        }
        if row_links(row) && find_owner(&owners, &row.out_state.ident).is_none() {
            proof {
                lemma_unclaimed_uncovered(all, owners@, row.out_state.ident@);
                assert(all[r as int] == *row);
                assert(region_state(all, row.out_state.ident@));
            }
            return Err(RegionError::Unconnected { state: row.out_state.ident.clone() });
        }
        r = r + 1;
    }
    proof {
        assert forall|s: Seq<char>| region_state(all, s) implies covered(all, s) by {
            let q = choose|q: int|
                0 <= q < all.len() && ((!(#[trigger] all[q]).in_state.wildcard && all[q].in_state.ident@ == s)
                    || (links(all[q]) && all[q].out_state.ident@ == s));
            assert(claimed(owners@, s));
            let k = choose|k: int| 0 <= k < owners@.len() && (#[trigger] owners@[k]).0@ == s;
            let j = owners@[k].1 as int;
            assert(owned(owners@, s, j));
            assert(connected(all, initial[j], s));
        }
    }
    Ok(regions)
}

/// A state that no region claims is connected to no start state.
proof fn lemma_unclaimed_uncovered(rows: Seq<StateTransition>, owners: Seq<(String, usize)>, state: Seq<char>)
    requires
        !claimed(owners, state),
        forall|j: int, s: Seq<char>|
            #![trigger owned(owners, s, j)]
            #![trigger connected(rows, initials(rows)[j], s)]
            0 <= j < initials(rows).len() ==> (owned(owners, s, j) <==> connected(rows, initials(rows)[j], s)),
    ensures
        !covered(rows, state),
{
    if covered(rows, state) {
        let i = choose|i: int| 0 <= i < initials(rows).len() && connected(rows, #[trigger] initials(rows)[i], state);
        assert(owned(owners, state, i));
    }
}

/// A start state is a named state.
proof fn lemma_initial_named(rows: Seq<StateTransition>, index: int)
    requires
        0 <= index < initials(rows).len(),
    ensures
        named_state(rows, initials(rows)[index]),
    decreases rows.len(),
{
    let before = initials(rows.drop_last());
    if rows.last().in_state.start && index == before.len() {
        assert(rows[rows.len() - 1] == rows.last());
    } else {
        lemma_initial_named(rows.drop_last(), index);
        let r = choose|r: int|
            0 <= r < rows.drop_last().len() && ((#[trigger] rows.drop_last()[r]).in_state.ident@ == before[index]
                || rows.drop_last()[r].out_state.ident@ == before[index]);
        assert(rows[r] == rows.drop_last()[r]);
    }
}

/// The regions of a machine split its states: every state belongs to
/// exactly one region.
pub proof fn law_regions_partition_states(
    rows: Seq<StateTransition>,
    regions: Vec<Region>,
    state: Seq<char>,
)
    requires
        regions_found(rows, Ok(regions)),
        region_state(rows, state),
    ensures
        exists|i: int| 0 <= i < regions@.len() && names_of((#[trigger] regions@[i]).states@).contains(state),
        forall|i: int, j: int|
            0 <= i < regions@.len() && 0 <= j < regions@.len() && names_of(
                (#[trigger] regions@[i]).states@,
            ).contains(state) && names_of((#[trigger] regions@[j]).states@).contains(state) ==> i == j,
{
    let starts = initials(rows);
    assert(covered(rows, state));
    let i = choose|i: int| 0 <= i < starts.len() && connected(rows, #[trigger] starts[i], state);
    assert(names_of(regions@[i].states@).contains(state));
    lemma_first_where(0, starts.len() as int, overlap_at(rows));
    assert forall|i: int, j: int|
        0 <= i < regions@.len() && 0 <= j < regions@.len() && names_of(
            (#[trigger] regions@[i]).states@,
        ).contains(state) && names_of((#[trigger] regions@[j]).states@).contains(state) implies i == j by {
        if i != j {
            let (low, high) = if i < j {
                (i, j)
            } else {
                (j, i)
            };
            assert(connected(rows, starts[low], state));
            assert(connected(rows, starts[high], state));
            lemma_connected_symmetric(rows, starts[high], state);
            lemma_connected_transitive(rows, starts[low], state, starts[high]);
            assert(overlaps(rows, high));
            assert(!overlap_at(rows)(high));
        }
    }
}

/// An anonymous completion row that names no target: one that stays in its
/// source state, which a region or a child machine cannot do.
pub open spec fn stays_on_completion(row: StateTransition) -> bool {
    row.event.kind == EventKind::Completion && row.internal_transition
}

/// The first row that stays in its source state on an anonymous completion,
/// or the row count.
pub open spec fn first_staying_completion(rows: Seq<StateTransition>) -> int {
    first_where(0, rows.len() as int, |r: int| stays_on_completion(rows[r]))
}

/// The first staying completion row is a row, or the count.
pub(crate) proof fn lemma_staying_completion_bounds(rows: Seq<StateTransition>)
    ensures
        0 <= first_staying_completion(rows) <= rows.len(),
{
    lemma_first_where(0, rows.len() as int, |r: int| stays_on_completion(rows[r]));
}

/// Checks that no completion row of a machine split into regions stays in
/// its source state; reports the first that does.
pub fn validate_supported(machine: &StateMachine) -> (result: Result<(), usize>)
    ensures
        ({
            let rows = machine.transitions@;
            let first = first_staying_completion(rows);
            &&& result is Ok <==> first == rows.len()
            &&& result matches Err(row) ==> row == first
        }),
{
    let ghost rows = machine.transitions@;
    let ghost holds = |r: int| stays_on_completion(rows[r]);
    let mut index: usize = 0;
    while index < machine.transitions.len()
        invariant
            rows == machine.transitions@,
            holds == (|r: int| stays_on_completion(rows[r])),
            index <= rows.len(),
            forall|r: int| 0 <= r < index ==> !#[trigger] holds(r),
        decreases rows.len() - index,
    {
        let row = &machine.transitions[index];
        let completion = match row.event.kind {
            EventKind::Completion => true,
            _ => false,
        };
        if completion && row.internal_transition {
            proof {
                lemma_first_where_is(0, rows.len() as int, holds, index as int);
            }
            return Err(index);
        }
        index = index + 1;
    }
    proof {
        lemma_first_where_is(0, rows.len() as int, holds, rows.len() as int);
    }
    Ok(())
}

/// Why a table with several start states cannot be split into regions.
#[derive(Debug, PartialEq, Eq)]
pub enum OrthogonalError {
    /// The table has no name.
    Unnamed,
    /// The completion row at `row` stays in its source state.
    StayingCompletion { row: usize },
    /// The start states do not split the table.
    Region(RegionError),
}

/// Checks a table with several start states and splits it into its
/// regions: it must be named, no completion row may stay put, and the start
/// states must split its states.
pub fn plan_orthogonal(machine: &StateMachine) -> (result: Result<Vec<Region>, OrthogonalError>)
    ensures
        ({
            let rows = machine.transitions@;
            let first = first_staying_completion(rows);
            if machine.name is None {
                result == Err::<Vec<Region>, OrthogonalError>(OrthogonalError::Unnamed)
            } else if first < rows.len() {
                result == Err::<Vec<Region>, OrthogonalError>(
                    OrthogonalError::StayingCompletion { row: first as usize },
                )
            } else {
                match result {
                    Ok(regions) => regions_found(rows, Ok(regions)),
                    Err(OrthogonalError::Region(error)) => regions_found(rows, Err(error)),
                    Err(_) => false,
                }
            }
        }),
{
    if machine.name.is_none() {
        return Err(OrthogonalError::Unnamed);
    }
    proof {
        lemma_staying_completion_bounds(machine.transitions@);
    }
    match validate_supported(machine) {
        Ok(()) => {},
        Err(row) => return Err(OrthogonalError::StayingCompletion { row }),
    }
    match discover_regions(machine) {
        Ok(regions) => Ok(regions),
        Err(error) => Err(OrthogonalError::Region(error)),
    }
}

} // verus!
