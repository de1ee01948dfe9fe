//! The typed event payloads a machine offers to event visitors: one entry
//! per payload type, named after the first event, in name order, that carries
//! it, and listed in the order of the types' text. The same table gives the
//! same list, whatever the order in which its rows are met.

use vstd::prelude::*;

use super::event::{is_query_event, spec_is_query_event, EventKind};
use super::text_order::{
    lemma_text_less_asymmetric, lemma_text_less_irreflexive, lemma_text_less_total,
    lemma_text_less_transitive, text_is_less, text_less,
};
use super::types::{
    insert_name, insert_names, law_inserted_names_are_distinct, lifetime_scan, DataType,
    Lifetimes, TypeShape,
};

verus! {

/// Every lifetime that a payload type names is `'static`, and it has no
/// reference without a lifetime.
pub open spec fn static_type(shape: TypeShape) -> bool {
    &&& !lifetime_scan(shape).1
    &&& forall|i: int|
        0 <= i < lifetime_scan(shape).0.len() ==> #[trigger] lifetime_scan(shape).0[i]
            == "'static"@
}

/// Inserting names records no name that it is not given.
proof fn lemma_insert_names_from(names: Seq<Seq<char>>, added: Seq<Seq<char>>, name: Seq<char>)
    requires
        insert_names(names, added).contains(name),
    ensures
        names.contains(name) || added.contains(name),
    decreases added.len(),
{
    if added.len() > 0 {
        let before = insert_names(names, added.drop_last());
        if before.contains(name) {
            lemma_insert_names_from(names, added.drop_last(), name);
            if added.drop_last().contains(name) {
                let j = choose|j: int| 0 <= j < added.drop_last().len() && added.drop_last()[j] == name;
                assert(added[j] == name);
            }
        } else {
            let last = added.last();
            assert(insert_name(before, last) == before.push(last));
            let j = choose|j: int| 0 <= j < before.push(last).len() && before.push(last)[j] == name;
            assert(j == before.len());
            assert(added[added.len() - 1] == name);
        }
    }
}

/// Whether a payload type names no lifetime but `'static`.
pub fn is_static_type(shape: &TypeShape) -> (is_static: bool)
    ensures
        is_static == static_type(*shape),
{
    let lifetimes = match Lifetimes::from_type(shape) {
        Ok(lifetimes) => lifetimes,
        Err(_) => {
            return false;
        },
    };
    let ghost scan = lifetime_scan(*shape).0;
    let names = lifetimes.as_slice();
    proof {
        law_inserted_names_are_distinct(Seq::empty(), scan);
    }
    let mut index: usize = 0;
    while index < names.len()
        invariant
            index <= names@.len(),
            names@.len() == lifetimes@.len(),
            forall|i: int| 0 <= i < names@.len() ==> #[trigger] names@[i]@ == lifetimes@[i],
            lifetimes@ == insert_names(Seq::empty(), scan),
            scan == lifetime_scan(*shape).0,
            forall|i: int| 0 <= i < index ==> #[trigger] lifetimes@[i] == "'static"@,
        decreases names@.len() - index,
    {
        if !(names[index] == String::from_str("'static")) {
            proof {
                let name = lifetimes@[index as int];
                assert(insert_names(Seq::empty(), scan).contains(name));
                lemma_insert_names_from(Seq::empty(), scan, name);
                let j = choose|j: int| 0 <= j < scan.len() && scan[j] == name;
                assert(scan[j] != "'static"@);
            }
            return false;
        }
        index = index + 1;
    }
    proof {
        assert forall|i: int| 0 <= i < scan.len() implies #[trigger] scan[i] == "'static"@ by {
            assert(insert_names(Seq::empty(), scan).contains(scan[i]));
            let j = choose|j: int|
                0 <= j < lifetimes@.len() && lifetimes@[j] == scan[i];
        }
    }
    true
}

/// The payload type offered to visitors for an event, and the event's name.
#[derive(Debug)]
pub struct EventSpec {
    /// The payload type.
    pub ty: DataType,
    /// The name of the event.
    pub name: String,
}

/// The typed payloads of a machine's events, in the order of their types'
/// text.
#[derive(Debug)]
pub struct EventSpecs {
    specs: Vec<EventSpec>,
}

/// `keys` are in strictly increasing text order.
pub open spec fn strictly_sorted(keys: Seq<Seq<char>>) -> bool {
    forall|i: int, j: int| 0 <= i < j < keys.len() ==> text_less(#[trigger] keys[i], #[trigger] keys[j])
}

/// The map of payloads after offering the event `name` with payload type
/// text `key`: a query event with a `'static` payload is recorded, and an
/// event already recorded for the type keeps its place unless `name` comes
/// before it.
pub open spec fn offered(
    specs: Map<Seq<char>, Seq<char>>,
    key: Seq<char>,
    name: Seq<char>,
    eligible: bool,
) -> Map<Seq<char>, Seq<char>> {
    if eligible && (!specs.dom().contains(key) || text_less(name, specs[key])) {
        specs.insert(key, name)
    } else {
        specs
    }
}

impl EventSpecs {
    /// The type texts, in order.
    pub closed spec fn keys(&self) -> Seq<Seq<char>> {
        self.specs@.map_values(|spec: EventSpec| spec.ty.text@)
    }

    /// The event name recorded for each payload type text.
    pub closed spec fn view(&self) -> Map<Seq<char>, Seq<char>> {
        Map::new(
            |key: Seq<char>| self.keys().contains(key),
            |key: Seq<char>| self.specs@[self.keys().index_of(key)].name@,
        )
    }

    /// The entries are ordered by type text, each type once.
    pub closed spec fn wf(&self) -> bool {
        strictly_sorted(self.keys())
    }

    /// An empty collection.
    pub fn new() -> (specs: EventSpecs)
        ensures
            specs.wf(),
            specs@ == Map::<Seq<char>, Seq<char>>::empty(),
            specs.keys() == Seq::<Seq<char>>::empty(),
    {
        let specs = EventSpecs { specs: Vec::new() };
        assert(specs.keys() =~= Seq::<Seq<char>>::empty());
        assert(specs@ =~= Map::<Seq<char>, Seq<char>>::empty());
        specs
    }

    /// The number of payload types.
    pub fn len(&self) -> (count: usize)
        ensures
            count == self.keys().len(),
    {
        self.specs.len()
    }

    /// Whether no payload type is recorded.
    pub fn is_empty(&self) -> (empty: bool)
        requires
            self.wf(),
        ensures
            empty <==> self@ == Map::<Seq<char>, Seq<char>>::empty(),
    {
        proof {
            if self.keys().len() > 0 {
                assert(self@.dom().contains(self.keys()[0]));
            }
            if self.keys().len() == 0 {
                assert(self@ =~= Map::<Seq<char>, Seq<char>>::empty());
            }
        }
        self.specs.len() == 0
    }

    /// The keys hold the map's domain.
    pub proof fn lemma_keys(&self)
        requires
            self.wf(),
        ensures
            self.keys().no_duplicates(),
            self.keys().to_set() == self@.dom(),
            forall|i: int| 0 <= i < self.keys().len() ==> self.keys().index_of(#[trigger] self.keys()[i]) == i,
    {
        let keys = self.keys();
        assert forall|i: int, j: int| 0 <= i < j < keys.len() implies keys[i] != keys[j] by {
            assert(text_less(keys[i], keys[j]));
            lemma_text_less_irreflexive(keys[i]);
        }
        assert(keys.to_set() =~= self@.dom());
        assert forall|i: int| 0 <= i < keys.len() implies keys.index_of(#[trigger] keys[i]) == i by {
            let found = keys.index_of(keys[i]);
            assert(keys.contains(keys[i]));
        }
    }

    /// The event names, in the order of their payload types' text.
    pub fn names(&self) -> (names: Vec<String>)
        requires
            self.wf(),
        ensures
            names@.len() == self.keys().len(),
            forall|i: int| 0 <= i < names@.len() ==> #[trigger] names@[i]@ == self@[self.keys()[i]],
    {
        proof {
            self.lemma_keys();
        }
        let mut names: Vec<String> = Vec::new();
        let mut index: usize = 0;
        while index < self.specs.len()
            invariant
                index <= self.specs@.len(),
                names@.len() == index,
                self.keys().len() == self.specs@.len(),
                forall|i: int| 0 <= i < self.keys().len() ==> self.keys().index_of(#[trigger] self.keys()[i]) == i,
                forall|i: int| 0 <= i < index ==> #[trigger] names@[i]@ == self@[self.keys()[i]],
            decreases self.specs@.len() - index,
        {
            names.push(self.specs[index].name.clone());
            proof {
                assert(self.keys()[index as int] == self.specs@[index as int].ty.text@);
                assert(self.keys().contains(self.keys()[index as int]));
            }
            index = index + 1;
        }
        names
    }

    /// The payload types, in the order of their text.
    pub fn types(&self) -> (types: Vec<&DataType>)
        ensures
            types@.len() == self.keys().len(),
            forall|i: int| 0 <= i < types@.len() ==> #[trigger] types@[i].text@ == self.keys()[i],
    {
        let mut types: Vec<&DataType> = Vec::new();
        let mut index: usize = 0;
        while index < self.specs.len()
            invariant
                index <= self.specs@.len(),
                types@.len() == index,
                self.keys().len() == self.specs@.len(),
                forall|i: int| 0 <= i < index ==> #[trigger] types@[i].text@ == self.keys()[i],
            decreases self.specs@.len() - index,
        {
            types.push(&self.specs[index].ty);
            index = index + 1;
        }
        types
    }
}

/// The entry of `specs` at `index` is what the map holds for its key.
proof fn lemma_entry(specs: &EventSpecs, index: int)
    requires
        specs.wf(),
        0 <= index < specs.keys().len(),
    ensures
        specs@.dom().contains(specs.keys()[index]),
        specs@[specs.keys()[index]] == specs.specs@[index].name@,
        specs.keys()[index] == specs.specs@[index].ty.text@,
{
    specs.lemma_keys();
    assert(specs.keys().contains(specs.keys()[index]));
}

/// Offers the event `ident` and its payload type to the visitor table: a
/// query event with a `'static` payload type is recorded under the type's
/// text, unless an event whose name comes first is already recorded there.
pub fn add_spec(
    specs: &mut EventSpecs,
    ident: &String,
    kind: EventKind,
    wildcard: bool,
    ty: Option<&DataType>,
)
    requires
        old(specs).wf(),
    ensures
        final(specs).wf(),
        final(specs)@ == match ty {
            Some(ty) => offered(
                old(specs)@,
                ty.text@,
                ident@,
                spec_is_query_event(kind, wildcard) && static_type(ty.shape),
            ),
            None => old(specs)@,
        },
{
    if !is_query_event(kind, wildcard) {
        return;
    }
    let ty = match ty {
        Some(ty) => ty,
        None => {
            return;
        },
    };
    if !is_static_type(&ty.shape) {
        return;
    }
    let ghost before = *specs;
    let ghost key = ty.text@;
    proof {
        before.lemma_keys();
    }
    let mut index: usize = 0;
    while index < specs.specs.len() && text_is_less(specs.specs[index].ty.text.as_str(), ty.text.as_str())
        invariant
            *specs == before,
            key == ty.text@,
            index <= specs.specs@.len(),
            specs.keys().len() == specs.specs@.len(),
            forall|j: int| 0 <= j < index ==> text_less(#[trigger] specs.keys()[j], key),
        decreases specs.specs@.len() - index,
    {
        assert(specs.keys()[index as int] == specs.specs@[index as int].ty.text@);
        index = index + 1;
    }
    let ghost keys = before.keys();
    let ghost view = before@;
    if index < specs.specs.len() && specs.specs[index].ty.text == ty.text {
        proof {
            lemma_entry(&before, index as int);
        }
        if !text_is_less(ident.as_str(), specs.specs[index].name.as_str()) {
            return;
        }
        let entry = EventSpec { ty: ty.duplicate(), name: ident.clone() };
        specs.specs.set(index, entry);
        proof {
            assert(specs.keys() =~= keys);
            specs.lemma_keys();
            assert forall|k: Seq<char>| #[trigger] specs@.dom().contains(k) == view.insert(key, ident@).dom().contains(k) by {}
            assert forall|k: Seq<char>| specs@.dom().contains(k) implies #[trigger] specs@[k] == view.insert(key, ident@)[k] by {
                let j = keys.index_of(k);
                assert(keys.contains(k));
                lemma_entry(&before, j);
                if j != index {
                    assert(k != key);
                }
            }
            assert(specs@ =~= view.insert(key, ident@));
        }
        return;
    }
    proof {
        if index < keys.len() {
            assert(keys[index as int] != key);
            lemma_text_less_total(keys[index as int], key);
        }
        assert(!keys.contains(key)) by {
            if keys.contains(key) {
                let j = keys.index_of(key);
                if j < index {
                    lemma_text_less_irreflexive(key);
                } else if j > index {
                    assert(text_less(keys[index as int], keys[j]));
                    lemma_text_less_asymmetric(key, keys[index as int]);
                }
            }
        }
    }
    let entry = EventSpec { ty: ty.duplicate(), name: ident.clone() };
    specs.specs.insert(index, entry);
    proof {
        let new_keys = specs.keys();
        assert(new_keys =~= keys.insert(index as int, key));
        assert forall|i: int, j: int| 0 <= i < j < new_keys.len() implies text_less(
            #[trigger] new_keys[i],
            #[trigger] new_keys[j],
        ) by {
            if j < index {
            } else if j == index {
            } else if i < index {
                assert(text_less(keys[i], key));
                if index < keys.len() {
                    assert(text_less(key, keys[index as int]));
                    if j - 1 > index {
                        assert(text_less(keys[index as int], keys[j - 1]));
                        lemma_text_less_transitive(key, keys[index as int], keys[j - 1]);
                    }
                    lemma_text_less_transitive(keys[i], key, keys[j - 1]);
                }
            } else if i == index {
                assert(text_less(key, keys[index as int]));
                if j - 1 > index {
                    assert(text_less(keys[index as int], keys[j - 1]));
                    lemma_text_less_transitive(key, keys[index as int], keys[j - 1]);
                }
            } else {
                assert(text_less(keys[i - 1], keys[j - 1]));
            }
        }
        specs.lemma_keys();
        assert forall|k: Seq<char>| #[trigger] specs@.dom().contains(k) == view.insert(key, ident@).dom().contains(k) by {
            if k == key {
                assert(new_keys[index as int] == key);
            } else if keys.contains(k) {
                let j = keys.index_of(k);
                if j < index {
                    assert(new_keys[j] == k);
                } else {
                    assert(new_keys[j + 1] == k);
                }
            } else if new_keys.contains(k) {
                let j = new_keys.index_of(k);
                if j < index {
                    assert(keys[j] == k);
                } else if j > index {
                    assert(keys[j - 1] == k);
                }
            }
        }
        assert forall|k: Seq<char>| specs@.dom().contains(k) implies #[trigger] specs@[k] == view.insert(key, ident@)[k] by {
            if k == key {
                lemma_entry(specs, index as int);
            } else {
                assert(keys.contains(k));
                let j = keys.index_of(k);
                lemma_entry(&before, j);
                if j < index {
                    lemma_entry(specs, j);
                } else {
                    lemma_entry(specs, j + 1);
                }
            }
        }
        assert(specs@ =~= view.insert(key, ident@));
    }
}

/// Offering two events gives the same table in either order: for each
/// payload type the event whose name comes first is kept.
pub proof fn law_offers_commute(
    specs: Map<Seq<char>, Seq<char>>,
    key: Seq<char>,
    name: Seq<char>,
    eligible: bool,
    other_key: Seq<char>,
    other_name: Seq<char>,
    other_eligible: bool,
)
    ensures
        offered(offered(specs, key, name, eligible), other_key, other_name, other_eligible)
            == offered(offered(specs, other_key, other_name, other_eligible), key, name, eligible),
{
    let first = offered(offered(specs, key, name, eligible), other_key, other_name, other_eligible);
    let second = offered(offered(specs, other_key, other_name, other_eligible), key, name, eligible);
    if key == other_key && eligible && other_eligible {
        lemma_text_less_asymmetric(name, other_name);
        lemma_text_less_total(name, other_name);
        if specs.dom().contains(key) {
            let held = specs[key];
            if text_less(name, held) && text_less(other_name, held) {
            } else if text_less(name, held) {
                if text_less(other_name, name) {
                    lemma_text_less_transitive(other_name, name, held);
                }
            } else if text_less(other_name, held) {
                if text_less(name, other_name) {
                    lemma_text_less_transitive(name, other_name, held);
                }
            }
        }
        assert(first =~= second);
    } else {
        assert(first =~= second);
    }
}

/// Two lists of texts in strictly increasing order with the same elements
/// are the same list.
proof fn lemma_sorted_by_elements(a: Seq<Seq<char>>, b: Seq<Seq<char>>)
    requires
        strictly_sorted(a),
        strictly_sorted(b),
        a.to_set() == b.to_set(),
    ensures
        a == b,
    decreases a.len(),
{
    if a.len() == 0 {
        if b.len() > 0 {
            assert(b.to_set().contains(b[0]));
        }
        assert(a =~= b);
    } else {
        assert(a.to_set().contains(a[0]));
        assert(b.contains(a[0]));
        assert(b.len() > 0);
        assert(b.to_set().contains(b[0]));
        assert(a.contains(b[0]));
        let k = choose|k: int| 0 <= k < a.len() && a[k] == b[0];
        let m = choose|m: int| 0 <= m < b.len() && b[m] == a[0];
        if k > 0 && m > 0 {
            assert(text_less(a[0], a[k]));
            assert(text_less(b[0], b[m]));
            lemma_text_less_asymmetric(a[0], b[0]);
        }
        assert(a[0] == b[0]) by {
            if k == 0 {
            } else {
                assert(m == 0);
            }
        }
        let rest_a = a.drop_first();
        let rest_b = b.drop_first();
        assert forall|x: Seq<char>| rest_a.to_set().contains(x) == rest_b.to_set().contains(x) by {
            if rest_a.contains(x) {
                let i = choose|i: int| 0 <= i < rest_a.len() && rest_a[i] == x;
                assert(a[i + 1] == x);
                assert(text_less(a[0], x));
                lemma_text_less_irreflexive(x);
                assert(b.to_set().contains(x));
                let j = choose|j: int| 0 <= j < b.len() && b[j] == x;
                assert(j != 0);
                assert(rest_b[j - 1] == x);
            }
            if rest_b.contains(x) {
                let i = choose|i: int| 0 <= i < rest_b.len() && rest_b[i] == x;
                assert(b[i + 1] == x);
                assert(text_less(b[0], x));
                lemma_text_less_irreflexive(x);
                assert(a.to_set().contains(x));
                let j = choose|j: int| 0 <= j < a.len() && a[j] == x;
                assert(j != 0);
                assert(rest_a[j - 1] == x);
            }
        }
        assert(rest_a.to_set() =~= rest_b.to_set());
        lemma_sorted_by_elements(rest_a, rest_b);
        assert(a =~= seq![a[0]] + rest_a);
        assert(b =~= seq![b[0]] + rest_b);
    }
}

/// Two well-formed tables that record the same event for each payload
/// type list their types, and so their names, in the same order: the order
/// does not depend on how the table was filled.
pub proof fn law_same_specs_list_alike(specs: &EventSpecs, other: &EventSpecs)
    requires
        specs.wf(),
        other.wf(),
        specs@ == other@,
    ensures
        specs.keys() == other.keys(),
{
    specs.lemma_keys();
    other.lemma_keys();
    lemma_sorted_by_elements(specs.keys(), other.keys());
}

} // verus!
