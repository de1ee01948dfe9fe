//! The order of strings by their characters, first difference first, a
//! prefix before what extends it: the order in which generated tables list
//! names and types, so that the same machine always yields the same text.

use vstd::prelude::*;
use vstd::multiset::Multiset;
use vstd::relations::{sorted_by, total_ordering};

verus! {

broadcast use vstd::seq_lib::group_to_multiset_ensures;

/// `a` comes before `b`: at the first position where they differ the
/// character of `a` is smaller, or `a` is a proper prefix of `b`.
pub open spec fn text_less(a: Seq<char>, b: Seq<char>) -> bool
    decreases a.len(),
{
    if a.len() == 0 {
        b.len() > 0
    } else if b.len() == 0 {
        false
    } else if a[0] != b[0] {
        a[0] < b[0]
    } else {
        text_less(a.drop_first(), b.drop_first())
    }
}

/// `a` comes before `b` or is `b`.
pub open spec fn text_le(a: Seq<char>, b: Seq<char>) -> bool {
    a == b || text_less(a, b)
}

/// No text comes before itself.
pub proof fn lemma_text_less_irreflexive(a: Seq<char>)
    ensures
        !text_less(a, a),
    decreases a.len(),
{
    if a.len() > 0 {
        lemma_text_less_irreflexive(a.drop_first());
    }
}

/// Two texts do not each come before the other.
pub proof fn lemma_text_less_asymmetric(a: Seq<char>, b: Seq<char>)
    ensures
        !(text_less(a, b) && text_less(b, a)),
    decreases a.len(),
{
    if a.len() > 0 && b.len() > 0 && a[0] == b[0] {
        lemma_text_less_asymmetric(a.drop_first(), b.drop_first());
    }
}

/// The order is transitive.
pub proof fn lemma_text_less_transitive(a: Seq<char>, b: Seq<char>, c: Seq<char>)
    requires
        text_less(a, b),
        text_less(b, c),
    ensures
        text_less(a, c),
    decreases a.len(),
{
    if a.len() > 0 && b.len() > 0 && c.len() > 0 && a[0] == b[0] && b[0] == c[0] {
        lemma_text_less_transitive(a.drop_first(), b.drop_first(), c.drop_first());
    }
}

/// Of two different texts one comes before the other.
pub proof fn lemma_text_less_total(a: Seq<char>, b: Seq<char>)
    ensures
        a == b || text_less(a, b) || text_less(b, a),
    decreases a.len(),
{
    if a.len() > 0 && b.len() > 0 && a[0] == b[0] {
        lemma_text_less_total(a.drop_first(), b.drop_first());
        if a.drop_first() == b.drop_first() {
            assert(a =~= seq![a[0]] + a.drop_first());
            assert(b =~= seq![b[0]] + b.drop_first());
        }
    } else if a.len() == 0 && b.len() == 0 {
        assert(a =~= b);
    }
}

/// Comparing from a common prefix on decides as comparing the whole.
proof fn lemma_text_less_skip(a: Seq<char>, b: Seq<char>, index: int)
    requires
        0 <= index <= a.len(),
        index <= b.len(),
        a.subrange(0, index) == b.subrange(0, index),
    ensures
        text_less(a, b) == text_less(a.skip(index), b.skip(index)),
    decreases index,
{
    if index > 0 {
        assert(a[0] == a.subrange(0, index)[0]);
        assert(b[0] == b.subrange(0, index)[0]);
        assert(a.drop_first().subrange(0, index - 1) =~= a.subrange(0, index).drop_first());
        assert(b.drop_first().subrange(0, index - 1) =~= b.subrange(0, index).drop_first());
        lemma_text_less_skip(a.drop_first(), b.drop_first(), index - 1);
        assert(a.drop_first().skip(index - 1) =~= a.skip(index));
        assert(b.drop_first().skip(index - 1) =~= b.skip(index));
    } else {
        assert(a.skip(0) =~= a);
        assert(b.skip(0) =~= b);
    }
}

/// Whether `a` comes before `b`.
pub fn text_is_less(a: &str, b: &str) -> (less: bool)
    ensures
        less == text_less(a@, b@),
{
    let a_len = a.unicode_len();
    let b_len = b.unicode_len();
    let mut index: usize = 0;
    while index < a_len && index < b_len
        invariant
            a_len == a@.len(),
            b_len == b@.len(),
            index <= a_len,
            index <= b_len,
            a@.subrange(0, index as int) == b@.subrange(0, index as int),
        decreases a_len - index,
    {
        let x = a.get_char(index);
        let y = b.get_char(index);
        if x != y {
            proof {
                lemma_text_less_skip(a@, b@, index as int);
                assert(a@.skip(index as int)[0] == x);
                assert(b@.skip(index as int)[0] == y);
            }
            return x < y;
        }
        assert(a@.subrange(0, index + 1) =~= a@.subrange(0, index as int).push(x));
        assert(b@.subrange(0, index + 1) =~= b@.subrange(0, index as int).push(y));
        index = index + 1;
    }
    proof {
        lemma_text_less_skip(a@, b@, index as int);
    }
    index == a_len && index < b_len
}

/// The texts of a list of strings.
pub open spec fn texts_view(texts: Vec<String>) -> Seq<Seq<char>> {
    texts@.map_values(|text: String| text@)
}

/// The texts of each list of strings.
pub open spec fn rows_view(rows: Seq<Vec<String>>) -> Seq<Seq<Seq<char>>> {
    rows.map_values(|row: Vec<String>| texts_view(row))
}

/// `a` comes before `b`: at the first position where they differ the text
/// of `a` comes first, or `a` is a proper prefix of `b`.
pub open spec fn texts_less(a: Seq<Seq<char>>, b: Seq<Seq<char>>) -> bool
    decreases a.len(),
{
    if a.len() == 0 {
        b.len() > 0
    } else if b.len() == 0 {
        false
    } else if a[0] != b[0] {
        text_less(a[0], b[0])
    } else {
        texts_less(a.drop_first(), b.drop_first())
    }
}

/// `a` comes before `b` or is `b`.
pub open spec fn texts_le(a: Seq<Seq<char>>, b: Seq<Seq<char>>) -> bool {
    a == b || texts_less(a, b)
}

/// The order of lists of texts, as a relation.
pub open spec fn texts_order() -> spec_fn(Seq<Seq<char>>, Seq<Seq<char>>) -> bool {
    |a: Seq<Seq<char>>, b: Seq<Seq<char>>| texts_le(a, b)
}

proof fn lemma_texts_less_irreflexive(a: Seq<Seq<char>>)
    ensures
        !texts_less(a, a),
    decreases a.len(),
{
    if a.len() > 0 {
        lemma_texts_less_irreflexive(a.drop_first());
    }
}

proof fn lemma_texts_less_asymmetric(a: Seq<Seq<char>>, b: Seq<Seq<char>>)
    ensures
        !(texts_less(a, b) && texts_less(b, a)),
    decreases a.len(),
{
    if a.len() > 0 && b.len() > 0 {
        if a[0] == b[0] {
            lemma_texts_less_asymmetric(a.drop_first(), b.drop_first());
        } else {
            lemma_text_less_asymmetric(a[0], b[0]);
        }
    }
}

proof fn lemma_texts_less_transitive(a: Seq<Seq<char>>, b: Seq<Seq<char>>, c: Seq<Seq<char>>)
    requires
        texts_less(a, b),
        texts_less(b, c),
    ensures
        texts_less(a, c),
    decreases a.len(),
{
    if a.len() > 0 && b.len() > 0 && c.len() > 0 {
        if a[0] == b[0] && b[0] == c[0] {
            lemma_texts_less_transitive(a.drop_first(), b.drop_first(), c.drop_first());
        } else if a[0] != b[0] && b[0] != c[0] {
            lemma_text_less_transitive(a[0], b[0], c[0]);
            lemma_text_less_irreflexive(a[0]);
        } else if a[0] != b[0] {
            lemma_text_less_irreflexive(a[0]);
        } else {
            lemma_text_less_irreflexive(a[0]);
        }
    }
}

proof fn lemma_texts_less_total(a: Seq<Seq<char>>, b: Seq<Seq<char>>)
    ensures
        a == b || texts_less(a, b) || texts_less(b, a),
    decreases a.len(),
{
    if a.len() > 0 && b.len() > 0 {
        if a[0] == b[0] {
            lemma_texts_less_total(a.drop_first(), b.drop_first());
            if a.drop_first() == b.drop_first() {
                assert(a =~= seq![a[0]] + a.drop_first());
                assert(b =~= seq![b[0]] + b.drop_first());
            }
        } else {
            lemma_text_less_total(a[0], b[0]);
        }
    } else if a.len() == 0 && b.len() == 0 {
        assert(a =~= b);
    }
}

/// The order of lists of texts is a total order.
pub proof fn lemma_texts_order_is_total()
    ensures
        total_ordering(texts_order()),
{
    let ghost order = texts_order();
    assert forall|x: Seq<Seq<char>>, y: Seq<Seq<char>>| #[trigger] order(x, y) && #[trigger] order(y, x) implies x == y by {
        lemma_texts_less_asymmetric(x, y);
    }
    assert forall|x: Seq<Seq<char>>, y: Seq<Seq<char>>, z: Seq<Seq<char>>| #[trigger] order(x, y) && #[trigger] order(y, z) implies order(x, z) by {
        if x != y && y != z {
            lemma_texts_less_transitive(x, y, z);
        }
    }
    assert forall|x: Seq<Seq<char>>, y: Seq<Seq<char>>| #[trigger] order(x, y) || #[trigger] order(y, x) by {
        lemma_texts_less_total(x, y);
    }
}

proof fn lemma_texts_less_skip(a: Seq<Seq<char>>, b: Seq<Seq<char>>, index: int)
    requires
        0 <= index <= a.len(),
        index <= b.len(),
        a.subrange(0, index) == b.subrange(0, index),
    ensures
        texts_less(a, b) == texts_less(a.skip(index), b.skip(index)),
    decreases index,
{
    if index > 0 {
        assert(a[0] == a.subrange(0, index)[0]);
        assert(b[0] == b.subrange(0, index)[0]);
        assert(a.drop_first().subrange(0, index - 1) =~= a.subrange(0, index).drop_first());
        assert(b.drop_first().subrange(0, index - 1) =~= b.subrange(0, index).drop_first());
        lemma_texts_less_skip(a.drop_first(), b.drop_first(), index - 1);
        assert(a.drop_first().skip(index - 1) =~= a.skip(index));
        assert(b.drop_first().skip(index - 1) =~= b.skip(index));
    } else {
        assert(a.skip(0) =~= a);
        assert(b.skip(0) =~= b);
    }
}

/// Whether the list of strings `a` comes before `b`.
pub fn texts_are_less(a: &Vec<String>, b: &Vec<String>) -> (less: bool)
    ensures
        less == texts_less(texts_view(*a), texts_view(*b)),
{
    let ghost x = texts_view(*a);
    let ghost y = texts_view(*b);
    let mut index: usize = 0;
    while index < a.len() && index < b.len()
        invariant
            x == texts_view(*a),
            y == texts_view(*b),
            x.len() == a.len(),
            y.len() == b.len(),
            index <= a.len(),
            index <= b.len(),
            x.subrange(0, index as int) == y.subrange(0, index as int),
        decreases a.len() - index,
    {
        assert(x[index as int] == a@[index as int]@);
        assert(y[index as int] == b@[index as int]@);
        if !(a[index] == b[index]) {
            proof {
                lemma_texts_less_skip(x, y, index as int);
                assert(x.skip(index as int)[0] == x[index as int]);
                assert(y.skip(index as int)[0] == y[index as int]);
            }
            return text_is_less(a[index].as_str(), b[index].as_str());
        }
        assert(x.subrange(0, index + 1) =~= x.subrange(0, index as int).push(x[index as int]));
        assert(y.subrange(0, index + 1) =~= y.subrange(0, index as int).push(y[index as int]));
        index = index + 1;
    }
    proof {
        lemma_texts_less_skip(x, y, index as int);
    }
    index == a.len() && index < b.len()
}

/// Sorts lists of strings into the order of their texts.
pub fn sort_texts(items: Vec<Vec<String>>) -> (sorted: Vec<Vec<String>>)
    ensures
        rows_view(sorted@) == rows_view(items@).sort_by(texts_order()),
{
    let ghost original = rows_view(items@);
    let ghost order = texts_order();
    proof {
        lemma_texts_order_is_total();
    }
    let mut pending = items;
    let mut sorted: Vec<Vec<String>> = Vec::new();
    assert(rows_view(pending@) =~= original);
    while pending.len() > 0
        invariant
            total_ordering(order),
            order == texts_order(),
            sorted_by(rows_view(sorted@), order),
            rows_view(sorted@).to_multiset().add(rows_view(pending@).to_multiset())
                == original.to_multiset(),
        decreases pending.len(),
    {
        let ghost before_pending = rows_view(pending@);
        let item = pending.pop().unwrap();
        let ghost row = texts_view(item);
        proof {
            assert(before_pending =~= rows_view(pending@).push(row));
        }
        let mut position: usize = 0;
        while position < sorted.len() && !texts_are_less(&item, &sorted[position])
            invariant
                position <= sorted@.len(),
                row == texts_view(item),
                forall|j: int| 0 <= j < position ==> !texts_less(row, #[trigger] rows_view(sorted@)[j]),
            decreases sorted@.len() - position,
        {
            assert(rows_view(sorted@)[position as int] == texts_view(sorted@[position as int]));
            position = position + 1;
        }
        let ghost before = rows_view(sorted@);
        proof {
            if position < sorted@.len() {
                assert(before[position as int] == texts_view(sorted@[position as int]));
            }
        }
        sorted.insert(position, item);
        proof {
            let after = rows_view(sorted@);
            assert(after =~= before.insert(position as int, row));
            assert forall|i: int, j: int| 0 <= i < j < after.len() implies #[trigger] order(
                after[i],
                after[j],
            ) by {
                if j < position {
                    assert(order(before[i], before[j]));
                } else if j == position {
                    lemma_texts_less_total(before[i], row);
                } else if i < position {
                    lemma_texts_less_total(before[i], row);
                    assert(texts_less(row, before[position as int]) || position == before.len());
                    assert(order(before[position as int], before[j - 1]));
                    assert(order(before[i], row));
                    assert(order(row, before[position as int]));
                    assert(order(before[i], before[position as int]));
                } else if i == position {
                    assert(order(row, before[position as int]));
                    assert(order(before[position as int], before[j - 1]));
                } else {
                    assert(order(before[i - 1], before[j - 1]));
                }
            }
            vstd::seq_lib::to_multiset_insert(before, position as int, row);
            assert(after.to_multiset() =~= before.to_multiset().insert(row));
            assert(before_pending.to_multiset() =~= rows_view(pending@).to_multiset().insert(row));
            assert(after.to_multiset().add(rows_view(pending@).to_multiset()) =~= original.to_multiset());
        }
    }
    proof {
        assert(rows_view(pending@).to_multiset() =~= Multiset::empty());
        assert(rows_view(sorted@).to_multiset() =~= original.to_multiset());
        original.lemma_sort_by_ensures(order);
        vstd::seq_lib::lemma_sorted_unique(rows_view(sorted@), original.sort_by(order), order);
    }
    sorted
}

} // verus!
