//! Guard expressions: `!`, `&&`, `||` and parentheses over guard callbacks.

use vstd::prelude::*;

use super::token::{is_ident, is_punct, Delimiter, Spacing, TokenTree};

verus! {

broadcast use vstd::function::group_function_axioms;

/// A callback name, optionally awaited.
#[derive(Debug, Clone)]
pub struct AsyncIdent {
    /// The callback's identifier.
    pub ident: String,
    /// Whether the callback is `async` and must be awaited.
    pub is_async: bool,
}

/// The call written for a callback: `name()` or `name().await`.
pub open spec fn call_text(guard: AsyncIdent) -> Seq<char> {
    if guard.is_async {
        guard.ident@ + "().await"@
    } else {
        guard.ident@ + "()"@
    }
}

impl AsyncIdent {
    /// Returns the call written for this callback: `name()`, or
    /// `name().await` for an async callback.
    pub fn to_string(&self) -> (text: String)
        ensures
            text@ == call_text(*self),
    {
        if self.is_async {
            self.ident.clone().concat("().await")
        } else {
            self.ident.clone().concat("()")
        }
    }
}

/// A boolean combination of guard callbacks.
#[derive(Debug)]
pub enum GuardExpression {
    /// One guard callback.
    Guard(AsyncIdent),
    /// Negation, `!e`.
    Not(Box<GuardExpression>),
    /// A parenthesized expression, `(e)`.
    Group(Box<GuardExpression>),
    /// Conjunction, `l && r`.
    And(Box<GuardExpression>, Box<GuardExpression>),
    /// Disjunction, `l || r`.
    Or(Box<GuardExpression>, Box<GuardExpression>),
}

/// The guard expression written as Rust code, each callback as its call.
pub open spec fn guard_text(expr: GuardExpression) -> Seq<char>
    decreases expr,
{
    match expr {
        GuardExpression::Guard(guard) => call_text(guard),
        GuardExpression::Not(inner) => "!"@ + guard_text(*inner),
        GuardExpression::Group(inner) => "("@ + guard_text(*inner) + ")"@,
        GuardExpression::And(left, right) => guard_text(*left) + " && "@ + guard_text(*right),
        GuardExpression::Or(left, right) => guard_text(*left) + " || "@ + guard_text(*right),
    }
}

/// The callbacks of a guard expression in the order `visit_guards` offers
/// them: for a binary node, those of the right operand come first.
pub open spec fn guard_visit_order(expr: GuardExpression) -> Seq<AsyncIdent>
    decreases expr,
{
    match expr {
        GuardExpression::Guard(guard) => seq![guard],
        GuardExpression::Not(inner) => guard_visit_order(*inner),
        GuardExpression::Group(inner) => guard_visit_order(*inner),
        GuardExpression::And(left, right) => guard_visit_order(*right) + guard_visit_order(*left),
        GuardExpression::Or(left, right) => guard_visit_order(*right) + guard_visit_order(*left),
    }
}

/// Whether some callback of the expression is awaited.
pub open spec fn guard_has_async(expr: GuardExpression) -> bool
    decreases expr,
{
    match expr {
        GuardExpression::Guard(guard) => guard.is_async,
        GuardExpression::Not(inner) => guard_has_async(*inner),
        GuardExpression::Group(inner) => guard_has_async(*inner),
        GuardExpression::And(left, right) => guard_has_async(*left) || guard_has_async(*right),
        GuardExpression::Or(left, right) => guard_has_async(*left) || guard_has_async(*right),
    }
}

impl GuardExpression {
    /// Returns an equal, independent copy of the expression.
    pub fn clone(&self) -> (copy: Self)
        ensures
            copy == *self,
        decreases self,
    {
        match self {
            GuardExpression::Guard(guard) => GuardExpression::Guard(
                AsyncIdent { ident: guard.ident.clone(), is_async: guard.is_async },
            ),
            GuardExpression::Not(inner) => GuardExpression::Not(Box::new((**inner).clone())),
            GuardExpression::Group(inner) => GuardExpression::Group(Box::new((**inner).clone())),
            GuardExpression::And(left, right) => GuardExpression::And(
                Box::new((**left).clone()),
                Box::new((**right).clone()),
            ),
            GuardExpression::Or(left, right) => GuardExpression::Or(
                Box::new((**left).clone()),
                Box::new((**right).clone()),
            ),
        }
    }

    /// Returns the expression written as Rust code, for example
    /// `a() && (!b() && c()) || d().await`.
    pub fn to_string(&self) -> (text: String)
        ensures
            text@ == guard_text(*self),
        decreases self,
    {
        match self {
            GuardExpression::Guard(guard) => guard.to_string(),
            GuardExpression::Not(inner) => String::from_str("!").concat(inner.to_string().as_str()),
            GuardExpression::Group(inner) => String::from_str("(").concat(
                inner.to_string().as_str(),
            ).concat(")"),
            GuardExpression::And(left, right) => left.to_string().concat(" && ").concat(
                right.to_string().as_str(),
            ),
            GuardExpression::Or(left, right) => left.to_string().concat(" || ").concat(
                right.to_string().as_str(),
            ),
        }
    }
}

/// Offers every callback of `expr` to `visit_guard`, in `guard_visit_order`,
/// and stops at the first error, which it returns.
///
/// On success every callback was offered and accepted; on an error, the
/// callbacks before the failing one were accepted.
pub fn visit_guards<Failure, F>(expr: &GuardExpression, mut visit_guard: F) -> (result: Result<(), Failure>) where
    F: FnMut(&AsyncIdent) -> Result<(), Failure>,

    requires
        forall|guard: &AsyncIdent| call_requires(visit_guard, (guard,)),
    ensures
        result is Ok ==> forall|i: int|
            0 <= i < guard_visit_order(*expr).len() ==> call_ensures(
                visit_guard,
                (&guard_visit_order(*expr)[i],),
                Ok::<(), Failure>(()),
            ),
        result matches Err(error) ==> exists|failed: int|
            {
                &&& 0 <= failed < guard_visit_order(*expr).len()
                &&& call_ensures(
                    visit_guard,
                    (&guard_visit_order(*expr)[failed],),
                    Err::<(), Failure>(error),
                )
                &&& forall|i: int|
                    0 <= i < failed ==> call_ensures(
                        visit_guard,
                        (&#[trigger] guard_visit_order(*expr)[i],),
                        Ok::<(), Failure>(()),
                    )
            },
{
    visit_guards_from(expr, &mut visit_guard)
}

fn visit_guards_from<Failure, F>(expr: &GuardExpression, visit_guard: &mut F) -> (result: Result<(), Failure>) where
    F: FnMut(&AsyncIdent) -> Result<(), Failure>,

    requires
        forall|guard: &AsyncIdent| call_requires(*old(visit_guard), (guard,)),
    ensures
        *final(visit_guard) == *old(visit_guard),
        result is Ok ==> forall|i: int|
            0 <= i < guard_visit_order(*expr).len() ==> call_ensures(
                *old(visit_guard),
                (&guard_visit_order(*expr)[i],),
                Ok::<(), Failure>(()),
            ),
        result matches Err(error) ==> exists|failed: int|
            {
                &&& 0 <= failed < guard_visit_order(*expr).len()
                &&& call_ensures(
                    *old(visit_guard),
                    (&guard_visit_order(*expr)[failed],),
                    Err::<(), Failure>(error),
                )
                &&& forall|i: int|
                    0 <= i < failed ==> call_ensures(
                        *old(visit_guard),
                        (&#[trigger] guard_visit_order(*expr)[i],),
                        Ok::<(), Failure>(()),
                    )
            },
    decreases expr,
{
    match expr {
        GuardExpression::Guard(guard) => {
            let result = visit_guard(guard);
            let ghost order = guard_visit_order(*expr);
            assert(order == seq![*guard]);
            assert(order[0] == *guard);
            assert(call_ensures(*old(visit_guard), (&order[0],), result));
            match &result {
                Ok(unit) => {
                    assert(result == Ok::<(), Failure>(()));
                    assert forall|i: int| 0 <= i < order.len() implies call_ensures(
                        *old(visit_guard),
                        (&order[i],),
                        Ok::<(), Failure>(()),
                    ) by {
                        assert(i == 0);
                    }
                },
                Err(error) => {
                    assert(call_ensures(*old(visit_guard), (&order[0],), Err::<(), Failure>(*error)));
                },
            }
            result
        },
        GuardExpression::Not(inner) => {
            let result = visit_guards_from(inner, visit_guard);
            assert(guard_visit_order(*expr) == guard_visit_order(**inner));
            result
        },
        GuardExpression::Group(inner) => {
            let result = visit_guards_from(inner, visit_guard);
            assert(guard_visit_order(*expr) == guard_visit_order(**inner));
            result
        },
        GuardExpression::And(left, right) | GuardExpression::Or(left, right) => {
            let ghost right_order = guard_visit_order(**right);
            let ghost left_order = guard_visit_order(**left);
            let ghost order = guard_visit_order(*expr);
            assert(order == right_order + left_order);
            match visit_guards_from(right, visit_guard) {
                Ok(()) => {},
                Err(error) => {
                    let ghost failed = choose|failed: int|
                        {
                            &&& 0 <= failed < right_order.len()
                            &&& call_ensures(
                                *old(visit_guard),
                                (&right_order[failed],),
                                Err::<(), Failure>(error),
                            )
                            &&& forall|i: int|
                                0 <= i < failed ==> call_ensures(
                                    *old(visit_guard),
                                    (&#[trigger] right_order[i],),
                                    Ok::<(), Failure>(()),
                                )
                        };
                    assert(order[failed] == right_order[failed]);
                    assert forall|i: int| 0 <= i < failed implies call_ensures(
                        *old(visit_guard),
                        (&#[trigger] order[i],),
                        Ok::<(), Failure>(()),
                    ) by {
                        assert(order[i] == right_order[i]);
                    }
                    return Err(error);
                },
            }
            let result = visit_guards_from(left, visit_guard);
            match &result {
                Ok(()) => {
                    assert forall|i: int| 0 <= i < order.len() implies call_ensures(
                        *old(visit_guard),
                        (&order[i],),
                        Ok::<(), Failure>(()),
                    ) by {
                        if i < right_order.len() {
                            assert(order[i] == right_order[i]);
                        } else {
                            assert(order[i] == left_order[i - right_order.len()]);
                        }
                    }
                },
                Err(error) => {
                    let ghost failed = choose|failed: int|
                        {
                            &&& 0 <= failed < left_order.len()
                            &&& call_ensures(
                                *old(visit_guard),
                                (&left_order[failed],),
                                Err::<(), Failure>(*error),
                            )
                            &&& forall|i: int|
                                0 <= i < failed ==> call_ensures(
                                    *old(visit_guard),
                                    (&#[trigger] left_order[i],),
                                    Ok::<(), Failure>(()),
                                )
                        };
                    let ghost at = right_order.len() + failed;
                    assert(order[at] == left_order[failed]);
                    assert forall|i: int| 0 <= i < at implies call_ensures(
                        *old(visit_guard),
                        (&#[trigger] order[i],),
                        Ok::<(), Failure>(()),
                    ) by {
                        if i < right_order.len() {
                            assert(order[i] == right_order[i]);
                        } else {
                            assert(order[i] == left_order[i - right_order.len()]);
                        }
                    }
                },
            }
            result
        },
    }
}

/// Reports whether some callback of the guard expression is awaited.
pub fn guard_contains_async(guard: &GuardExpression) -> (contains: bool)
    ensures
        contains == guard_has_async(*guard),
    decreases guard,
{
    match guard {
        GuardExpression::Guard(callback) => callback.is_async,
        GuardExpression::Not(inner) | GuardExpression::Group(inner) => guard_contains_async(inner),
        GuardExpression::And(left, right) | GuardExpression::Or(left, right) => {
            let left_async = guard_contains_async(left);
            let right_async = guard_contains_async(right);
            left_async || right_async
        },
    }
}

/// The two-character operator `cc` starts at `index`: a joint `c`
/// followed by `c`, as in `||` and `&&`.
pub open spec fn operator_at(tokens: Seq<TokenTree>, index: int, c: char) -> bool {
    &&& 0 <= index
    &&& index + 1 < tokens.len()
    &&& tokens[index] == TokenTree::Punct(c, Spacing::Joint)
    &&& is_punct(tokens[index + 1], c)
}

/// `||` starts at `index`.
pub open spec fn or_at(tokens: Seq<TokenTree>, index: int) -> bool {
    operator_at(tokens, index, '|')
}

/// `&&` starts at `index`.
pub open spec fn and_at(tokens: Seq<TokenTree>, index: int) -> bool {
    operator_at(tokens, index, '&')
}

/// No token of `tokens` is the punctuation character `c`.
pub open spec fn free_of(tokens: Seq<TokenTree>, c: char) -> bool {
    forall|i: int| 0 <= i < tokens.len() ==> !is_punct(#[trigger] tokens[i], c)
}

/// A name that can stand for a guard callback: neither `async` nor `_`.
pub open spec fn callback_name(name: Seq<char>) -> bool {
    name != "async"@ && name != "_"@
}

/// `tokens` spell the guard `expr` as an operand: `(e)`, `async name` or
/// `name`.
pub open spec fn spells_primary(tokens: Seq<TokenTree>, expr: GuardExpression) -> bool
    decreases tokens, 0nat,
{
    ||| tokens.len() == 1 && (tokens[0] matches TokenTree::Group(delimiter, inner) && delimiter
        == Delimiter::Parenthesis && (expr matches GuardExpression::Group(grouped) && spells_guard(
        inner@,
        *grouped,
    )))
    ||| tokens.len() == 2 && is_ident(tokens[0], "async"@) && (tokens[1] matches TokenTree::Ident(
        name,
    ) && callback_name(name@) && expr == GuardExpression::Guard(
        AsyncIdent { ident: name, is_async: true },
    ))
    ||| tokens.len() == 1 && (tokens[0] matches TokenTree::Ident(name) && callback_name(name@)
        && expr == GuardExpression::Guard(AsyncIdent { ident: name, is_async: false }))
}

/// `tokens` spell the guard `expr` as an operand, possibly negated: `!p`.
pub open spec fn spells_negation(tokens: Seq<TokenTree>, expr: GuardExpression) -> bool
    decreases tokens, 1nat,
{
    ||| tokens.len() > 0 && is_punct(tokens[0], '!') && (expr matches GuardExpression::Not(inner)
        && spells_primary(tokens.skip(1), *inner))
    ||| spells_primary(tokens, expr)
}

/// `tokens` spell the guard `expr` as a conjunction, grouped from the left.
pub open spec fn spells_conjunction(tokens: Seq<TokenTree>, expr: GuardExpression) -> bool
    decreases tokens, 2nat,
{
    ||| spells_negation(tokens, expr)
    ||| expr matches GuardExpression::And(left, right) && exists|split: int|
        and_at(tokens, split) && spells_conjunction(#[trigger] tokens.take(split), *left)
            && spells_negation(tokens.skip(split + 2), *right)
}

/// `tokens` spell the guard `expr`: disjunctions of conjunctions of possibly
/// negated operands, each grouped from the left, with `&&` binding tighter
/// than `||`.
pub open spec fn spells_guard(tokens: Seq<TokenTree>, expr: GuardExpression) -> bool
    decreases tokens, 3nat,
{
    ||| spells_conjunction(tokens, expr)
    ||| expr matches GuardExpression::Or(left, right) && exists|split: int|
        or_at(tokens, split) && spells_guard(#[trigger] tokens.take(split), *left)
            && spells_conjunction(tokens.skip(split + 2), *right)
}

/// A guard expression that is not spelled by its tokens.
#[derive(Debug, Clone, Copy, PartialEq, Eq, Structural)]
pub struct GuardSyntaxError;

/// An operand is non-empty and holds no `&` or `|` outside its groups.
proof fn lemma_negation_shape(tokens: Seq<TokenTree>, expr: GuardExpression)
    requires
        spells_negation(tokens, expr),
    ensures
        tokens.len() > 0,
        free_of(tokens, '&'),
        free_of(tokens, '|'),
{
    if tokens.len() > 0 && is_punct(tokens[0], '!') && expr is Not {
        let inner = tokens.skip(1);
        assert forall|i: int| 0 <= i < tokens.len() implies !is_punct(#[trigger] tokens[i], '&')
            && !is_punct(tokens[i], '|') by {
            if i > 0 {
                assert(tokens[i] == inner[i - 1]);
            }
        }
    }
}

/// A conjunction is non-empty, holds no `|` outside its groups and does not
/// start with `&`.
proof fn lemma_conjunction_shape(tokens: Seq<TokenTree>, expr: GuardExpression)
    requires
        spells_conjunction(tokens, expr),
    ensures
        tokens.len() > 0,
        free_of(tokens, '|'),
        !is_punct(tokens[0], '&'),
    decreases tokens.len(),
{
    if spells_negation(tokens, expr) {
        lemma_negation_shape(tokens, expr);
    } else {
        match expr {
            GuardExpression::And(left, right) => {
                let split = choose|split: int|
                    and_at(tokens, split) && spells_conjunction(#[trigger] tokens.take(split), *left)
                        && spells_negation(tokens.skip(split + 2), *right);
                lemma_conjunction_shape(tokens.take(split), *left);
                lemma_negation_shape(tokens.skip(split + 2), *right);
                assert forall|i: int| 0 <= i < tokens.len() implies !is_punct(
                    #[trigger] tokens[i],
                    '|',
                ) by {
                    if i < split {
                        assert(tokens[i] == tokens.take(split)[i]);
                    } else if i >= split + 2 {
                        assert(tokens[i] == tokens.skip(split + 2)[i - split - 2]);
                    }
                }
                assert(tokens[0] == tokens.take(split)[0]);
            },
            _ => {},
        }
    }
}

/// Nothing after the operator before an operand, or before a conjunction,
/// starts another operator of the same kind.
proof fn lemma_split_is_last(tokens: Seq<TokenTree>, split: int, c: char)
    requires
        operator_at(tokens, split, c),
        tokens.skip(split + 2).len() > 0,
        free_of(tokens.skip(split + 2), c),
    ensures
        forall|j: int| split < j ==> !operator_at(tokens, j, c),
{
    let rest = tokens.skip(split + 2);
    assert forall|j: int| split < j implies !operator_at(tokens, j, c) by {
        if j + 1 < tokens.len() {
            if j == split + 1 {
                assert(tokens[j + 1] == rest[0]);
            } else {
                assert(tokens[j] == rest[j - split - 2]);
            }
        }
    }
}

/// The last position in `start..end` where the operator `cc` starts.
fn last_operator(tokens: &Vec<TokenTree>, start: usize, end: usize, c: char) -> (found: Option<usize>)
    requires
        start <= end <= tokens.len(),
    ensures
        found matches Some(k) ==> start <= k && operator_at(
            tokens@.subrange(start as int, end as int),
            k - start,
            c,
        ) && forall|j: int|
            k - start < j ==> !operator_at(tokens@.subrange(start as int, end as int), j, c),
        found is None ==> forall|j: int|
            !operator_at(tokens@.subrange(start as int, end as int), j, c),
{
    let ghost sub = tokens@.subrange(start as int, end as int);
    let mut index: usize = end;
    while index > start
        invariant
            start <= index <= end <= tokens.len(),
            sub == tokens@.subrange(start as int, end as int),
            forall|j: int| index - start <= j ==> !operator_at(sub, j, c),
        decreases index - start,
    {
        index = index - 1;
        if index + 1 < end {
            let first = match &tokens[index] {
                TokenTree::Punct(found, Spacing::Joint) => *found == c,
                _ => false,
            };
            if first && token_is(&tokens[index + 1], c) {
                proof {
                    assert(sub[index - start] == tokens@[index as int]);
                    assert(sub[index - start + 1] == tokens@[index + 1]);
                }
                return Some(index);
            }
        }
        proof {
            assert forall|j: int| index - start <= j implies !operator_at(sub, j, c) by {
                if j == index - start && j + 1 < sub.len() {
                    assert(sub[j] == tokens@[index as int]);
                    assert(sub[j + 1] == tokens@[index + 1]);
                }
            }
        }
    }
    None
}

/// Whether a token is the punctuation character `c`.
fn token_is(token: &TokenTree, c: char) -> (found: bool)
    ensures
        found == is_punct(*token, c),
{
    match token {
        TokenTree::Punct(found, _) => *found == c,
        _ => false,
    }
}

/// Parses the guard spelled by `tokens[start..end]`.
fn parse_guard_range(tokens: &Vec<TokenTree>, start: usize, end: usize) -> (result: Result<
    GuardExpression,
    GuardSyntaxError,
>)
    requires
        start <= end <= tokens.len(),
    ensures
        result is Ok ==> spells_guard(tokens@.subrange(start as int, end as int), result->Ok_0),
        result is Err ==> forall|expr: GuardExpression|
            !spells_guard(tokens@.subrange(start as int, end as int), expr),
    decreases tokens@.subrange(start as int, end as int), 3nat,
{
    let ghost sub = tokens@.subrange(start as int, end as int);
    match last_operator(tokens, start, end, '|') {
        Some(split) => {
            let ghost relative = split - start;
            proof {
                assert(sub.take(relative) =~= tokens@.subrange(start as int, split as int));
                assert(sub.skip(relative + 2) =~= tokens@.subrange(split + 2, end as int));
            }
            let left = parse_guard_range(tokens, start, split);
            let right = parse_conjunction_range(tokens, split + 2, end);
            match (left, right) {
                (Ok(left), Ok(right)) => {
                    let expr = GuardExpression::Or(Box::new(left), Box::new(right));
                    assert(or_at(sub, relative) && spells_guard(sub.take(relative), left)
                        && spells_conjunction(sub.skip(relative + 2), right));
                    Ok(expr)
                },
                (left, right) => {
                    proof {
                        assert forall|expr: GuardExpression| !spells_guard(sub, expr) by {
                            if spells_conjunction(sub, expr) {
                                lemma_conjunction_shape(sub, expr);
                                assert(is_punct(sub[relative], '|'));
                            } else if spells_guard(sub, expr) {
                                match expr {
                                    GuardExpression::Or(l, r) => {
                                        let k = choose|k: int|
                                            or_at(sub, k) && spells_guard(#[trigger] sub.take(k), *l)
                                                && spells_conjunction(sub.skip(k + 2), *r);
                                        lemma_conjunction_shape(sub.skip(k + 2), *r);
                                        lemma_split_is_last(sub, k, '|');
                                        assert(k == relative);
                                    },
                                    _ => {},
                                }
                            }
                        }
                    }
                    Err(GuardSyntaxError)
                },
            }
        },
        None => {
            let result = parse_conjunction_range(tokens, start, end);
            proof {
                if result is Err {
                    assert forall|expr: GuardExpression| !spells_guard(sub, expr) by {
                        if spells_guard(sub, expr) && !spells_conjunction(sub, expr) {
                            match expr {
                                GuardExpression::Or(l, r) => {
                                    let split = choose|split: int|
                                        or_at(sub, split) && spells_guard(#[trigger] sub.take(split), *l)
                                            && spells_conjunction(sub.skip(split + 2), *r);
                                    assert(or_at(sub, split));
                                },
                                _ => {},
                            }
                        }
                    }
                }
            }
            result
        },
    }
}

/// Parses the conjunction spelled by `tokens[start..end]`.
fn parse_conjunction_range(tokens: &Vec<TokenTree>, start: usize, end: usize) -> (result: Result<
    GuardExpression,
    GuardSyntaxError,
>)
    requires
        start <= end <= tokens.len(),
    ensures
        result is Ok ==> spells_conjunction(tokens@.subrange(start as int, end as int), result->Ok_0),
        result is Err ==> forall|expr: GuardExpression|
            !spells_conjunction(tokens@.subrange(start as int, end as int), expr),
    decreases tokens@.subrange(start as int, end as int), 2nat,
{
    let ghost sub = tokens@.subrange(start as int, end as int);
    match last_operator(tokens, start, end, '&') {
        Some(split) => {
            let ghost relative = split - start;
            proof {
                assert(sub.take(relative) =~= tokens@.subrange(start as int, split as int));
                assert(sub.skip(relative + 2) =~= tokens@.subrange(split + 2, end as int));
            }
            let left = parse_conjunction_range(tokens, start, split);
            let right = parse_negation_range(tokens, split + 2, end);
            match (left, right) {
                (Ok(left), Ok(right)) => {
                    let expr = GuardExpression::And(Box::new(left), Box::new(right));
                    assert(and_at(sub, relative) && spells_conjunction(sub.take(relative), left)
                        && spells_negation(sub.skip(relative + 2), right));
                    Ok(expr)
                },
                (left, right) => {
                    proof {
                        assert forall|expr: GuardExpression| !spells_conjunction(sub, expr) by {
                            if spells_negation(sub, expr) {
                                lemma_negation_shape(sub, expr);
                                assert(is_punct(sub[relative], '&'));
                            } else if spells_conjunction(sub, expr) {
                                match expr {
                                    GuardExpression::And(l, r) => {
                                        let k = choose|k: int|
                                            and_at(sub, k) && spells_conjunction(
                                                #[trigger] sub.take(k),
                                                *l,
                                            ) && spells_negation(sub.skip(k + 2), *r);
                                        lemma_negation_shape(sub.skip(k + 2), *r);
                                        lemma_split_is_last(sub, k, '&');
                                        assert(k == relative);
                                    },
                                    _ => {},
                                }
                            }
                        }
                    }
                    Err(GuardSyntaxError)
                },
            }
        },
        None => {
            let result = parse_negation_range(tokens, start, end);
            proof {
                if result is Err {
                    assert forall|expr: GuardExpression| !spells_conjunction(sub, expr) by {
                        if spells_conjunction(sub, expr) && !spells_negation(sub, expr) {
                            match expr {
                                GuardExpression::And(l, r) => {
                                    let k = choose|k: int|
                                        and_at(sub, k) && spells_conjunction(#[trigger] sub.take(k), *l)
                                            && spells_negation(sub.skip(k + 2), *r);
                                    assert(and_at(sub, k));
                                },
                                _ => {},
                            }
                        }
                    }
                }
            }
            result
        },
    }
}

/// Parses the possibly negated operand spelled by `tokens[start..end]`.
fn parse_negation_range(tokens: &Vec<TokenTree>, start: usize, end: usize) -> (result: Result<
    GuardExpression,
    GuardSyntaxError,
>)
    requires
        start <= end <= tokens.len(),
    ensures
        result is Ok ==> spells_negation(tokens@.subrange(start as int, end as int), result->Ok_0),
        result is Err ==> forall|expr: GuardExpression|
            !spells_negation(tokens@.subrange(start as int, end as int), expr),
    decreases tokens@.subrange(start as int, end as int), 1nat,
{
    let ghost sub = tokens@.subrange(start as int, end as int);
    if start < end && token_is(&tokens[start], '!') {
        proof {
            assert(sub[0] == tokens@[start as int]);
            assert(sub.skip(1) =~= tokens@.subrange(start + 1, end as int));
        }
        let inner = parse_primary_range(tokens, start + 1, end);
        match inner {
            Ok(inner) => {
                let expr = GuardExpression::Not(Box::new(inner));
                assert(spells_negation(sub, expr));
                Ok(expr)
            },
            Err(error) => {
                proof {
                    assert forall|expr: GuardExpression| !spells_negation(sub, expr) by {
                        if spells_negation(sub, expr) {
                            lemma_negation_cases(sub, expr);
                            if spells_primary(sub, expr) {
                                lemma_primary_cases(sub, expr);
                            }
                        }
                    }
                }
                Err(error)
            },
        }
    } else {
        let result = parse_primary_range(tokens, start, end);
        proof {
            if start < end {
                assert(sub[0] == tokens@[start as int]);
            }
            if result is Err {
                assert forall|expr: GuardExpression| !spells_negation(sub, expr) by {
                    if spells_negation(sub, expr) {
                        lemma_negation_cases(sub, expr);
                    }
                }
            }
        }
        result
    }
}

/// The shapes a possibly negated operand takes.
proof fn lemma_negation_cases(tokens: Seq<TokenTree>, expr: GuardExpression)
    requires
        spells_negation(tokens, expr),
    ensures
        (tokens.len() > 0 && is_punct(tokens[0], '!') && (expr matches GuardExpression::Not(inner)
            && spells_primary(tokens.skip(1), *inner))) || spells_primary(tokens, expr),
{
}

/// Parses the operand spelled by `tokens[start..end]`: a parenthesized
/// guard, `async name` or `name`.
fn parse_primary_range(tokens: &Vec<TokenTree>, start: usize, end: usize) -> (result: Result<
    GuardExpression,
    GuardSyntaxError,
>)
    requires
        start <= end <= tokens.len(),
    ensures
        result is Ok ==> spells_primary(tokens@.subrange(start as int, end as int), result->Ok_0),
        result is Err ==> forall|expr: GuardExpression|
            !spells_primary(tokens@.subrange(start as int, end as int), expr),
    decreases tokens@.subrange(start as int, end as int), 0nat,
{
    let ghost sub = tokens@.subrange(start as int, end as int);
    let result = if end - start == 1 {
        assert(sub[0] == tokens@[start as int]);
        match &tokens[start] {
            TokenTree::Group(delimiter, inner) => {
                if *delimiter == Delimiter::Parenthesis {
                    proof {
                        assert(inner@.subrange(0, inner@.len() as int) =~= inner@);
                    }
                    match parse_guard_range(inner, 0, inner.len()) {
                        Ok(grouped) => {
                            let expr = GuardExpression::Group(Box::new(grouped));
                            assert(spells_primary(sub, expr));
                            Ok(expr)
                        },
                        Err(error) => {
                            proof {
                                assert forall|expr: GuardExpression| !spells_primary(sub, expr) by {
                                    if spells_primary(sub, expr) {
                                        lemma_primary_cases(sub, expr);
                                    }
                                }
                            }
                            Err(error)
                        },
                    }
                } else {
                    proof {
                        assert forall|expr: GuardExpression| !spells_primary(sub, expr) by {
                            if spells_primary(sub, expr) {
                                lemma_primary_cases(sub, expr);
                            }
                        }
                    }
                    Err(GuardSyntaxError)
                }
            },
            TokenTree::Ident(name) => {
                if is_callback_name(name) {
                    let expr = GuardExpression::Guard(
                        AsyncIdent { ident: name.clone(), is_async: false },
                    );
                    assert(spells_primary(sub, expr));
                    Ok(expr)
                } else {
                    proof {
                        assert forall|expr: GuardExpression| !spells_primary(sub, expr) by {
                            if spells_primary(sub, expr) {
                                lemma_primary_cases(sub, expr);
                            }
                        }
                    }
                    Err(GuardSyntaxError)
                }
            },
            _ => {
                proof {
                    assert forall|expr: GuardExpression| !spells_primary(sub, expr) by {
                        if spells_primary(sub, expr) {
                            lemma_primary_cases(sub, expr);
                        }
                    }
                }
                Err(GuardSyntaxError)
            },
        }
    } else if end - start == 2 {
        assert(sub[0] == tokens@[start as int]);
        assert(sub[1] == tokens@[start + 1]);
        let leads_async = match &tokens[start] {
            TokenTree::Ident(keyword) => *keyword == String::from_str("async"),
            _ => false,
        };
        let named = match &tokens[start + 1] {
            TokenTree::Ident(name) => if leads_async && is_callback_name(name) {
                Some(name)
            } else {
                None
            },
            _ => None,
        };
        match named {
            Some(name) => {
                let expr = GuardExpression::Guard(AsyncIdent { ident: name.clone(), is_async: true });
                assert(spells_primary(sub, expr));
                Ok(expr)
            },
            None => {
                proof {
                    assert forall|expr: GuardExpression| !spells_primary(sub, expr) by {
                        if spells_primary(sub, expr) {
                            lemma_primary_cases(sub, expr);
                        }
                    }
                }
                Err(GuardSyntaxError)
            },
        }
    } else {
        proof {
            assert forall|expr: GuardExpression| !spells_primary(sub, expr) by {
                if spells_primary(sub, expr) {
                    lemma_primary_cases(sub, expr);
                }
            }
        }
        Err(GuardSyntaxError)
    };
    result
}

/// The shapes an operand takes.
proof fn lemma_primary_cases(tokens: Seq<TokenTree>, expr: GuardExpression)
    requires
        spells_primary(tokens, expr),
    ensures
        tokens.len() == 1 ==> (tokens[0] matches TokenTree::Group(delimiter, inner) && delimiter
            == Delimiter::Parenthesis && (expr matches GuardExpression::Group(grouped)
            && spells_guard(inner@, *grouped))) || (tokens[0] matches TokenTree::Ident(name)
            && callback_name(name@) && expr == GuardExpression::Guard(
            AsyncIdent { ident: name, is_async: false },
        )),
        tokens.len() == 2 ==> is_ident(tokens[0], "async"@) && (tokens[1] matches TokenTree::Ident(
            name,
        ) && callback_name(name@) && expr == GuardExpression::Guard(
            AsyncIdent { ident: name, is_async: true },
        )),
        tokens.len() == 1 || tokens.len() == 2,
{
}

/// Whether a name can stand for a guard callback.
fn is_callback_name(name: &String) -> (allowed: bool)
    ensures
        allowed == callback_name(name@),
{
    let reserved = String::from_str("async");
    let placeholder = String::from_str("_");
    !(*name == reserved) && !(*name == placeholder)
}

impl GuardExpression {
    /// Parses the tokens of a guard, the contents of `[...]`: `!`, `&&` and
    /// `||` over callbacks and parenthesized guards, `&&` binding tighter,
    /// both grouping from the left. Fails exactly when the tokens spell no
    /// guard.
    pub fn parse(tokens: &Vec<TokenTree>) -> (result: Result<GuardExpression, GuardSyntaxError>)
        ensures
            match result {
                Ok(expr) => spells_guard(tokens@, expr),
                Err(_) => forall|expr: GuardExpression| !spells_guard(tokens@, expr),
            },
    {
        proof {
            assert(tokens@.subrange(0, tokens@.len() as int) =~= tokens@);
        }
        parse_guard_range(tokens, 0, tokens.len())
    }
}

/// A guard's spelling is unambiguous: tokens spell at most one guard.
pub proof fn law_guard_spelling_is_unambiguous(
    tokens: Seq<TokenTree>,
    expr: GuardExpression,
    other: GuardExpression,
)
    requires
        spells_guard(tokens, expr),
        spells_guard(tokens, other),
    ensures
        expr == other,
    decreases tokens, 3nat,
{
    if spells_conjunction(tokens, expr) && spells_conjunction(tokens, other) {
        lemma_conjunction_unambiguous(tokens, expr, other);
    } else if spells_conjunction(tokens, expr) || spells_conjunction(tokens, other) {
        let (conjunction, disjunction) = if spells_conjunction(tokens, expr) {
            (expr, other)
        } else {
            (other, expr)
        };
        lemma_conjunction_shape(tokens, conjunction);
        match disjunction {
            GuardExpression::Or(left, right) => {
                let k = choose|k: int|
                    or_at(tokens, k) && spells_guard(#[trigger] tokens.take(k), *left)
                        && spells_conjunction(tokens.skip(k + 2), *right);
                assert(is_punct(tokens[k], '|'));
            },
            _ => {},
        }
    } else {
        match (expr, other) {
            (GuardExpression::Or(left, right), GuardExpression::Or(other_left, other_right)) => {
                let k = choose|k: int|
                    or_at(tokens, k) && spells_guard(#[trigger] tokens.take(k), *left)
                        && spells_conjunction(tokens.skip(k + 2), *right);
                let j = choose|j: int|
                    or_at(tokens, j) && spells_guard(#[trigger] tokens.take(j), *other_left)
                        && spells_conjunction(tokens.skip(j + 2), *other_right);
                lemma_conjunction_shape(tokens.skip(k + 2), *right);
                lemma_conjunction_shape(tokens.skip(j + 2), *other_right);
                lemma_split_is_last(tokens, k, '|');
                lemma_split_is_last(tokens, j, '|');
                assert(k == j);
                law_guard_spelling_is_unambiguous(tokens.take(k), *left, *other_left);
                lemma_conjunction_unambiguous(tokens.skip(k + 2), *right, *other_right);
            },
            _ => {},
        }
    }
}

/// A conjunction's spelling is unambiguous.
proof fn lemma_conjunction_unambiguous(
    tokens: Seq<TokenTree>,
    expr: GuardExpression,
    other: GuardExpression,
)
    requires
        spells_conjunction(tokens, expr),
        spells_conjunction(tokens, other),
    ensures
        expr == other,
    decreases tokens, 2nat,
{
    if spells_negation(tokens, expr) && spells_negation(tokens, other) {
        lemma_negation_unambiguous(tokens, expr, other);
    } else if spells_negation(tokens, expr) || spells_negation(tokens, other) {
        let (negation, conjunction) = if spells_negation(tokens, expr) {
            (expr, other)
        } else {
            (other, expr)
        };
        lemma_negation_shape(tokens, negation);
        match conjunction {
            GuardExpression::And(left, right) => {
                let k = choose|k: int|
                    and_at(tokens, k) && spells_conjunction(#[trigger] tokens.take(k), *left)
                        && spells_negation(tokens.skip(k + 2), *right);
                assert(is_punct(tokens[k], '&'));
            },
            _ => {},
        }
    } else {
        match (expr, other) {
            (GuardExpression::And(left, right), GuardExpression::And(other_left, other_right)) => {
                let k = choose|k: int|
                    and_at(tokens, k) && spells_conjunction(#[trigger] tokens.take(k), *left)
                        && spells_negation(tokens.skip(k + 2), *right);
                let j = choose|j: int|
                    and_at(tokens, j) && spells_conjunction(#[trigger] tokens.take(j), *other_left)
                        && spells_negation(tokens.skip(j + 2), *other_right);
                lemma_negation_shape(tokens.skip(k + 2), *right);
                lemma_negation_shape(tokens.skip(j + 2), *other_right);
                lemma_split_is_last(tokens, k, '&');
                lemma_split_is_last(tokens, j, '&');
                assert(k == j);
                lemma_conjunction_unambiguous(tokens.take(k), *left, *other_left);
                lemma_negation_unambiguous(tokens.skip(k + 2), *right, *other_right);
            },
            _ => {},
        }
    }
}

/// A possibly negated operand's spelling is unambiguous.
proof fn lemma_negation_unambiguous(
    tokens: Seq<TokenTree>,
    expr: GuardExpression,
    other: GuardExpression,
)
    requires
        spells_negation(tokens, expr),
        spells_negation(tokens, other),
    ensures
        expr == other,
    decreases tokens, 1nat,
{
    lemma_negation_cases(tokens, expr);
    lemma_negation_cases(tokens, other);
    if spells_primary(tokens, expr) && spells_primary(tokens, other) {
        lemma_primary_unambiguous(tokens, expr, other);
    } else if spells_primary(tokens, expr) {
        lemma_primary_cases(tokens, expr);
    } else if spells_primary(tokens, other) {
        lemma_primary_cases(tokens, other);
    } else {
        match (expr, other) {
            (GuardExpression::Not(inner), GuardExpression::Not(other_inner)) => {
                lemma_primary_unambiguous(tokens.skip(1), *inner, *other_inner);
            },
            _ => {},
        }
    }
}

/// An operand's spelling is unambiguous.
proof fn lemma_primary_unambiguous(
    tokens: Seq<TokenTree>,
    expr: GuardExpression,
    other: GuardExpression,
)
    requires
        spells_primary(tokens, expr),
        spells_primary(tokens, other),
    ensures
        expr == other,
    decreases tokens, 0nat,
{
    lemma_primary_cases(tokens, expr);
    lemma_primary_cases(tokens, other);
    if tokens.len() == 1 {
        match (tokens[0], expr, other) {
            (
                TokenTree::Group(_, inner),
                GuardExpression::Group(grouped),
                GuardExpression::Group(other_grouped),
            ) => {
                law_guard_spelling_is_unambiguous(inner@, *grouped, *other_grouped);
            },
            _ => {},
        }
    }
}

/// The callbacks of a guard from left to right, as its tokens list them.
pub open spec fn guard_callbacks(expr: GuardExpression) -> Seq<AsyncIdent>
    decreases expr,
{
    match expr {
        GuardExpression::Guard(guard) => seq![guard],
        GuardExpression::Not(inner) => guard_callbacks(*inner),
        GuardExpression::Group(inner) => guard_callbacks(*inner),
        GuardExpression::And(left, right) => guard_callbacks(*left) + guard_callbacks(*right),
        GuardExpression::Or(left, right) => guard_callbacks(*left) + guard_callbacks(*right),
    }
}

/// `tokens` write the guard `expr` with `calls[i]` standing for its `i`-th
/// callback from the left: `!` before a negated operand, a parenthesized
/// group for a group, `&&` and `||` between the operands.
pub open spec fn lays_out(expr: GuardExpression, calls: Seq<Seq<TokenTree>>, tokens: Seq<TokenTree>) -> bool
    decreases expr, 1nat,
{
    match expr {
        GuardExpression::Guard(_) => calls.len() == 1 && tokens == calls[0],
        GuardExpression::Not(inner) => tokens.len() > 0 && tokens[0] == TokenTree::Punct(
            '!',
            Spacing::Alone,
        ) && lays_out(*inner, calls, tokens.skip(1)),
        GuardExpression::Group(inner) => tokens.len() == 1 && (tokens[0] matches TokenTree::Group(
            delimiter,
            grouped,
        ) && delimiter == Delimiter::Parenthesis && lays_out(*inner, calls, grouped@)),
        GuardExpression::And(..) => lays_out_binary(expr, '&', calls, tokens),
        GuardExpression::Or(..) => lays_out_binary(expr, '|', calls, tokens),
    }
}

/// `tokens` write the binary guard `expr` as `left cc right`, the calls
/// split between the operands.
pub open spec fn lays_out_binary(
    expr: GuardExpression,
    c: char,
    calls: Seq<Seq<TokenTree>>,
    tokens: Seq<TokenTree>,
) -> bool
    decreases expr, 0nat,
{
    match expr {
        GuardExpression::And(left, right) | GuardExpression::Or(left, right) => {
            let count = guard_callbacks(*left).len() as int;
            exists|split: int|
                0 <= split && split + 2 <= tokens.len() && tokens[split] == TokenTree::Punct(
                    c,
                    Spacing::Joint,
                ) && tokens[split + 1] == TokenTree::Punct(c, Spacing::Alone) && lays_out(
                    *left,
                    calls.take(count),
                    #[trigger] tokens.take(split),
                ) && lays_out(*right, calls.skip(count), tokens.skip(split + 2))
        },
        _ => false,
    }
}

/// The tokens of each written call.
pub open spec fn call_views(calls: Seq<Vec<TokenTree>>) -> Seq<Seq<TokenTree>> {
    calls.map_values(|call: Vec<TokenTree>| call@)
}

impl AsyncIdent {
    /// The tokens the visitor writes for this callback.
    pub fn to_token_stream<F>(&self, visit: &mut F) -> (tokens: Vec<TokenTree>) where
        F: FnMut(&AsyncIdent) -> Vec<TokenTree>,

        requires
            forall|guard: &AsyncIdent| call_requires(*old(visit), (guard,)),
        ensures
            *final(visit) == *old(visit),
            call_ensures(*old(visit), (self,), tokens),
    {
        visit(self)
    }
}

impl GuardExpression {
    /// Writes the guard as tokens, each callback as the visitor writes it:
    /// `!`, parentheses, `&&` and `||` as in the source.
    pub fn to_token_stream<F>(&self, visit: &mut F) -> (tokens: Vec<TokenTree>) where
        F: FnMut(&AsyncIdent) -> Vec<TokenTree>,

        requires
            forall|guard: &AsyncIdent| call_requires(*old(visit), (guard,)),
        ensures
            *final(visit) == *old(visit),
            exists|calls: Seq<Vec<TokenTree>>|
                #![trigger call_views(calls)]
                {
                    &&& calls.len() == guard_callbacks(*self).len()
                    &&& forall|i: int|
                        0 <= i < calls.len() ==> call_ensures(
                            *old(visit),
                            (&guard_callbacks(*self)[i],),
                            #[trigger] calls[i],
                        )
                    &&& lays_out(*self, call_views(calls), tokens@)
                },
        decreases self, 1nat,
    {
        match self {
            GuardExpression::Guard(guard) => {
                let written = guard.to_token_stream(visit);
                proof {
                    let calls = seq![written];
                    assert(call_views(calls) =~= seq![written@]);
                    assert(guard_callbacks(*self)[0] == *guard);
                }
                written
            },
            GuardExpression::Not(inner) => {
                let written = (**inner).to_token_stream(visit);
                let mut tokens = vec![TokenTree::Punct('!', Spacing::Alone)];
                let ghost before = written@;
                let mut rest = written;
                tokens.append(&mut rest);
                proof {
                    assert(tokens@.skip(1) =~= before);
                }
                tokens
            },
            GuardExpression::Group(inner) => {
                let written = (**inner).to_token_stream(visit);
                vec![TokenTree::Group(Delimiter::Parenthesis, written)]
            },
            GuardExpression::And(..) => binary_tokens(self, '&', visit),
            GuardExpression::Or(..) => binary_tokens(self, '|', visit),
        }
    }
}

/// Writes the binary guard `expr` as `left cc right` tokens.
fn binary_tokens<F>(expr: &GuardExpression, c: char, visit: &mut F) -> (tokens: Vec<TokenTree>) where
    F: FnMut(&AsyncIdent) -> Vec<TokenTree>,

    requires
        forall|guard: &AsyncIdent| call_requires(*old(visit), (guard,)),
        expr is And || expr is Or,
    ensures
        *final(visit) == *old(visit),
        exists|calls: Seq<Vec<TokenTree>>|
            #![trigger call_views(calls)]
            {
                &&& calls.len() == guard_callbacks(*expr).len()
                &&& forall|i: int|
                    0 <= i < calls.len() ==> call_ensures(
                        *old(visit),
                        (&guard_callbacks(*expr)[i],),
                        #[trigger] calls[i],
                    )
                &&& lays_out_binary(*expr, c, call_views(calls), tokens@)
            },
    decreases expr, 0nat,
{
    let (left, right) = match expr {
        GuardExpression::And(left, right) => (left, right),
        GuardExpression::Or(left, right) => (left, right),
        _ => {
            assert(false);
            return Vec::new();
        },
    };
    let mut tokens = (**left).to_token_stream(visit);
    let ghost left_tokens = tokens@;
    let mut right_tokens = (**right).to_token_stream(visit);
    let ghost written_right = right_tokens@;
    let ghost split = tokens@.len() as int;
    tokens.push(TokenTree::Punct(c, Spacing::Joint));
    tokens.push(TokenTree::Punct(c, Spacing::Alone));
    tokens.append(&mut right_tokens);
    proof {
        let left_calls = choose|calls: Seq<Vec<TokenTree>>|
            #![trigger call_views(calls)]
            {
                &&& calls.len() == guard_callbacks(**left).len()
                &&& forall|i: int|
                    0 <= i < calls.len() ==> call_ensures(
                        *old(visit),
                        (&guard_callbacks(**left)[i],),
                        #[trigger] calls[i],
                    )
                &&& lays_out(**left, call_views(calls), left_tokens)
            };
        let right_calls = choose|calls: Seq<Vec<TokenTree>>|
            #![trigger call_views(calls)]
            {
                &&& calls.len() == guard_callbacks(**right).len()
                &&& forall|i: int|
                    0 <= i < calls.len() ==> call_ensures(
                        *old(visit),
                        (&guard_callbacks(**right)[i],),
                        #[trigger] calls[i],
                    )
                &&& lays_out(**right, call_views(calls), written_right)
            };
        let calls = left_calls + right_calls;
        let viewed = call_views(calls);
        let count = guard_callbacks(**left).len() as int;
        assert(viewed.take(count) =~= call_views(left_calls));
        assert(viewed.skip(count) =~= call_views(right_calls));
        assert(tokens@.take(split) =~= left_tokens);
        assert(tokens@.skip(split + 2) =~= written_right);
        let all = guard_callbacks(*expr);
        assert(all == guard_callbacks(**left) + guard_callbacks(**right));
        assert forall|i: int| 0 <= i < calls.len() implies call_ensures(
            *old(visit),
            (&all[i],),
            #[trigger] calls[i],
        ) by {
            if i < count {
                assert(calls[i] == left_calls[i]);
            } else {
                assert(calls[i] == right_calls[i - count]);
            }
        }
        assert(lays_out_binary(*expr, c, viewed, tokens@));
    }
    tokens
}

/// A guard as the parser builds it: an operand is a callback or a group,
/// `!` applies to an operand, `&&` takes a conjunction on its left and a
/// possibly negated operand on its right, `||` a guard on its left and a
/// conjunction on its right.
pub open spec fn parsed_form(expr: GuardExpression) -> bool
    decreases expr, 3nat,
{
    match expr {
        GuardExpression::Or(left, right) => parsed_form(*left) && parsed_conjunction(*right),
        _ => parsed_conjunction(expr),
    }
}

/// A conjunction as the parser builds it.
pub open spec fn parsed_conjunction(expr: GuardExpression) -> bool
    decreases expr, 2nat,
{
    match expr {
        GuardExpression::And(left, right) => parsed_conjunction(*left) && parsed_negation(*right),
        _ => parsed_negation(expr),
    }
}

/// A possibly negated operand as the parser builds it.
pub open spec fn parsed_negation(expr: GuardExpression) -> bool
    decreases expr, 1nat,
{
    match expr {
        GuardExpression::Not(inner) => parsed_operand(*inner),
        _ => parsed_operand(expr),
    }
}

/// An operand as the parser builds it.
pub open spec fn parsed_operand(expr: GuardExpression) -> bool
    decreases expr, 0nat,
{
    match expr {
        GuardExpression::Guard(_) => true,
        GuardExpression::Group(inner) => parsed_form(*inner),
        _ => false,
    }
}

/// Each written call spells its callback as an operand.
pub open spec fn calls_spell_callbacks(expr: GuardExpression, calls: Seq<Seq<TokenTree>>) -> bool {
    &&& calls.len() == guard_callbacks(expr).len()
    &&& forall|i: int|
        0 <= i < calls.len() ==> spells_primary(
            #[trigger] calls[i],
            GuardExpression::Guard(guard_callbacks(expr)[i]),
        )
}

/// Splitting the calls of a binary guard between its operands.
proof fn lemma_split_calls(
    left: GuardExpression,
    right: GuardExpression,
    expr: GuardExpression,
    calls: Seq<Seq<TokenTree>>,
)
    requires
        guard_callbacks(expr) == guard_callbacks(left) + guard_callbacks(right),
        calls_spell_callbacks(expr, calls),
    ensures
        calls_spell_callbacks(left, calls.take(guard_callbacks(left).len() as int)),
        calls_spell_callbacks(right, calls.skip(guard_callbacks(left).len() as int)),
{
    let count = guard_callbacks(left).len() as int;
    let all = guard_callbacks(expr);
    assert forall|i: int| 0 <= i < count implies spells_primary(
        #[trigger] calls.take(count)[i],
        GuardExpression::Guard(guard_callbacks(left)[i]),
    ) by {
        assert(calls.take(count)[i] == calls[i]);
        assert(all[i] == guard_callbacks(left)[i]);
    }
    assert forall|i: int| 0 <= i < calls.len() - count implies spells_primary(
        #[trigger] calls.skip(count)[i],
        GuardExpression::Guard(guard_callbacks(right)[i]),
    ) by {
        assert(calls.skip(count)[i] == calls[i + count]);
        assert(all[i + count] == guard_callbacks(right)[i]);
    }
}

/// What `to_token_stream` writes reads back: when each callback is written
/// as it is spelled in a table, the tokens of a guard in the form the parser
/// builds spell that same guard, so parsing them gives it back.
pub proof fn law_written_guard_parses_back(
    expr: GuardExpression,
    calls: Seq<Seq<TokenTree>>,
    tokens: Seq<TokenTree>,
)
    requires
        parsed_form(expr),
        calls_spell_callbacks(expr, calls),
        lays_out(expr, calls, tokens),
    ensures
        spells_guard(tokens, expr),
    decreases expr, 3nat,
{
    match expr {
        GuardExpression::Or(left, right) => {
            let count = guard_callbacks(*left).len() as int;
            assert(lays_out_binary(expr, '|', calls, tokens));
            let split = choose|split: int|
                0 <= split && split + 2 <= tokens.len() && tokens[split] == TokenTree::Punct(
                    '|',
                    Spacing::Joint,
                ) && tokens[split + 1] == TokenTree::Punct('|', Spacing::Alone) && lays_out(
                    *left,
                    calls.take(count),
                    #[trigger] tokens.take(split),
                ) && lays_out(*right, calls.skip(count), tokens.skip(split + 2));
            lemma_split_calls(*left, *right, expr, calls);
            law_written_guard_parses_back(*left, calls.take(count), tokens.take(split));
            lemma_written_conjunction(*right, calls.skip(count), tokens.skip(split + 2));
            assert(or_at(tokens, split));
        },
        _ => {
            lemma_written_conjunction(expr, calls, tokens);
        },
    }
}

/// Written conjunctions read back.
proof fn lemma_written_conjunction(expr: GuardExpression, calls: Seq<Seq<TokenTree>>, tokens: Seq<TokenTree>)
    requires
        parsed_conjunction(expr),
        calls_spell_callbacks(expr, calls),
        lays_out(expr, calls, tokens),
    ensures
        spells_conjunction(tokens, expr),
    decreases expr, 2nat,
{
    match expr {
        GuardExpression::And(left, right) => {
            let count = guard_callbacks(*left).len() as int;
            assert(lays_out_binary(expr, '&', calls, tokens));
            let split = choose|split: int|
                0 <= split && split + 2 <= tokens.len() && tokens[split] == TokenTree::Punct(
                    '&',
                    Spacing::Joint,
                ) && tokens[split + 1] == TokenTree::Punct('&', Spacing::Alone) && lays_out(
                    *left,
                    calls.take(count),
                    #[trigger] tokens.take(split),
                ) && lays_out(*right, calls.skip(count), tokens.skip(split + 2));
            lemma_split_calls(*left, *right, expr, calls);
            lemma_written_conjunction(*left, calls.take(count), tokens.take(split));
            lemma_written_negation(*right, calls.skip(count), tokens.skip(split + 2));
            assert(and_at(tokens, split));
        },
        _ => {
            lemma_written_negation(expr, calls, tokens);
        },
    }
}

/// Written possibly negated operands read back.
proof fn lemma_written_negation(expr: GuardExpression, calls: Seq<Seq<TokenTree>>, tokens: Seq<TokenTree>)
    requires
        parsed_negation(expr),
        calls_spell_callbacks(expr, calls),
        lays_out(expr, calls, tokens),
    ensures
        spells_negation(tokens, expr),
    decreases expr, 1nat,
{
    match expr {
        GuardExpression::Not(inner) => {
            lemma_written_operand(*inner, calls, tokens.skip(1));
        },
        _ => {
            lemma_written_operand(expr, calls, tokens);
        },
    }
}

/// Written operands read back.
proof fn lemma_written_operand(expr: GuardExpression, calls: Seq<Seq<TokenTree>>, tokens: Seq<TokenTree>)
    requires
        parsed_operand(expr),
        calls_spell_callbacks(expr, calls),
        lays_out(expr, calls, tokens),
    ensures
        spells_primary(tokens, expr),
    decreases expr, 0nat,
{
    match expr {
        GuardExpression::Guard(guard) => {
            assert(guard_callbacks(expr)[0] == guard);
            assert(spells_primary(calls[0], GuardExpression::Guard(guard)));
        },
        GuardExpression::Group(inner) => {
            match tokens[0] {
                TokenTree::Group(_, grouped) => {
                    law_written_guard_parses_back(*inner, calls, grouped@);
                },
                _ => {},
            }
        },
        _ => {},
    }
}

/// Every spelled guard is in the form the parser builds; with
/// `law_written_guard_parses_back`, parsing and writing a guard are inverse.
pub proof fn law_spelled_guards_have_parsed_form(tokens: Seq<TokenTree>, expr: GuardExpression)
    requires
        spells_guard(tokens, expr),
    ensures
        parsed_form(expr),
    decreases tokens, 3nat,
{
    if spells_conjunction(tokens, expr) {
        lemma_spelled_conjunction_form(tokens, expr);
        lemma_conjunction_form_is_guard_form(expr);
    } else {
        match expr {
            GuardExpression::Or(left, right) => {
                let k = choose|k: int|
                    or_at(tokens, k) && spells_guard(#[trigger] tokens.take(k), *left)
                        && spells_conjunction(tokens.skip(k + 2), *right);
                law_spelled_guards_have_parsed_form(tokens.take(k), *left);
                lemma_spelled_conjunction_form(tokens.skip(k + 2), *right);
            },
            _ => {},
        }
    }
}

/// A conjunction in parsed form is a guard in parsed form.
proof fn lemma_conjunction_form_is_guard_form(expr: GuardExpression)
    requires
        parsed_conjunction(expr),
    ensures
        parsed_form(expr),
{
    if expr is Or {
        assert(parsed_negation(expr));
    }
}

/// Spelled conjunctions are in parsed form.
proof fn lemma_spelled_conjunction_form(tokens: Seq<TokenTree>, expr: GuardExpression)
    requires
        spells_conjunction(tokens, expr),
    ensures
        parsed_conjunction(expr),
    decreases tokens, 2nat,
{
    if spells_negation(tokens, expr) {
        lemma_spelled_negation_form(tokens, expr);
        if expr is And {
            lemma_negation_cases(tokens, expr);
            if spells_primary(tokens, expr) {
                lemma_primary_cases(tokens, expr);
            }
        }
    } else {
        match expr {
            GuardExpression::And(left, right) => {
                let k = choose|k: int|
                    and_at(tokens, k) && spells_conjunction(#[trigger] tokens.take(k), *left)
                        && spells_negation(tokens.skip(k + 2), *right);
                lemma_spelled_conjunction_form(tokens.take(k), *left);
                lemma_spelled_negation_form(tokens.skip(k + 2), *right);
            },
            _ => {},
        }
    }
}

/// Spelled possibly negated operands are in parsed form.
proof fn lemma_spelled_negation_form(tokens: Seq<TokenTree>, expr: GuardExpression)
    requires
        spells_negation(tokens, expr),
    ensures
        parsed_negation(expr),
    decreases tokens, 1nat,
{
    lemma_negation_cases(tokens, expr);
    if spells_primary(tokens, expr) {
        lemma_spelled_operand_form(tokens, expr);
        lemma_primary_cases(tokens, expr);
    } else {
        match expr {
            GuardExpression::Not(inner) => {
                lemma_spelled_operand_form(tokens.skip(1), *inner);
            },
            _ => {},
        }
    }
}

/// Spelled operands are in parsed form.
proof fn lemma_spelled_operand_form(tokens: Seq<TokenTree>, expr: GuardExpression)
    requires
        spells_primary(tokens, expr),
    ensures
        parsed_operand(expr),
    decreases tokens, 0nat,
{
    lemma_primary_cases(tokens, expr);
    if tokens.len() == 1 {
        match (tokens[0], expr) {
            (TokenTree::Group(_, inner), GuardExpression::Group(grouped)) => {
                law_spelled_guards_have_parsed_form(inner@, *grouped);
            },
            _ => {},
        }
    }
}

} // verus!
