//! Token trees of a transition table and the normalizations applied to its
//! rows before they are parsed: splitting the table into rows at top-level
//! commas, turning reverse rows `dst <= src ...` into forward rows, and giving
//! anonymous rows their completion trigger.

use vstd::prelude::*;

verus! {

broadcast use Seq::lemma_flatten_push;

/// The delimiter of a token group.
#[derive(Debug, Clone, Copy, PartialEq, Eq, Structural)]
pub enum Delimiter {
    /// `( ... )`
    Parenthesis,
    /// `{ ... }`
    Brace,
    /// `[ ... ]`
    Bracket,
    /// An invisible delimiter, around tokens spliced in by a macro.
    Invisible,
}

/// Whether a punctuation character is joined to the one that follows it.
#[derive(Debug, Clone, Copy, PartialEq, Eq, Structural)]
pub enum Spacing {
    /// Followed by whitespace or a non-punctuation token.
    Alone,
    /// Immediately followed by another punctuation character.
    Joint,
}

/// One token tree of a transition table.
#[derive(Debug, PartialEq, Eq)]
pub enum TokenTree {
    /// A delimited group and the tokens inside it.
    Group(Delimiter, Vec<TokenTree>),
    /// An identifier or keyword.
    Ident(String),
    /// A single punctuation character.
    Punct(char, Spacing),
    /// A literal, as written.
    Literal(String),
}

/// `token` is the punctuation character `c`.
pub open spec fn is_punct(token: TokenTree, c: char) -> bool {
    token matches TokenTree::Punct(found, _) && found == c
}

/// `token` is a group in square brackets, the guard of a row.
pub open spec fn is_bracket_group(token: TokenTree) -> bool {
    token matches TokenTree::Group(delimiter, _) && delimiter == Delimiter::Bracket
}

/// The `<` at `index` opens an angle bracket: it is not the start of `<=`.
pub open spec fn opens_angle(tokens: Seq<TokenTree>, index: int) -> bool {
    &&& is_punct(tokens[index], '<')
    &&& !(index + 1 < tokens.len() && is_punct(tokens[index + 1], '='))
}

/// The angle-bracket depth before the token at `index`: each opening `<`
/// counts one up, each `>` one down while the depth is positive.
pub open spec fn angle_depth(tokens: Seq<TokenTree>, index: int) -> nat
    decreases index,
{
    if index <= 0 {
        0
    } else {
        let depth = angle_depth(tokens, index - 1);
        if opens_angle(tokens, index - 1) {
            depth + 1
        } else if is_punct(tokens[index - 1], '>') && depth > 0 {
            (depth - 1) as nat
        } else {
            depth
        }
    }
}

/// The token at `index` separates two rows: a comma outside angle brackets.
pub open spec fn separates_rows(tokens: Seq<TokenTree>, index: int) -> bool {
    is_punct(tokens[index], ',') && angle_depth(tokens, index) == 0
}

/// The rows finished, and the row being collected, after scanning the first
/// `count` tokens.
pub open spec fn row_scan(tokens: Seq<TokenTree>, count: int) -> (Seq<Seq<TokenTree>>, Seq<TokenTree>)
    decreases count,
{
    if count <= 0 {
        (Seq::empty(), Seq::empty())
    } else {
        let (rows, current) = row_scan(tokens, count - 1);
        if separates_rows(tokens, count - 1) {
            if current.len() > 0 {
                (rows.push(current), Seq::empty())
            } else {
                (rows, current)
            }
        } else {
            (rows, current.push(tokens[count - 1]))
        }
    }
}

/// The rows of a table body: the non-empty runs of tokens between the commas
/// that separate rows.
pub open spec fn table_rows(tokens: Seq<TokenTree>) -> Seq<Seq<TokenTree>> {
    let (rows, current) = row_scan(tokens, tokens.len() as int);
    if current.len() > 0 {
        rows.push(current)
    } else {
        rows
    }
}

/// The tokens among the first `count` that do not separate rows, in order.
pub open spec fn row_tokens(tokens: Seq<TokenTree>, count: int) -> Seq<TokenTree>
    decreases count,
{
    if count <= 0 {
        Seq::empty()
    } else if separates_rows(tokens, count - 1) {
        row_tokens(tokens, count - 1)
    } else {
        row_tokens(tokens, count - 1).push(tokens[count - 1])
    }
}

/// Returns `items` in reverse order.
pub(crate) fn reversed<T>(items: Vec<T>) -> (result: Vec<T>)
    ensures
        result@ == items@.reverse(),
{
    let mut source = items;
    let mut result: Vec<T> = Vec::new();
    let ghost original = source@;
    while source.len() > 0
        invariant
            source.len() <= original.len(),
            source@ == original.subrange(0, source.len() as int),
            result@ == original.subrange(source.len() as int, original.len() as int).reverse(),
        decreases source.len(),
    {
        let item = source.pop().unwrap();
        result.push(item);
        assert(result@ =~= original.subrange(source.len() as int, original.len() as int).reverse());
    }
    assert(original.subrange(0, original.len() as int) =~= original);
    result
}

/// Whether a token is the punctuation character `c`.
pub fn token_is_punct(token: &TokenTree, c: char) -> (found: bool)
    ensures
        found == is_punct(*token, c),
{
    match token {
        TokenTree::Punct(found, _) => *found == c,
        _ => false,
    }
}

/// Splits a table body into its rows at the commas outside angle brackets,
/// so that `Message<'a, T, N>` stays in one row; empty rows are dropped.
pub fn split_transitions(body: Vec<TokenTree>) -> (rows: Vec<Vec<TokenTree>>)
    ensures
        rows@.len() == table_rows(body@).len(),
        forall|i: int| 0 <= i < rows@.len() ==> #[trigger] rows@[i]@ == table_rows(body@)[i],
{
    let ghost tokens = body@;
    let total = body.len();
    let mut pending = reversed(body);
    let mut rows: Vec<Vec<TokenTree>> = Vec::new();
    let mut current: Vec<TokenTree> = Vec::new();
    let mut depth: usize = 0;
    while pending.len() > 0
        invariant
            total == tokens.len(),
            pending.len() <= total,
            pending@ == tokens.subrange(total - pending.len(), total as int).reverse(),
            depth == angle_depth(tokens, total - pending.len()),
            depth <= total - pending.len(),
            current@ == row_scan(tokens, total - pending.len()).1,
            rows@.len() == row_scan(tokens, total - pending.len()).0.len(),
            forall|i: int|
                0 <= i < rows@.len() ==> #[trigger] rows@[i]@ == row_scan(
                    tokens,
                    total - pending.len(),
                ).0[i],
        decreases pending.len(),
    {
        let ghost index = total - pending.len();
        let token = pending.pop().unwrap();
        assert(token == tokens[index]);
        let next_is_eq = pending.len() > 0 && token_is_punct(&pending[pending.len() - 1], '=');
        proof {
            if pending.len() > 0 {
                assert(pending@[pending.len() - 1] == tokens[index + 1]);
            }
        }
        if token_is_punct(&token, '<') && !next_is_eq {
            depth = depth + 1;
            current.push(token);
        } else if token_is_punct(&token, '>') && depth > 0 {
            depth = depth - 1;
            current.push(token);
        } else if token_is_punct(&token, ',') && depth == 0 {
            if current.len() > 0 {
                rows.push(current);
                current = Vec::new();
            }
        } else {
            current.push(token);
        }
        assert(pending@ =~= tokens.subrange(total - pending.len(), total as int).reverse());
    }
    if current.len() > 0 {
        rows.push(current);
    }
    rows
}

/// Scanning keeps every token that does not separate rows, and every
/// finished row is non-empty.
proof fn lemma_row_scan_keeps_tokens(tokens: Seq<TokenTree>, count: int)
    requires
        0 <= count <= tokens.len(),
    ensures
        row_scan(tokens, count).0.flatten() + row_scan(tokens, count).1 == row_tokens(tokens, count),
        forall|i: int|
            0 <= i < row_scan(tokens, count).0.len() ==> #[trigger] row_scan(tokens, count).0[i].len()
                > 0,
    decreases count,
{
    if count > 0 {
        lemma_row_scan_keeps_tokens(tokens, count - 1);
        let (rows, current) = row_scan(tokens, count - 1);
        if separates_rows(tokens, count - 1) && current.len() > 0 {
            assert(rows.push(current).flatten() == rows.flatten() + current);
            assert(rows.push(current).flatten() + Seq::<TokenTree>::empty() =~= rows.flatten()
                + current);
        } else if !separates_rows(tokens, count - 1) {
            assert(rows.flatten() + current.push(tokens[count - 1]) =~= (rows.flatten()
                + current).push(tokens[count - 1]));
        }
    }
}

/// Splitting loses nothing but the separating commas: the rows, put back
/// together in order, are the table's tokens without the commas outside angle
/// brackets; and no row is empty.
pub proof fn law_split_keeps_every_row_token(tokens: Seq<TokenTree>)
    ensures
        table_rows(tokens).flatten() == row_tokens(tokens, tokens.len() as int),
        forall|i: int| 0 <= i < table_rows(tokens).len() ==> #[trigger] table_rows(tokens)[i].len() > 0,
{
    lemma_row_scan_keeps_tokens(tokens, tokens.len() as int);
    let (rows, current) = row_scan(tokens, tokens.len() as int);
    if current.len() > 0 {
        assert(rows.push(current).flatten() == rows.flatten() + current);
    } else {
        assert(rows.flatten() + current =~= rows.flatten());
    }
}

/// A reverse arrow `<=` starts at `index`.
pub open spec fn arrow_at(tokens: Seq<TokenTree>, index: int) -> bool {
    &&& 0 <= index
    &&& index + 1 < tokens.len()
    &&& is_punct(tokens[index], '<')
    &&& is_punct(tokens[index + 1], '=')
}

/// The first reverse arrow at or after `start`, or -1 when there is none.
pub open spec fn arrow_from(tokens: Seq<TokenTree>, start: int) -> int
    decreases tokens.len() - start,
{
    if start < 0 || start + 1 >= tokens.len() {
        -1
    } else if arrow_at(tokens, start) {
        start
    } else {
        arrow_from(tokens, start + 1)
    }
}

/// The row `dst <= src ...` with its arrow at `arrow`, written forward:
/// `src ... = dst`.
pub open spec fn forward_row(tokens: Seq<TokenTree>, arrow: int) -> Seq<TokenTree> {
    tokens.skip(arrow + 2).push(TokenTree::Punct('=', Spacing::Alone)) + tokens.take(arrow)
}

/// A row in forward form: a reverse row turned around at its first arrow,
/// any other row as it is.
pub open spec fn directed_row(tokens: Seq<TokenTree>) -> Seq<TokenTree> {
    let arrow = arrow_from(tokens, 0);
    if arrow < 0 {
        tokens
    } else {
        forward_row(tokens, arrow)
    }
}

/// Properties of the first-arrow search.
proof fn lemma_arrow_from(tokens: Seq<TokenTree>, start: int)
    requires
        0 <= start,
    ensures
        arrow_from(tokens, start) < 0 ==> forall|j: int| start <= j ==> !arrow_at(tokens, j),
        arrow_from(tokens, start) >= 0 ==> {
            &&& start <= arrow_from(tokens, start)
            &&& arrow_at(tokens, arrow_from(tokens, start))
            &&& forall|j: int| start <= j < arrow_from(tokens, start) ==> !arrow_at(tokens, j)
        },
    decreases tokens.len() - start,
{
    if start + 1 < tokens.len() && !arrow_at(tokens, start) {
        lemma_arrow_from(tokens, start + 1);
    }
}

/// Turns a reverse row `dst <= src + event / action` into the forward row
/// `src + event / action = dst`; a row without `<=` is returned as it is.
pub fn normalize_direction(transition: Vec<TokenTree>) -> (directed: Vec<TokenTree>)
    ensures
        directed@ == directed_row(transition@),
{
    let ghost tokens = transition@;
    let mut index: usize = 0;
    let mut found = false;
    while index < transition.len() && index + 1 < transition.len()
        invariant_except_break
            !found,
            forall|j: int| 0 <= j < index ==> !arrow_at(tokens, j),
        invariant
            transition@ == tokens,
        ensures
            found ==> arrow_at(tokens, index as int) && forall|j: int|
                0 <= j < index ==> !arrow_at(tokens, j),
            !found ==> forall|j: int| 0 <= j ==> !arrow_at(tokens, j),
        decreases transition.len() - index,
    {
        if token_is_punct(&transition[index], '<') && token_is_punct(&transition[index + 1], '=') {
            found = true;
            break;
        }
        index = index + 1;
    }
    proof {
        lemma_arrow_from(tokens, 0);
    }
    if !found {
        return transition;
    }
    let mut source = transition;
    let mut rest = source.split_off(index);
    let tail = rest.split_off(2);
    let mut directed = tail;
    directed.push(TokenTree::Punct('=', Spacing::Alone));
    directed.append(&mut source);
    proof {
        assert(arrow_from(tokens, 0) == index);
        assert(directed@ =~= forward_row(tokens, index as int));
    }
    directed
}

/// A token that ends the source-and-event part of a row: `/` before the
/// actions, `=` before the target, or a `[...]` guard.
pub open spec fn ends_trigger(token: TokenTree) -> bool {
    is_punct(token, '/') || is_punct(token, '=') || is_bracket_group(token)
}

/// The first token at or after `start` that ends the trigger part, or -1.
pub open spec fn trigger_end_from(tokens: Seq<TokenTree>, start: int) -> int
    decreases tokens.len() - start,
{
    if start < 0 || start >= tokens.len() {
        -1
    } else if ends_trigger(tokens[start]) {
        start
    } else {
        trigger_end_from(tokens, start + 1)
    }
}

/// Some token of `tokens` is the punctuation character `c`.
pub open spec fn has_punct(tokens: Seq<TokenTree>, c: char) -> bool {
    exists|i: int| 0 <= i < tokens.len() && is_punct(#[trigger] tokens[i], c)
}

/// `token` is the identifier `name`.
pub open spec fn is_ident(token: TokenTree, name: Seq<char>) -> bool {
    token matches TokenTree::Ident(found) && found@ == name
}

/// The five tokens `+ completion<_>` of an anonymous row's trigger.
pub open spec fn is_completion_trigger(tokens: Seq<TokenTree>) -> bool {
    &&& tokens.len() == 5
    &&& tokens[0] == TokenTree::Punct('+', Spacing::Alone)
    &&& is_ident(tokens[1], "completion"@)
    &&& tokens[2] == TokenTree::Punct('<', Spacing::Alone)
    &&& is_ident(tokens[3], "_"@)
    &&& tokens[4] == TokenTree::Punct('>', Spacing::Alone)
}

/// `normalized` is the row `tokens` in the form the row parser reads: in
/// forward direction and, when it names no trigger but has an action, a guard
/// or a target, with `+ completion<_>` inserted before the first of them.
pub open spec fn normalized_row(tokens: Seq<TokenTree>, normalized: Seq<TokenTree>) -> bool {
    let directed = directed_row(tokens);
    let end = trigger_end_from(directed, 0);
    if has_punct(directed, '+') || end < 0 {
        normalized == directed
    } else {
        &&& normalized.len() == directed.len() + 5
        &&& normalized.take(end) == directed.take(end)
        &&& is_completion_trigger(normalized.subrange(end, end + 5))
        &&& normalized.skip(end + 5) == directed.skip(end)
    }
}

/// Properties of the search for the end of the trigger part.
proof fn lemma_trigger_end_from(tokens: Seq<TokenTree>, start: int)
    requires
        0 <= start,
    ensures
        trigger_end_from(tokens, start) < 0 ==> forall|j: int|
            start <= j < tokens.len() ==> !ends_trigger(#[trigger] tokens[j]),
        trigger_end_from(tokens, start) >= 0 ==> {
            &&& start <= trigger_end_from(tokens, start) < tokens.len()
            &&& ends_trigger(tokens[trigger_end_from(tokens, start)])
            &&& forall|j: int|
                start <= j < trigger_end_from(tokens, start) ==> !ends_trigger(#[trigger] tokens[j])
        },
    decreases tokens.len() - start,
{
    if start < tokens.len() && !ends_trigger(tokens[start]) {
        lemma_trigger_end_from(tokens, start + 1);
    }
}

/// Whether a token ends the trigger part of a row.
fn token_ends_trigger(token: &TokenTree) -> (ends: bool)
    ensures
        ends == ends_trigger(*token),
{
    match token {
        TokenTree::Punct(c, _) => *c == '/' || *c == '=',
        TokenTree::Group(delimiter, _) => *delimiter == Delimiter::Bracket,
        _ => false,
    }
}

/// Brings one row into the form the row parser reads: a reverse row is
/// turned forward, and an anonymous row (one without `+`) gets the trigger
/// `+ completion<_>` before its first `/`, `=` or `[...]` guard.
pub fn normalize_transition(transition: Vec<TokenTree>) -> (normalized: Vec<TokenTree>)
    ensures
        normalized_row(transition@, normalized@),
{
    let ghost row = transition@;
    let directed = normalize_direction(transition);
    let ghost tokens = directed@;
    let mut index: usize = 0;
    while index < directed.len()
        invariant
            directed@ == tokens,
            tokens == directed_row(row),
            row == transition@,
            forall|j: int| 0 <= j < index ==> !is_punct(#[trigger] tokens[j], '+'),
        decreases directed.len() - index,
    {
        if token_is_punct(&directed[index], '+') {
            assert(is_punct(tokens[index as int], '+'));
            assert(has_punct(tokens, '+'));
            return directed;
        }
        index = index + 1;
    }
    assert(!has_punct(tokens, '+'));
    let mut end: usize = 0;
    let mut found = false;
    while end < directed.len()
        invariant_except_break
            !found,
            forall|j: int| 0 <= j < end ==> !ends_trigger(#[trigger] tokens[j]),
        invariant
            directed@ == tokens,
        ensures
            found ==> end < tokens.len() && ends_trigger(tokens[end as int]) && forall|j: int|
                0 <= j < end ==> !ends_trigger(#[trigger] tokens[j]),
            !found ==> forall|j: int| 0 <= j < tokens.len() ==> !ends_trigger(#[trigger] tokens[j]),
        decreases directed.len() - end,
    {
        if token_ends_trigger(&directed[end]) {
            found = true;
            break;
        }
        end = end + 1;
    }
    proof {
        lemma_trigger_end_from(tokens, 0);
    }
    if !found {
        return directed;
    }
    let mut normalized = directed;
    let mut rest = normalized.split_off(end);
    normalized.push(TokenTree::Punct('+', Spacing::Alone));
    normalized.push(TokenTree::Ident(String::from_str("completion")));
    normalized.push(TokenTree::Punct('<', Spacing::Alone));
    normalized.push(TokenTree::Ident(String::from_str("_")));
    normalized.push(TokenTree::Punct('>', Spacing::Alone));
    normalized.append(&mut rest);
    proof {
        assert(trigger_end_from(tokens, 0) == end);
        assert(normalized@.take(end as int) =~= tokens.take(end as int));
        assert(normalized@.skip(end + 5) =~= tokens.skip(end as int));
        let trigger = normalized@.subrange(end as int, end + 5);
        assert(trigger[1] == normalized@[end + 1]);
        assert(trigger[3] == normalized@[end + 3]);
    }
    normalized
}

/// A normalized row that has an action, a guard or a target also has a
/// trigger: after normalization, every such row contains a `+`.
pub proof fn law_normalized_row_has_trigger(tokens: Seq<TokenTree>, normalized: Seq<TokenTree>)
    requires
        normalized_row(tokens, normalized),
        trigger_end_from(directed_row(tokens), 0) >= 0,
    ensures
        has_punct(normalized, '+'),
{
    let directed = directed_row(tokens);
    let end = trigger_end_from(directed, 0);
    lemma_trigger_end_from(directed, 0);
    if !has_punct(directed, '+') {
        let trigger = normalized.subrange(end, end + 5);
        assert(trigger[0] == normalized[end]);
        assert(is_punct(normalized[end], '+'));
    }
}

/// A forward row that already names its trigger is left as it is.
pub proof fn law_rows_with_trigger_are_kept(tokens: Seq<TokenTree>, normalized: Seq<TokenTree>)
    requires
        normalized_row(tokens, normalized),
        has_punct(tokens, '+'),
        forall|j: int| 0 <= j ==> !arrow_at(tokens, j),
    ensures
        normalized == tokens,
{
    lemma_arrow_from(tokens, 0);
}

/// The reverse spelling names the same row: `dst <= src ...` reads as
/// `src ... = dst` whenever the target part holds no `<=` of its own.
pub proof fn law_reverse_row_reads_forward(
    target: Seq<TokenTree>,
    source: Seq<TokenTree>,
    less: TokenTree,
    equals: TokenTree,
)
    requires
        forall|j: int| !arrow_at(target, j),
        is_punct(less, '<'),
        is_punct(equals, '='),
    ensures
        directed_row(target + seq![less, equals] + source) == source.push(
            TokenTree::Punct('=', Spacing::Alone),
        ) + target,
{
    let tokens = target + seq![less, equals] + source;
    let arrow = target.len() as int;
    assert(arrow_at(tokens, arrow));
    assert forall|j: int| 0 <= j < arrow implies !arrow_at(tokens, j) by {
        if j + 1 < arrow {
            assert(tokens[j] == target[j] && tokens[j + 1] == target[j + 1]);
            assert(!arrow_at(target, j));
        } else {
            assert(tokens[j + 1] == less);
        }
    }
    lemma_arrow_from(tokens, 0);
    assert(arrow_from(tokens, 0) == arrow) by {
        if arrow_from(tokens, 0) < 0 {
            assert(!arrow_at(tokens, arrow));
        } else if arrow_from(tokens, 0) < arrow {
            assert(!arrow_at(tokens, arrow_from(tokens, 0)));
        } else if arrow_from(tokens, 0) > arrow {
            assert(!arrow_at(tokens, arrow));
        }
    }
    assert(tokens.skip(arrow + 2) =~= source);
    assert(tokens.take(arrow) =~= target);
}

/// Two token trees are alike: the same tokens, groups alike all the way
/// down.
pub open spec fn same_tree(tree: TokenTree, other: TokenTree) -> bool
    decreases tree,
{
    match tree {
        TokenTree::Group(delimiter, inner) => other matches TokenTree::Group(
            other_delimiter,
            other_inner,
        ) && delimiter == other_delimiter && inner.len() == other_inner.len() && forall|i: int|
            0 <= i < inner.len() ==> same_tree(#[trigger] inner@[i], other_inner@[i]),
        _ => other == tree,
    }
}

/// Two token sequences are alike, tree by tree.
pub open spec fn same_trees(trees: Seq<TokenTree>, others: Seq<TokenTree>) -> bool {
    &&& trees.len() == others.len()
    &&& forall|i: int| 0 <= i < trees.len() ==> same_tree(#[trigger] trees[i], others[i])
}

impl TokenTree {
    /// A copy of the token tree.
    pub fn duplicate(&self) -> (copy: TokenTree)
        ensures
            same_tree(*self, copy),
        decreases self,
    {
        match self {
            TokenTree::Group(delimiter, inner) => TokenTree::Group(*delimiter, duplicate_tokens(inner)),
            TokenTree::Ident(name) => TokenTree::Ident(name.clone()),
            TokenTree::Punct(c, spacing) => TokenTree::Punct(*c, *spacing),
            TokenTree::Literal(text) => TokenTree::Literal(text.clone()),
        }
    }
}

/// A copy of a token sequence.
pub fn duplicate_tokens(tokens: &Vec<TokenTree>) -> (copy: Vec<TokenTree>)
    ensures
        same_trees(tokens@, copy@),
    decreases tokens,
{
    let mut copy: Vec<TokenTree> = Vec::new();
    let mut index: usize = 0;
    while index < tokens.len()
        invariant
            index <= tokens.len(),
            copy.len() == index,
            forall|i: int| 0 <= i < index ==> same_tree(#[trigger] tokens@[i], copy@[i]),
        decreases tokens.len() - index,
    {
        copy.push(tokens[index].duplicate());
        index = index + 1;
    }
    copy
}

} // verus!
