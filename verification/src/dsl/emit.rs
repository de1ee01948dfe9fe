//! Writing generated Rust code as token trees. Each builder appends tokens
//! and states the source text they read as: a word and a space, a
//! punctuation character (joined to the next one or followed by a space),
//! or a group with its delimiters around its own text.

use vstd::prelude::*;

use super::resolve::{close_text, open_text, tokens_text};
use super::token::{Delimiter, Spacing, TokenTree};

verus! {

/// The text of a word token.
pub open spec fn word_text(word: Seq<char>) -> Seq<char> {
    word + seq![' ']
}

/// The text of a punctuation token.
pub open spec fn mark_text(c: char, spacing: Spacing) -> Seq<char> {
    if spacing == Spacing::Joint {
        seq![c]
    } else {
        seq![c, ' ']
    }
}

/// The text of a group around `inner`.
pub open spec fn group_text(delimiter: Delimiter, inner: Seq<char>) -> Seq<char> {
    open_text(delimiter) + inner + close_text(delimiter) + seq![' ']
}

/// The text of a lone punctuation character.
pub open spec fn alone(c: char) -> Seq<char> {
    mark_text(c, Spacing::Alone)
}

/// The text of a punctuation character joined to the next.
pub open spec fn joint(c: char) -> Seq<char> {
    mark_text(c, Spacing::Joint)
}

/// The text of tokens with one more token.
pub proof fn lemma_text_push(tokens: Seq<TokenTree>, token: TokenTree)
    ensures
        tokens_text(tokens.push(token)) == tokens_text(tokens) + match token {
            TokenTree::Group(delimiter, inner) => group_text(delimiter, tokens_text(inner@)),
            TokenTree::Ident(name) => word_text(name@),
            TokenTree::Literal(text) => word_text(text@),
            TokenTree::Punct(c, spacing) => mark_text(c, spacing),
        },
{
    let pushed = tokens.push(token);
    assert(pushed.subrange(0, pushed.len() - 1) =~= tokens);
    assert(pushed[pushed.len() - 1] == token);
    match token {
        TokenTree::Group(delimiter, inner) => {
            assert(tokens_text(pushed) == tokens_text(tokens) + open_text(delimiter) + tokens_text(
                inner@,
            ) + close_text(delimiter) + seq![' ']);
            assert(tokens_text(pushed) =~= tokens_text(tokens) + group_text(delimiter, tokens_text(inner@)));
        },
        TokenTree::Punct(c, spacing) => {
            if spacing == Spacing::Joint {
                assert(tokens_text(pushed) =~= tokens_text(tokens) + seq![c]);
            }
        },
        _ => {},
    }
}

/// The text of two token runs in turn.
pub proof fn lemma_text_concat(first: Seq<TokenTree>, second: Seq<TokenTree>)
    ensures
        tokens_text(first + second) == tokens_text(first) + tokens_text(second),
    decreases second.len(),
{
    if second.len() == 0 {
        assert(first + second =~= first);
        assert(tokens_text(second) == Seq::<char>::empty());
        assert(tokens_text(first) + tokens_text(second) =~= tokens_text(first));
    } else {
        let last = second.last();
        lemma_text_concat(first, second.drop_last());
        assert(first + second =~= (first + second.drop_last()).push(last));
        assert(second =~= second.drop_last().push(last));
        lemma_text_push(first + second.drop_last(), last);
        lemma_text_push(second.drop_last(), last);
        assert(tokens_text(first + second) =~= tokens_text(first) + tokens_text(second));
    }
}

/// Appends the word `word`.
pub fn push_word(tokens: &mut Vec<TokenTree>, word: &str)
    ensures
        tokens_text(final(tokens)@) == tokens_text(old(tokens)@) + word_text(word@),
{
    let token = TokenTree::Ident(String::from_str(word));
    proof {
        lemma_text_push(tokens@, token);
    }
    tokens.push(token);
}

/// Appends a word held in a string.
pub fn push_name(tokens: &mut Vec<TokenTree>, word: &String)
    ensures
        tokens_text(final(tokens)@) == tokens_text(old(tokens)@) + word_text(word@),
{
    let token = TokenTree::Ident(word.clone());
    proof {
        lemma_text_push(tokens@, token);
    }
    tokens.push(token);
}

/// Appends the punctuation character `c`.
pub fn push_mark(tokens: &mut Vec<TokenTree>, c: char, spacing: Spacing)
    ensures
        tokens_text(final(tokens)@) == tokens_text(old(tokens)@) + mark_text(c, spacing),
{
    let token = TokenTree::Punct(c, spacing);
    proof {
        lemma_text_push(tokens@, token);
    }
    tokens.push(token);
}

/// Appends a group around `inner`.
pub fn push_group(tokens: &mut Vec<TokenTree>, delimiter: Delimiter, inner: Vec<TokenTree>)
    ensures
        tokens_text(final(tokens)@) == tokens_text(old(tokens)@) + group_text(
            delimiter,
            tokens_text(inner@),
        ),
{
    let ghost text = tokens_text(inner@);
    let token = TokenTree::Group(delimiter, inner);
    proof {
        lemma_text_push(tokens@, token);
    }
    tokens.push(token);
}

/// Appends every token of `more`.
pub fn push_all(tokens: &mut Vec<TokenTree>, more: Vec<TokenTree>)
    ensures
        tokens_text(final(tokens)@) == tokens_text(old(tokens)@) + tokens_text(more@),
{
    let mut more = more;
    let ghost added = more@;
    proof {
        lemma_text_concat(tokens@, added);
    }
    tokens.append(&mut more);
}

} // verus!
