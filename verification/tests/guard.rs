use sml::dsl::{
    visit_guards, AsyncIdent, Delimiter, GuardExpression, GuardSyntaxError, Spacing, TokenTree,
};

fn tree_from(tree: proc_macro2::TokenTree) -> TokenTree {
    match tree {
        proc_macro2::TokenTree::Group(group) => {
            let delimiter = match group.delimiter() {
                proc_macro2::Delimiter::Parenthesis => Delimiter::Parenthesis,
                proc_macro2::Delimiter::Brace => Delimiter::Brace,
                proc_macro2::Delimiter::Bracket => Delimiter::Bracket,
                proc_macro2::Delimiter::None => Delimiter::Invisible,
            };
            TokenTree::Group(delimiter, group.stream().into_iter().map(tree_from).collect())
        }
        proc_macro2::TokenTree::Ident(ident) => TokenTree::Ident(ident.to_string()),
        proc_macro2::TokenTree::Punct(punct) => {
            let spacing = match punct.spacing() {
                proc_macro2::Spacing::Alone => Spacing::Alone,
                proc_macro2::Spacing::Joint => Spacing::Joint,
            };
            TokenTree::Punct(punct.as_char(), spacing)
        }
        proc_macro2::TokenTree::Literal(literal) => TokenTree::Literal(literal.to_string()),
    }
}

fn tokens(source: &str) -> Vec<TokenTree> {
    source
        .parse::<proc_macro2::TokenStream>()
        .unwrap()
        .into_iter()
        .map(tree_from)
        .collect()
}

fn tree_into(tree: TokenTree) -> proc_macro2::TokenTree {
    match tree {
        TokenTree::Group(delimiter, inner) => {
            let delimiter = match delimiter {
                Delimiter::Parenthesis => proc_macro2::Delimiter::Parenthesis,
                Delimiter::Brace => proc_macro2::Delimiter::Brace,
                Delimiter::Bracket => proc_macro2::Delimiter::Bracket,
                Delimiter::Invisible => proc_macro2::Delimiter::None,
            };
            let stream: proc_macro2::TokenStream = inner.into_iter().map(tree_into).collect();
            proc_macro2::TokenTree::Group(proc_macro2::Group::new(delimiter, stream))
        }
        TokenTree::Ident(name) => {
            proc_macro2::TokenTree::Ident(proc_macro2::Ident::new(&name, proc_macro2::Span::call_site()))
        }
        TokenTree::Punct(c, spacing) => {
            let spacing = match spacing {
                Spacing::Alone => proc_macro2::Spacing::Alone,
                Spacing::Joint => proc_macro2::Spacing::Joint,
            };
            proc_macro2::TokenTree::Punct(proc_macro2::Punct::new(c, spacing))
        }
        TokenTree::Literal(text) => {
            proc_macro2::TokenTree::Literal(text.parse::<proc_macro2::Literal>().unwrap())
        }
    }
}

fn render(written: Vec<TokenTree>) -> String {
    written.into_iter().map(tree_into).collect::<proc_macro2::TokenStream>().to_string()
}

fn parse_str(source: &str) -> Result<GuardExpression, GuardSyntaxError> {
    GuardExpression::parse(&tokens(source))
}

fn call_tokens(guard: &AsyncIdent) -> Vec<TokenTree> {
    let mut written = vec![
        TokenTree::Ident(guard.ident.clone()),
        TokenTree::Group(Delimiter::Parenthesis, Vec::new()),
    ];
    if guard.is_async {
        written.push(TokenTree::Punct('.', Spacing::Alone));
        written.push(TokenTree::Ident("await".to_string()));
    }
    written
}

fn dsl_tokens(guard: &AsyncIdent) -> Vec<TokenTree> {
    let mut written = Vec::new();
    if guard.is_async {
        written.push(TokenTree::Ident("async".to_string()));
    }
    written.push(TokenTree::Ident(guard.ident.clone()));
    written
}

#[test]
fn bad_guard_expression() {
    let guard_expression = "a && b c";
    assert!(parse_str(guard_expression).is_err());
}

#[test]
fn guard_expressions() {
    for (guard_expression_str, expected) in vec![
        ("guard", "guard()"),
        ("async guard", "guard().await"),
        ("async a || async b", "a().await || b().await"),
        ("!guard", "!guard()"),
        ("a && b", "a() && b()"),
        ("a || b", "a() || b()"),
        ("a || b || c", "a() || b() || c()"),
        ("a || b && c || d", "a() || b() && c() || d()"),
        ("(a || b) && (c || d)", "(a() || b()) && (c() || d())"),
        ("a && b || c && d", "a() && b() || c() && d()"),
        (
            "a && ( !b && c ) || d && e",
            "a() && (!b() && c()) || d() && e()",
        ),
    ] {
        let guard_expression = parse_str(guard_expression_str).unwrap();
        assert_eq!(guard_expression.to_string(), expected);
    }
}

#[test]
fn guard_tokens_and_visitor_cover_the_expression_tree() {
    let expression = parse_str("!(async a || b) && c").unwrap();
    let written = expression.to_token_stream(&mut |guard: &AsyncIdent| call_tokens(guard));
    assert_eq!(render(written), "! (a () . await || b ()) && c ()");

    let mut visited = Vec::new();
    visit_guards(&expression, |guard: &AsyncIdent| -> Result<(), ()> {
        visited.push(guard.ident.to_string());
        Ok(())
    })
    .unwrap();
    visited.sort();
    assert_eq!(visited, ["a", "b", "c"]);

    assert!(visit_guards(&expression, |_guard: &AsyncIdent| -> Result<(), ()> { Err(()) }).is_err());
}

#[test]
fn operators_group_from_the_left_with_and_binding_tighter() {
    let parsed = parse_str("a || b && c || d").unwrap();
    match parsed {
        GuardExpression::Or(left, right) => {
            assert!(matches!(*right, GuardExpression::Guard(ref guard) if guard.ident == "d"));
            match *left {
                GuardExpression::Or(first, middle) => {
                    assert!(matches!(*first, GuardExpression::Guard(ref guard) if guard.ident == "a"));
                    assert!(matches!(*middle, GuardExpression::And(_, _)));
                }
                _ => panic!("the left operand is a disjunction"),
            }
        }
        _ => panic!("the guard is a disjunction"),
    }
}

#[test]
fn malformed_guards_are_refused() {
    for source in ["", "!!a", "a ||", "&& a", "async", "async async", "a b", "()", "a | b", "a & & b", "_", "[a]"] {
        assert!(parse_str(source).is_err(), "{}", source);
    }
}

#[test]
fn written_guards_parse_back() {
    for source in ["a", "async a", "!a", "a && !b", "(a || b) && c", "a || b && c || d", "!(async a || b) && c"] {
        let parsed = parse_str(source).unwrap();
        let written = parsed.to_token_stream(&mut |guard: &AsyncIdent| dsl_tokens(guard));
        let reparsed = GuardExpression::parse(&written).unwrap();
        assert_eq!(reparsed.to_string(), parsed.to_string());
    }
}
