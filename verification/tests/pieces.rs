use philiprehberger_template::lexer::{tokenize, Token};
use philiprehberger_template::parser::{parse_tokens, Closing, Node};
use philiprehberger_template::render::{apply_filter, render_nodes};
use philiprehberger_template::{Value, ValueMap};
use philiprehberger_template::{ParseError, RenderError};

#[test]
fn tokenize_splits_text_and_tags() {
    let tokens = tokenize("a{ x | up }{{{#if !b}{:else}{/if}{#each c}{/each}").unwrap();
    assert_eq!(
        tokens,
        vec![
            Token::Text("a".to_string()),
            Token::Variable("x".to_string(), Some("up".to_string())),
            Token::Text("{".to_string()),
            Token::OpenIf("b".to_string(), true),
            Token::Else,
            Token::CloseIf,
            Token::OpenEach("c".to_string()),
            Token::CloseEach,
        ]
    );
    assert_eq!(tokenize("").unwrap(), vec![]);
    assert_eq!(
        tokenize("{oops").unwrap_err(),
        ParseError::InvalidSyntax("unclosed tag, expected '}'".to_string())
    );
}

#[test]
fn parse_tokens_builds_blocks() {
    let tokens = tokenize("x{#if a}y{:else}z{/if}").unwrap();
    let (nodes, rest) = parse_tokens(&tokens, 0, Closing::Top).unwrap();
    assert_eq!(rest, tokens.len());
    assert_eq!(nodes.len(), 2);
    match &nodes[1] {
        Node::Conditional { variable, negated, body, else_body } => {
            assert_eq!(variable, "a");
            assert!(!negated);
            assert_eq!(body.len(), 1);
            assert_eq!(else_body.len(), 1);
        }
        _ => panic!("expected a conditional"),
    }
    let (inner, after) = parse_tokens(&tokens, 2, Closing::If).unwrap();
    assert_eq!(inner.len(), 1);
    assert_eq!(after, 3);
    assert!(matches!(
        parse_tokens(&tokens, 3, Closing::Each).unwrap_err(),
        ParseError::UnmatchedBlock(_)
    ));
}

#[test]
fn apply_filter_by_name() {
    assert_eq!(apply_filter("Ab", "lower").unwrap(), "ab");
    assert_eq!(apply_filter("Ab", "upper").unwrap(), "AB");
    assert_eq!(apply_filter(" Ab ", "trim").unwrap(), "Ab");
    assert_eq!(
        apply_filter("Ab", "Upper").unwrap_err(),
        RenderError::TypeError("unknown filter: Upper".to_string())
    );
}

#[test]
fn output_on_error_keeps_what_came_before() {
    let mut data = ValueMap::new();
    data.insert("a".to_string(), Value::from("A"));
    data.insert("xs".to_string(), Value::List(vec![Value::from("p"), Value::from(true)]));
    data.insert("s".to_string(), Value::from("str"));

    let tokens = tokenize("x{a}{a|bad}y").unwrap();
    let (nodes, _) = parse_tokens(&tokens, 0, Closing::Top).unwrap();
    let mut out = String::from("pre:");
    assert!(render_nodes(&nodes, &data, None, &mut out).is_err());
    assert_eq!(out, "pre:xA");

    let tokens = tokenize("{#each xs}[{.}]{.|bad}{/each}").unwrap();
    let (nodes, _) = parse_tokens(&tokens, 0, Closing::Top).unwrap();
    let mut out = String::new();
    assert!(render_nodes(&nodes, &data, None, &mut out).is_err());
    assert_eq!(out, "[p]");

    let tokens = tokenize("{#each s}z{/each}").unwrap();
    let (nodes, _) = parse_tokens(&tokens, 0, Closing::Top).unwrap();
    let mut out = String::from("keep");
    assert!(render_nodes(&nodes, &data, None, &mut out).is_err());
    assert_eq!(out, "keep");

    let tokens = tokenize("{.}").unwrap();
    let (nodes, _) = parse_tokens(&tokens, 0, Closing::Top).unwrap();
    let mut out = String::new();
    assert_eq!(
        render_nodes(&nodes, &ValueMap::new(), None, &mut out).unwrap_err(),
        RenderError::MissingVariable(".".to_string())
    );
    assert_eq!(out, "");
}

#[test]
fn block_body_parses_alone() {
    let tokens = tokenize("{#each xs}a{b}{#if c}d{/if}{/each}tail").unwrap();
    let (body, end) = parse_tokens(&tokens, 1, Closing::Each).unwrap();
    assert_eq!(end, 6);
    assert_eq!(tokens[6], Token::CloseEach);
    let prefix = tokens[..6].to_vec();
    let (alone, alone_end) = parse_tokens(&prefix, 1, Closing::Top).unwrap();
    assert_eq!(alone_end, 6);
    assert_eq!(alone.len(), body.len());
    assert_eq!(body.len(), 3);
}
