use liquery::parser::{parse, ParseError};
use liquery::{Query, Token};

fn parsed_tokens(input: &str) -> Token {
    let out = Query::parse(input.to_owned()).unwrap();
    out.tokens().clone()
}

#[test]
fn parse_empty() {
    let out = Query::parse("".to_owned()).unwrap();
    assert_eq!(*out.tokens(), Token::Scope(vec![]));
}

#[test]
fn test_parse_empty() {
    let out = parse("".to_owned()).unwrap();
    assert_eq!(*out.tokens(), Token::Scope(vec![]));
}

// Single token tests

#[test]
fn parse_variable() {
    assert_eq!(
        parsed_tokens("%hello%"),
        Token::Scope(vec![Token::Variable("hello".to_owned())])
    );
}

#[test]
fn parse_variable_empty_name() {
    assert_eq!(
        parsed_tokens("%%"),
        Token::Scope(vec![Token::Variable("".to_owned())])
    );
}

#[test]
fn parse_text() {
    assert_eq!(
        parsed_tokens("hello"),
        Token::Scope(vec![Token::Text("hello".to_owned())])
    );
}

#[test]
fn parse_escape() {
    assert_eq!(
        parsed_tokens("\\t"),
        Token::Scope(vec![Token::Text("\t".to_owned())])
    );
}

#[test]
fn parse_escape_all() {
    assert_eq!(
        parsed_tokens("\\n\\t\\\\\\%\\$\\,"),
        Token::Scope(vec![Token::Text("\n\t\\%$,".to_owned())])
    );
}

#[test]
fn parse_func() {
    assert_eq!(
        parsed_tokens("$func()"),
        Token::Scope(vec![Token::Function("func".to_owned(), vec![])])
    );
}

// Function tests

#[test]
fn parse_func_param() {
    assert_eq!(
        parsed_tokens("$func(expr, expr)"),
        Token::Scope(vec![Token::Function(
            "func".to_owned(),
            vec![
                Token::Scope(vec![Token::Text("expr".to_owned())]),
                Token::Scope(vec![Token::Text(" expr".to_owned())]),
            ]
        )])
    );
}

#[test]
fn parse_func_param_var() {
    assert_eq!(
        parsed_tokens("$func(expr, expr, %name%)"),
        Token::Scope(vec![Token::Function(
            "func".to_owned(),
            vec![
                Token::Scope(vec![Token::Text("expr".to_owned())]),
                Token::Scope(vec![Token::Text(" expr".to_owned())]),
                Token::Scope(vec![
                    Token::Text(" ".to_owned()),
                    Token::Variable("name".to_owned()),
                ]),
            ]
        )])
    );
}

#[test]
fn parse_func_rec_params() {
    assert_eq!(
        parsed_tokens("$i($f())"),
        Token::Scope(vec![Token::Function(
            "i".to_owned(),
            vec![Token::Scope(vec![Token::Function(
                "f".to_owned(),
                vec![]
            )])]
        )])
    );
}

#[test]
fn parse_func_empty_args() {
    // a `,` closes the current argument and opens the next one, so a
    // lone separator yields two empty-scope arguments
    assert_eq!(
        parsed_tokens("$f(,)"),
        Token::Scope(vec![Token::Function(
            "f".to_owned(),
            vec![Token::Scope(vec![]), Token::Scope(vec![])]
        )])
    );
}

#[test]
fn parse_func_trailing_empty_arg() {
    assert_eq!(
        parsed_tokens("$f(a,)"),
        Token::Scope(vec![Token::Function(
            "f".to_owned(),
            vec![
                Token::Scope(vec![Token::Text("a".to_owned())]),
                Token::Scope(vec![]),
            ]
        )])
    );
}

#[test]
fn parse_func_leading_empty_arg() {
    assert_eq!(
        parsed_tokens("$f(,a)"),
        Token::Scope(vec![Token::Function(
            "f".to_owned(),
            vec![
                Token::Scope(vec![]),
                Token::Scope(vec![Token::Text("a".to_owned())]),
            ]
        )])
    );
}

// Multi token tests

#[test]
fn parse_text_and_variable() {
    assert_eq!(
        parsed_tokens("Hello %name%"),
        Token::Scope(vec![
            Token::Text("Hello ".to_owned()),
            Token::Variable("name".to_owned()),
        ])
    );
}

#[test]
fn parse_text_and_variable_start_with_open_bracket() {
    assert_eq!(
        parsed_tokens("Hello (%name%"),
        Token::Scope(vec![
            Token::Text("Hello (".to_owned()),
            Token::Variable("name".to_owned()),
        ])
    );
}

#[test]
fn parse_text_and_variable_start_with_close_bracket() {
    assert_eq!(
        parsed_tokens("Hello )%name%"),
        Token::Scope(vec![
            Token::Text("Hello )".to_owned()),
            Token::Variable("name".to_owned()),
        ])
    );
}

#[test]
fn parse_close_bracket_leads() {
    // `)` is ordinary literal text at the top level of a query
    assert_eq!(
        parsed_tokens(")ab"),
        Token::Scope(vec![Token::Text(")ab".to_owned())])
    );
}

#[test]
fn parse_text_var_func() {
    assert_eq!(
        parsed_tokens("Hello %name% $f()"),
        Token::Scope(vec![
            Token::Text("Hello ".to_owned()),
            Token::Variable("name".to_owned()),
            Token::Text(" ".to_owned()),
            Token::Function("f".to_owned(), vec![]),
        ])
    );
}

#[test]
fn parse_top_level_comma_stops() {
    // `,` is always special: a top-level scope ends before it and the
    // rest of the input is dropped
    assert_eq!(
        parsed_tokens("a,b"),
        Token::Scope(vec![Token::Text("a".to_owned())])
    );
}

#[test]
fn parse_idempotent() {
    let first = Query::parse("Hello %name% $f(x, %y%)".to_owned()).unwrap();
    let second = Query::parse("Hello %name% $f(x, %y%)".to_owned()).unwrap();
    assert_eq!(first, second);
}

// Parse failures

#[test]
fn parse_fail_miss_matched_variable() {
    let out = Query::parse("%hello".to_owned());
    assert!(matches!(out, Err(ParseError::VariableMissingClosing)));
}

#[test]
fn parse_fail_unknown_escape() {
    let out = Query::parse("\\?".to_owned());
    match out {
        Err(ParseError::UnknownEscape(sequence)) => assert_eq!(sequence, "\\?"),
        _ => panic!("expected an unknown escape error"),
    }
}

#[test]
fn parse_fail_end_with_escape() {
    let out = Query::parse("\\".to_owned());
    assert!(matches!(out, Err(ParseError::EscapeAtEndOfQuery)));
}

#[test]
fn parse_fail_func_no_para() {
    let out = Query::parse("$func".to_owned());
    assert!(matches!(out, Err(ParseError::FuncMissingParameter)));
}

#[test]
fn parse_fail_func_no_close_para() {
    let out = Query::parse("$func(".to_owned());
    assert!(matches!(out, Err(ParseError::FuncParameterNotClosed)));
}

// Errors inside the scope of a function

#[test]
fn parse_fail_miss_matched_variable_in_func() {
    let out = Query::parse("$test(%hello)".to_owned());
    assert!(matches!(out, Err(ParseError::VariableMissingClosing)));
}

#[test]
fn parse_fail_unknown_escape_in_func() {
    let out = Query::parse("$test(\\?)".to_owned());
    assert!(matches!(out, Err(ParseError::UnknownEscape(_))));
}

#[test]
fn parse_fail_func_no_para_in_func() {
    let out = Query::parse("$test($func)".to_owned());
    assert!(matches!(out, Err(ParseError::FuncMissingParameter)));
}
