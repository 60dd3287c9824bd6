use std::collections::BTreeMap;
use std::collections::HashMap;

use liquery::context::{Context, EvalError, EvalErrorView, EvalResult, QueryReturn,
    QueryReturnView};
use liquery::{Query, Token, TokenView};
use vstd::prelude::*;

// The `funcs` and `func_result` members of `Context` are specification
// functions: nothing calls them at run time, so the implementations
// below stub them out.

/// A context with no functions bound.
struct NoFuncs;

impl Context for NoFuncs {
    fn funcs(&self) -> Set<Seq<char>> {
        unreachable!()
    }

    fn func_result(
        &self,
        _name: Seq<char>,
        _args: Seq<TokenView>,
    ) -> Result<QueryReturnView, EvalErrorView> {
        unreachable!()
    }

    fn call_func(&self, _name: &str, _args: &Vec<Token>) -> Option<EvalResult<QueryReturn>> {
        None
    }
}

/// A context binding `hi` to a function that ignores its arguments and
/// returns the text `hi!`.
struct HiFuncs;

impl Context for HiFuncs {
    fn funcs(&self) -> Set<Seq<char>> {
        unreachable!()
    }

    fn func_result(
        &self,
        _name: Seq<char>,
        _args: Seq<TokenView>,
    ) -> Result<QueryReturnView, EvalErrorView> {
        unreachable!()
    }

    fn call_func(&self, name: &str, _args: &Vec<Token>) -> Option<EvalResult<QueryReturn>> {
        if name == "hi" {
            Some(Ok(QueryReturn {
                text: "hi!".to_owned(),
                condition: None,
            }))
        } else {
            None
        }
    }
}

/// A context binding `count` to a function that reports how many raw
/// argument tokens it was handed.
struct CountFuncs;

impl Context for CountFuncs {
    fn funcs(&self) -> Set<Seq<char>> {
        unreachable!()
    }

    fn func_result(
        &self,
        _name: Seq<char>,
        _args: Seq<TokenView>,
    ) -> Result<QueryReturnView, EvalErrorView> {
        unreachable!()
    }

    fn call_func(&self, name: &str, args: &Vec<Token>) -> Option<EvalResult<QueryReturn>> {
        if name == "count" {
            Some(Ok(QueryReturn {
                text: format!("{}", args.len()),
                condition: None,
            }))
        } else {
            None
        }
    }
}

#[test]
fn test_run() {
    let mut map = HashMap::new();
    map.insert("name".to_owned(), "Dave".to_owned());

    let result = Query::parse("Hello %name%!".to_owned())
        .unwrap()
        .eval(&map, &NoFuncs)
        .unwrap();

    assert_eq!("Hello Dave!".to_owned(), result);
}

#[test]
fn test_run_unknown_variable() {
    let map = HashMap::new();

    let result = Query::parse("Hello %name%!".to_owned())
        .unwrap()
        .eval(&map, &NoFuncs)
        .unwrap();

    assert_eq!("Hello !".to_owned(), result);
}

#[test]
fn test_run_func() {
    let map = HashMap::new();

    let result = Query::parse("Hello $hi()".to_owned())
        .unwrap()
        .eval(&map, &HiFuncs)
        .unwrap();

    assert_eq!("Hello hi!".to_owned(), result);
}

#[test]
fn test_run_func_does_not_exist() {
    let map = HashMap::new();

    match Query::parse("Hello $hi()".to_owned())
        .unwrap()
        .eval(&map, &NoFuncs)
    {
        Ok(_) => unreachable!(),
        Err(e) => match e {
            EvalError::FunctionNotFound(_) => (),
        },
    }
}

#[test]
fn context_test_run() {
    let mut map = HashMap::new();
    map.insert("name".to_owned(), "Dave".to_owned());

    let result = Query::parse("Hello %name%".to_owned())
        .unwrap()
        .eval(&map, &NoFuncs)
        .unwrap();

    assert_eq!("Hello Dave".to_owned(), result);
}

#[test]
fn context_test_run_func() {
    let map = HashMap::new();

    let result = Query::parse("Hello $hi()".to_owned())
        .unwrap()
        .eval(&map, &HiFuncs)
        .unwrap();

    assert_eq!("Hello hi!".to_owned(), result);
}

#[test]
fn unknown_variable_resolves_to_empty_text() {
    let map: HashMap<String, String> = HashMap::new();

    let result = Query::parse("Hello %name%".to_owned())
        .unwrap()
        .eval(&map, &NoFuncs)
        .unwrap();

    assert_eq!("Hello ".to_owned(), result);
}

#[test]
fn run_with_btree_map() {
    let mut map = BTreeMap::new();
    map.insert("name".to_owned(), "Dave".to_owned());

    let result = Query::parse("Hello %name%".to_owned())
        .unwrap()
        .eval(&map, &NoFuncs)
        .unwrap();

    assert_eq!("Hello Dave".to_owned(), result);
}

#[test]
fn round_trip_plain_text() {
    let map = HashMap::new();

    let result = Query::parse("plain text without sentinels".to_owned())
        .unwrap()
        .eval(&map, &NoFuncs)
        .unwrap();

    assert_eq!("plain text without sentinels".to_owned(), result);
}

#[test]
fn round_trip_empty() {
    let map = HashMap::new();

    let result = Query::parse("".to_owned()).unwrap().eval(&map, &NoFuncs).unwrap();

    assert_eq!("".to_owned(), result);
}

#[test]
fn escapes_resolve_to_literals() {
    let map = HashMap::new();

    let result = Query::parse("a\\tb\\nc\\%d\\$e\\,f\\\\g".to_owned())
        .unwrap()
        .eval(&map, &NoFuncs)
        .unwrap();

    assert_eq!("a\tb\nc%d$e,f\\g".to_owned(), result);
}

#[test]
fn fail_fast_on_missing_function() {
    let mut map = HashMap::new();
    map.insert("name".to_owned(), "Dave".to_owned());

    match Query::parse("a$missing()b".to_owned())
        .unwrap()
        .eval(&map, &NoFuncs)
    {
        Ok(_) => unreachable!(),
        Err(EvalError::FunctionNotFound(name)) => assert_eq!(name, "missing"),
    }
}

#[test]
fn function_receives_raw_arguments() {
    let map = HashMap::new();

    let result = Query::parse("$count(a, b, %c%)".to_owned())
        .unwrap()
        .eval(&map, &CountFuncs)
        .unwrap();

    assert_eq!("3".to_owned(), result);
}

#[test]
fn scope_condition_aggregates_by_or() {
    let mut map = HashMap::new();
    map.insert("name".to_owned(), "Dave".to_owned());

    let found = Query::parse("Hello %name%".to_owned()).unwrap();
    let result = found.tokens().eval(&map, &NoFuncs).unwrap();
    assert_eq!(result.text, "Hello Dave");
    assert_eq!(result.condition, Some(true));

    let absent = Query::parse("Hello %other%".to_owned()).unwrap();
    let result = absent.tokens().eval(&map, &NoFuncs).unwrap();
    assert_eq!(result.text, "Hello ");
    assert_eq!(result.condition, Some(false));

    let plain = Query::parse("Hello".to_owned()).unwrap();
    let result = plain.tokens().eval(&map, &NoFuncs).unwrap();
    assert_eq!(result.text, "Hello");
    assert_eq!(result.condition, Some(false));
}

#[test]
fn top_level_comma_drops_the_rest() {
    let mut map = HashMap::new();
    map.insert("name".to_owned(), "Dave".to_owned());

    let result = Query::parse("a,%name%".to_owned())
        .unwrap()
        .eval(&map, &NoFuncs)
        .unwrap();

    assert_eq!("a".to_owned(), result);
}
