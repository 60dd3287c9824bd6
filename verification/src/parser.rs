//! The recursive-descent parser: turns a character sequence into a `Query`.

use vstd::prelude::*;
use crate::Token;
use crate::TokenView;
use crate::Query;

verus! {

/// Errors found in parsing a query.
#[derive(Debug, PartialEq, Eq)]
pub enum ParseError {
    /// Unknown escape sequence.
    /// The string contains the sequence.
    UnknownEscape(String),
    /// Escape sequence at end of query
    EscapeAtEndOfQuery,
    /// Variable is missing its closing character
    VariableMissingClosing,
    /// Function is missing the start of its parameters
    FuncMissingParameter,
    /// Function parameters are missing the closing character
    FuncParameterNotClosed,
}

/// The mathematical model of a `ParseError`.
pub enum ParseErrorView {
    UnknownEscape(Seq<char>),
    EscapeAtEndOfQuery,
    VariableMissingClosing,
    FuncMissingParameter,
    FuncParameterNotClosed,
}

impl View for ParseError {
    type V = ParseErrorView;

    open spec fn view(&self) -> ParseErrorView {
        match self {
            ParseError::UnknownEscape(s) => ParseErrorView::UnknownEscape(s@),
            ParseError::EscapeAtEndOfQuery => ParseErrorView::EscapeAtEndOfQuery,
            ParseError::VariableMissingClosing => ParseErrorView::VariableMissingClosing,
            ParseError::FuncMissingParameter => ParseErrorView::FuncMissingParameter,
            ParseError::FuncParameterNotClosed => ParseErrorView::FuncParameterNotClosed,
        }
    }
}

pub type ParseResult<T> = Result<T, ParseError>;

/// The characters that carry structure: everything else is literal text.
pub open spec fn is_sentinel(c: char) -> bool {
    c == '%' || c == '$' || c == '(' || c == ')' || c == ',' || c == '\\'
}

/// The literal character an escape sequence `\c` decodes to, or `None`
/// when `\c` is not a known escape.
pub open spec fn escape_value(c: char) -> Option<char> {
    if c == 'n' {
        Some('\n')
    } else if c == 't' {
        Some('\t')
    } else if c == '\\' {
        Some('\\')
    } else if c == '%' {
        Some('%')
    } else if c == '$' {
        Some('$')
    } else if c == ',' {
        Some(',')
    } else {
        None
    }
}

/// The characters that stop the accumulation of a literal text run.
/// `)` is ordinary literal text at the top level of a query but a
/// terminator inside a function argument; `,` always stops.
pub open spec fn is_text_stop(c: char, top_level: bool) -> bool {
    c == '%' || c == '$' || c == ',' || (!top_level && c == ')')
}

/// The characters on which a scope stops without consuming them.
/// A function-argument scope ends before its delimiter; a top-level
/// scope also ends before a `,` (everything after it is dropped).
pub open spec fn is_scope_stop(c: char, top_level: bool) -> bool {
    c == ',' || (!top_level && c == ')')
}

/// Scan characters verbatim from `i` until the character `stop`, which is
/// consumed; the result is the accumulated run and the position after
/// `stop`. `None` when the input ends first.
pub open spec fn spec_scan_name(s: Seq<char>, i: int, stop: char) -> Option<(Seq<char>, int)>
    decreases s.len() - i,
{
    if i < 0 || i >= s.len() {
        None
    } else if s[i] == stop {
        Some((Seq::empty(), i + 1))
    } else {
        match spec_scan_name(s, i + 1, stop) {
            None => None,
            Some((name, j)) => Some((seq![s[i]] + name, j)),
        }
    }
}

/// Accumulate literal text from `i`, decoding escapes, up to (but not
/// consuming) the next stop character or the end of the input; the result
/// is the decoded run and the position where it stopped.
pub open spec fn spec_parse_text(s: Seq<char>, i: int, top_level: bool) -> Result<
    (Seq<char>, int),
    ParseErrorView,
>
    decreases s.len() - i,
{
    if i < 0 || i >= s.len() || is_text_stop(s[i], top_level) {
        Ok((Seq::empty(), i))
    } else if s[i] == '\\' {
        if i + 1 >= s.len() {
            Err(ParseErrorView::EscapeAtEndOfQuery)
        } else {
            match escape_value(s[i + 1]) {
                None => Err(ParseErrorView::UnknownEscape(seq!['\\', s[i + 1]])),
                Some(c) => match spec_parse_text(s, i + 2, top_level) {
                    Err(e) => Err(e),
                    Ok((t, j)) => Ok((seq![c] + t, j)),
                },
            }
        }
    } else {
        match spec_parse_text(s, i + 1, top_level) {
            Err(e) => Err(e),
            Ok((t, j)) => Ok((seq![s[i]] + t, j)),
        }
    }
}

/// Parse a variable reference whose opening `%` stands at `i`: the name is
/// taken verbatim up to the closing `%`.
pub open spec fn spec_parse_variable(s: Seq<char>, i: int) -> Result<
    (TokenView, int),
    ParseErrorView,
> {
    match spec_scan_name(s, i + 1, '%') {
        None => Err(ParseErrorView::VariableMissingClosing),
        Some((name, j)) => Ok((TokenView::Variable(name), j)),
    }
}

/// Parse a function call whose opening `$` stands at `i`: the name is
/// taken verbatim up to `(`, then the argument list up to the closing `)`.
///
/// The `i < j` guards here and below only record that the item parsers
/// consume at least one character, which the executable parser proves;
/// they are never taken.
pub open spec fn spec_parse_function(s: Seq<char>, i: int) -> Result<
    (TokenView, int),
    ParseErrorView,
>
    decreases s.len() - i, 0int,
{
    match spec_scan_name(s, i + 1, '(') {
        None => Err(ParseErrorView::FuncMissingParameter),
        Some((name, j)) => if i < j <= s.len() {
            match spec_parse_args(s, j) {
                Err(e) => Err(e),
                Ok((args, k)) => Ok((TokenView::Function(name, args), k)),
            }
        } else {
            Err(ParseErrorView::FuncMissingParameter)
        },
    }
}

/// Parse a function's argument list from `i` (just after the `(`) to just
/// after the closing `)`. An immediate `)` closes an empty list;
/// otherwise the list is one or more `,`-separated argument scopes, and
/// an argument may be empty: `$f(,)` has two empty-scope arguments.
pub open spec fn spec_parse_args(s: Seq<char>, i: int) -> Result<
    (Seq<TokenView>, int),
    ParseErrorView,
>
    decreases s.len() - i, 3int,
{
    if i < 0 || i >= s.len() {
        Err(ParseErrorView::FuncParameterNotClosed)
    } else if s[i] == ')' {
        Ok((Seq::empty(), i + 1))
    } else {
        spec_parse_arglist(s, i)
    }
}

/// Parse one or more `,`-separated argument scopes from `i` to just after
/// the closing `)`. Each `,` closes the current (possibly empty) argument
/// and opens the next one.
///
/// An argument scope stops only at a `,`, a `)` or the end of the input,
/// so the arm for any other stop character is never taken.
pub open spec fn spec_parse_arglist(s: Seq<char>, i: int) -> Result<
    (Seq<TokenView>, int),
    ParseErrorView,
>
    decreases s.len() - i, 2int,
{
    match spec_parse_scope(s, i, false) {
        Err(e) => Err(e),
        Ok((scope, j)) => if i <= j < s.len() {
            if s[j] == ')' {
                Ok((seq![TokenView::Scope(scope)], j + 1))
            } else if s[j] == ',' {
                match spec_parse_arglist(s, j + 1) {
                    Err(e) => Err(e),
                    Ok((rest, k)) => Ok((seq![TokenView::Scope(scope)] + rest, k)),
                }
            } else {
                Err(ParseErrorView::FuncParameterNotClosed)
            }
        } else {
            Err(ParseErrorView::FuncParameterNotClosed)
        },
    }
}

/// Parse a scope from `i`: a sequence of text runs, variables and function
/// calls, up to (but not consuming) a stop character or the end of the
/// input; the result is the children and the position where it stopped.
pub open spec fn spec_parse_scope(s: Seq<char>, i: int, top_level: bool) -> Result<
    (Seq<TokenView>, int),
    ParseErrorView,
>
    decreases s.len() - i, 1int,
{
    if i < 0 || i >= s.len() || is_scope_stop(s[i], top_level) {
        Ok((Seq::empty(), i))
    } else {
        let item = if s[i] == '%' {
            spec_parse_variable(s, i)
        } else if s[i] == '$' {
            spec_parse_function(s, i)
        } else {
            match spec_parse_text(s, i, top_level) {
                Err(e) => Err(e),
                Ok((t, j)) => Ok((TokenView::Text(t), j)),
            }
        };
        match item {
            Err(e) => Err(e),
            Ok((tok, j)) => if i < j <= s.len() {
                match spec_parse_scope(s, j, top_level) {
                    Err(e) => Err(e),
                    Ok((rest, k)) => Ok((seq![tok] + rest, k)),
                }
            } else {
                Ok((seq![tok], j))
            },
        }
    }
}

/// What parsing a whole query yields: the root scope, or the first error.
/// Characters after a top-level `,` are dropped, as the scope stops there.
pub open spec fn spec_parse(s: Seq<char>) -> Result<TokenView, ParseErrorView> {
    match spec_parse_scope(s, 0, true) {
        Ok((tokens, j)) => Ok(TokenView::Scope(tokens)),
        Err(e) => Err(e),
    }
}

/// Relies on `String::push`, which appends the given character to the end
/// of the string.
pub assume_specification[ String::push ](s: &mut String, ch: char)
    ensures
        final(s)@ == old(s)@.push(ch),
;

/// The characters of a string slice, in order.
fn to_chars(s: &str) -> (r: Vec<char>)
    ensures
        r@ == s@,
{
    let n = s.unicode_len();
    let mut r: Vec<char> = Vec::new();
    let mut i: usize = 0;
    while i < n
        invariant
            i <= n,
            n == s@.len(),
            r@ == s@.subrange(0, i as int),
        decreases n - i,
    {
        let c = s.get_char(i);
        r.push(c);
        proof {
            assert(r@ =~= s@.subrange(0, i + 1));
        }
        i = i + 1;
    }
    proof {
        assert(r@ =~= s@);
    }
    r
}

/// Decode the character following a `\`.
fn parse_escape(c: char) -> (r: ParseResult<char>)
    ensures
        match r {
            Ok(e) => escape_value(c) == Some(e),
            Err(err) => escape_value(c) is None && err@ == ParseErrorView::UnknownEscape(
                seq!['\\', c],
            ),
        },
{
    if c == 'n' {
        Ok('\n')
    } else if c == 't' {
        Ok('\t')
    } else if c == '\\' {
        Ok('\\')
    } else if c == '%' {
        Ok('%')
    } else if c == '$' {
        Ok('$')
    } else if c == ',' {
        Ok(',')
    } else {
        let mut sequence = String::new();
        sequence.push('\\');
        sequence.push(c);
        proof {
            assert(sequence@ =~= seq!['\\', c]);
        }
        Err(ParseError::UnknownEscape(sequence))
    }
}

/// Prefix an accumulated run onto the rest of a scan.
spec fn scan_step(acc: Seq<char>, rest: Option<(Seq<char>, int)>) -> Option<(Seq<char>, int)> {
    match rest {
        None => None,
        Some((name, j)) => Some((acc + name, j)),
    }
}

/// Scan characters verbatim from `start` until `stop`, which is consumed.
fn scan_name(s: &Vec<char>, start: usize, stop: char) -> (r: Option<(String, usize)>)
    requires
        start <= s@.len(),
    ensures
        match r {
            Some((name, end)) => spec_scan_name(s@, start as int, stop) == Some(
                (name@, end as int),
            ) && start < end <= s@.len(),
            None => spec_scan_name(s@, start as int, stop) is None,
        },
{
    let n = s.len();
    let mut name = String::new();
    let mut i: usize = start;
    loop
        invariant
            start <= i <= n,
            n == s@.len(),
            spec_scan_name(s@, start as int, stop) == scan_step(
                name@,
                spec_scan_name(s@, i as int, stop),
            ),
        decreases n - i,
    {
        if i >= n {
            return None;
        }
        let c = s[i];
        if c == stop {
            proof {
                assert(name@ + Seq::<char>::empty() =~= name@);
            }
            return Some((name, i + 1));
        }
        proof {
            let ghost rest = spec_scan_name(s@, i + 1, stop);
            if rest is Some {
                let ghost (t, j) = rest->0;
                assert(name@ + (seq![s@[i as int]] + t) =~= name@.push(s@[i as int]) + t);
            }
        }
        name.push(c);
        i = i + 1;
    }
}

/// Prefix an accumulated run onto the rest of a text parse.
spec fn text_step(acc: Seq<char>, rest: Result<(Seq<char>, int), ParseErrorView>) -> Result<
    (Seq<char>, int),
    ParseErrorView,
> {
    match rest {
        Err(e) => Err(e),
        Ok((t, j)) => Ok((acc + t, j)),
    }
}

/// Accumulate literal text from `start`, decoding escapes, up to (but not
/// consuming) the next stop character or the end of the input.
fn parse_text(s: &Vec<char>, start: usize, top_level: bool) -> (r: ParseResult<(String, usize)>)
    requires
        start < s@.len(),
        !is_text_stop(s@[start as int], top_level),
    ensures
        match r {
            Ok((text, end)) => spec_parse_text(s@, start as int, top_level) == Ok::<
                (Seq<char>, int),
                ParseErrorView,
            >((text@, end as int)) && start < end <= s@.len(),
            Err(e) => spec_parse_text(s@, start as int, top_level) == Err::<
                (Seq<char>, int),
                ParseErrorView,
            >(e@),
        },
{
    let n = s.len();
    let mut text = String::new();
    let mut i: usize = start;
    loop
        invariant
            start <= i <= n,
            n == s@.len(),
            !is_text_stop(s@[start as int], top_level),
            start < s@.len(),
            spec_parse_text(s@, start as int, top_level) == text_step(
                text@,
                spec_parse_text(s@, i as int, top_level),
            ),
        decreases n - i,
    {
        if i >= n {
            proof {
                assert(text@ + Seq::<char>::empty() =~= text@);
            }
            return Ok((text, i));
        }
        let c = s[i];
        if c == '%' || c == '$' || c == ',' || (!top_level && c == ')') {
            proof {
                assert(text@ + Seq::<char>::empty() =~= text@);
            }
            return Ok((text, i));
        }
        if c == '\\' {
            if i + 1 >= n {
                return Err(ParseError::EscapeAtEndOfQuery);
            }
            let next = s[i + 1];
            match parse_escape(next) {
                Err(e) => {
                    return Err(e);
                },
                Ok(decoded) => {
                    proof {
                        let ghost rest = spec_parse_text(s@, i + 2, top_level);
                        if rest is Ok {
                            let ghost (t, j) = rest->Ok_0;
                            assert(text@ + (seq![decoded] + t) =~= text@.push(decoded) + t);
                        }
                    }
                    text.push(decoded);
                    i = i + 2;
                },
            }
        } else {
            proof {
                let ghost rest = spec_parse_text(s@, i + 1, top_level);
                if rest is Ok {
                    let ghost (t, j) = rest->Ok_0;
                    assert(text@ + (seq![s@[i as int]] + t) =~= text@.push(s@[i as int]) + t);
                }
            }
            text.push(c);
            i = i + 1;
        }
    }
}

/// Parse a variable reference whose opening `%` stands at `start`.
fn parse_variable(s: &Vec<char>, start: usize) -> (r: ParseResult<(Token, usize)>)
    requires
        start < s@.len(),
        s@[start as int] == '%',
    ensures
        match r {
            Ok((tok, end)) => spec_parse_variable(s@, start as int) == Ok::<
                (TokenView, int),
                ParseErrorView,
            >((tok@, end as int)) && start < end <= s@.len(),
            Err(e) => spec_parse_variable(s@, start as int) == Err::<
                (TokenView, int),
                ParseErrorView,
            >(e@),
        },
{
    // the length fits in usize, so `start + 1` cannot overflow
    let _n = s.len();
    match scan_name(s, start + 1, '%') {
        None => Err(ParseError::VariableMissingClosing),
        Some((name, end)) => Ok((Token::Variable(name), end)),
    }
}

/// Prefix already-parsed children onto the rest of a scope or argument
/// list.
spec fn tokens_step(
    acc: Seq<TokenView>,
    rest: Result<(Seq<TokenView>, int), ParseErrorView>,
) -> Result<(Seq<TokenView>, int), ParseErrorView> {
    match rest {
        Err(e) => Err(e),
        Ok((ts, j)) => Ok((acc + ts, j)),
    }
}

/// Parse a scope from `start`, stopping (without consuming) at a stop
/// character or the end of the input.
fn parse_scope(s: &Vec<char>, start: usize, top_level: bool) -> (r: ParseResult<
    (Vec<Token>, usize),
>)
    requires
        start <= s@.len(),
    ensures
        match r {
            Ok((tokens, end)) => spec_parse_scope(s@, start as int, top_level) == Ok::<
                (Seq<TokenView>, int),
                ParseErrorView,
            >((crate::token_views(tokens@), end as int)) && start <= end <= s@.len() && (start
                < s@.len() && !is_scope_stop(s@[start as int], top_level) ==> start < end),
            Err(e) => spec_parse_scope(s@, start as int, top_level) == Err::<
                (Seq<TokenView>, int),
                ParseErrorView,
            >(e@),
        },
    decreases s@.len() - start, 1int,
{
    let n = s.len();
    let mut tokens: Vec<Token> = Vec::new();
    let mut i: usize = start;
    loop
        invariant
            start <= i <= n,
            n == s@.len(),
            spec_parse_scope(s@, start as int, top_level) == tokens_step(
                crate::token_views(tokens@),
                spec_parse_scope(s@, i as int, top_level),
            ),
        decreases n - i,
    {
        proof {
            assert(crate::token_views(tokens@) + Seq::<TokenView>::empty() =~= crate::token_views(
                tokens@,
            ));
        }
        if i >= n {
            return Ok((tokens, i));
        }
        let c = s[i];
        if c == ',' || (!top_level && c == ')') {
            return Ok((tokens, i));
        }
        let item = if c == '%' {
            parse_variable(s, i)
        } else if c == '$' {
            parse_function(s, i)
        } else {
            match parse_text(s, i, top_level) {
                Err(e) => Err(e),
                Ok((text, end)) => Ok((Token::Text(text), end)),
            }
        };
        match item {
            Err(e) => {
                return Err(e);
            },
            Ok((tok, end)) => {
                proof {
                    crate::lemma_token_views_push(tokens@, tok);
                    let ghost rest = spec_parse_scope(s@, end as int, top_level);
                    if rest is Ok {
                        let ghost (ts, k) = rest->Ok_0;
                        assert((crate::token_views(tokens@) + seq![tok@]) + ts
                            =~= crate::token_views(tokens@) + (seq![tok@] + ts));
                    }
                }
                tokens.push(tok);
                i = end;
            },
        }
    }
}

/// Parse a function call whose opening `$` stands at `start`.
fn parse_function(s: &Vec<char>, start: usize) -> (r: ParseResult<(Token, usize)>)
    requires
        start < s@.len(),
        s@[start as int] == '$',
    ensures
        match r {
            Ok((tok, end)) => spec_parse_function(s@, start as int) == Ok::<
                (TokenView, int),
                ParseErrorView,
            >((tok@, end as int)) && start < end <= s@.len(),
            Err(e) => spec_parse_function(s@, start as int) == Err::<
                (TokenView, int),
                ParseErrorView,
            >(e@),
        },
    decreases s@.len() - start, 0int,
{
    let n = s.len();
    // get the name of the function
    let (name, after_name) = match scan_name(s, start + 1, '(') {
        None => {
            return Err(ParseError::FuncMissingParameter);
        },
        Some(found) => found,
    };
    // an immediate `)` closes an empty argument list
    if after_name >= n {
        return Err(ParseError::FuncParameterNotClosed);
    }
    if s[after_name] == ')' {
        return Ok((Token::Function(name, Vec::new()), after_name + 1));
    }
    // one or more `,`-separated argument scopes, empty ones allowed
    let mut args: Vec<Token> = Vec::new();
    let mut i: usize = after_name;
    proof {
        let ghost whole = spec_parse_arglist(s@, after_name as int);
        if whole is Ok {
            let ghost (ts, k) = whole->Ok_0;
            assert(crate::token_views(args@) + ts =~= ts);
        }
    }
    loop
        invariant
            start < after_name <= i <= n,
            n == s@.len(),
            spec_scan_name(s@, start + 1, '(') == Some((name@, after_name as int)),
            spec_parse_args(s@, after_name as int) == spec_parse_arglist(
                s@,
                after_name as int,
            ),
            spec_parse_arglist(s@, after_name as int) == tokens_step(
                crate::token_views(args@),
                spec_parse_arglist(s@, i as int),
            ),
        decreases n - i,
    {
        match parse_scope(s, i, false) {
            Err(e) => {
                return Err(e);
            },
            Ok((scope_tokens, end)) => {
                let arg = Token::Scope(scope_tokens);
                if end >= n {
                    return Err(ParseError::FuncParameterNotClosed);
                }
                proof {
                    crate::lemma_token_views_push(args@, arg);
                }
                let c = s[end];
                if c == ')' {
                    args.push(arg);
                    return Ok((Token::Function(name, args), end + 1));
                } else if c == ',' {
                    proof {
                        let ghost rest = spec_parse_arglist(s@, end + 1);
                        if rest is Ok {
                            let ghost (ts, k) = rest->Ok_0;
                            assert((crate::token_views(args@) + seq![arg@]) + ts
                                =~= crate::token_views(args@) + (seq![arg@] + ts));
                        }
                    }
                    args.push(arg);
                    i = end + 1;
                } else {
                    // an argument scope stops only at `,` or `)`
                    return Err(ParseError::FuncParameterNotClosed);
                }
            },
        }
    }
}

impl Query {
    /// Parse a query string into its tree of tokens; the root is always a
    /// scope.
    pub fn parse(src: String) -> (r: ParseResult<Query>)
        ensures
            match r {
                Ok(q) => spec_parse(src@) == Ok::<TokenView, ParseErrorView>(q@) && q.wf(),
                Err(e) => spec_parse(src@) == Err::<TokenView, ParseErrorView>(e@),
            },
    {
        let chars = to_chars(src.as_str());
        match parse_scope(&chars, 0, true) {
            Ok((tokens, _end)) => Ok(Query::from_root(Token::Scope(tokens))),
            Err(e) => Err(e),
        }
    }
}

/// Parse a query string into a `Query`.
pub fn parse(src: String) -> (r: ParseResult<Query>)
    ensures
        match r {
            Ok(q) => spec_parse(src@) == Ok::<TokenView, ParseErrorView>(q@) && q.wf(),
            Err(e) => spec_parse(src@) == Err::<TokenView, ParseErrorView>(e@),
        },
{
    Query::parse(src)
}

/// Parsing is deterministic and free of hidden state: two parses of the
/// same character sequence yield the same tree or the same error, so two
/// parsed `Query` values for one input are structurally equal.
pub proof fn lemma_parse_deterministic(s1: Seq<char>, s2: Seq<char>)
    requires
        s1 == s2,
    ensures
        spec_parse(s1) == spec_parse(s2),
{
}

/// A run of sentinel-free characters is literal text: it is consumed
/// whole, unchanged, to the end of the input.
pub proof fn lemma_parse_text_plain(s: Seq<char>, i: int, top_level: bool)
    requires
        0 <= i <= s.len(),
        forall|k: int| 0 <= k < s.len() ==> !is_sentinel(#[trigger] s[k]),
    ensures
        spec_parse_text(s, i, top_level) == Ok::<(Seq<char>, int), ParseErrorView>(
            (s.subrange(i, s.len() as int), s.len() as int),
        ),
    decreases s.len() - i,
{
    if i < s.len() {
        lemma_parse_text_plain(s, i + 1, top_level);
        assert(seq![s[i]] + s.subrange(i + 1, s.len() as int) =~= s.subrange(
            i,
            s.len() as int,
        ));
    } else {
        assert(s.subrange(i, s.len() as int) =~= Seq::<char>::empty());
    }
}

/// An input without sentinel characters always parses, to the empty scope
/// when empty and to a scope holding exactly one literal text token, the
/// input itself, otherwise.
pub proof fn lemma_parse_plain(s: Seq<char>)
    requires
        forall|k: int| 0 <= k < s.len() ==> !is_sentinel(#[trigger] s[k]),
    ensures
        s.len() == 0 ==> spec_parse(s) == Ok::<TokenView, ParseErrorView>(
            TokenView::Scope(Seq::empty()),
        ),
        s.len() > 0 ==> spec_parse(s) == Ok::<TokenView, ParseErrorView>(
            TokenView::Scope(seq![TokenView::Text(s)]),
        ),
{
    if s.len() > 0 {
        lemma_parse_text_plain(s, 0, true);
        assert(s.subrange(0, s.len() as int) =~= s);
        assert(spec_parse_scope(s, s.len() as int, true) == Ok::<
            (Seq<TokenView>, int),
            ParseErrorView,
        >((Seq::empty(), s.len() as int)));
        assert(seq![TokenView::Text(s)] + Seq::<TokenView>::empty() =~= seq![
            TokenView::Text(s),
        ]);
    }
}

} // verus!
