//! The evaluator: walks a `Token` tree, resolving variables through a
//! `Queryable` and dispatching function calls through a `Context`.

use vstd::prelude::*;
use crate::Token;
use crate::TokenView;
use crate::Query;
use std::collections::BTreeMap;
use std::collections::HashMap;

verus! {

/// Result of evaluating one node of a query: the resolved text plus an
/// auxiliary "something was resolved" condition (`None` for plain text,
/// `Some(true)` when a variable was found, `Some(false)` when it was
/// absent, and for functions whatever the function implementation reports).
#[derive(Debug, PartialEq, Eq)]
pub struct QueryReturn {
    pub text: String,
    pub condition: Option<bool>,
}

/// The mathematical model of a `QueryReturn`.
pub struct QueryReturnView {
    pub text: Seq<char>,
    pub condition: Option<bool>,
}

impl View for QueryReturn {
    type V = QueryReturnView;

    open spec fn view(&self) -> QueryReturnView {
        QueryReturnView { text: self.text@, condition: self.condition }
    }
}

/// Errors found while evaluating a query.
#[derive(Debug, PartialEq, Eq)]
pub enum EvalError {
    /// The function used is not in the current context.
    /// The string is the function name.
    FunctionNotFound(String),
}

/// The mathematical model of an `EvalError`.
pub enum EvalErrorView {
    FunctionNotFound(Seq<char>),
}

impl View for EvalError {
    type V = EvalErrorView;

    open spec fn view(&self) -> EvalErrorView {
        match self {
            EvalError::FunctionNotFound(name) => EvalErrorView::FunctionNotFound(name@),
        }
    }
}

pub type EvalResult<T> = Result<T, EvalError>;

/// The model of an evaluation outcome.
pub open spec fn eval_result_view(r: EvalResult<QueryReturn>) -> Result<
    QueryReturnView,
    EvalErrorView,
> {
    match r {
        Ok(q) => Ok(q@),
        Err(e) => Err(e@),
    }
}

/// Capability to resolve a variable name to an optional string value.
pub trait Queryable {
    /// The variable bindings this object answers for, as a map from
    /// variable name to value.
    spec fn vars(&self) -> Map<Seq<char>, Seq<char>>;

    /// Look a variable up by name: its value when bound, `None` when not.
    fn query(&self, key: &str) -> (r: Option<String>)
        ensures
            match r {
                Some(value) => self.vars().contains_key(key@) && value@ == self.vars()[key@],
                None => !self.vars().contains_key(key@),
            },
    ;
}

/// Capability to resolve a function name and invoke the bound function on
/// the raw, unevaluated argument tokens. The bound function decides for
/// itself whether and how to evaluate its arguments.
pub trait Context {
    /// The names of the functions this context binds.
    spec fn funcs(&self) -> Set<Seq<char>>;

    /// What the function bound to `name` returns for the given argument
    /// tokens.
    spec fn func_result(&self, name: Seq<char>, args: Seq<TokenView>) -> Result<
        QueryReturnView,
        EvalErrorView,
    >;

    /// Invoke the function bound to `name` on the raw argument tokens;
    /// `None` when no function of that name is bound.
    fn call_func(&self, name: &str, args: &Vec<Token>) -> (r: Option<EvalResult<QueryReturn>>)
        ensures
            match r {
                Some(res) => self.funcs().contains(name@) && eval_result_view(res)
                    == self.func_result(name@, crate::token_views(args@)),
                None => !self.funcs().contains(name@),
            },
    ;
}

/// The condition of an evaluated node, treating "no condition" as false.
pub open spec fn condition_or_false(c: Option<bool>) -> bool {
    c == Some(true)
}

/// What evaluating one token yields against the given variable bindings
/// and function context.
pub open spec fn spec_eval_token<C: Context>(
    t: TokenView,
    vars: Map<Seq<char>, Seq<char>>,
    ctx: &C,
) -> Result<QueryReturnView, EvalErrorView>
    decreases t, 0int,
{
    match t {
        TokenView::Text(text) => Ok(QueryReturnView { text, condition: None }),
        TokenView::Variable(name) => if vars.contains_key(name) {
            Ok(QueryReturnView { text: vars[name], condition: Some(true) })
        } else {
            Ok(QueryReturnView { text: Seq::empty(), condition: Some(false) })
        },
        TokenView::Function(name, args) => if ctx.funcs().contains(name) {
            ctx.func_result(name, args)
        } else {
            Err(EvalErrorView::FunctionNotFound(name))
        },
        TokenView::Scope(children) => spec_eval_scope(children, 0, vars, ctx),
    }
}

/// What evaluating the children of a scope from index `i` on yields:
/// fail-fast on the first error; on success the texts concatenate in
/// order and the conditions fold by logical or, an empty tail giving
/// the empty text and a false condition.
pub open spec fn spec_eval_scope<C: Context>(
    children: Seq<TokenView>,
    i: int,
    vars: Map<Seq<char>, Seq<char>>,
    ctx: &C,
) -> Result<QueryReturnView, EvalErrorView>
    decreases children, children.len() - i,
{
    if i < 0 || i >= children.len() {
        Ok(QueryReturnView { text: Seq::empty(), condition: Some(false) })
    } else {
        match spec_eval_token(children[i], vars, ctx) {
            Err(e) => Err(e),
            Ok(head) => match spec_eval_scope(children, i + 1, vars, ctx) {
                Err(e) => Err(e),
                Ok(rest) => Ok(
                    QueryReturnView {
                        text: head.text + rest.text,
                        condition: Some(
                            condition_or_false(head.condition) || condition_or_false(
                                rest.condition,
                            ),
                        ),
                    },
                ),
            },
        }
    }
}

/// A fully evaluated scope always carries a condition.
pub proof fn lemma_scope_condition_is_some<C: Context>(
    children: Seq<TokenView>,
    i: int,
    vars: Map<Seq<char>, Seq<char>>,
    ctx: &C,
)
    ensures
        spec_eval_scope(children, i, vars, ctx) matches Ok(r) ==> r.condition is Some,
    decreases children.len() - i,
{
    if 0 <= i < children.len() {
        lemma_scope_condition_is_some(children, i + 1, vars, ctx);
    }
}

/// Text and condition already accumulated for a scope, combined with the
/// outcome of its remaining children.
spec fn combine_scope(
    text: Seq<char>,
    condition: bool,
    rest: Result<QueryReturnView, EvalErrorView>,
) -> Result<QueryReturnView, EvalErrorView> {
    match rest {
        Err(e) => Err(e),
        Ok(r) => Ok(
            QueryReturnView {
                text: text + r.text,
                condition: Some(condition || condition_or_false(r.condition)),
            },
        ),
    }
}

impl Token {
    /// Evaluate one token: text stands for itself, a variable for its
    /// binding (the empty text when absent), a function for whatever the
    /// context's bound function returns, and a scope for its children in
    /// order, failing fast on the first error.
    pub fn eval<Q: Queryable, C: Context>(&self, queryable: &Q, context: &C) -> (r: EvalResult<
        QueryReturn,
    >)
        ensures
            eval_result_view(r) == spec_eval_token(self@, queryable.vars(), context),
        decreases self,
    {
        match self {
            Token::Text(t) => Ok(QueryReturn { text: t.clone(), condition: None }),
            Token::Variable(v) => match queryable.query(v.as_str()) {
                Some(value) => Ok(QueryReturn { text: value, condition: Some(true) }),
                None => Ok(QueryReturn { text: String::new(), condition: Some(false) }),
            },
            Token::Function(f, args) => match context.call_func(f.as_str(), args) {
                Some(res) => res,
                None => Err(EvalError::FunctionNotFound(f.clone())),
            },
            Token::Scope(tokens) => {
                let ghost children = crate::token_views(tokens@);
                let ghost vars = queryable.vars();
                let n = tokens.len();
                let mut text = String::new();
                let mut condition = false;
                let mut k: usize = 0;
                proof {
                    crate::lemma_token_views_index(tokens@);
                    lemma_scope_condition_is_some(children, 0, vars, context);
                    let ghost whole = spec_eval_scope(children, 0, vars, context);
                    if whole is Ok {
                        assert(Seq::<char>::empty() + whole->Ok_0.text =~= whole->Ok_0.text);
                    }
                }
                loop
                    invariant
                        k <= n,
                        n == tokens@.len(),
                        children == crate::token_views(tokens@),
                        *self == Token::Scope(*tokens),
                        self@ == TokenView::Scope(children),
                        vars == queryable.vars(),
                        spec_eval_scope(children, 0, vars, context) == combine_scope(
                            text@,
                            condition,
                            spec_eval_scope(children, k as int, vars, context),
                        ),
                    decreases n - k,
                {
                    proof {
                        crate::lemma_token_views_index(tokens@);
                    }
                    if k >= n {
                        proof {
                            assert(text@ + Seq::<char>::empty() =~= text@);
                        }
                        return Ok(QueryReturn { text, condition: Some(condition) });
                    }
                    let child = &tokens[k];
                    proof {
                        assert(decreases_to!(*self => *tokens));
                        assert(decreases_to!(*tokens => tokens@[k as int]));
                    }
                    match child.eval(queryable, context) {
                        Err(e) => {
                            return Err(e);
                        },
                        Ok(res) => {
                            let res_condition = match res.condition {
                                Some(b) => b,
                                None => false,
                            };
                            proof {
                                let ghost rest = spec_eval_scope(
                                    children,
                                    k + 1,
                                    vars,
                                    context,
                                );
                                if rest is Ok {
                                    assert((text@ + res.text@) + rest->Ok_0.text =~= text@ + (
                                    res.text@ + rest->Ok_0.text));
                                }
                            }
                            text.append(res.text.as_str());
                            condition = condition || res_condition;
                            k = k + 1;
                        },
                    }
                }
            },
        }
    }
}

impl Query {
    /// Evaluate the query against a queryable object for its variables
    /// and a context for its functions, yielding the resolved text of the
    /// root scope.
    pub fn eval<Q: Queryable, C: Context>(&self, queryable: &Q, context: &C) -> (r: EvalResult<
        String,
    >)
        ensures
            match r {
                Ok(text) => spec_eval_token(self@, queryable.vars(), context) matches Ok(qr)
                    && qr.text == text@,
                Err(e) => spec_eval_token(self@, queryable.vars(), context) == Err::<
                    QueryReturnView,
                    EvalErrorView,
                >(e@),
            },
    {
        match self.tokens().eval(queryable, context) {
            Ok(res) => Ok(res.text),
            Err(err) => Err(err),
        }
    }
}

// Example implementations for Queryable: an unordered or ordered
// string-keyed map directly serves as a variable store, a lookup
// returning a copy of the stored value.

/// Relies on `HashMap::get` with a borrowed `str` key, which finds the
/// entry whose key has exactly the characters of `key` (string hashing
/// and equality go by content); vstd gives string-keyed lookups no
/// usable specification.
#[verifier::external_body]
fn hash_map_get(m: &HashMap<String, String>, key: &str) -> (r: Option<String>)
    ensures
        match r {
            Some(value) => m.deep_view().contains_key(key@) && value@ == m.deep_view()[key@],
            None => !m.deep_view().contains_key(key@),
        },
{
    match m.get(key) {
        Some(value) => Some(value.clone()),
        None => None,
    }
}

/// Relies on `BTreeMap::get` with a borrowed `str` key, which finds the
/// entry whose key has exactly the characters of `key` (string ordering
/// goes by content); vstd gives string-keyed lookups no usable
/// specification.
#[verifier::external_body]
fn btree_map_get(m: &BTreeMap<String, String>, key: &str) -> (r: Option<String>)
    ensures
        match r {
            Some(value) => m.deep_view().contains_key(key@) && value@ == m.deep_view()[key@],
            None => !m.deep_view().contains_key(key@),
        },
{
    match m.get(key) {
        Some(value) => Some(value.clone()),
        None => None,
    }
}

impl Queryable for HashMap<String, String> {
    open spec fn vars(&self) -> Map<Seq<char>, Seq<char>> {
        self.deep_view()
    }

    fn query(&self, key: &str) -> (r: Option<String>) {
        hash_map_get(self, key)
    }
}

impl Queryable for BTreeMap<String, String> {
    open spec fn vars(&self) -> Map<Seq<char>, Seq<char>> {
        self.deep_view()
    }

    fn query(&self, key: &str) -> (r: Option<String>) {
        btree_map_get(self, key)
    }
}

/// Round-trip identity: an input without sentinel characters parses, and
/// evaluating the parsed query yields exactly that input back, whatever
/// the variable bindings and function context.
pub proof fn lemma_round_trip<C: Context>(s: Seq<char>, vars: Map<Seq<char>, Seq<char>>, ctx: &C)
    requires
        forall|k: int| 0 <= k < s.len() ==> !crate::parser::is_sentinel(#[trigger] s[k]),
    ensures
        crate::parser::spec_parse(s) is Ok,
        spec_eval_token(crate::parser::spec_parse(s)->Ok_0, vars, ctx) matches Ok(r) && r.text
            == s,
{
    crate::parser::lemma_parse_plain(s);
    if s.len() == 0 {
        assert(s =~= Seq::<char>::empty());
    } else {
        let children = seq![TokenView::Text(s)];
        assert(spec_eval_token(children[0], vars, ctx) == Ok::<QueryReturnView, EvalErrorView>(
            QueryReturnView { text: s, condition: None },
        ));
        assert(spec_eval_scope(children, 1, vars, ctx) == Ok::<QueryReturnView, EvalErrorView>(
            QueryReturnView { text: Seq::empty(), condition: Some(false) },
        ));
        assert(s + Seq::<char>::empty() =~= s);
    }
}

/// Fail-fast evaluation: in a scope of a text, a call of an unbound
/// function, and another text, the unbound function aborts the whole
/// scope with its error, and no text accumulated before it survives.
pub proof fn lemma_fail_fast<C: Context>(
    a: Seq<char>,
    name: Seq<char>,
    b: Seq<char>,
    vars: Map<Seq<char>, Seq<char>>,
    ctx: &C,
)
    requires
        !ctx.funcs().contains(name),
    ensures
        spec_eval_token(
            TokenView::Scope(
                seq![
                    TokenView::Text(a),
                    TokenView::Function(name, Seq::empty()),
                    TokenView::Text(b),
                ],
            ),
            vars,
            ctx,
        ) == Err::<QueryReturnView, EvalErrorView>(EvalErrorView::FunctionNotFound(name)),
{
    let children = seq![
        TokenView::Text(a),
        TokenView::Function(name, Seq::empty()),
        TokenView::Text(b),
    ];
    assert(spec_eval_token(children[0], vars, ctx) == Ok::<QueryReturnView, EvalErrorView>(
        QueryReturnView { text: a, condition: None },
    ));
    assert(spec_eval_token(children[1], vars, ctx) == Err::<QueryReturnView, EvalErrorView>(
        EvalErrorView::FunctionNotFound(name),
    ));
    assert(spec_eval_scope(children, 1, vars, ctx) == Err::<QueryReturnView, EvalErrorView>(
        EvalErrorView::FunctionNotFound(name),
    ));
    assert(spec_eval_scope(children, 0, vars, ctx) == Err::<QueryReturnView, EvalErrorView>(
        EvalErrorView::FunctionNotFound(name),
    ));
}

} // verus!
