//! A small template/query mini-language: a recursive-descent parser that
//! turns a raw string into a `Query` (a tree of `Token`s), and a
//! tree-walking evaluator that resolves variables and dispatches function
//! calls through caller-supplied `Queryable` and `Context` capabilities.

use vstd::prelude::*;

pub mod parser;
pub mod context;

pub use parser::ParseError;
pub use parser::ParseResult;
pub use context::Context;
pub use context::EvalError;
pub use context::EvalResult;
pub use context::QueryReturn;
pub use context::Queryable;

verus! {

/// AST tokens for the query string.
#[derive(Debug, PartialEq, Eq)]
pub enum Token {
    /// Plain text with resolved escapes
    Text(String),
    /// A named variable
    ///
    /// Parameters: Name
    Variable(String),
    /// A named function that has arguments
    ///
    /// Parameters: Name, Arguments (each argument is itself a `Scope`)
    Function(String, Vec<Token>),
    /// A level of scope: an ordered sequence of tokens concatenated into
    /// one result
    Scope(Vec<Token>),
}

/// The mathematical model of a `Token`: strings become sequences of
/// characters and vectors become sequences of models.
pub enum TokenView {
    Text(Seq<char>),
    Variable(Seq<char>),
    Function(Seq<char>, Seq<TokenView>),
    Scope(Seq<TokenView>),
}

impl View for Token {
    type V = TokenView;

    open spec fn view(&self) -> TokenView
        decreases self,
    {
        match self {
            Token::Text(t) => TokenView::Text(t@),
            Token::Variable(v) => TokenView::Variable(v@),
            Token::Function(name, args) => TokenView::Function(name@, token_views(args@)),
            Token::Scope(tokens) => TokenView::Scope(token_views(tokens@)),
        }
    }
}

/// The models of a sequence of tokens, element by element.
pub open spec fn token_views(ts: Seq<Token>) -> Seq<TokenView>
    decreases ts,
{
    if ts.len() == 0 {
        Seq::empty()
    } else {
        seq![ts[0]@] + token_views(ts.drop_first())
    }
}

/// `token_views` indexes pointwise.
pub proof fn lemma_token_views_index(ts: Seq<Token>)
    ensures
        token_views(ts).len() == ts.len(),
        forall|i: int| 0 <= i < ts.len() ==> token_views(ts)[i] == ts[i]@,
    decreases ts.len(),
{
    if ts.len() > 0 {
        lemma_token_views_index(ts.drop_first());
        assert forall|i: int| 0 <= i < ts.len() implies token_views(ts)[i] == ts[i]@ by {
            if i > 0 {
                assert(token_views(ts) == seq![ts[0]@] + token_views(ts.drop_first()));
                assert(seq![ts[0]@].len() == 1);
                assert(token_views(ts)[i] == token_views(ts.drop_first())[i - 1]);
                assert(ts.drop_first()[i - 1] == ts[i]);
            }
        }
    }
}

impl Clone for Token {
    /// A cloned token has the same model as its source.
    fn clone(&self) -> (r: Token)
        ensures
            r@ == self@,
        decreases self,
    {
        match self {
            Token::Text(t) => Token::Text(t.clone()),
            Token::Variable(v) => Token::Variable(v.clone()),
            Token::Function(name, args) => Token::Function(name.clone(), clone_tokens(args)),
            Token::Scope(tokens) => Token::Scope(clone_tokens(tokens)),
        }
    }
}

/// Clone a vector of tokens element by element.
fn clone_tokens(ts: &Vec<Token>) -> (r: Vec<Token>)
    ensures
        token_views(r@) == token_views(ts@),
    decreases *ts,
{
    let mut r: Vec<Token> = Vec::new();
    let mut i: usize = 0;
    while i < ts.len()
        invariant
            i <= ts@.len(),
            r@.len() == i,
            forall|j: int| 0 <= j < i ==> r@[j]@ == ts@[j]@,
        decreases ts@.len() - i,
    {
        proof {
            assert(decreases_to!(*ts => ts@[i as int]));
        }
        let c = ts[i].clone();
        r.push(c);
        i = i + 1;
    }
    proof {
        lemma_token_views_index(r@);
        lemma_token_views_index(ts@);
        assert(token_views(r@) =~= token_views(ts@));
    }
    r
}

/// Appending a token appends its model.
pub proof fn lemma_token_views_push(ts: Seq<Token>, t: Token)
    ensures
        token_views(ts.push(t)) == token_views(ts) + seq![t@],
{
    lemma_token_views_index(ts.push(t));
    lemma_token_views_index(ts);
    assert(token_views(ts.push(t)) =~= token_views(ts) + seq![t@]);
}

/// A parsed query ready for use with a `Context` and `Queryable`.
///
/// The root token is always a `Scope`.
#[derive(Debug, PartialEq, Eq)]
pub struct Query {
    tokens: Token,
}

impl View for Query {
    type V = TokenView;

    closed spec fn view(&self) -> TokenView {
        self.tokens@
    }
}

impl Query {
    /// A query is well formed when its root is a scope.
    pub open spec fn wf(&self) -> bool {
        self@ is Scope
    }

    /// Wrap a root token into a query.
    pub(crate) fn from_root(root: Token) -> (q: Query)
        ensures
            q@ == root@,
    {
        Query { tokens: root }
    }

    /// The root token of the query.
    pub fn tokens(&self) -> (r: &Token)
        ensures
            r@ == self@,
    {
        &self.tokens
    }
}

} // verus!
