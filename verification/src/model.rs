//! The values of the language and their mathematical views.

use vstd::prelude::*;

verus! {

/// The built-in words. Each is a fixed transformation of the stack.
#[derive(Clone, Copy, Debug, PartialEq, Eq, Structural)]
pub enum NativeOp {
    Add,
    Sub,
    Mul,
    Div,
    Dup,
    Drop,
    Swap,
    Print,
    Equal,
    NotEqual,
    Less,
    Greater,
}

/// The control-flow words. They are never dictionary entries.
#[derive(Clone, Copy, Debug, PartialEq, Eq, Structural)]
pub enum Keyword {
    If,
    Else,
    Then,
    Do,
}

/// What a word of the dictionary stands for.
#[derive(Debug, PartialEq, Eq)]
pub enum Definition {
    /// A built-in operation.
    Native(NativeOp),
    /// The source text of a user-defined word, tokenized anew at each use.
    Tokens(String),
}

/// One resolved word of a line.
#[derive(Debug, PartialEq, Eq)]
pub enum Token {
    Number(i64),
    /// A dictionary entry, copied when the word was read.
    Op(Definition),
    Keyword(Keyword),
}

/// Why tokenizing or executing stopped.
#[derive(Clone, Debug, PartialEq, Eq)]
pub enum ForthError {
    /// The word is no number, dictionary entry, keyword or `:`.
    WordNotDefined(String),
    /// An operation found fewer values on the stack than it takes.
    StackUnderflow,
    /// A division whose quotient does not exist: the divisor is zero, or
    /// the quotient does not fit in 64 bits.
    DivByZero,
    /// `else` or `then` with no `if` open.
    UnbalancedIf,
    /// `do`, which is reserved and has no meaning yet.
    NotImplemented,
    /// User-defined words and conditional bodies nested deeper than
    /// [`crate::machine::MAX_DEPTH`].
    DepthExceeded,
}

/// The view of a [`Definition`].
pub enum DefinitionView {
    Native(NativeOp),
    Tokens(Seq<char>),
}

/// The view of a [`Token`].
pub enum TokenView {
    Number(i64),
    Op(DefinitionView),
    Keyword(Keyword),
}

/// The view of a [`ForthError`].
pub enum ErrorView {
    WordNotDefined(Seq<char>),
    StackUnderflow,
    DivByZero,
    UnbalancedIf,
    NotImplemented,
    DepthExceeded,
}

impl View for Definition {
    type V = DefinitionView;

    open spec fn view(&self) -> DefinitionView {
        match self {
            Definition::Native(op) => DefinitionView::Native(*op),
            Definition::Tokens(body) => DefinitionView::Tokens(body@),
        }
    }
}

impl View for Token {
    type V = TokenView;

    open spec fn view(&self) -> TokenView {
        match self {
            Token::Number(n) => TokenView::Number(*n),
            Token::Op(def) => TokenView::Op(def@),
            Token::Keyword(kw) => TokenView::Keyword(*kw),
        }
    }
}

impl View for ForthError {
    type V = ErrorView;

    open spec fn view(&self) -> ErrorView {
        match self {
            ForthError::WordNotDefined(word) => ErrorView::WordNotDefined(word@),
            ForthError::StackUnderflow => ErrorView::StackUnderflow,
            ForthError::DivByZero => ErrorView::DivByZero,
            ForthError::UnbalancedIf => ErrorView::UnbalancedIf,
            ForthError::NotImplemented => ErrorView::NotImplemented,
            ForthError::DepthExceeded => ErrorView::DepthExceeded,
        }
    }
}

/// Everything a program can observe or change: the stack (top last), the
/// dictionary, and the values printed so far (oldest first).
pub struct State {
    pub stack: Seq<i64>,
    pub dict: Map<Seq<char>, DefinitionView>,
    pub output: Seq<i64>,
}

/// Where an execution ended: the state it left, and whether it failed.
pub struct Outcome {
    pub state: State,
    pub result: Result<(), ErrorView>,
}

/// The views of a sequence of tokens, in order.
pub open spec fn token_views(tokens: Seq<Token>) -> Seq<TokenView> {
    Seq::new(tokens.len(), |i: int| tokens[i]@)
}

/// The view of a result whose only content is its error.
pub open spec fn result_view(r: Result<(), ForthError>) -> Result<(), ErrorView> {
    match r {
        Ok(()) => Ok(()),
        Err(e) => Err(e@),
    }
}

impl Clone for Definition {
    /// A copy with the same view.
    fn clone(&self) -> (copy: Definition)
        ensures
            copy@ == self@,
    {
        match self {
            Definition::Native(op) => Definition::Native(*op),
            Definition::Tokens(body) => Definition::Tokens(body.clone()),
        }
    }
}

impl Clone for Token {
    /// A copy with the same view.
    fn clone(&self) -> (copy: Token)
        ensures
            copy@ == self@,
    {
        match self {
            Token::Number(n) => Token::Number(*n),
            Token::Op(def) => Token::Op(def.clone()),
            Token::Keyword(kw) => Token::Keyword(*kw),
        }
    }
}

} // verus!
