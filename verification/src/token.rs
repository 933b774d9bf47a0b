//! Tokens and the closed sets of operators and keywords they may carry.

use vstd::prelude::*;
use crate::position::{place_before, Place, Position};

verus! {

/// The operators and punctuation marks of the language.
#[derive(Debug, Clone, Copy, PartialEq, Eq, Structural)]
pub enum Operators {
    /// `=`
    Assign,
    /// `==`
    Eq,
    /// `!=`
    Ne,
    /// `+`
    Add,
    /// `-`
    Subtract,
    /// `*`, for both pointers and multiplication
    Asterisk,
    /// `/`
    Divide,
    /// `**`
    Power,
    /// `(`
    OpenParen,
    /// `)`
    CloseParen,
    /// `->`
    Return,
    /// `{`
    OpenBracket,
    /// `}`
    CloseBracket,
    /// `[`
    OpenBrace,
    /// `]`
    CloseBrace,
    /// `;`
    EndLine,
}

/// The reserved words of the language.
#[derive(Debug, Clone, Copy, PartialEq, Eq, Structural)]
pub enum Keywords {
    /// `let`
    Define,
    /// `mut`
    Mutable,
    /// `func`
    Function,
    /// `if`
    If,
    /// `else`
    Else,
    /// `while`
    While,
    /// `public`, `private`, `interface`
    Publicity,
    /// `null`, `nullptr`
    Null,
    /// `return`
    Return,
}

/// What a lexeme was recognised as.
#[derive(Debug, Clone, PartialEq, Eq)]
pub enum TokenKind {
    /// Whitespace or a comment; also the kind of a fresh token.
    Ignore,
    /// Text that no rule accepts; never valid input for later stages.
    Unknown,
    Operator(Operators),
    /// Reserved for type names.
    Type,
    Number(i64),
    Identifier(String),
    /// A string literal, holding its contents with the escapes resolved.
    String(String),
    Keyword(Keywords),
}

/// The mathematical counterpart of [`TokenKind`].
pub enum KindView {
    Ignore,
    Unknown,
    Operator(Operators),
    Type,
    Number(i64),
    Identifier(Seq<char>),
    String(Seq<char>),
    Keyword(Keywords),
}

impl View for TokenKind {
    type V = KindView;

    open spec fn view(&self) -> KindView {
        match self {
            TokenKind::Ignore => KindView::Ignore,
            TokenKind::Unknown => KindView::Unknown,
            TokenKind::Operator(o) => KindView::Operator(*o),
            TokenKind::Type => KindView::Type,
            TokenKind::Number(n) => KindView::Number(*n),
            TokenKind::Identifier(s) => KindView::Identifier(s@),
            TokenKind::String(s) => KindView::String(s@),
            TokenKind::Keyword(k) => KindView::Keyword(*k),
        }
    }
}

impl Default for TokenKind {
    fn default() -> (kind: TokenKind)
        ensures
            kind@ == KindView::Ignore,
    {
        TokenKind::Ignore
    }
}

/// A classified lexeme: its kind, the exact source text, and where it starts.
#[derive(Debug, Clone, PartialEq, Eq)]
pub struct Token {
    pub kind: TokenKind,
    pub text: String,
    pub position: Position,
}

/// The mathematical counterpart of [`Token`].
pub struct TokenView {
    pub kind: KindView,
    pub text: Seq<char>,
    pub position: Place,
}

impl View for Token {
    type V = TokenView;

    open spec fn view(&self) -> TokenView {
        TokenView { kind: self.kind@, text: self.text@, position: self.position@ }
    }
}

/// The views of a run of tokens, in order.
pub open spec fn token_views(tokens: Seq<Token>) -> Seq<TokenView> {
    Seq::new(tokens.len(), |i: int| tokens[i]@)
}

/// The texts of `tokens` written one after the other.
pub open spec fn concat_texts(tokens: Seq<TokenView>) -> Seq<char>
    decreases tokens.len(),
{
    if tokens.len() == 0 {
        Seq::empty()
    } else {
        tokens[0].text + concat_texts(tokens.drop_first())
    }
}

/// The texts of `tokens` written one after the other with one blank between
/// each two.
pub open spec fn spaced_texts(tokens: Seq<TokenView>) -> Seq<char>
    decreases tokens.len(),
{
    if tokens.len() == 0 {
        Seq::empty()
    } else if tokens.len() == 1 {
        tokens[0].text
    } else {
        tokens[0].text + seq![' '] + spaced_texts(tokens.drop_first())
    }
}

/// The kinds of `tokens`, in order.
pub open spec fn kinds_of(tokens: Seq<TokenView>) -> Seq<KindView> {
    Seq::new(tokens.len(), |i: int| tokens[i].kind)
}

/// `tokens` without those of kind `Ignore`.
pub open spec fn visible(tokens: Seq<TokenView>) -> Seq<TokenView> {
    tokens.filter(|t: TokenView| !(t.kind is Ignore))
}

/// Whether the places of `tokens` grow strictly from each token to the
/// next: a later token stands on a later line, or on the same line in a
/// later column.
pub open spec fn in_source_order(tokens: Seq<TokenView>) -> bool {
    forall|i: int, j: int|
        0 <= i < j < tokens.len() ==> place_before(
            (#[trigger] tokens[i]).position,
            (#[trigger] tokens[j]).position,
        )
}

/// Whether every token of `tokens` has a place: a line and a column that
/// are at least 1.
pub open spec fn all_placed(tokens: Seq<TokenView>) -> bool {
    forall|i: int|
        0 <= i < tokens.len() ==> (#[trigger] tokens[i]).position.line >= 1
            && tokens[i].position.column >= 1
}

/// Whether every token of `tokens` is of a kind that later stages may
/// take: none is whitespace, a comment, or unknown text.
pub open spec fn all_meaningful(tokens: Seq<TokenView>) -> bool {
    forall|i: int|
        0 <= i < tokens.len() ==> !((#[trigger] tokens[i]).kind is Ignore) && !(tokens[i].kind
            is Unknown)
}

impl Token {
    /// A fresh token: kind `Ignore`, no text, at the start of a source.
    pub fn new() -> (token: Token)
        ensures
            token@ == (TokenView {
                kind: KindView::Ignore,
                text: Seq::<char>::empty(),
                position: Place { line: 1, column: 1 },
            }),
    {
        Token { kind: TokenKind::Ignore, text: String::new(), position: Position::start() }
    }
}

impl Default for Token {
    fn default() -> (token: Token)
        ensures
            token@ == (TokenView {
                kind: KindView::Ignore,
                text: Seq::<char>::empty(),
                position: Place { line: 1, column: 1 },
            }),
    {
        Token::new()
    }
}

} // verus!
