use vstd::prelude::*;

verus! {

/// The kinds of token that the lexer produces.
#[derive(Debug, Clone, Copy, PartialEq)]
pub enum TokenKind {
    BackSlash,
    Bang,
    BangEqual,
    BangEqualDot,
    Comment,
    Equal,
    EqualEqual,
    EqualEqualDot,
    False,
    Float,
    Identifier,
    Integer,
    KeywordAnd,
    KeywordOr,
    KeywordIs,
    KeywordIf,
    LeftBrace,
    LeftParen,
    LeftChevron,
    LeftChevronDot,
    LeftChevronEqual,
    LeftChevronEqualDot,
    Minus,
    MinusDot,
    NewLine,
    Percent,
    PercentDot,
    Pipe,
    Plus,
    PlusDot,
    RightBrace,
    RightParen,
    RightChevron,
    RightChevronDot,
    RightChevronEqual,
    RightChevronEqualDot,
    Slash,
    SlashDot,
    Space,
    Star,
    StarDot,
    StringConcat,
    SyntaxError(&'static str),
    Tab,
    Text,
    True,
    Underscore,
}

/// Where a token starts: its line and its column, both counted from one.
#[derive(Debug, Clone, Copy, PartialEq, Eq, Structural)]
pub struct Span {
    pub line: usize,
    pub column: usize,
}

/// A token: its kind, where it starts, and its text.
#[derive(Debug, PartialEq)]
pub struct Token {
    pub kind: TokenKind,
    pub position: Span,
    pub lexeme: String,
}

impl Clone for Token {
    fn clone(&self) -> (r: Self)
        ensures
            r == *self,
    {
        Token { kind: self.kind, position: self.position, lexeme: self.lexeme.clone() }
    }
}

/// The text of every token of `kind`, for the kinds that have one text: operators,
/// punctuation, single spaces and line breaks, the keywords and `true` and `false`; `None`
/// for the kinds whose text varies (names, numbers, texts, comments, tabs, string pieces and
/// errors).
pub open spec fn fixed_text(kind: TokenKind) -> Option<Seq<char>> {
    match kind {
        TokenKind::BackSlash => Some(seq!['\\']),
        TokenKind::Bang => Some(seq!['!']),
        TokenKind::BangEqual => Some(seq!['!', '=']),
        TokenKind::BangEqualDot => Some(seq!['!', '=', '.']),
        TokenKind::Equal => Some(seq!['=']),
        TokenKind::EqualEqual => Some(seq!['=', '=']),
        TokenKind::EqualEqualDot => Some(seq!['=', '=', '.']),
        TokenKind::False => Some("false"@),
        TokenKind::True => Some("true"@),
        TokenKind::KeywordAnd => Some("and"@),
        TokenKind::KeywordOr => Some("or"@),
        TokenKind::KeywordIs => Some("is"@),
        TokenKind::KeywordIf => Some("if"@),
        TokenKind::LeftBrace => Some(seq!['{']),
        TokenKind::RightBrace => Some(seq!['}']),
        TokenKind::LeftParen => Some(seq!['(']),
        TokenKind::RightParen => Some(seq![')']),
        TokenKind::LeftChevron => Some(seq!['<']),
        TokenKind::LeftChevronDot => Some(seq!['<', '.']),
        TokenKind::LeftChevronEqual => Some(seq!['<', '=']),
        TokenKind::LeftChevronEqualDot => Some(seq!['<', '=', '.']),
        TokenKind::RightChevron => Some(seq!['>']),
        TokenKind::RightChevronDot => Some(seq!['>', '.']),
        TokenKind::RightChevronEqual => Some(seq!['>', '=']),
        TokenKind::RightChevronEqualDot => Some(seq!['>', '=', '.']),
        TokenKind::Minus => Some(seq!['-']),
        TokenKind::MinusDot => Some(seq!['-', '.']),
        TokenKind::Plus => Some(seq!['+']),
        TokenKind::PlusDot => Some(seq!['+', '.']),
        TokenKind::Star => Some(seq!['*']),
        TokenKind::StarDot => Some(seq!['*', '.']),
        TokenKind::Slash => Some(seq!['/']),
        TokenKind::SlashDot => Some(seq!['/', '.']),
        TokenKind::Percent => Some(seq!['%']),
        TokenKind::PercentDot => Some(seq!['%', '.']),
        TokenKind::Pipe => Some(seq!['|']),
        TokenKind::NewLine => Some(seq!['\n']),
        TokenKind::Space => Some(seq![' ']),
        TokenKind::Underscore => Some(seq!['_']),
        _ => None,
    }
}

/// Kinds with one text are told apart by it: no two share their text.
pub proof fn law_fixed_text_distinct(a: TokenKind, b: TokenKind)
    requires
        fixed_text(a) is Some,
        fixed_text(a) == fixed_text(b),
    ensures
        a == b,
{
    reveal_strlit("false");
    reveal_strlit("true");
    reveal_strlit("and");
    reveal_strlit("or");
    reveal_strlit("is");
    reveal_strlit("if");
    let t = fixed_text(a)->0;
    let u = fixed_text(b)->0;
    assert(t.len() == u.len());
    assert(t[0] == u[0]);
    assert(t.len() > 1 ==> t[1] == u[1]);
    assert(t.len() > 2 ==> t[2] == u[2]);
}

} // verus!
