use vstd::prelude::*;

use crate::expressions::{
    Arg, Arm, ArithmeticOperations, BinaryOperator, BooleanOperations, Comparisons,
    EqualityOperations, Node, Pattern, StringOperations, UnaryOperator, Val,
    operator_symbol, unary_symbol,
};
use crate::text::decimal;
use crate::tokens::{Span, Token, TokenKind, fixed_text};

verus! {

/// A number for each kind of token; all syntax errors share one.
pub open spec fn kind_code(k: TokenKind) -> u8 {
    match k {
        TokenKind::BackSlash => 0,
        TokenKind::Bang => 1,
        TokenKind::BangEqual => 2,
        TokenKind::BangEqualDot => 3,
        TokenKind::Comment => 4,
        TokenKind::Equal => 5,
        TokenKind::EqualEqual => 6,
        TokenKind::EqualEqualDot => 7,
        TokenKind::False => 8,
        TokenKind::Float => 9,
        TokenKind::Identifier => 10,
        TokenKind::Integer => 11,
        TokenKind::KeywordAnd => 12,
        TokenKind::KeywordOr => 13,
        TokenKind::KeywordIs => 14,
        TokenKind::KeywordIf => 15,
        TokenKind::LeftBrace => 16,
        TokenKind::LeftParen => 17,
        TokenKind::LeftChevron => 18,
        TokenKind::LeftChevronDot => 19,
        TokenKind::LeftChevronEqual => 20,
        TokenKind::LeftChevronEqualDot => 21,
        TokenKind::Minus => 22,
        TokenKind::MinusDot => 23,
        TokenKind::NewLine => 24,
        TokenKind::Percent => 25,
        TokenKind::PercentDot => 26,
        TokenKind::Pipe => 27,
        TokenKind::Plus => 28,
        TokenKind::PlusDot => 29,
        TokenKind::RightBrace => 30,
        TokenKind::RightParen => 31,
        TokenKind::RightChevron => 32,
        TokenKind::RightChevronDot => 33,
        TokenKind::RightChevronEqual => 34,
        TokenKind::RightChevronEqualDot => 35,
        TokenKind::Slash => 36,
        TokenKind::SlashDot => 37,
        TokenKind::Space => 38,
        TokenKind::Star => 39,
        TokenKind::StarDot => 40,
        TokenKind::StringConcat => 41,
        TokenKind::SyntaxError(_) => 42,
        TokenKind::Tab => 43,
        TokenKind::Text => 44,
        TokenKind::True => 45,
        TokenKind::Underscore => 46,
    }
}


/// The name of a kind of token, as its debug text begins.
pub open spec fn kind_name(k: TokenKind) -> Seq<char> {
    match k {
        TokenKind::BackSlash => "BackSlash"@,
        TokenKind::Bang => "Bang"@,
        TokenKind::BangEqual => "BangEqual"@,
        TokenKind::BangEqualDot => "BangEqualDot"@,
        TokenKind::Comment => "Comment"@,
        TokenKind::Equal => "Equal"@,
        TokenKind::EqualEqual => "EqualEqual"@,
        TokenKind::EqualEqualDot => "EqualEqualDot"@,
        TokenKind::False => "False"@,
        TokenKind::Float => "Float"@,
        TokenKind::Identifier => "Identifier"@,
        TokenKind::Integer => "Integer"@,
        TokenKind::KeywordAnd => "KeywordAnd"@,
        TokenKind::KeywordOr => "KeywordOr"@,
        TokenKind::KeywordIs => "KeywordIs"@,
        TokenKind::KeywordIf => "KeywordIf"@,
        TokenKind::LeftBrace => "LeftBrace"@,
        TokenKind::LeftParen => "LeftParen"@,
        TokenKind::LeftChevron => "LeftChevron"@,
        TokenKind::LeftChevronDot => "LeftChevronDot"@,
        TokenKind::LeftChevronEqual => "LeftChevronEqual"@,
        TokenKind::LeftChevronEqualDot => "LeftChevronEqualDot"@,
        TokenKind::Minus => "Minus"@,
        TokenKind::MinusDot => "MinusDot"@,
        TokenKind::NewLine => "NewLine"@,
        TokenKind::Percent => "Percent"@,
        TokenKind::PercentDot => "PercentDot"@,
        TokenKind::Pipe => "Pipe"@,
        TokenKind::Plus => "Plus"@,
        TokenKind::PlusDot => "PlusDot"@,
        TokenKind::RightBrace => "RightBrace"@,
        TokenKind::RightParen => "RightParen"@,
        TokenKind::RightChevron => "RightChevron"@,
        TokenKind::RightChevronDot => "RightChevronDot"@,
        TokenKind::RightChevronEqual => "RightChevronEqual"@,
        TokenKind::RightChevronEqualDot => "RightChevronEqualDot"@,
        TokenKind::Slash => "Slash"@,
        TokenKind::SlashDot => "SlashDot"@,
        TokenKind::Space => "Space"@,
        TokenKind::Star => "Star"@,
        TokenKind::StarDot => "StarDot"@,
        TokenKind::StringConcat => "StringConcat"@,
        TokenKind::SyntaxError(_) => "SyntaxError"@,
        TokenKind::Tab => "Tab"@,
        TokenKind::Text => "Text"@,
        TokenKind::True => "True"@,
        TokenKind::Underscore => "Underscore"@,
    }
}


/// The debug text of a string, quoted and escaped, as `format!("{:?}", s)` writes it.
pub uninterp spec fn str_debug(s: Seq<char>) -> Seq<char>;

/// The debug text of a kind of token.
pub open spec fn kind_debug(k: TokenKind) -> Seq<char> {
    match k {
        TokenKind::SyntaxError(m) => "SyntaxError("@ + str_debug(m@) + ")"@,
        _ => kind_name(k),
    }
}

/// The debug text of a position.
pub open spec fn span_debug(p: Span) -> Seq<char> {
    "Span { line: "@ + decimal(p.line as int) + ", column: "@ + decimal(p.column as int) + " }"@
}

/// The debug text of a token.
pub open spec fn token_debug(t: Token) -> Seq<char> {
    "Token { kind: "@ + kind_debug(t.kind) + ", position: "@ + span_debug(t.position)
        + ", lexeme: "@ + str_debug(t.lexeme@) + " }"@
}

/// The message of an integer literal that is too large.
pub open spec fn too_large() -> Seq<char> {
    "number too large to fit in target type"@
}

/// The message of an integer literal that is too small.
pub open spec fn too_small() -> Seq<char> {
    "number too small to fit in target type"@
}

/// The message of an integer literal with something other than a digit in it.
pub open spec fn invalid_digit() -> Seq<char> {
    "invalid digit found in string"@
}

/// The message of an empty integer literal.
pub open spec fn empty_number() -> Seq<char> {
    "cannot parse integer from empty string"@
}

/// The digits `ds` read after `acc`, from left to right, as an `i32`; the first character that
/// is not a digit, or the first digit that leaves the range, gives the error.
pub open spec fn int_digits(ds: Seq<char>, negative: bool, acc: int) -> Result<i32, Seq<char>>
    decreases ds.len(),
{
    if ds.len() == 0 {
        Ok(acc as i32)
    } else if !('0' <= ds[0] && ds[0] <= '9') {
        Err(invalid_digit())
    } else {
        let d = ds[0] as int - '0' as int;
        let v = if negative {
            acc * 10 - d
        } else {
            acc * 10 + d
        };
        if v > i32::MAX {
            Err(too_large())
        } else if v < i32::MIN {
            Err(too_small())
        } else {
            int_digits(ds.skip(1), negative, v)
        }
    }
}

/// An `i32` read from `s` as `str::parse::<i32>` reads it: an optional sign and decimal
/// digits; the error text is that of the parse error.
pub open spec fn int_parse(s: Seq<char>) -> Result<i32, Seq<char>> {
    if s.len() == 0 {
        Err(empty_number())
    } else if (s[0] == '+' || s[0] == '-') && s.len() == 1 {
        Err(invalid_digit())
    } else if s[0] == '+' {
        int_digits(s.skip(1), false, 0)
    } else if s[0] == '-' {
        int_digits(s.skip(1), true, 0)
    } else {
        int_digits(s, false, 0)
    }
}

/// Where the parser stands: the index of the next token and the indentation of the block.
pub struct PState {
    pub current: int,
    pub indentation: int,
}

/// What a grammar rule gives: its result and where the parser then stands; `None` where the
/// parser panics or never returns.
pub type Parsed = Option<(Result<Option<Node>, Seq<char>>, PState)>;

/// Whether `st` is a position within `ts` with a possible indentation.
pub open spec fn wf(ts: Seq<Token>, st: PState) -> bool {
    0 <= st.current <= ts.len() && 0 <= st.indentation <= 255
}

/// Whether `s1` is a valid state not before `st`.
pub open spec fn after(ts: Seq<Token>, st: PState, s1: PState) -> bool {
    wf(ts, s1) && s1.current >= st.current
}

/// Whether `s1` is a valid state past `st`.
pub open spec fn past(ts: Seq<Token>, st: PState, s1: PState) -> bool {
    wf(ts, s1) && s1.current > st.current
}

/// Whether the next token is of kind `k`.
pub open spec fn check(ts: Seq<Token>, st: PState, k: TokenKind) -> bool {
    0 <= st.current < ts.len() && kind_code(ts[st.current].kind) == kind_code(k)
}

/// The state one token further.
pub open spec fn adv(st: PState) -> PState {
    PState { current: st.current + 1, ..st }
}

/// The state with indentation `i`.
pub open spec fn indented(st: PState, i: int) -> PState {
    PState { indentation: i, ..st }
}

/// Takes a token of kind `k`, or gives the error that names it and the token found; `None`
/// at the end of the tokens, where the parser panics.
pub open spec fn consume_step(ts: Seq<Token>, st: PState, k: TokenKind) -> Option<
    (Result<Token, Seq<char>>, PState),
> {
    if check(ts, st, k) {
        Some((Ok(ts[st.current]), adv(st)))
    } else if !(0 <= st.current < ts.len()) {
        None
    } else {
        Some(
            (
                Err("Expected "@ + kind_debug(k) + " but found "@ + token_debug(ts[st.current])),
                st,
            ),
        )
    }
}

/// What `consume_step` gives; closed, so that each use unfolds it one step at a time.
pub closed spec fn p_consume(ts: Seq<Token>, st: PState, k: TokenKind) -> Option<
    (Result<Token, Seq<char>>, PState),
> {
    consume_step(ts, st, k)
}

/// Takes `n` tabs.
pub open spec fn tabs_step(ts: Seq<Token>, st: PState, n: int) -> Option<(Result<(), Seq<char>>, PState)>
    decreases n, 0int,
{
    if n <= 0 {
        Some((Ok(()), st))
    } else {
        match p_consume(ts, st, TokenKind::Tab) {
            None => None,
            Some((r, s1)) => match r {
                Err(m) => Some((Err(m), s1)),
                Ok(_) => p_tabs(ts, s1, n - 1),
            },
        }
    }
}

/// What `tabs_step` gives; closed, so that each use unfolds it one step at a time.
pub closed spec fn p_tabs(ts: Seq<Token>, st: PState, n: int) -> Option<(Result<(), Seq<char>>, PState)>
    decreases n, 1int,
{
    tabs_step(ts, st, n)
}

/// Whether the tokens from `c + i` on up to `c + n` are tabs; `None` where one of them lies
/// past the end.
pub open spec fn tabs_from(ts: Seq<Token>, c: int, n: int, i: int) -> Option<bool>
    decreases n - i,
{
    if i >= n {
        Some(true)
    } else if !(0 <= c + i < ts.len()) {
        None
    } else if kind_code(ts[c + i].kind) != kind_code(TokenKind::Tab) {
        Some(false)
    } else {
        tabs_from(ts, c, n, i + 1)
    }
}

/// Whether the next tokens indent as deep as the block.
pub open spec fn indented_step(ts: Seq<Token>, st: PState) -> Option<bool> {
    if st.indentation <= 0 {
        Some(true)
    } else if !(ts.len() > st.current + 1) {
        Some(false)
    } else {
        tabs_from(ts, st.current, st.indentation, 0)
    }
}

/// What `indented_step` gives; closed, so that each use unfolds it one step at a time.
pub closed spec fn p_indented(ts: Seq<Token>, st: PState) -> Option<bool> {
    indented_step(ts, st)
}

/// The parameters of a function: the identifiers that follow.
pub open spec fn params_step(ts: Seq<Token>, st: PState) -> (Seq<Token>, PState)
    decreases ts.len() - st.current, 0int,
{
    if check(ts, st, TokenKind::Identifier) {
        let (ps, s1) = p_params(ts, adv(st));
        (seq![ts[st.current]] + ps, s1)
    } else {
        (Seq::empty(), st)
    }
}

/// What `params_step` gives; closed, so that each use unfolds it one step at a time.
pub closed spec fn p_params(ts: Seq<Token>, st: PState) -> (Seq<Token>, PState)
    decreases ts.len() - st.current, 1int,
{
    params_step(ts, st)
}

/// A line break or a comment, nothing at the end, and the error that names the token found
/// otherwise.
pub open spec fn whitespace_step(ts: Seq<Token>, st: PState) -> Parsed {
    if check(ts, st, TokenKind::NewLine) || check(ts, st, TokenKind::Comment) {
        Some((Ok(None), adv(st)))
    } else if st.current >= ts.len() {
        Some((Ok(None), st))
    } else if st.current <= 0 {
        None
    } else {
        Some(
            (
                Err(
                    "Parse error of kind "@ + kind_debug(ts[st.current].kind) + " at "@ + str_debug(
                        ts[st.current - 1].lexeme@,
                    ) + " ("@ + span_debug(ts[st.current - 1].position) + ")"@,
                ),
                st,
            ),
        )
    }
}

/// What `whitespace_step` gives; closed, so that each use unfolds it one step at a time.
pub closed spec fn p_whitespace(ts: Seq<Token>, st: PState) -> Parsed {
    whitespace_step(ts, st)
}

/// The operator of a unary operator token.
pub open spec fn unary_op(k: TokenKind) -> Option<UnaryOperator> {
    match k {
        TokenKind::Bang => Some(UnaryOperator::Not),
        TokenKind::Minus => Some(UnaryOperator::Negation),
        _ => None,
    }
}

/// The operator of a multiplicative operator token.
pub open spec fn factor_op(k: TokenKind) -> Option<BinaryOperator> {
    match k {
        TokenKind::Slash => Some(BinaryOperator::IntegerOperation(ArithmeticOperations::Division)),
        TokenKind::SlashDot => Some(BinaryOperator::FloatOperation(ArithmeticOperations::Division)),
        TokenKind::Star => Some(
            BinaryOperator::IntegerOperation(ArithmeticOperations::Multiplication),
        ),
        TokenKind::StarDot => Some(
            BinaryOperator::FloatOperation(ArithmeticOperations::Multiplication),
        ),
        TokenKind::Percent => Some(BinaryOperator::IntegerOperation(ArithmeticOperations::Modulus)),
        TokenKind::PercentDot => Some(BinaryOperator::FloatOperation(ArithmeticOperations::Modulus)),
        _ => None,
    }
}

/// The operator of an additive operator token.
pub open spec fn term_op(k: TokenKind) -> Option<BinaryOperator> {
    match k {
        TokenKind::Plus => Some(BinaryOperator::IntegerOperation(ArithmeticOperations::Addition)),
        TokenKind::PlusDot => Some(BinaryOperator::FloatOperation(ArithmeticOperations::Addition)),
        TokenKind::Minus => Some(
            BinaryOperator::IntegerOperation(ArithmeticOperations::Subtraction),
        ),
        TokenKind::MinusDot => Some(
            BinaryOperator::FloatOperation(ArithmeticOperations::Subtraction),
        ),
        _ => None,
    }
}

/// The operator of a comparison token.
pub open spec fn comparison_op(k: TokenKind) -> Option<BinaryOperator> {
    match k {
        TokenKind::LeftChevron => Some(BinaryOperator::IntegerComparison(Comparisons::LessThan)),
        TokenKind::LeftChevronDot => Some(BinaryOperator::FloatComparison(Comparisons::LessThan)),
        TokenKind::LeftChevronEqual => Some(
            BinaryOperator::IntegerComparison(Comparisons::LessThanEqual),
        ),
        TokenKind::LeftChevronEqualDot => Some(
            BinaryOperator::FloatComparison(Comparisons::LessThanEqual),
        ),
        TokenKind::RightChevron => Some(BinaryOperator::IntegerComparison(Comparisons::GreaterThan)),
        TokenKind::RightChevronDot => Some(
            BinaryOperator::FloatComparison(Comparisons::GreaterThan),
        ),
        TokenKind::RightChevronEqual => Some(
            BinaryOperator::IntegerComparison(Comparisons::GreaterThanEqual),
        ),
        TokenKind::RightChevronEqualDot => Some(
            BinaryOperator::FloatComparison(Comparisons::GreaterThanEqual),
        ),
        _ => None,
    }
}

/// The operator of an equality token.
pub open spec fn equality_op(k: TokenKind) -> Option<BinaryOperator> {
    match k {
        TokenKind::EqualEqual => Some(BinaryOperator::Equality(EqualityOperations::Equal)),
        TokenKind::BangEqual => Some(BinaryOperator::Equality(EqualityOperations::NotEqual)),
        _ => None,
    }
}

/// primary → "true" | "false" | INTEGER | FLOAT | STRING | IDENTIFIER | "(" expression ")"
/// | "\" function | whitespace
pub open spec fn primary_step(ts: Seq<Token>, st: PState) -> Parsed
    decreases ts.len() - st.current, 4int,
{
    if !wf(ts, st) {
        None
    } else {
        let c = st.current;
        if check(ts, st, TokenKind::Identifier) {
            Some((Ok(Some(Node::Identifier(ts[c]))), adv(st)))
        } else if check(ts, st, TokenKind::Integer) {
            match int_parse(ts[c].lexeme@) {
                Ok(v) => Some((Ok(Some(Node::Value(Val::Integer(v), ts[c]))), adv(st))),
                Err(m) => Some((Err(m), adv(st))),
            }
        } else if check(ts, st, TokenKind::Float) {
            Some((Ok(Some(Node::Value(Val::Float(ts[c].lexeme@), ts[c]))), adv(st)))
        } else if check(ts, st, TokenKind::False) {
            Some((Ok(Some(Node::Value(Val::Boolean(false), ts[c]))), adv(st)))
        } else if check(ts, st, TokenKind::True) {
            Some((Ok(Some(Node::Value(Val::Boolean(true), ts[c]))), adv(st)))
        } else if check(ts, st, TokenKind::Text) {
            Some((Ok(Some(Node::Value(Val::String(ts[c].lexeme@), ts[c]))), adv(st)))
        } else if check(ts, st, TokenKind::LeftParen) {
            let s1 = adv(st);
            match p_expression(ts, s1) {
                None => None,
                Some((r, s2)) => match r {
                    Err(m) => Some((Err(m), s2)),
                    Ok(e) => match p_consume(ts, s2, TokenKind::RightParen) {
                        None => None,
                        Some((rc, s3)) => match rc {
                            Err(m) => Some((Err(m), s3)),
                            Ok(_) => match e {
                                None => None,
                                Some(x) => Some((Ok(Some(Node::Grouping(Box::new(x)))), s3)),
                            },
                        },
                    },
                },
            }
        } else if check(ts, st, TokenKind::BackSlash) {
            p_function(ts, adv(st))
        } else {
            p_whitespace(ts, st)
        }
    }
}

/// What `primary_step` gives; closed, so that each use unfolds it one step at a time.
pub closed spec fn p_primary(ts: Seq<Token>, st: PState) -> Parsed
    decreases ts.len() - st.current, 5int,
{
    primary_step(ts, st)
}

/// function → IDENTIFIER* block, after the backslash.
pub open spec fn function_step(ts: Seq<Token>, st: PState) -> Parsed
    decreases ts.len() - st.current, 32int,
{
    if !wf(ts, st) || st.current <= 0 {
        None
    } else {
        let slash = ts[st.current - 1];
        let (ps, s1) = p_params(ts, st);
        if !after(ts, st, s1) {
            None
        } else {
            match p_block(ts, s1) {
                None => None,
                Some((r, s2)) => match r {
                    Err(m) => Some((Err(m), s2)),
                    Ok(b) => match b {
                        None => None,
                        Some(b) => Some(
                            (Ok(Some(Node::Value(Val::Function(ps, Box::new(b)), slash))), s2),
                        ),
                    },
                },
            }
        }
    }
}

/// What `function_step` gives; closed, so that each use unfolds it one step at a time.
pub closed spec fn p_function(ts: Seq<Token>, st: PState) -> Parsed
    decreases ts.len() - st.current, 33int,
{
    function_step(ts, st)
}

/// block → NEWLINE (INDENT expression NEWLINE?)*
pub open spec fn block_step(ts: Seq<Token>, st: PState) -> Parsed
    decreases ts.len() - st.current, 30int,
{
    if !wf(ts, st) {
        None
    } else {
        match p_consume(ts, st, TokenKind::NewLine) {
            None => None,
            Some((rc, s1)) => match rc {
                Err(m) => Some((Err(m), s1)),
                Ok(_) => if !past(ts, st, s1) || s1.indentation >= 255 {
                    None
                } else {
                    match p_block_items(ts, indented(s1, s1.indentation + 1), Seq::empty()) {
                        None => None,
                        Some((ri, s2)) => match ri {
                            Err(m) => Some((Err(m), s2)),
                            Ok(items) => if s2.indentation <= 0 {
                                None
                            } else {
                                Some(
                                    (
                                        Ok(Some(Node::Block(items))),
                                        indented(s2, s2.indentation - 1),
                                    ),
                                )
                            },
                        },
                    }
                },
            },
        }
    }
}

/// What `block_step` gives; closed, so that each use unfolds it one step at a time.
pub closed spec fn p_block(ts: Seq<Token>, st: PState) -> Parsed
    decreases ts.len() - st.current, 31int,
{
    block_step(ts, st)
}

/// The lines of a block from `st` on, after `items`.
pub open spec fn block_items_step(ts: Seq<Token>, st: PState, items: Seq<Node>) -> Option<
    (Result<Seq<Node>, Seq<char>>, PState),
>
    decreases ts.len() - st.current, 0int,
{
    if !wf(ts, st) {
        None
    } else {
        match p_tabs(ts, st, st.indentation) {
            None => None,
            Some((rt, s1)) => match rt {
                Err(m) => Some((Err(m), s1)),
                Ok(_) => if !past(ts, st, s1) {
                    None
                } else {
                    match p_expression(ts, s1) {
                        None => None,
                        Some((re, s2)) => if !after(ts, s1, s2) {
                            None
                        } else {
                            match re {
                                Err(m) => Some((Err(m), s2)),
                                Ok(o) => {
                                    let items2 = match o {
                                        Some(e) => items.push(e),
                                        None => items,
                                    };
                                    let s3 = if check(ts, s2, TokenKind::NewLine) {
                                        adv(s2)
                                    } else {
                                        s2
                                    };
                                    match p_indented(ts, s3) {
                                        None => None,
                                        Some(more) => if more {
                                            p_block_items(ts, s3, items2)
                                        } else {
                                            Some((Ok(items2), s3))
                                        },
                                    }
                                },
                            }
                        },
                    }
                },
            },
        }
    }
}

/// What `block_items_step` gives; closed, so that each use unfolds it one step at a time.
pub closed spec fn p_block_items(ts: Seq<Token>, st: PState, items: Seq<Node>) -> Option<
    (Result<Seq<Node>, Seq<char>>, PState),
>
    decreases ts.len() - st.current, 1int,
{
    block_items_step(ts, st, items)
}

/// call → primary "|" call_with_first_arg | primary
pub open spec fn call_step(ts: Seq<Token>, st: PState) -> Parsed
    decreases ts.len() - st.current, 6int,
{
    if !wf(ts, st) {
        None
    } else {
        match p_primary(ts, st) {
            None => None,
            Some((r, s1)) => if !after(ts, st, s1) {
                None
            } else {
                match r {
                    Err(m) => Some((Err(m), s1)),
                    Ok(e) => if s1.current <= 0 {
                        None
                    } else if check(ts, s1, TokenKind::Pipe) {
                        match e {
                            None => None,
                            Some(x) => p_call_with_first_arg(ts, adv(s1), x, ts[s1.current - 1]),
                        }
                    } else {
                        Some((Ok(e), s1))
                    },
                }
            },
        }
    }
}

/// What `call_step` gives; closed, so that each use unfolds it one step at a time.
pub closed spec fn p_call(ts: Seq<Token>, st: PState) -> Parsed
    decreases ts.len() - st.current, 7int,
{
    call_step(ts, st)
}

/// call_with_first_arg → IDENTIFIER primary*, with `first` as the first argument and
/// `token` as the token before the pipe.
pub open spec fn call_with_first_arg_step(ts: Seq<Token>, st: PState, first: Node, token: Token) -> Parsed
    decreases ts.len() - st.current, 2int,
{
    if !wf(ts, st) {
        None
    } else {
        match p_consume(ts, st, TokenKind::Identifier) {
            None => None,
            Some((rc, s1)) => match rc {
                Err(m) => Some((Err(m), s1)),
                Ok(_) => if !past(ts, st, s1) {
                    None
                } else {
                    let name = ts[s1.current - 1];
                    match p_call_args(
                        ts,
                        s1,
                        seq![Arg { node: first, position: token.position }],
                    ) {
                        None => None,
                        Some((ra, s2)) => if !after(ts, s1, s2) {
                            None
                        } else {
                            match ra {
                                Err(m) => Some((Err(m), s2)),
                                Ok(args) => {
                                    let call = Node::Call(name, args);
                                    if check(ts, s2, TokenKind::Pipe) {
                                        p_call_with_first_arg(ts, adv(s2), call, ts[s2.current])
                                    } else {
                                        Some((Ok(Some(call)), s2))
                                    }
                                },
                            }
                        },
                    }
                },
            },
        }
    }
}

/// What `call_with_first_arg_step` gives; closed, so that each use unfolds it one step at a time.
pub closed spec fn p_call_with_first_arg(ts: Seq<Token>, st: PState, first: Node, token: Token) -> Parsed
    decreases ts.len() - st.current, 3int,
{
    call_with_first_arg_step(ts, st, first, token)
}

/// The arguments of a call from `st` on, after `args`: primaries up to the end of the
/// line, a pipe, a string concatenation or a closing parenthesis.
pub open spec fn call_args_step(ts: Seq<Token>, st: PState, args: Seq<Arg>) -> Option<
    (Result<Seq<Arg>, Seq<char>>, PState),
>
    decreases ts.len() - st.current, 6int,
{
    if !wf(ts, st) {
        None
    } else if st.current >= ts.len() || check(ts, st, TokenKind::NewLine) || check(
        ts,
        st,
        TokenKind::Pipe,
    ) || check(ts, st, TokenKind::StringConcat) || check(ts, st, TokenKind::RightParen) {
        Some((Ok(args), st))
    } else {
        match p_primary(ts, st) {
            None => None,
            Some((r, s1)) => match r {
                Err(m) => Some((Err(m), s1)),
                Ok(o) => if !past(ts, st, s1) {
                    None
                } else {
                    p_call_args(
                        ts,
                        s1,
                        match o {
                            Some(a) => args.push(Arg { node: a, position: ts[s1.current - 1].position }),
                            None => args,
                        },
                    )
                },
            },
        }
    }
}

/// What `call_args_step` gives; closed, so that each use unfolds it one step at a time.
pub closed spec fn p_call_args(ts: Seq<Token>, st: PState, args: Seq<Arg>) -> Option<
    (Result<Seq<Arg>, Seq<char>>, PState),
>
    decreases ts.len() - st.current, 7int,
{
    call_args_step(ts, st, args)
}

/// unary → ( "!" | "-" ) unary | call
pub open spec fn unary_step(ts: Seq<Token>, st: PState) -> Parsed
    decreases ts.len() - st.current, 8int,
{
    if !wf(ts, st) {
        None
    } else if 0 <= st.current < ts.len() && unary_op(ts[st.current].kind) is Some {
        let op = unary_op(ts[st.current].kind)->0;
        let token = ts[st.current];
        match p_unary(ts, adv(st)) {
            None => None,
            Some((r, s1)) => match r {
                Err(m) => Some((Err(m), s1)),
                Ok(o) => match o {
                    None => None,
                    Some(x) => Some((Ok(Some(Node::Unary(op, token, Box::new(x)))), s1)),
                },
            },
        }
    } else {
        p_call(ts, st)
    }
}

/// What `unary_step` gives; closed, so that each use unfolds it one step at a time.
pub closed spec fn p_unary(ts: Seq<Token>, st: PState) -> Parsed
    decreases ts.len() - st.current, 9int,
{
    unary_step(ts, st)
}

/// factor → unary ( ( "/" | "*" | "%" ) unary )*
pub open spec fn factor_step(ts: Seq<Token>, st: PState) -> Parsed
    decreases ts.len() - st.current, 10int,
{
    if !wf(ts, st) {
        None
    } else {
        match p_unary(ts, st) {
            None => None,
            Some((r, s1)) => if !after(ts, st, s1) {
                None
            } else {
                match r {
                    Err(m) => Some((Err(m), s1)),
                    Ok(e) => p_factor_rest(ts, s1, e),
                }
            },
        }
    }
}

/// What `factor_step` gives; closed, so that each use unfolds it one step at a time.
pub closed spec fn p_factor(ts: Seq<Token>, st: PState) -> Parsed
    decreases ts.len() - st.current, 11int,
{
    factor_step(ts, st)
}

/// The rest of a factor whose left operand so far is `e`.
pub open spec fn factor_rest_step(ts: Seq<Token>, st: PState, e: Option<Node>) -> Parsed
    decreases ts.len() - st.current, 0int,
{
    if !wf(ts, st) {
        None
    } else if e is Some && 0 <= st.current < ts.len() && factor_op(ts[st.current].kind) is Some {
        let op = factor_op(ts[st.current].kind)->0;
        let token = ts[st.current];
        match p_unary(ts, adv(st)) {
            None => None,
            Some((r, s1)) => if !after(ts, adv(st), s1) {
                None
            } else {
                match r {
                    Err(m) => Some((Err(m), s1)),
                    Ok(o) => match o {
                        None => None,
                        Some(x) => p_factor_rest(
                            ts,
                            s1,
                            Some(Node::Binary(Box::new(e->0), op, token, Box::new(x))),
                        ),
                    },
                }
            },
        }
    } else {
        Some((Ok(e), st))
    }
}

/// What `factor_rest_step` gives; closed, so that each use unfolds it one step at a time.
pub closed spec fn p_factor_rest(ts: Seq<Token>, st: PState, e: Option<Node>) -> Parsed
    decreases ts.len() - st.current, 1int,
{
    factor_rest_step(ts, st, e)
}

/// term → factor ( ( "-" | "+" ) factor )*
pub open spec fn term_step(ts: Seq<Token>, st: PState) -> Parsed
    decreases ts.len() - st.current, 12int,
{
    if !wf(ts, st) {
        None
    } else {
        match p_factor(ts, st) {
            None => None,
            Some((r, s1)) => if !after(ts, st, s1) {
                None
            } else {
                match r {
                    Err(m) => Some((Err(m), s1)),
                    Ok(e) => p_term_rest(ts, s1, e),
                }
            },
        }
    }
}

/// What `term_step` gives; closed, so that each use unfolds it one step at a time.
pub closed spec fn p_term(ts: Seq<Token>, st: PState) -> Parsed
    decreases ts.len() - st.current, 13int,
{
    term_step(ts, st)
}

/// The rest of a term whose left operand so far is `e`.
pub open spec fn term_rest_step(ts: Seq<Token>, st: PState, e: Option<Node>) -> Parsed
    decreases ts.len() - st.current, 0int,
{
    if !wf(ts, st) {
        None
    } else if e is Some && 0 <= st.current < ts.len() && term_op(ts[st.current].kind) is Some {
        let op = term_op(ts[st.current].kind)->0;
        let token = ts[st.current];
        match p_factor(ts, adv(st)) {
            None => None,
            Some((r, s1)) => if !after(ts, adv(st), s1) {
                None
            } else {
                match r {
                    Err(m) => Some((Err(m), s1)),
                    Ok(o) => match o {
                        None => None,
                        Some(x) => p_term_rest(
                            ts,
                            s1,
                            Some(Node::Binary(Box::new(e->0), op, token, Box::new(x))),
                        ),
                    },
                }
            },
        }
    } else {
        Some((Ok(e), st))
    }
}

/// What `term_rest_step` gives; closed, so that each use unfolds it one step at a time.
pub closed spec fn p_term_rest(ts: Seq<Token>, st: PState, e: Option<Node>) -> Parsed
    decreases ts.len() - st.current, 1int,
{
    term_rest_step(ts, st, e)
}

/// comparison → term ( ( ">" | ">=" | "<" | "<=" ) term )?
pub open spec fn comparison_step(ts: Seq<Token>, st: PState) -> Parsed
    decreases ts.len() - st.current, 14int,
{
    if !wf(ts, st) {
        None
    } else {
        match p_term(ts, st) {
            None => None,
            Some((r, s1)) => if !after(ts, st, s1) {
                None
            } else {
                match r {
                    Err(m) => Some((Err(m), s1)),
                    Ok(e) => if e is Some && 0 <= s1.current < ts.len() && comparison_op(ts[s1.current].kind) is Some {
                        let op = comparison_op(ts[s1.current].kind)->0;
                        let token = ts[s1.current];
                        match p_term(ts, adv(s1)) {
                            None => None,
                            Some((r2, s2)) => match r2 {
                                Err(m) => Some((Err(m), s2)),
                                Ok(o) => match o {
                                    None => None,
                                    Some(x) => Some(
                                        (
                                            Ok(
                                                Some(
                                                    Node::Binary(
                                                        Box::new(e->0),
                                                        op,
                                                        token,
                                                        Box::new(x),
                                                    ),
                                                ),
                                            ),
                                            s2,
                                        ),
                                    ),
                                },
                            },
                        }
                    } else {
                        Some((Ok(e), s1))
                    },
                }
            },
        }
    }
}

/// What `comparison_step` gives; closed, so that each use unfolds it one step at a time.
pub closed spec fn p_comparison(ts: Seq<Token>, st: PState) -> Parsed
    decreases ts.len() - st.current, 15int,
{
    comparison_step(ts, st)
}

/// equality → comparison ( ( "!=" | "==" ) comparison )?
pub open spec fn equality_step(ts: Seq<Token>, st: PState) -> Parsed
    decreases ts.len() - st.current, 16int,
{
    if !wf(ts, st) {
        None
    } else {
        match p_comparison(ts, st) {
            None => None,
            Some((r, s1)) => if !after(ts, st, s1) {
                None
            } else {
                match r {
                    Err(m) => Some((Err(m), s1)),
                    Ok(e) => if e is Some && 0 <= s1.current < ts.len() && equality_op(ts[s1.current].kind) is Some {
                        let op = equality_op(ts[s1.current].kind)->0;
                        let token = ts[s1.current];
                        match p_comparison(ts, adv(s1)) {
                            None => None,
                            Some((r2, s2)) => match r2 {
                                Err(m) => Some((Err(m), s2)),
                                Ok(o) => match o {
                                    None => None,
                                    Some(x) => Some(
                                        (
                                            Ok(
                                                Some(
                                                    Node::Binary(
                                                        Box::new(e->0),
                                                        op,
                                                        token,
                                                        Box::new(x),
                                                    ),
                                                ),
                                            ),
                                            s2,
                                        ),
                                    ),
                                },
                            },
                        }
                    } else {
                        Some((Ok(e), s1))
                    },
                }
            },
        }
    }
}

/// What `equality_step` gives; closed, so that each use unfolds it one step at a time.
pub closed spec fn p_equality(ts: Seq<Token>, st: PState) -> Parsed
    decreases ts.len() - st.current, 17int,
{
    equality_step(ts, st)
}

/// logic_and → equality ( "and" logic_or )?
pub open spec fn logic_and_step(ts: Seq<Token>, st: PState) -> Parsed
    decreases ts.len() - st.current, 18int,
{
    if !wf(ts, st) {
        None
    } else {
        match p_equality(ts, st) {
            None => None,
            Some((r, s1)) => if !after(ts, st, s1) {
                None
            } else {
                match r {
                    Err(m) => Some((Err(m), s1)),
                    Ok(e) => if check(ts, s1, TokenKind::KeywordAnd) {
                        let token = ts[s1.current];
                        match p_logic_or(ts, adv(s1)) {
                            None => None,
                            Some((r2, s2)) => match r2 {
                                Err(m) => Some((Err(m), s2)),
                                Ok(o) => if e is None || o is None {
                                    None
                                } else {
                                    Some(
                                        (
                                            Ok(
                                                Some(
                                                    Node::Binary(
                                                        Box::new(e->0),
                                                        BinaryOperator::BooleanOperation(
                                                            BooleanOperations::And,
                                                        ),
                                                        token,
                                                        Box::new(o->0),
                                                    ),
                                                ),
                                            ),
                                            s2,
                                        ),
                                    )
                                },
                            },
                        }
                    } else {
                        Some((Ok(e), s1))
                    },
                }
            },
        }
    }
}

/// What `logic_and_step` gives; closed, so that each use unfolds it one step at a time.
pub closed spec fn p_logic_and(ts: Seq<Token>, st: PState) -> Parsed
    decreases ts.len() - st.current, 19int,
{
    logic_and_step(ts, st)
}

/// logic_or → logic_and ( "or" logic_or )?
pub open spec fn logic_or_step(ts: Seq<Token>, st: PState) -> Parsed
    decreases ts.len() - st.current, 20int,
{
    if !wf(ts, st) {
        None
    } else {
        match p_logic_and(ts, st) {
            None => None,
            Some((r, s1)) => if !after(ts, st, s1) {
                None
            } else {
                match r {
                    Err(m) => Some((Err(m), s1)),
                    Ok(e) => if check(ts, s1, TokenKind::KeywordOr) {
                        let token = ts[s1.current];
                        match p_logic_or(ts, adv(s1)) {
                            None => None,
                            Some((r2, s2)) => match r2 {
                                Err(m) => Some((Err(m), s2)),
                                Ok(o) => if e is None || o is None {
                                    None
                                } else {
                                    Some(
                                        (
                                            Ok(
                                                Some(
                                                    Node::Binary(
                                                        Box::new(e->0),
                                                        BinaryOperator::BooleanOperation(
                                                            BooleanOperations::Or,
                                                        ),
                                                        token,
                                                        Box::new(o->0),
                                                    ),
                                                ),
                                            ),
                                            s2,
                                        ),
                                    )
                                },
                            },
                        }
                    } else {
                        Some((Ok(e), s1))
                    },
                }
            },
        }
    }
}

/// What `logic_or_step` gives; closed, so that each use unfolds it one step at a time.
pub closed spec fn p_logic_or(ts: Seq<Token>, st: PState) -> Parsed
    decreases ts.len() - st.current, 21int,
{
    logic_or_step(ts, st)
}

/// string_concat → logic_or ( STRING_CONCAT logic_or )*
pub open spec fn string_concat_step(ts: Seq<Token>, st: PState) -> Parsed
    decreases ts.len() - st.current, 22int,
{
    if !wf(ts, st) {
        None
    } else {
        match p_logic_or(ts, st) {
            None => None,
            Some((r, s1)) => if !after(ts, st, s1) {
                None
            } else {
                match r {
                    Err(m) => Some((Err(m), s1)),
                    Ok(e) => p_concat_rest(ts, s1, e),
                }
            },
        }
    }
}

/// What `string_concat_step` gives; closed, so that each use unfolds it one step at a time.
pub closed spec fn p_string_concat(ts: Seq<Token>, st: PState) -> Parsed
    decreases ts.len() - st.current, 23int,
{
    string_concat_step(ts, st)
}

/// The rest of a string concatenation whose left operand so far is `e`.
pub open spec fn concat_rest_step(ts: Seq<Token>, st: PState, e: Option<Node>) -> Parsed
    decreases ts.len() - st.current, 0int,
{
    if !wf(ts, st) {
        None
    } else if e is Some && check(ts, st, TokenKind::StringConcat) {
        let token = ts[st.current];
        match p_logic_or(ts, adv(st)) {
            None => None,
            Some((r, s1)) => if !after(ts, adv(st), s1) {
                None
            } else {
                match r {
                    Err(m) => Some((Err(m), s1)),
                    Ok(o) => match o {
                        None => None,
                        Some(x) => p_concat_rest(
                            ts,
                            s1,
                            Some(
                                Node::Binary(
                                    Box::new(e->0),
                                    BinaryOperator::StringOperation(StringOperations::StringConcat),
                                    token,
                                    Box::new(x),
                                ),
                            ),
                        ),
                    },
                }
            },
        }
    } else {
        Some((Ok(e), st))
    }
}

/// What `concat_rest_step` gives; closed, so that each use unfolds it one step at a time.
pub closed spec fn p_concat_rest(ts: Seq<Token>, st: PState, e: Option<Node>) -> Parsed
    decreases ts.len() - st.current, 1int,
{
    concat_rest_step(ts, st, e)
}

/// is → string_concat "is" NEWLINE is_arm+ | string_concat
pub open spec fn is_step(ts: Seq<Token>, st: PState) -> Parsed
    decreases ts.len() - st.current, 24int,
{
    if !wf(ts, st) {
        None
    } else {
        match p_string_concat(ts, st) {
            None => None,
            Some((r, s1)) => if !after(ts, st, s1) {
                None
            } else {
                match r {
                    Err(m) => Some((Err(m), s1)),
                    Ok(e) => if check(ts, s1, TokenKind::KeywordIs) {
                        match p_consume(ts, adv(s1), TokenKind::NewLine) {
                            None => None,
                            Some((rc, s2)) => match rc {
                                Err(m) => Some((Err(m), s2)),
                                Ok(_) => if !past(ts, st, s2) || s2.indentation >= 255 {
                                    None
                                } else {
                                    match p_arms(
                                        ts,
                                        indented(s2, s2.indentation + 1),
                                        Seq::empty(),
                                        false,
                                    ) {
                                        None => None,
                                        Some((ra, s3)) => match ra {
                                            Err(m) => Some((Err(m), s3)),
                                            Ok(arms) => if arms.len() == 0 {
                                                Some(
                                                    (
                                                        Err(
                                                            "`is` block must have at least one arm"@,
                                                        ),
                                                        s3,
                                                    ),
                                                )
                                            } else if s3.indentation <= 0 || e is None {
                                                None
                                            } else {
                                                Some(
                                                    (
                                                        Ok(Some(Node::Is(Box::new(e->0), arms))),
                                                        indented(s3, s3.indentation - 1),
                                                    ),
                                                )
                                            },
                                        },
                                    }
                                },
                            },
                        }
                    } else {
                        Some((Ok(e), s1))
                    },
                }
            },
        }
    }
}

/// What `is_step` gives; closed, so that each use unfolds it one step at a time.
pub closed spec fn p_is(ts: Seq<Token>, st: PState) -> Parsed
    decreases ts.len() - st.current, 25int,
{
    is_step(ts, st)
}

/// The arms of an `is` block from `st` on, after `arms`; `has_default` says whether one of
/// them is the default arm.
pub open spec fn arms_step(ts: Seq<Token>, st: PState, arms: Seq<Arm>, has_default: bool) -> Option<
    (Result<Seq<Arm>, Seq<char>>, PState),
>
    decreases ts.len() - st.current, 4int,
{
    if !wf(ts, st) {
        None
    } else {
        match p_indented(ts, st) {
            None => None,
            Some(more) => if !more {
                Some((Ok(arms), st))
            } else {
                match p_is_arm(ts, st) {
                    None => None,
                    Some((ra, s1)) => match ra {
                        Err(m) => Some((Err(m), s1)),
                        Ok(arm) => if has_default {
                            Some(
                                (
                                    Err(
                                        if arm.pattern is Default {
                                            "An `is` block cannot have multiple default arms."@
                                        } else {
                                            "Unreachable due to default arm above."@
                                        },
                                    ),
                                    s1,
                                ),
                            )
                        } else if !past(ts, st, s1) {
                            None
                        } else {
                            p_arms(ts, s1, arms.push(arm), arm.pattern is Default)
                        },
                    },
                }
            },
        }
    }
}

/// What `arms_step` gives; closed, so that each use unfolds it one step at a time.
pub closed spec fn p_arms(ts: Seq<Token>, st: PState, arms: Seq<Arm>, has_default: bool) -> Option<
    (Result<Seq<Arm>, Seq<char>>, PState),
>
    decreases ts.len() - st.current, 5int,
{
    arms_step(ts, st, arms, has_default)
}

/// is_arm → INDENT ( "_" | expression ( "if" expression )? ) block
pub open spec fn is_arm_step(ts: Seq<Token>, st: PState) -> Option<(Result<Arm, Seq<char>>, PState)>
    decreases ts.len() - st.current, 2int,
{
    if !wf(ts, st) {
        None
    } else {
        match p_tabs(ts, st, st.indentation) {
            None => None,
            Some((rt, s1)) => match rt {
                Err(m) => Some((Err(m), s1)),
                Ok(_) => if !past(ts, st, s1) {
                    None
                } else {
                    match p_pattern(ts, s1) {
                        None => None,
                        Some((rp, s2)) => match rp {
                            Err(m) => Some((Err(m), s2)),
                            Ok(p) => if !after(ts, s1, s2) {
                                None
                            } else {
                                match p_block(ts, s2) {
                                    None => None,
                                    Some((rb, s3)) => match rb {
                                        Err(m) => Some((Err(m), s3)),
                                        Ok(b) => match b {
                                            None => Some(
                                                (Err("Error parsing block of `is` arm"@), s3),
                                            ),
                                            Some(b) => Some((Ok(Arm { pattern: p, block: b }), s3)),
                                        },
                                    },
                                }
                            },
                        },
                    }
                },
            },
        }
    }
}

/// What `is_arm_step` gives; closed, so that each use unfolds it one step at a time.
pub closed spec fn p_is_arm(ts: Seq<Token>, st: PState) -> Option<(Result<Arm, Seq<char>>, PState)>
    decreases ts.len() - st.current, 3int,
{
    is_arm_step(ts, st)
}

/// The pattern of an arm: `_`, an identifier with an optional `if` guard, or an expression.
pub open spec fn pattern_step(ts: Seq<Token>, st: PState) -> Option<(Result<Pattern, Seq<char>>, PState)>
    decreases ts.len() - st.current, 30int,
{
    if !wf(ts, st) {
        None
    } else if check(ts, st, TokenKind::Underscore) {
        Some((Ok(Pattern::Default), adv(st)))
    } else {
        match p_expression(ts, st) {
            None => None,
            Some((re, s1)) => match re {
                Err(m) => Some((Err(m), s1)),
                Ok(o) => match o {
                    None => Some((Err("Error parsing pattern of `is` arm"@), s1)),
                    Some(p) => match p {
                        Node::Identifier(name) => if check(ts, s1, TokenKind::KeywordIf) {
                            if !after(ts, st, s1) {
                                None
                            } else {
                                match p_expression(ts, adv(s1)) {
                                    None => None,
                                    Some((rc, s2)) => match rc {
                                        Err(m) => Some((Err(m), s2)),
                                        Ok(c) => Some((Ok(Pattern::Capture(name, c)), s2)),
                                    },
                                }
                            }
                        } else {
                            Some((Ok(Pattern::Capture(name, None)), s1))
                        },
                        _ => Some((Ok(Pattern::Expression(p)), s1)),
                    },
                },
            },
        }
    }
}

/// What `pattern_step` gives; closed, so that each use unfolds it one step at a time.
pub closed spec fn p_pattern(ts: Seq<Token>, st: PState) -> Option<(Result<Pattern, Seq<char>>, PState)>
    decreases ts.len() - st.current, 31int,
{
    pattern_step(ts, st)
}

/// assignment → IDENTIFIER "=" assignment | is
pub open spec fn assignment_step(ts: Seq<Token>, st: PState) -> Parsed
    decreases ts.len() - st.current, 26int,
{
    if !wf(ts, st) {
        None
    } else {
        match p_is(ts, st) {
            None => None,
            Some((r, s1)) => if !after(ts, st, s1) {
                None
            } else {
                match r {
                    Err(m) => Some((Err(m), s1)),
                    Ok(e) => if e is Some && check(ts, s1, TokenKind::Equal) {
                        let s2 = adv(s1);
                        match e->0 {
                            Node::Identifier(name) => match p_assignment(ts, s2) {
                                None => None,
                                Some((r2, s3)) => match r2 {
                                    Err(m) => Some((Err(m), s3)),
                                    Ok(v) => match v {
                                        None => None,
                                        Some(v) => Some(
                                            (
                                                Ok(
                                                    Some(
                                                        Node::Assignment(
                                                            name,
                                                            ts[s1.current],
                                                            Box::new(v),
                                                        ),
                                                    ),
                                                ),
                                                s3,
                                            ),
                                        ),
                                    },
                                },
                            },
                            _ => Some((Err("Invalid assignment target"@), s2)),
                        }
                    } else {
                        Some((Ok(e), s1))
                    },
                }
            },
        }
    }
}

/// What `assignment_step` gives; closed, so that each use unfolds it one step at a time.
pub closed spec fn p_assignment(ts: Seq<Token>, st: PState) -> Parsed
    decreases ts.len() - st.current, 27int,
{
    assignment_step(ts, st)
}

/// expression → assignment
pub open spec fn expression_step(ts: Seq<Token>, st: PState) -> Parsed
    decreases ts.len() - st.current, 28int,
{
    if !wf(ts, st) {
        None
    } else {
        p_assignment(ts, st)
    }
}

/// What `expression_step` gives; closed, so that each use unfolds it one step at a time.
pub closed spec fn p_expression(ts: Seq<Token>, st: PState) -> Parsed
    decreases ts.len() - st.current, 29int,
{
    expression_step(ts, st)
}

/// `ts` without its spaces.
pub open spec fn without_spaces(ts: Seq<Token>) -> Seq<Token>
    decreases ts.len(),
{
    if ts.len() == 0 {
        Seq::empty()
    } else if ts.last().kind is Space {
        without_spaces(ts.drop_last())
    } else {
        without_spaces(ts.drop_last()).push(ts.last())
    }
}

/// A parse error: its message and the token before the parser stopped.
pub type ParseFailure = (Seq<char>, Token);

/// The expressions and errors of the program from `st` on, after `exprs` and `errors`. Each
/// round parses one expression; an error is recorded at the token before where it stopped.
/// `None` where the parser panics, or where a round that took no token leaves the parser
/// where it was, so that it repeats that round for ever.
pub open spec fn all_step(ts: Seq<Token>, st: PState, exprs: Seq<Node>, errors: Seq<ParseFailure>) -> Option<
    (Seq<Node>, Seq<ParseFailure>),
>
    decreases ts.len() - st.current, 0int,
{
    if !wf(ts, st) {
        None
    } else {
        match p_expression(ts, st) {
            None => None,
            Some((r, s1)) => if !after(ts, st, s1) {
                None
            } else {
                let next: Option<(Seq<Node>, Seq<ParseFailure>)> = match r {
                    Ok(o) => match o {
                        Some(e) => Some((exprs.push(e), errors)),
                        None => Some((exprs, errors)),
                    },
                    Err(m) => if s1.current <= 0 {
                        None
                    } else {
                        Some((exprs, errors.push((m, ts[s1.current - 1]))))
                    },
                };
                match next {
                    None => None,
                    Some((es, errs)) => if s1.current >= ts.len() {
                        Some((es, errs))
                    } else if s1.current == st.current {
                        None
                    } else {
                        p_all(ts, s1, es, errs)
                    },
                }
            },
        }
    }
}

/// What `all_step` gives; closed, so that each use unfolds it one step at a time.
pub closed spec fn p_all(ts: Seq<Token>, st: PState, exprs: Seq<Node>, errors: Seq<ParseFailure>) -> Option<
    (Seq<Node>, Seq<ParseFailure>),
>
    decreases ts.len() - st.current, 1int,
{
    all_step(ts, st, exprs, errors)
}

/// The expressions of a program, or its parse errors; `None` where the parser panics or never
/// returns.
pub open spec fn parse_spec(ts: Seq<Token>) -> Option<Result<Seq<Node>, Seq<ParseFailure>>> {
    match p_all(
        without_spaces(ts),
        PState { current: 0, indentation: 0 },
        Seq::empty(),
        Seq::empty(),
    ) {
        None => None,
        Some((es, errs)) => Some(
            if errs.len() == 0 {
                Ok(es)
            } else {
                Err(errs)
            },
        ),
    }
}


/// `p_consume` is `consume_step`.
pub proof fn unfold_p_consume(ts: Seq<Token>, st: PState, k: TokenKind)
    ensures
        p_consume(ts, st, k) == consume_step(ts, st, k),
{
}

/// `p_tabs` is `tabs_step`.
pub proof fn unfold_p_tabs(ts: Seq<Token>, st: PState, n: int)
    ensures
        p_tabs(ts, st, n) == tabs_step(ts, st, n),
{
}

/// `p_indented` is `indented_step`.
pub proof fn unfold_p_indented(ts: Seq<Token>, st: PState)
    ensures
        p_indented(ts, st) == indented_step(ts, st),
{
}

/// `p_params` is `params_step`.
pub proof fn unfold_p_params(ts: Seq<Token>, st: PState)
    ensures
        p_params(ts, st) == params_step(ts, st),
{
}

/// `p_whitespace` is `whitespace_step`.
pub proof fn unfold_p_whitespace(ts: Seq<Token>, st: PState)
    ensures
        p_whitespace(ts, st) == whitespace_step(ts, st),
{
}

/// `p_primary` is `primary_step`.
pub proof fn unfold_p_primary(ts: Seq<Token>, st: PState)
    ensures
        p_primary(ts, st) == primary_step(ts, st),
{
}

/// `p_function` is `function_step`.
pub proof fn unfold_p_function(ts: Seq<Token>, st: PState)
    ensures
        p_function(ts, st) == function_step(ts, st),
{
}

/// `p_block` is `block_step`.
pub proof fn unfold_p_block(ts: Seq<Token>, st: PState)
    ensures
        p_block(ts, st) == block_step(ts, st),
{
}

/// `p_block_items` is `block_items_step`.
pub proof fn unfold_p_block_items(ts: Seq<Token>, st: PState, items: Seq<Node>)
    ensures
        p_block_items(ts, st, items) == block_items_step(ts, st, items),
{
}

/// `p_call` is `call_step`.
pub proof fn unfold_p_call(ts: Seq<Token>, st: PState)
    ensures
        p_call(ts, st) == call_step(ts, st),
{
}

/// `p_call_with_first_arg` is `call_with_first_arg_step`.
pub proof fn unfold_p_call_with_first_arg(ts: Seq<Token>, st: PState, first: Node, token: Token)
    ensures
        p_call_with_first_arg(ts, st, first, token) == call_with_first_arg_step(ts, st, first, token),
{
}

/// `p_call_args` is `call_args_step`.
pub proof fn unfold_p_call_args(ts: Seq<Token>, st: PState, args: Seq<Arg>)
    ensures
        p_call_args(ts, st, args) == call_args_step(ts, st, args),
{
}

/// `p_unary` is `unary_step`.
pub proof fn unfold_p_unary(ts: Seq<Token>, st: PState)
    ensures
        p_unary(ts, st) == unary_step(ts, st),
{
}

/// `p_factor` is `factor_step`.
pub proof fn unfold_p_factor(ts: Seq<Token>, st: PState)
    ensures
        p_factor(ts, st) == factor_step(ts, st),
{
}

/// `p_factor_rest` is `factor_rest_step`.
pub proof fn unfold_p_factor_rest(ts: Seq<Token>, st: PState, e: Option<Node>)
    ensures
        p_factor_rest(ts, st, e) == factor_rest_step(ts, st, e),
{
}

/// `p_term` is `term_step`.
pub proof fn unfold_p_term(ts: Seq<Token>, st: PState)
    ensures
        p_term(ts, st) == term_step(ts, st),
{
}

/// `p_term_rest` is `term_rest_step`.
pub proof fn unfold_p_term_rest(ts: Seq<Token>, st: PState, e: Option<Node>)
    ensures
        p_term_rest(ts, st, e) == term_rest_step(ts, st, e),
{
}

/// `p_comparison` is `comparison_step`.
pub proof fn unfold_p_comparison(ts: Seq<Token>, st: PState)
    ensures
        p_comparison(ts, st) == comparison_step(ts, st),
{
}

/// `p_equality` is `equality_step`.
pub proof fn unfold_p_equality(ts: Seq<Token>, st: PState)
    ensures
        p_equality(ts, st) == equality_step(ts, st),
{
}

/// `p_logic_and` is `logic_and_step`.
pub proof fn unfold_p_logic_and(ts: Seq<Token>, st: PState)
    ensures
        p_logic_and(ts, st) == logic_and_step(ts, st),
{
}

/// `p_logic_or` is `logic_or_step`.
pub proof fn unfold_p_logic_or(ts: Seq<Token>, st: PState)
    ensures
        p_logic_or(ts, st) == logic_or_step(ts, st),
{
}

/// `p_string_concat` is `string_concat_step`.
pub proof fn unfold_p_string_concat(ts: Seq<Token>, st: PState)
    ensures
        p_string_concat(ts, st) == string_concat_step(ts, st),
{
}

/// `p_concat_rest` is `concat_rest_step`.
pub proof fn unfold_p_concat_rest(ts: Seq<Token>, st: PState, e: Option<Node>)
    ensures
        p_concat_rest(ts, st, e) == concat_rest_step(ts, st, e),
{
}

/// `p_is` is `is_step`.
pub proof fn unfold_p_is(ts: Seq<Token>, st: PState)
    ensures
        p_is(ts, st) == is_step(ts, st),
{
}

/// `p_arms` is `arms_step`.
pub proof fn unfold_p_arms(ts: Seq<Token>, st: PState, arms: Seq<Arm>, has_default: bool)
    ensures
        p_arms(ts, st, arms, has_default) == arms_step(ts, st, arms, has_default),
{
}

/// `p_is_arm` is `is_arm_step`.
pub proof fn unfold_p_is_arm(ts: Seq<Token>, st: PState)
    ensures
        p_is_arm(ts, st) == is_arm_step(ts, st),
{
}

/// `p_pattern` is `pattern_step`.
pub proof fn unfold_p_pattern(ts: Seq<Token>, st: PState)
    ensures
        p_pattern(ts, st) == pattern_step(ts, st),
{
}

/// `p_assignment` is `assignment_step`.
pub proof fn unfold_p_assignment(ts: Seq<Token>, st: PState)
    ensures
        p_assignment(ts, st) == assignment_step(ts, st),
{
}

/// `p_expression` is `expression_step`.
pub proof fn unfold_p_expression(ts: Seq<Token>, st: PState)
    ensures
        p_expression(ts, st) == expression_step(ts, st),
{
}

/// `p_all` is `all_step`.
pub proof fn unfold_p_all(ts: Seq<Token>, st: PState, exprs: Seq<Node>, errors: Seq<ParseFailure>)
    ensures
        p_all(ts, st, exprs, errors) == all_step(ts, st, exprs, errors),
{
}

/// Each operator token parses to the operator written as the token is: the operator that a
/// comparison, additive, multiplicative, equality or unary token stands for is written with
/// exactly the token's text.
pub proof fn law_operator_tokens(k: TokenKind)
    ensures
        comparison_op(k) matches Some(op) ==> fixed_text(k) == Some(operator_symbol(op)),
        term_op(k) matches Some(op) ==> fixed_text(k) == Some(operator_symbol(op)),
        factor_op(k) matches Some(op) ==> fixed_text(k) == Some(operator_symbol(op)),
        equality_op(k) matches Some(op) ==> fixed_text(k) == Some(operator_symbol(op)),
        unary_op(k) matches Some(op) ==> fixed_text(k) == Some(unary_symbol(op)),
        comparison_op(k) matches Some(op) ==> (op is IntegerComparison || op is FloatComparison),
        term_op(k) matches Some(op) ==> (op matches BinaryOperator::IntegerOperation(o) && (o
            is Addition || o is Subtraction)) || (op matches BinaryOperator::FloatOperation(o) && (o
            is Addition || o is Subtraction)),
        factor_op(k) matches Some(op) ==> (op matches BinaryOperator::IntegerOperation(o) && !(o
            is Addition || o is Subtraction)) || (op matches BinaryOperator::FloatOperation(o) && !(o
            is Addition || o is Subtraction)),
{
}

/// Every token written as an order comparison parses to that comparison: `<=` to less than or
/// equal, `>.` to the float greater than, and so on.
pub proof fn law_comparison_tokens(k: TokenKind, c: Comparisons)
    ensures
        fixed_text(k) == Some(operator_symbol(BinaryOperator::IntegerComparison(c)))
            ==> comparison_op(k) == Some(BinaryOperator::IntegerComparison(c)),
        fixed_text(k) == Some(operator_symbol(BinaryOperator::FloatComparison(c)))
            ==> comparison_op(k) == Some(BinaryOperator::FloatComparison(c)),
{
    reveal_strlit("false");
    reveal_strlit("true");
    reveal_strlit("and");
    reveal_strlit("or");
    reveal_strlit("is");
    reveal_strlit("if");
    let ops = seq![
        BinaryOperator::IntegerComparison(c),
        BinaryOperator::FloatComparison(c),
    ];
    assert forall|j: int| 0 <= j < 2 && fixed_text(k) == Some(operator_symbol(#[trigger] ops[j]))
        implies comparison_op(k) == Some(ops[j]) by {
        let t = fixed_text(k)->0;
        let sym = operator_symbol(ops[j]);
        assert(t.len() == sym.len());
        assert(t[0] == sym[0]);
        assert(sym.len() >= 2 ==> t[1] == sym[1]);
        assert(sym.len() >= 3 ==> t[2] == sym[2]);
    }
    assert(ops[0] == BinaryOperator::IntegerComparison(c));
    assert(ops[1] == BinaryOperator::FloatComparison(c));
}
/// Every token written as an arithmetic operator parses to that operator, at the level of
/// sums for `+` and `-` and of products for the others; `==` and `!=` parse to the equality
/// tests, and `!` and `-` in front of an operand to inverting and negating.
pub proof fn law_arithmetic_tokens(k: TokenKind, o: ArithmeticOperations, e: EqualityOperations, u: UnaryOperator)
    ensures
        fixed_text(k) == Some(operator_symbol(BinaryOperator::IntegerOperation(o))) ==> (if o is Addition
            || o is Subtraction {
            term_op(k)
        } else {
            factor_op(k)
        }) == Some(BinaryOperator::IntegerOperation(o)),
        fixed_text(k) == Some(operator_symbol(BinaryOperator::FloatOperation(o))) ==> (if o is Addition
            || o is Subtraction {
            term_op(k)
        } else {
            factor_op(k)
        }) == Some(BinaryOperator::FloatOperation(o)),
        fixed_text(k) == Some(operator_symbol(BinaryOperator::Equality(e))) ==> equality_op(k) == Some(
            BinaryOperator::Equality(e),
        ),
        fixed_text(k) == Some(unary_symbol(u)) ==> unary_op(k) == Some(u),
{
    reveal_strlit("false");
    reveal_strlit("true");
    reveal_strlit("and");
    reveal_strlit("or");
    reveal_strlit("is");
    reveal_strlit("if");
    let syms = seq![
        operator_symbol(BinaryOperator::IntegerOperation(o)),
        operator_symbol(BinaryOperator::FloatOperation(o)),
        operator_symbol(BinaryOperator::Equality(e)),
        unary_symbol(u),
    ];
    assert forall|j: int| 0 <= j < 4 && fixed_text(k) == Some(#[trigger] syms[j]) implies {
        &&& j == 0 ==> (if o is Addition || o is Subtraction {
            term_op(k)
        } else {
            factor_op(k)
        }) == Some(BinaryOperator::IntegerOperation(o))
        &&& j == 1 ==> (if o is Addition || o is Subtraction {
            term_op(k)
        } else {
            factor_op(k)
        }) == Some(BinaryOperator::FloatOperation(o))
        &&& j == 2 ==> equality_op(k) == Some(BinaryOperator::Equality(e))
        &&& j == 3 ==> unary_op(k) == Some(u)
    } by {
        let t = fixed_text(k)->0;
        let sym = syms[j];
        assert(t.len() == sym.len());
        assert(t[0] == sym[0]);
        assert(sym.len() >= 2 ==> t[1] == sym[1]);
    }
    assert(syms[0] == operator_symbol(BinaryOperator::IntegerOperation(o)));
    assert(syms[1] == operator_symbol(BinaryOperator::FloatOperation(o)));
    assert(syms[2] == operator_symbol(BinaryOperator::Equality(e)));
    assert(syms[3] == unary_symbol(u));
}

} // verus!
