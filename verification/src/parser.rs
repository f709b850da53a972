use vstd::prelude::*;

use crate::diagnostics::Diagnostics;
use crate::errors::Error;
use crate::expressions::{
    Arg, Arm, ArithmeticOperations, BinaryOperator, BooleanOperations, Comparisons,
    EqualityOperations, Expr, ExprWithPosition, IsArm, IsArmPattern, Node, Pattern,
    StringOperations, UnaryOperator, ValueType, arms_of, args_of, node_of, nodes_of, val_of,
    pattern_of,
};
use crate::grammar::{
    PState, ParseFailure, Parsed, adv, after, all_step, arms_step, assignment_step, block_items_step, block_step, call_args_step, call_step, call_with_first_arg_step, check, comparison_op, comparison_step, concat_rest_step, consume_step, empty_number, equality_op, equality_step, expression_step, factor_op, factor_rest_step, factor_step, function_step, indented, indented_step, int_digits, int_parse, invalid_digit, is_arm_step, is_step, kind_code, kind_debug, kind_name, logic_and_step, logic_or_step, p_all, p_arms, p_assignment, p_block, p_block_items, p_call, p_call_args, p_call_with_first_arg, p_comparison, p_concat_rest, p_consume, p_equality, p_expression, p_factor, p_factor_rest, p_function, p_indented, p_is, p_is_arm, p_logic_and, p_logic_or, p_params, p_pattern, p_primary, p_string_concat, p_tabs, p_term, p_term_rest, p_unary, p_whitespace, params_step, parse_spec, past, pattern_step, primary_step, span_debug, str_debug, string_concat_step, tabs_from, tabs_step, term_op, term_rest_step, term_step, token_debug, too_large, too_small, unary_op, unary_step, unfold_p_all, unfold_p_arms, unfold_p_assignment, unfold_p_block, unfold_p_block_items, unfold_p_call, unfold_p_call_args, unfold_p_call_with_first_arg, unfold_p_comparison, unfold_p_concat_rest, unfold_p_consume, unfold_p_equality, unfold_p_expression, unfold_p_factor, unfold_p_factor_rest, unfold_p_function, unfold_p_indented, unfold_p_is, unfold_p_is_arm, unfold_p_logic_and, unfold_p_logic_or, unfold_p_params, unfold_p_pattern, unfold_p_primary, unfold_p_string_concat, unfold_p_tabs, unfold_p_term, unfold_p_term_rest, unfold_p_unary, unfold_p_whitespace, wf, whitespace_step, without_spaces,
};
use crate::text::{chars_of, push_str, push_unsigned};
use crate::tokens::{Span, Token, TokenKind};

verus! {

broadcast use vstd::std_specs::vec::group_vec_axioms;

/// The number of the kind of `k`.
fn code_of(k: &TokenKind) -> (r: u8)
    ensures
        r == kind_code(*k),
{
    match k {
        TokenKind::BackSlash => 0,
        TokenKind::Bang => 1,
        TokenKind::BangEqual => 2,
        TokenKind::BangEqualDot => 3,
        TokenKind::Comment => 4,
        TokenKind::Equal => 5,
        TokenKind::EqualEqual => 6,
        TokenKind::EqualEqualDot => 7,
        TokenKind::False => 8,
        TokenKind::Float => 9,
        TokenKind::Identifier => 10,
        TokenKind::Integer => 11,
        TokenKind::KeywordAnd => 12,
        TokenKind::KeywordOr => 13,
        TokenKind::KeywordIs => 14,
        TokenKind::KeywordIf => 15,
        TokenKind::LeftBrace => 16,
        TokenKind::LeftParen => 17,
        TokenKind::LeftChevron => 18,
        TokenKind::LeftChevronDot => 19,
        TokenKind::LeftChevronEqual => 20,
        TokenKind::LeftChevronEqualDot => 21,
        TokenKind::Minus => 22,
        TokenKind::MinusDot => 23,
        TokenKind::NewLine => 24,
        TokenKind::Percent => 25,
        TokenKind::PercentDot => 26,
        TokenKind::Pipe => 27,
        TokenKind::Plus => 28,
        TokenKind::PlusDot => 29,
        TokenKind::RightBrace => 30,
        TokenKind::RightParen => 31,
        TokenKind::RightChevron => 32,
        TokenKind::RightChevronDot => 33,
        TokenKind::RightChevronEqual => 34,
        TokenKind::RightChevronEqualDot => 35,
        TokenKind::Slash => 36,
        TokenKind::SlashDot => 37,
        TokenKind::Space => 38,
        TokenKind::Star => 39,
        TokenKind::StarDot => 40,
        TokenKind::StringConcat => 41,
        TokenKind::SyntaxError(_) => 42,
        TokenKind::Tab => 43,
        TokenKind::Text => 44,
        TokenKind::True => 45,
        TokenKind::Underscore => 46,
    }
}


/// The name of the kind of `k`.
fn name_of(k: &TokenKind) -> (r: &'static str)
    ensures
        r@ == kind_name(*k),
{
    match k {
        TokenKind::BackSlash => "BackSlash",
        TokenKind::Bang => "Bang",
        TokenKind::BangEqual => "BangEqual",
        TokenKind::BangEqualDot => "BangEqualDot",
        TokenKind::Comment => "Comment",
        TokenKind::Equal => "Equal",
        TokenKind::EqualEqual => "EqualEqual",
        TokenKind::EqualEqualDot => "EqualEqualDot",
        TokenKind::False => "False",
        TokenKind::Float => "Float",
        TokenKind::Identifier => "Identifier",
        TokenKind::Integer => "Integer",
        TokenKind::KeywordAnd => "KeywordAnd",
        TokenKind::KeywordOr => "KeywordOr",
        TokenKind::KeywordIs => "KeywordIs",
        TokenKind::KeywordIf => "KeywordIf",
        TokenKind::LeftBrace => "LeftBrace",
        TokenKind::LeftParen => "LeftParen",
        TokenKind::LeftChevron => "LeftChevron",
        TokenKind::LeftChevronDot => "LeftChevronDot",
        TokenKind::LeftChevronEqual => "LeftChevronEqual",
        TokenKind::LeftChevronEqualDot => "LeftChevronEqualDot",
        TokenKind::Minus => "Minus",
        TokenKind::MinusDot => "MinusDot",
        TokenKind::NewLine => "NewLine",
        TokenKind::Percent => "Percent",
        TokenKind::PercentDot => "PercentDot",
        TokenKind::Pipe => "Pipe",
        TokenKind::Plus => "Plus",
        TokenKind::PlusDot => "PlusDot",
        TokenKind::RightBrace => "RightBrace",
        TokenKind::RightParen => "RightParen",
        TokenKind::RightChevron => "RightChevron",
        TokenKind::RightChevronDot => "RightChevronDot",
        TokenKind::RightChevronEqual => "RightChevronEqual",
        TokenKind::RightChevronEqualDot => "RightChevronEqualDot",
        TokenKind::Slash => "Slash",
        TokenKind::SlashDot => "SlashDot",
        TokenKind::Space => "Space",
        TokenKind::Star => "Star",
        TokenKind::StarDot => "StarDot",
        TokenKind::StringConcat => "StringConcat",
        TokenKind::SyntaxError(_) => "SyntaxError",
        TokenKind::Tab => "Tab",
        TokenKind::Text => "Text",
        TokenKind::True => "True",
        TokenKind::Underscore => "Underscore",
    }
}


/// The debug text of `s`: std's `Debug` for `str`, through `format!`.
#[verifier::external_body]
fn debug_text(s: &str) -> (r: String)
    ensures
        r@ == str_debug(s@),
{
    format!("{:?}", s)
}

/// Whether `errors` are the parse errors `failures`, one by one.
pub open spec fn reports_failures(errors: Seq<Error>, failures: Seq<ParseFailure>) -> bool {
    &&& errors.len() == failures.len()
    &&& forall|i: int|
        0 <= i < errors.len() ==> (#[trigger] errors[i] matches Error::ParseErr { message, token }
            && message@ == failures[i].0 && token == failures[i].1)
}

/// The value of an optional expression.
pub open spec fn opt_node(e: Option<Expr>) -> Option<Node> {
    match e {
        Some(x) => Some(node_of(x)),
        None => None,
    }
}

/// The value of a parse result.
pub open spec fn rv(x: Result<Option<Expr>, String>) -> Result<Option<Node>, Seq<char>> {
    match x {
        Ok(o) => match o {
            Some(e) => Ok(Some(node_of(e))),
            None => Ok(None),
        },
        Err(m) => Err(m@),
    }
}

/// Whether `r` and the state `s` are what the rule `p` gives.
pub open spec fn outcome(p: Parsed, r: Option<Result<Option<Expr>, String>>, s: PState) -> bool {
    match r {
        None => p is None,
        Some(x) => p == Some((rv(x), s)),
    }
}

/// The value of an arm.
pub open spec fn arm_of(a: IsArm) -> Arm {
    Arm { pattern: pattern_of(a.pattern), block: node_of(a.block) }
}

/// Whether `r` and `s` are what a rule that gives a sequence of arms gives.
pub open spec fn outcome_arms(
    p: Option<(Result<Seq<Arm>, Seq<char>>, PState)>,
    r: Option<Result<Vec<IsArm>, String>>,
    s: PState,
) -> bool {
    match r {
        None => p is None,
        Some(x) => p == Some(
            (
                match x {
                    Ok(v) => Ok(arms_of(v@)),
                    Err(m) => Err(m@),
                },
                s,
            ),
        ),
    }
}

/// Whether `r` and `s` are what a rule that gives one arm gives.
pub open spec fn outcome_arm(
    p: Option<(Result<Arm, Seq<char>>, PState)>,
    r: Option<Result<IsArm, String>>,
    s: PState,
) -> bool {
    match r {
        None => p is None,
        Some(x) => p == Some(
            (
                match x {
                    Ok(a) => Ok(arm_of(a)),
                    Err(m) => Err(m@),
                },
                s,
            ),
        ),
    }
}

/// Whether `r` and `s` are what a rule that gives a pattern gives.
pub open spec fn outcome_pattern(
    p: Option<(Result<Pattern, Seq<char>>, PState)>,
    r: Option<Result<IsArmPattern, String>>,
    s: PState,
) -> bool {
    match r {
        None => p is None,
        Some(x) => p == Some(
            (
                match x {
                    Ok(a) => Ok(pattern_of(a)),
                    Err(m) => Err(m@),
                },
                s,
            ),
        ),
    }
}

/// Whether `r` and `s` are what a rule that gives a sequence of expressions gives.
pub open spec fn outcome_items(
    p: Option<(Result<Seq<Node>, Seq<char>>, PState)>,
    r: Option<Result<Vec<Expr>, String>>,
    s: PState,
) -> bool {
    match r {
        None => p is None,
        Some(x) => p == Some(
            (
                match x {
                    Ok(v) => Ok(nodes_of(v@)),
                    Err(m) => Err(m@),
                },
                s,
            ),
        ),
    }
}

/// Whether `r` and `s` are what a rule that gives call arguments gives.
pub open spec fn outcome_args(
    p: Option<(Result<Seq<Arg>, Seq<char>>, PState)>,
    r: Option<Result<Vec<ExprWithPosition>, String>>,
    s: PState,
) -> bool {
    match r {
        None => p is None,
        Some(x) => p == Some(
            (
                match x {
                    Ok(v) => Ok(args_of(v@)),
                    Err(m) => Err(m@),
                },
                s,
            ),
        ),
    }
}

proof fn lemma_nodes_push(es: Seq<Expr>, e: Expr)
    ensures
        nodes_of(es.push(e)) == nodes_of(es).push(node_of(e)),
{
    assert(es.push(e).drop_last() =~= es);
}

proof fn lemma_args_push(es: Seq<ExprWithPosition>, e: ExprWithPosition)
    ensures
        args_of(es.push(e)) == args_of(es).push(Arg { node: node_of(e.expr), position: e.position }),
{
    assert(es.push(e).drop_last() =~= es);
}

proof fn lemma_arms_push(es: Seq<IsArm>, e: IsArm)
    ensures
        arms_of(es.push(e)) == arms_of(es).push(arm_of(e)),
{
    assert(es.push(e).drop_last() =~= es);
}

/// `t` as a `String`.
fn text(t: &str) -> (r: String)
    ensures
        r@ == t@,
{
    let mut r = String::new();
    push_str(&mut r, t);
    r
}

/// The debug text of a kind of token.
fn kind_debug_text(k: &TokenKind) -> (r: String)
    ensures
        r@ == kind_debug(*k),
{
    match k {
        TokenKind::SyntaxError(m) => {
            let mut r = text("SyntaxError(");
            let d = debug_text(m);
            push_str(&mut r, d.as_str());
            push_str(&mut r, ")");
            r
        },
        _ => text(name_of(k)),
    }
}

/// Appends the debug text of a position.
fn push_span_debug(s: &mut String, p: Span)
    ensures
        final(s)@ == old(s)@ + span_debug(p),
{
    push_str(s, "Span { line: ");
    push_unsigned(s, p.line as u64);
    push_str(s, ", column: ");
    push_unsigned(s, p.column as u64);
    push_str(s, " }");
    proof {
        assert(final(s)@ =~= old(s)@ + span_debug(p));
    }
}

/// The debug text of a token.
fn token_debug_text(t: &Token) -> (r: String)
    ensures
        r@ == token_debug(*t),
{
    let mut r = text("Token { kind: ");
    let k = kind_debug_text(&t.kind);
    push_str(&mut r, k.as_str());
    push_str(&mut r, ", position: ");
    push_span_debug(&mut r, t.position);
    push_str(&mut r, ", lexeme: ");
    let l = debug_text(t.lexeme.as_str());
    push_str(&mut r, l.as_str());
    push_str(&mut r, " }");
    proof {
        assert(r@ =~= token_debug(*t));
    }
    r
}

/// Reads an `i32` from `s` as `str::parse::<i32>` does, with the text of its error.
pub fn parse_int(s: &str) -> (r: Result<i32, String>)
    ensures
        match r {
            Ok(v) => int_parse(s@) == Ok::<i32, Seq<char>>(v),
            Err(m) => int_parse(s@) == Err::<i32, Seq<char>>(m@),
        },
{
    let cs = chars_of(s);
    let n = cs.len();
    if n == 0 {
        return Err(text("cannot parse integer from empty string"));
    }
    if (cs[0] == '+' || cs[0] == '-') && n == 1 {
        return Err(text("invalid digit found in string"));
    }
    let negative = cs[0] == '-';
    let start: usize = if cs[0] == '+' || cs[0] == '-' {
        1
    } else {
        0
    };
    proof {
        assert(cs@.skip(0) =~= cs@);
    }
    let mut acc: i64 = 0;
    let mut i: usize = start;
    while i < n
        invariant
            n == cs@.len(),
            cs@ == s@,
            start <= i <= n,
            negative == (cs@[0] == '-'),
            start == (if cs@[0] == '+' || cs@[0] == '-' { 1int } else { 0int }),
            i32::MIN <= acc <= i32::MAX,
            int_parse(s@) == int_digits(cs@.skip(i as int), negative, acc as int),
        decreases n - i,
    {
        let c = cs[i];
        if !('0' <= c && c <= '9') {
            return Err(text("invalid digit found in string"));
        }
        let d = (c as u32 - '0' as u32) as i64;
        let v: i64 = if negative {
            acc * 10 - d
        } else {
            acc * 10 + d
        };
        if v > 2147483647 {
            return Err(text("number too large to fit in target type"));
        }
        if v < -2147483648 {
            return Err(text("number too small to fit in target type"));
        }
        proof {
            assert(cs@.skip(i as int).skip(1) =~= cs@.skip(i + 1));
        }
        acc = v;
        i += 1;
    }
    Ok(acc as i32)
}

/// A recursive-descent parser over tokens without spaces.
struct Parser {
    tokens: Vec<Token>,
    current: usize,
    indentation: u8,
}

impl Parser {
    /// Where the parser stands.
    closed spec fn st(&self) -> PState {
        PState { current: self.current as int, indentation: self.indentation as int }
    }

    /// Whether the next token is of kind `kind`.
    fn check(&self, kind: TokenKind) -> (r: bool)
        ensures
            r == check(self.tokens@, self.st(), kind),
    {
        self.current < self.tokens.len() && code_of(&self.tokens[self.current].kind) == code_of(
            &kind,
        )
    }

    /// Takes the next token.
    fn advance_token(&mut self) -> (r: Token)
        requires
            old(self).current < old(self).tokens@.len(),
        ensures
            final(self).st() == adv(old(self).st()),
            final(self).tokens@ == old(self).tokens@,
            r == old(self).tokens@[old(self).current as int],
    {
        let t = self.tokens[self.current].clone();
        assert(self.current < self.tokens.len());
        self.current = self.current + 1;
        t
    }

    /// The token before the next one, if there is one.
    fn previous(&self) -> (r: Option<Token>)
        ensures
            match r {
                Some(t) => 0 < self.current <= self.tokens@.len() && t == self.tokens@[self.current - 1],
                None => !(0 < self.current <= self.tokens@.len()),
            },
    {
        if 0 < self.current && self.current <= self.tokens.len() {
            Some(self.tokens[self.current - 1].clone())
        } else {
            None
        }
    }

    /// Takes a token of kind `kind`, as `p_consume` says.
    fn consume(&mut self, kind: TokenKind) -> (r: Option<Result<Token, String>>)
        ensures
            final(self).tokens@ == old(self).tokens@,
            match r {
                None => p_consume(old(self).tokens@, old(self).st(), kind) is None,
                Some(x) => p_consume(old(self).tokens@, old(self).st(), kind) == Some(
                    (
                        match x {
                            Ok(t) => Ok(t),
                            Err(m) => Err(m@),
                        },
                        final(self).st(),
                    ),
                ),
            },
    {
        proof {
            unfold_p_consume(self.tokens@, self.st(), kind);
        }
        if self.check(kind) {
            Some(Ok(self.advance_token()))
        } else if self.current >= self.tokens.len() {
            None
        } else {
            let mut m = text("Expected ");
            let k = kind_debug_text(&kind);
            push_str(&mut m, k.as_str());
            push_str(&mut m, " but found ");
            let t = token_debug_text(&self.tokens[self.current]);
            push_str(&mut m, t.as_str());
            proof {
                assert(m@ =~= "Expected "@ + kind_debug(kind) + " but found "@ + token_debug(
                    self.tokens@[self.current as int],
                ));
            }
            Some(Err(m))
        }
    }

    /// Takes `n` tabs, as `p_tabs` says.
    fn tabs(&mut self, n: u8) -> (r: Option<Result<(), String>>)
        ensures
            final(self).tokens@ == old(self).tokens@,
            match r {
                None => p_tabs(old(self).tokens@, old(self).st(), n as int) is None,
                Some(x) => p_tabs(old(self).tokens@, old(self).st(), n as int) == Some(
                    (
                        match x {
                            Ok(u) => Ok(u),
                            Err(m) => Err(m@),
                        },
                        final(self).st(),
                    ),
                ),
            },
        decreases n,
    {
        proof {
            unfold_p_tabs(self.tokens@, self.st(), n as int);
        }
        if n == 0 {
            return Some(Ok(()));
        }
        match self.consume(TokenKind::Tab) {
            None => None,
            Some(Err(m)) => Some(Err(m)),
            Some(Ok(_)) => self.tabs(n - 1),
        }
    }

    /// Whether the next tokens indent as deep as the block, as `p_indented` says.
    fn indented(&self) -> (r: Option<bool>)
        ensures
            r == p_indented(self.tokens@, self.st()),
    {
        proof {
            unfold_p_indented(self.tokens@, self.st());
        }
        if self.indentation == 0 {
            return Some(true);
        }
        if !(self.tokens.len() > 0 && self.tokens.len() - 1 > self.current) {
            return Some(false);
        }
        let mut i: u8 = 0;
        while i < self.indentation
            invariant
                0 < self.indentation,
                i <= self.indentation,
                self.current + 1 < self.tokens@.len(),
                p_indented(self.tokens@, self.st()) == tabs_from(
                    self.tokens@,
                    self.current as int,
                    self.indentation as int,
                    i as int,
                ),
            decreases self.indentation - i,
        {
            if self.current > self.tokens.len() || self.tokens.len() - self.current <= i as usize {
                return None;
            }
            if code_of(&self.tokens[self.current + i as usize].kind) != code_of(&TokenKind::Tab) {
                return Some(false);
            }
            i += 1;
        }
        Some(true)
    }

    /// The parameters of a function, as `p_params` says.
    fn params(&mut self) -> (r: Vec<Token>)
        requires
            old(self).current <= old(self).tokens@.len(),
        ensures
            final(self).tokens@ == old(self).tokens@,
            (r@, final(self).st()) == p_params(old(self).tokens@, old(self).st()),
        decreases old(self).tokens@.len() - old(self).current,
    {
        proof {
            unfold_p_params(self.tokens@, self.st());
        }
        if self.check(TokenKind::Identifier) {
            let t = self.advance_token();
            let rest = self.params();
            let mut r = vec![t];
            let mut rest = rest;
            r.append(&mut rest);
            proof {
                assert(r@ =~= seq![old(self).tokens@[old(self).current as int]] + p_params(
                    old(self).tokens@,
                    adv(old(self).st()),
                ).0);
            }
            r
        } else {
            Vec::new()
        }
    }

    /// A line break, a comment or the end, as `p_whitespace` says.
    fn whitespace(&mut self) -> (r: Option<Result<Option<Expr>, String>>)
        requires
            old(self).current <= old(self).tokens@.len(),
        ensures
            final(self).tokens@ == old(self).tokens@,
            outcome(p_whitespace(old(self).tokens@, old(self).st()), r, final(self).st()),
    {
        proof {
            unfold_p_whitespace(self.tokens@, self.st());
        }
        if self.check(TokenKind::NewLine) || self.check(TokenKind::Comment) {
            self.advance_token();
            return Some(Ok(None));
        }
        if self.current >= self.tokens.len() {
            return Some(Ok(None));
        }
        if self.current == 0 {
            return None;
        }
        let mut m = text("Parse error of kind ");
        let k = kind_debug_text(&self.tokens[self.current].kind);
        push_str(&mut m, k.as_str());
        push_str(&mut m, " at ");
        let l = debug_text(self.tokens[self.current - 1].lexeme.as_str());
        push_str(&mut m, l.as_str());
        push_str(&mut m, " (");
        push_span_debug(&mut m, self.tokens[self.current - 1].position);
        push_str(&mut m, ")");
        proof {
            let ts = self.tokens@;
            let c = self.current as int;
            assert(m@ =~= "Parse error of kind "@ + kind_debug(ts[c].kind) + " at "@ + str_debug(
                ts[c - 1].lexeme@,
            ) + " ("@ + span_debug(ts[c - 1].position) + ")"@);
        }
        Some(Err(m))
    }

    /// primary, as `p_primary` says.
    #[verifier::spinoff_prover]
    fn primary(&mut self) -> (r: Option<Result<Option<Expr>, String>>)
        ensures
            final(self).tokens@ == old(self).tokens@,
            outcome(p_primary(old(self).tokens@, old(self).st()), r, final(self).st()),
        decreases self.tokens@.len() - self.current, 2int,
    {
        proof {
            unfold_p_primary(self.tokens@, self.st());
            reveal_with_fuel(node_of, 2);
        }
        if self.current > self.tokens.len() {
            return None;
        }
        if self.check(TokenKind::Identifier) {
            let name = self.advance_token();
            Some(Ok(Some(Expr::Identifier { name })))
        } else if self.check(TokenKind::Integer) {
            let token = self.advance_token();
            match parse_int(token.lexeme.as_str()) {
                Ok(v) => Some(Ok(Some(Expr::Value { value: ValueType::Integer(v), token }))),
                Err(m) => Some(Err(m)),
            }
        } else if self.check(TokenKind::Float) {
            let token = self.advance_token();
            let t = token.lexeme.clone();
            Some(Ok(Some(Expr::Value { value: ValueType::Float(t), token })))
        } else if self.check(TokenKind::False) {
            let token = self.advance_token();
            Some(Ok(Some(Expr::Value { value: ValueType::Boolean(false), token })))
        } else if self.check(TokenKind::True) {
            let token = self.advance_token();
            Some(Ok(Some(Expr::Value { value: ValueType::Boolean(true), token })))
        } else if self.check(TokenKind::Text) {
            let token = self.advance_token();
            let t = token.lexeme.clone();
            Some(Ok(Some(Expr::Value { value: ValueType::String(t), token })))
        } else if self.check(TokenKind::LeftParen) {
            self.advance_token();
            match self.expression() {
                None => None,
                Some(Err(m)) => Some(Err(m)),
                Some(Ok(e)) => match self.consume(TokenKind::RightParen) {
                    None => None,
                    Some(Err(m)) => Some(Err(m)),
                    Some(Ok(_)) => match e {
                        None => None,
                        Some(x) => Some(Ok(Some(Expr::Grouping(Box::new(x))))),
                    },
                },
            }
        } else if self.check(TokenKind::BackSlash) {
            self.advance_token();
            self.function()
        } else {
            self.whitespace()
        }
    }

    /// function, as `p_function` says.
    #[verifier::spinoff_prover]
    fn function(&mut self) -> (r: Option<Result<Option<Expr>, String>>)
        ensures
            final(self).tokens@ == old(self).tokens@,
            outcome(p_function(old(self).tokens@, old(self).st()), r, final(self).st()),
        decreases self.tokens@.len() - self.current, 16int,
    {
        proof {
            unfold_p_function(self.tokens@, self.st());
            reveal_with_fuel(node_of, 2);
        }
        if self.current > self.tokens.len() || self.current == 0 {
            return None;
        }
        let slash = self.tokens[self.current - 1].clone();
        let before = self.current;
        let params = self.params();
        if self.current < before || self.current > self.tokens.len() {
            return None;
        }
        match self.block() {
            None => None,
            Some(Err(m)) => Some(Err(m)),
            Some(Ok(b)) => match b {
                None => None,
                Some(b) => Some(
                    Ok(
                        Some(
                            Expr::Value {
                                value: ValueType::Function { params, expr: Box::new(b) },
                                token: slash,
                            },
                        ),
                    ),
                ),
            },
        }
    }

    /// block, as `p_block` says.
    fn block(&mut self) -> (r: Option<Result<Option<Expr>, String>>)
        ensures
            final(self).tokens@ == old(self).tokens@,
            outcome(p_block(old(self).tokens@, old(self).st()), r, final(self).st()),
        decreases self.tokens@.len() - self.current, 15int,
    {
        proof {
            unfold_p_block(self.tokens@, self.st());
        }
        if self.current > self.tokens.len() {
            return None;
        }
        let before = self.current;
        match self.consume(TokenKind::NewLine) {
            None => None,
            Some(Err(m)) => Some(Err(m)),
            Some(Ok(_)) => {
                if self.current <= before || self.current > self.tokens.len()
                    || self.indentation >= 255 {
                    return None;
                }
                self.indentation = self.indentation + 1;
                let no_items: Vec<Expr> = Vec::new();
                proof {
                    assert(nodes_of(no_items@) =~= Seq::<Node>::empty());
                }
                match self.block_items(no_items) {
                    None => None,
                    Some(Err(m)) => Some(Err(m)),
                    Some(Ok(items)) => {
                        if self.indentation == 0 {
                            return None;
                        }
                        self.indentation = self.indentation - 1;
                        Some(Ok(Some(Expr::Block { exprs: items })))
                    },
                }
            },
        }
    }

    /// The lines of a block after `items`, as `p_block_items` says.
    fn block_items(&mut self, items: Vec<Expr>) -> (r: Option<Result<Vec<Expr>, String>>)
        ensures
            final(self).tokens@ == old(self).tokens@,
            outcome_items(
                p_block_items(old(self).tokens@, old(self).st(), nodes_of(items@)),
                r,
                final(self).st(),
            ),
        decreases self.tokens@.len() - self.current, 0int,
    {
        proof {
            unfold_p_block_items(self.tokens@, self.st(), nodes_of(items@));
        }
        if self.current > self.tokens.len() {
            return None;
        }
        let before = self.current;
        match self.tabs(self.indentation) {
            None => None,
            Some(Err(m)) => Some(Err(m)),
            Some(Ok(_)) => {
                if self.current <= before || self.current > self.tokens.len() {
                    return None;
                }
                let start = self.current;
                match self.expression() {
                    None => None,
                    Some(r) => {
                        if self.current < start || self.current > self.tokens.len() {
                            return None;
                        }
                        match r {
                            Err(m) => Some(Err(m)),
                            Ok(o) => {
                                let mut items = items;
                                let ghost old_items = items@;
                                match o {
                                    Some(e) => {
                                        proof {
                                            lemma_nodes_push(old_items, e);
                                        }
                                        items.push(e);
                                    },
                                    None => {},
                                }
                                if self.check(TokenKind::NewLine) {
                                    self.advance_token();
                                }
                                match self.indented() {
                                    None => None,
                                    Some(more) => if more {
                                        self.block_items(items)
                                    } else {
                                        Some(Ok(items))
                                    },
                                }
                            },
                        }
                    },
                }
            },
        }
    }

    /// call, as `p_call` says.
    fn call(&mut self) -> (r: Option<Result<Option<Expr>, String>>)
        ensures
            final(self).tokens@ == old(self).tokens@,
            outcome(p_call(old(self).tokens@, old(self).st()), r, final(self).st()),
        decreases self.tokens@.len() - self.current, 3int,
    {
        proof {
            unfold_p_call(self.tokens@, self.st());
        }
        if self.current > self.tokens.len() {
            return None;
        }
        let before = self.current;
        match self.primary() {
            None => None,
            Some(r) => {
                if self.current < before || self.current > self.tokens.len() {
                    return None;
                }
                match r {
                    Err(m) => Some(Err(m)),
                    Ok(e) => {
                        if self.current == 0 {
                            return None;
                        }
                        let token = self.tokens[self.current - 1].clone();
                        if self.check(TokenKind::Pipe) {
                            self.advance_token();
                            match e {
                                None => None,
                                Some(x) => self.call_with_first_arg(x, token),
                            }
                        } else {
                            Some(Ok(e))
                        }
                    },
                }
            },
        }
    }

    /// call_with_first_arg, as `p_call_with_first_arg` says.
    fn call_with_first_arg(&mut self, first: Expr, token: Token) -> (r: Option<
        Result<Option<Expr>, String>,
    >)
        ensures
            final(self).tokens@ == old(self).tokens@,
            outcome(
                p_call_with_first_arg(old(self).tokens@, old(self).st(), node_of(first), token),
                r,
                final(self).st(),
            ),
        decreases self.tokens@.len() - self.current, 1int,
    {
        proof {
            unfold_p_call_with_first_arg(self.tokens@, self.st(), node_of(first), token);
        }
        if self.current > self.tokens.len() {
            return None;
        }
        let before = self.current;
        match self.consume(TokenKind::Identifier) {
            None => None,
            Some(Err(m)) => Some(Err(m)),
            Some(Ok(_)) => {
                if self.current <= before || self.current > self.tokens.len() {
                    return None;
                }
                let name = self.tokens[self.current - 1].clone();
                let start = self.current;
                let ghost first_node = node_of(first);
                let args = vec![ExprWithPosition { expr: first, position: token.position }];
                proof {
                    assert(args@.drop_last() =~= Seq::<ExprWithPosition>::empty());
                    reveal_with_fuel(args_of, 2);
                    assert(args_of(args@) =~= seq![Arg { node: first_node, position: token.position }]);
                }
                match self.call_args(args) {
                    None => None,
                    Some(ra) => {
                        if self.current < start || self.current > self.tokens.len() {
                            return None;
                        }
                        match ra {
                            Err(m) => Some(Err(m)),
                            Ok(args) => {
                                let call = Expr::Call { name, args };
                                if self.check(TokenKind::Pipe) {
                                    let pipe = self.advance_token();
                                    self.call_with_first_arg(call, pipe)
                                } else {
                                    Some(Ok(Some(call)))
                                }
                            },
                        }
                    },
                }
            },
        }
    }

    /// The arguments of a call after `args`, as `p_call_args` says.
    fn call_args(&mut self, args: Vec<ExprWithPosition>) -> (r: Option<
        Result<Vec<ExprWithPosition>, String>,
    >)
        ensures
            final(self).tokens@ == old(self).tokens@,
            outcome_args(
                p_call_args(old(self).tokens@, old(self).st(), args_of(args@)),
                r,
                final(self).st(),
            ),
        decreases self.tokens@.len() - self.current, 3int,
    {
        proof {
            unfold_p_call_args(self.tokens@, self.st(), args_of(args@));
        }
        if self.current > self.tokens.len() {
            return None;
        }
        if self.current >= self.tokens.len() || self.check(TokenKind::NewLine) || self.check(
            TokenKind::Pipe,
        ) || self.check(TokenKind::StringConcat) || self.check(TokenKind::RightParen) {
            return Some(Ok(args));
        }
        let before = self.current;
        match self.primary() {
            None => None,
            Some(Err(m)) => Some(Err(m)),
            Some(Ok(o)) => {
                if self.current <= before || self.current > self.tokens.len() {
                    return None;
                }
                let mut args = args;
                match o {
                    Some(a) => {
                        let position = self.tokens[self.current - 1].position;
                        let arg = ExprWithPosition { expr: a, position };
                        proof {
                            lemma_args_push(args@, arg);
                        }
                        args.push(arg);
                    },
                    None => {},
                }
                self.call_args(args)
            },
        }
    }

    /// unary, as `p_unary` says.
    fn unary(&mut self) -> (r: Option<Result<Option<Expr>, String>>)
        ensures
            final(self).tokens@ == old(self).tokens@,
            outcome(p_unary(old(self).tokens@, old(self).st()), r, final(self).st()),
        decreases self.tokens@.len() - self.current, 4int,
    {
        proof {
            unfold_p_unary(self.tokens@, self.st());
        }
        if self.current > self.tokens.len() {
            return None;
        }
        let op = if self.current < self.tokens.len() {
            unary_operator(&self.tokens[self.current].kind)
        } else {
            None
        };
        match op {
            Some(operator) => {
                let token = self.advance_token();
                match self.unary() {
                    None => None,
                    Some(Err(m)) => Some(Err(m)),
                    Some(Ok(o)) => match o {
                        None => None,
                        Some(x) => Some(Ok(Some(Expr::Unary { operator, _token: token, expr: Box::new(x) }))),
                    },
                }
            },
            None => self.call(),
        }
    }

    /// factor, as `p_factor` says.
    #[verifier::spinoff_prover]
    fn factor(&mut self) -> (r: Option<Result<Option<Expr>, String>>)
        ensures
            final(self).tokens@ == old(self).tokens@,
            outcome(p_factor(old(self).tokens@, old(self).st()), r, final(self).st()),
        decreases self.tokens@.len() - self.current, 5int,
    {
        proof {
            unfold_p_factor(self.tokens@, self.st());
        }
        if self.current > self.tokens.len() {
            return None;
        }
        let before = self.current;
        match self.unary() {
            None => None,
            Some(r) => {
                if self.current < before || self.current > self.tokens.len() {
                    return None;
                }
                match r {
                    Err(m) => Some(Err(m)),
                    Ok(e) => self.factor_rest(e),
                }
            },
        }
    }

    /// The rest of a factor after `e`, as `p_factor_rest` says.
    fn factor_rest(&mut self, e: Option<Expr>) -> (r: Option<Result<Option<Expr>, String>>)
        ensures
            final(self).tokens@ == old(self).tokens@,
            outcome(
                p_factor_rest(
                    old(self).tokens@,
                    old(self).st(),
                    opt_node(e),
                ),
                r,
                final(self).st(),
            ),
        decreases self.tokens@.len() - self.current, 0int,
    {
        proof {
            unfold_p_factor_rest(self.tokens@, self.st(), opt_node(e));
        }
        if self.current > self.tokens.len() {
            return None;
        }
        let op = if e.is_some() && self.current < self.tokens.len() {
            factor_operator(&self.tokens[self.current].kind)
        } else {
            None
        };
        match op {
            Some(operator) => {
                let token = self.advance_token();
                let start = self.current;
                match self.unary() {
                    None => None,
                    Some(r) => {
                        if self.current < start || self.current > self.tokens.len() {
                            return None;
                        }
                        match r {
                            Err(m) => Some(Err(m)),
                            Ok(o) => match (e, o) {
                                (Some(left), Some(x)) => self.factor_rest(
                                    Some(
                                        Expr::Binary {
                                            left: Box::new(left),
                                            operator,
                                            _token: token,
                                            right: Box::new(x),
                                        },
                                    ),
                                ),
                                _ => None,
                            },
                        }
                    },
                }
            },
            None => Some(Ok(e)),
        }
    }

    /// term, as `p_term` says.
    #[verifier::spinoff_prover]
    fn term(&mut self) -> (r: Option<Result<Option<Expr>, String>>)
        ensures
            final(self).tokens@ == old(self).tokens@,
            outcome(p_term(old(self).tokens@, old(self).st()), r, final(self).st()),
        decreases self.tokens@.len() - self.current, 6int,
    {
        proof {
            unfold_p_term(self.tokens@, self.st());
        }
        if self.current > self.tokens.len() {
            return None;
        }
        let before = self.current;
        match self.factor() {
            None => None,
            Some(r) => {
                if self.current < before || self.current > self.tokens.len() {
                    return None;
                }
                match r {
                    Err(m) => Some(Err(m)),
                    Ok(e) => self.term_rest(e),
                }
            },
        }
    }

    /// The rest of a term after `e`, as `p_term_rest` says.
    fn term_rest(&mut self, e: Option<Expr>) -> (r: Option<Result<Option<Expr>, String>>)
        ensures
            final(self).tokens@ == old(self).tokens@,
            outcome(
                p_term_rest(
                    old(self).tokens@,
                    old(self).st(),
                    opt_node(e),
                ),
                r,
                final(self).st(),
            ),
        decreases self.tokens@.len() - self.current, 0int,
    {
        proof {
            unfold_p_term_rest(self.tokens@, self.st(), opt_node(e));
        }
        if self.current > self.tokens.len() {
            return None;
        }
        let op = if e.is_some() && self.current < self.tokens.len() {
            term_operator(&self.tokens[self.current].kind)
        } else {
            None
        };
        match op {
            Some(operator) => {
                let token = self.advance_token();
                let start = self.current;
                match self.factor() {
                    None => None,
                    Some(r) => {
                        if self.current < start || self.current > self.tokens.len() {
                            return None;
                        }
                        match r {
                            Err(m) => Some(Err(m)),
                            Ok(o) => match (e, o) {
                                (Some(left), Some(x)) => self.term_rest(
                                    Some(
                                        Expr::Binary {
                                            left: Box::new(left),
                                            operator,
                                            _token: token,
                                            right: Box::new(x),
                                        },
                                    ),
                                ),
                                _ => None,
                            },
                        }
                    },
                }
            },
            None => Some(Ok(e)),
        }
    }

    /// comparison, as `p_comparison` says.
    #[verifier::spinoff_prover]
    fn comparison(&mut self) -> (r: Option<Result<Option<Expr>, String>>)
        ensures
            final(self).tokens@ == old(self).tokens@,
            outcome(p_comparison(old(self).tokens@, old(self).st()), r, final(self).st()),
        decreases self.tokens@.len() - self.current, 7int,
    {
        proof {
            unfold_p_comparison(self.tokens@, self.st());
        }
        if self.current > self.tokens.len() {
            return None;
        }
        let before = self.current;
        match self.term() {
            None => None,
            Some(r) => {
                if self.current < before || self.current > self.tokens.len() {
                    return None;
                }
                match r {
                    Err(m) => Some(Err(m)),
                    Ok(e) => {
                        let op = if e.is_some() && self.current < self.tokens.len() {
                            comparison_operator(&self.tokens[self.current].kind)
                        } else {
                            None
                        };
                        match op {
                            Some(operator) => {
                                let token = self.advance_token();
                                match self.term() {
                                    None => None,
                                    Some(Err(m)) => Some(Err(m)),
                                    Some(Ok(o)) => match (e, o) {
                                        (Some(left), Some(x)) => Some(
                                            Ok(
                                                Some(
                                                    Expr::Binary {
                                                        left: Box::new(left),
                                                        operator,
                                                        _token: token,
                                                        right: Box::new(x),
                                                    },
                                                ),
                                            ),
                                        ),
                                        _ => None,
                                    },
                                }
                            },
                            None => Some(Ok(e)),
                        }
                    },
                }
            },
        }
    }

    /// equality, as `p_equality` says.
    #[verifier::spinoff_prover]
    fn equality(&mut self) -> (r: Option<Result<Option<Expr>, String>>)
        ensures
            final(self).tokens@ == old(self).tokens@,
            outcome(p_equality(old(self).tokens@, old(self).st()), r, final(self).st()),
        decreases self.tokens@.len() - self.current, 8int,
    {
        proof {
            unfold_p_equality(self.tokens@, self.st());
        }
        if self.current > self.tokens.len() {
            return None;
        }
        let before = self.current;
        match self.comparison() {
            None => None,
            Some(r) => {
                if self.current < before || self.current > self.tokens.len() {
                    return None;
                }
                match r {
                    Err(m) => Some(Err(m)),
                    Ok(e) => {
                        let op = if e.is_some() && self.current < self.tokens.len() {
                            equality_operator(&self.tokens[self.current].kind)
                        } else {
                            None
                        };
                        match op {
                            Some(operator) => {
                                let token = self.advance_token();
                                match self.comparison() {
                                    None => None,
                                    Some(Err(m)) => Some(Err(m)),
                                    Some(Ok(o)) => match (e, o) {
                                        (Some(left), Some(x)) => Some(
                                            Ok(
                                                Some(
                                                    Expr::Binary {
                                                        left: Box::new(left),
                                                        operator,
                                                        _token: token,
                                                        right: Box::new(x),
                                                    },
                                                ),
                                            ),
                                        ),
                                        _ => None,
                                    },
                                }
                            },
                            None => Some(Ok(e)),
                        }
                    },
                }
            },
        }
    }

    /// logic_and, as `p_logic_and` says.
    #[verifier::spinoff_prover]
    fn logic_and(&mut self) -> (r: Option<Result<Option<Expr>, String>>)
        ensures
            final(self).tokens@ == old(self).tokens@,
            outcome(p_logic_and(old(self).tokens@, old(self).st()), r, final(self).st()),
        decreases self.tokens@.len() - self.current, 9int,
    {
        proof {
            unfold_p_logic_and(self.tokens@, self.st());
        }
        if self.current > self.tokens.len() {
            return None;
        }
        let before = self.current;
        match self.equality() {
            None => None,
            Some(r) => {
                if self.current < before || self.current > self.tokens.len() {
                    return None;
                }
                match r {
                    Err(m) => Some(Err(m)),
                    Ok(e) => if self.check(TokenKind::KeywordAnd) {
                        let token = self.advance_token();
                        match self.logic_or() {
                            None => None,
                            Some(Err(m)) => Some(Err(m)),
                            Some(Ok(o)) => match (e, o) {
                                (Some(left), Some(x)) => Some(
                                    Ok(
                                        Some(
                                            Expr::Binary {
                                                left: Box::new(left),
                                                operator: BinaryOperator::BooleanOperation(
                                                    BooleanOperations::And,
                                                ),
                                                _token: token,
                                                right: Box::new(x),
                                            },
                                        ),
                                    ),
                                ),
                                _ => None,
                            },
                        }
                    } else {
                        Some(Ok(e))
                    },
                }
            },
        }
    }

    /// logic_or, as `p_logic_or` says.
    #[verifier::spinoff_prover]
    fn logic_or(&mut self) -> (r: Option<Result<Option<Expr>, String>>)
        ensures
            final(self).tokens@ == old(self).tokens@,
            outcome(p_logic_or(old(self).tokens@, old(self).st()), r, final(self).st()),
        decreases self.tokens@.len() - self.current, 10int,
    {
        proof {
            unfold_p_logic_or(self.tokens@, self.st());
        }
        if self.current > self.tokens.len() {
            return None;
        }
        let before = self.current;
        match self.logic_and() {
            None => None,
            Some(r) => {
                if self.current < before || self.current > self.tokens.len() {
                    return None;
                }
                match r {
                    Err(m) => Some(Err(m)),
                    Ok(e) => if self.check(TokenKind::KeywordOr) {
                        let token = self.advance_token();
                        match self.logic_or() {
                            None => None,
                            Some(Err(m)) => Some(Err(m)),
                            Some(Ok(o)) => match (e, o) {
                                (Some(left), Some(x)) => Some(
                                    Ok(
                                        Some(
                                            Expr::Binary {
                                                left: Box::new(left),
                                                operator: BinaryOperator::BooleanOperation(
                                                    BooleanOperations::Or,
                                                ),
                                                _token: token,
                                                right: Box::new(x),
                                            },
                                        ),
                                    ),
                                ),
                                _ => None,
                            },
                        }
                    } else {
                        Some(Ok(e))
                    },
                }
            },
        }
    }

    /// string_concat, as `p_string_concat` says.
    #[verifier::spinoff_prover]
    fn string_concat(&mut self) -> (r: Option<Result<Option<Expr>, String>>)
        ensures
            final(self).tokens@ == old(self).tokens@,
            outcome(p_string_concat(old(self).tokens@, old(self).st()), r, final(self).st()),
        decreases self.tokens@.len() - self.current, 11int,
    {
        proof {
            unfold_p_string_concat(self.tokens@, self.st());
        }
        if self.current > self.tokens.len() {
            return None;
        }
        let before = self.current;
        match self.logic_or() {
            None => None,
            Some(r) => {
                if self.current < before || self.current > self.tokens.len() {
                    return None;
                }
                match r {
                    Err(m) => Some(Err(m)),
                    Ok(e) => self.concat_rest(e),
                }
            },
        }
    }

    /// The rest of a string concatenation after `e`, as `p_concat_rest` says.
    fn concat_rest(&mut self, e: Option<Expr>) -> (r: Option<Result<Option<Expr>, String>>)
        ensures
            final(self).tokens@ == old(self).tokens@,
            outcome(
                p_concat_rest(
                    old(self).tokens@,
                    old(self).st(),
                    opt_node(e),
                ),
                r,
                final(self).st(),
            ),
        decreases self.tokens@.len() - self.current, 0int,
    {
        proof {
            unfold_p_concat_rest(self.tokens@, self.st(), opt_node(e));
        }
        if self.current > self.tokens.len() {
            return None;
        }
        if e.is_some() && self.check(TokenKind::StringConcat) {
            let token = self.advance_token();
            let start = self.current;
            match self.logic_or() {
                None => None,
                Some(r) => {
                    if self.current < start || self.current > self.tokens.len() {
                        return None;
                    }
                    match r {
                        Err(m) => Some(Err(m)),
                        Ok(o) => match (e, o) {
                            (Some(left), Some(x)) => self.concat_rest(
                                Some(
                                    Expr::Binary {
                                        left: Box::new(left),
                                        operator: BinaryOperator::StringOperation(
                                            StringOperations::StringConcat,
                                        ),
                                        _token: token,
                                        right: Box::new(x),
                                    },
                                ),
                            ),
                            _ => None,
                        },
                    }
                },
            }
        } else {
            Some(Ok(e))
        }
    }

    /// is, as `p_is` says.
    #[verifier::spinoff_prover]
    fn is_expr(&mut self) -> (r: Option<Result<Option<Expr>, String>>)
        ensures
            final(self).tokens@ == old(self).tokens@,
            outcome(p_is(old(self).tokens@, old(self).st()), r, final(self).st()),
        decreases self.tokens@.len() - self.current, 12int,
    {
        proof {
            unfold_p_is(self.tokens@, self.st());
        }
        if self.current > self.tokens.len() {
            return None;
        }
        let before = self.current;
        match self.string_concat() {
            None => None,
            Some(r) => {
                if self.current < before || self.current > self.tokens.len() {
                    return None;
                }
                match r {
                    Err(m) => Some(Err(m)),
                    Ok(e) => if self.check(TokenKind::KeywordIs) {
                        self.advance_token();
                        match self.consume(TokenKind::NewLine) {
                            None => None,
                            Some(Err(m)) => Some(Err(m)),
                            Some(Ok(_)) => {
                                if self.current <= before || self.current > self.tokens.len()
                                    || self.indentation >= 255 {
                                    return None;
                                }
                                self.indentation = self.indentation + 1;
                                let no_arms: Vec<IsArm> = Vec::new();
                                proof {
                                    assert(arms_of(no_arms@) =~= Seq::<Arm>::empty());
                                }
                                match self.arms(no_arms, false) {
                                    None => None,
                                    Some(Err(m)) => Some(Err(m)),
                                    Some(Ok(arms)) => {
                                        if arms.len() == 0 {
                                            return Some(
                                                Err(text("`is` block must have at least one arm")),
                                            );
                                        }
                                        if self.indentation == 0 {
                                            return None;
                                        }
                                        match e {
                                            None => None,
                                            Some(x) => {
                                                self.indentation = self.indentation - 1;
                                                Some(Ok(Some(Expr::Is { expr: Box::new(x), arms })))
                                            },
                                        }
                                    },
                                }
                            },
                        }
                    } else {
                        Some(Ok(e))
                    },
                }
            },
        }
    }

    /// The arms of an `is` block after `arms`, as `p_arms` says.
    fn arms(&mut self, arms: Vec<IsArm>, has_default: bool) -> (r: Option<Result<Vec<IsArm>, String>>)
        ensures
            final(self).tokens@ == old(self).tokens@,
            outcome_arms(
                p_arms(old(self).tokens@, old(self).st(), arms_of(arms@), has_default),
                r,
                final(self).st(),
            ),
        decreases self.tokens@.len() - self.current, 2int,
    {
        proof {
            unfold_p_arms(self.tokens@, self.st(), arms_of(arms@), has_default);
        }
        if self.current > self.tokens.len() {
            return None;
        }
        match self.indented() {
            None => None,
            Some(more) => {
                if !more {
                    return Some(Ok(arms));
                }
                let before = self.current;
                match self.is_arm() {
                    None => None,
                    Some(Err(m)) => Some(Err(m)),
                    Some(Ok(arm)) => {
                        let is_default = match arm.pattern {
                            IsArmPattern::Default => true,
                            _ => false,
                        };
                        if has_default {
                            if is_default {
                                return Some(
                                    Err(text("An `is` block cannot have multiple default arms.")),
                                );
                            } else {
                                return Some(Err(text("Unreachable due to default arm above.")));
                            }
                        }
                        if self.current <= before || self.current > self.tokens.len() {
                            return None;
                        }
                        let mut arms = arms;
                        proof {
                            lemma_arms_push(arms@, arm);
                        }
                        arms.push(arm);
                        self.arms(arms, is_default)
                    },
                }
            },
        }
    }

    /// One arm of an `is` block, as `p_is_arm` says.
    fn is_arm(&mut self) -> (r: Option<Result<IsArm, String>>)
        ensures
            final(self).tokens@ == old(self).tokens@,
            outcome_arm(p_is_arm(old(self).tokens@, old(self).st()), r, final(self).st()),
        decreases self.tokens@.len() - self.current, 1int,
    {
        proof {
            unfold_p_is_arm(self.tokens@, self.st());
        }
        if self.current > self.tokens.len() {
            return None;
        }
        let before = self.current;
        match self.tabs(self.indentation) {
            None => None,
            Some(Err(m)) => Some(Err(m)),
            Some(Ok(_)) => {
                if self.current <= before || self.current > self.tokens.len() {
                    return None;
                }
                let start = self.current;
                match self.pattern() {
                    None => None,
                    Some(Err(m)) => Some(Err(m)),
                    Some(Ok(p)) => {
                        if self.current < start || self.current > self.tokens.len() {
                            return None;
                        }
                        match self.block() {
                            None => None,
                            Some(Err(m)) => Some(Err(m)),
                            Some(Ok(b)) => match b {
                                None => Some(Err(text("Error parsing block of `is` arm"))),
                                Some(b) => Some(Ok(IsArm { pattern: p, block: b })),
                            },
                        }
                    },
                }
            },
        }
    }

    /// The pattern of an arm, as `p_pattern` says.
    fn pattern(&mut self) -> (r: Option<Result<IsArmPattern, String>>)
        ensures
            final(self).tokens@ == old(self).tokens@,
            outcome_pattern(p_pattern(old(self).tokens@, old(self).st()), r, final(self).st()),
        decreases self.tokens@.len() - self.current, 15int,
    {
        proof {
            unfold_p_pattern(self.tokens@, self.st());
        }
        if self.current > self.tokens.len() {
            return None;
        }
        if self.check(TokenKind::Underscore) {
            self.advance_token();
            return Some(Ok(IsArmPattern::Default));
        }
        let before = self.current;
        match self.expression() {
            None => None,
            Some(Err(m)) => Some(Err(m)),
            Some(Ok(o)) => match o {
                None => Some(Err(text("Error parsing pattern of `is` arm"))),
                Some(p) => match p {
                    Expr::Identifier { name } => if self.check(TokenKind::KeywordIf) {
                        if self.current < before || self.current > self.tokens.len() {
                            return None;
                        }
                        self.advance_token();
                        match self.expression() {
                            None => None,
                            Some(Err(m)) => Some(Err(m)),
                            Some(Ok(c)) => Some(
                                Ok(IsArmPattern::Capture { identifier: name, condition: c }),
                            ),
                        }
                    } else {
                        Some(Ok(IsArmPattern::Capture { identifier: name, condition: None }))
                    },
                    _ => Some(Ok(IsArmPattern::Expression(p))),
                },
            },
        }
    }

    /// assignment, as `p_assignment` says.
    fn assignment(&mut self) -> (r: Option<Result<Option<Expr>, String>>)
        ensures
            final(self).tokens@ == old(self).tokens@,
            outcome(p_assignment(old(self).tokens@, old(self).st()), r, final(self).st()),
        decreases self.tokens@.len() - self.current, 13int,
    {
        proof {
            unfold_p_assignment(self.tokens@, self.st());
        }
        if self.current > self.tokens.len() {
            return None;
        }
        let before = self.current;
        match self.is_expr() {
            None => None,
            Some(r) => {
                if self.current < before || self.current > self.tokens.len() {
                    return None;
                }
                match r {
                    Err(m) => Some(Err(m)),
                    Ok(e) => if e.is_some() && self.check(TokenKind::Equal) {
                        let operator = self.advance_token();
                        match e {
                            Some(Expr::Identifier { name }) => match self.assignment() {
                                None => None,
                                Some(Err(m)) => Some(Err(m)),
                                Some(Ok(v)) => match v {
                                    None => None,
                                    Some(v) => Some(
                                        Ok(
                                            Some(
                                                Expr::Assignment {
                                                    name,
                                                    _operator: operator,
                                                    expr: Box::new(v),
                                                },
                                            ),
                                        ),
                                    ),
                                },
                            },
                            _ => Some(Err(text("Invalid assignment target"))),
                        }
                    } else {
                        Some(Ok(e))
                    },
                }
            },
        }
    }

    /// expression, as `p_expression` says.
    fn expression(&mut self) -> (r: Option<Result<Option<Expr>, String>>)
        ensures
            final(self).tokens@ == old(self).tokens@,
            outcome(p_expression(old(self).tokens@, old(self).st()), r, final(self).st()),
        decreases self.tokens@.len() - self.current, 14int,
    {
        proof {
            unfold_p_expression(self.tokens@, self.st());
        }
        if self.current > self.tokens.len() {
            return None;
        }
        self.assignment()
    }
}

/// The operator of a unary operator token, as `unary_op` says.
fn unary_operator(k: &TokenKind) -> (r: Option<UnaryOperator>)
    ensures
        r == unary_op(*k),
{
    match k {
        TokenKind::Bang => Some(UnaryOperator::Not),
        TokenKind::Minus => Some(UnaryOperator::Negation),
        _ => None,
    }
}

/// The operator of a multiplicative operator token, as `factor_op` says.
fn factor_operator(k: &TokenKind) -> (r: Option<BinaryOperator>)
    ensures
        r == factor_op(*k),
{
    match k {
        TokenKind::Slash => Some(BinaryOperator::IntegerOperation(ArithmeticOperations::Division)),
        TokenKind::SlashDot => Some(BinaryOperator::FloatOperation(ArithmeticOperations::Division)),
        TokenKind::Star => Some(
            BinaryOperator::IntegerOperation(ArithmeticOperations::Multiplication),
        ),
        TokenKind::StarDot => Some(
            BinaryOperator::FloatOperation(ArithmeticOperations::Multiplication),
        ),
        TokenKind::Percent => Some(BinaryOperator::IntegerOperation(ArithmeticOperations::Modulus)),
        TokenKind::PercentDot => Some(BinaryOperator::FloatOperation(ArithmeticOperations::Modulus)),
        _ => None,
    }
}

/// The operator of an additive operator token, as `term_op` says.
fn term_operator(k: &TokenKind) -> (r: Option<BinaryOperator>)
    ensures
        r == term_op(*k),
{
    match k {
        TokenKind::Plus => Some(BinaryOperator::IntegerOperation(ArithmeticOperations::Addition)),
        TokenKind::PlusDot => Some(BinaryOperator::FloatOperation(ArithmeticOperations::Addition)),
        TokenKind::Minus => Some(
            BinaryOperator::IntegerOperation(ArithmeticOperations::Subtraction),
        ),
        TokenKind::MinusDot => Some(
            BinaryOperator::FloatOperation(ArithmeticOperations::Subtraction),
        ),
        _ => None,
    }
}

/// The operator of a comparison token, as `comparison_op` says.
fn comparison_operator(k: &TokenKind) -> (r: Option<BinaryOperator>)
    ensures
        r == comparison_op(*k),
{
    match k {
        TokenKind::LeftChevron => Some(BinaryOperator::IntegerComparison(Comparisons::LessThan)),
        TokenKind::LeftChevronDot => Some(BinaryOperator::FloatComparison(Comparisons::LessThan)),
        TokenKind::LeftChevronEqual => Some(
            BinaryOperator::IntegerComparison(Comparisons::LessThanEqual),
        ),
        TokenKind::LeftChevronEqualDot => Some(
            BinaryOperator::FloatComparison(Comparisons::LessThanEqual),
        ),
        TokenKind::RightChevron => Some(BinaryOperator::IntegerComparison(Comparisons::GreaterThan)),
        TokenKind::RightChevronDot => Some(
            BinaryOperator::FloatComparison(Comparisons::GreaterThan),
        ),
        TokenKind::RightChevronEqual => Some(
            BinaryOperator::IntegerComparison(Comparisons::GreaterThanEqual),
        ),
        TokenKind::RightChevronEqualDot => Some(
            BinaryOperator::FloatComparison(Comparisons::GreaterThanEqual),
        ),
        _ => None,
    }
}

/// The operator of an equality token, as `equality_op` says.
fn equality_operator(k: &TokenKind) -> (r: Option<BinaryOperator>)
    ensures
        r == equality_op(*k),
{
    match k {
        TokenKind::EqualEqual => Some(BinaryOperator::Equality(EqualityOperations::Equal)),
        TokenKind::BangEqual => Some(BinaryOperator::Equality(EqualityOperations::NotEqual)),
        _ => None,
    }
}


/// `ts` without its spaces, kept in order.
fn drop_spaces(ts: &Vec<Token>) -> (r: Vec<Token>)
    ensures
        r@ == without_spaces(ts@),
{
    let mut kept: Vec<Token> = Vec::new();
    let mut i: usize = 0;
    while i < ts.len()
        invariant
            i <= ts@.len(),
            kept@ == without_spaces(ts@.subrange(0, i as int)),
        decreases ts.len() - i,
    {
        proof {
            assert(ts@.subrange(0, i + 1).drop_last() =~= ts@.subrange(0, i as int));
        }
        if !matches!(ts[i].kind, TokenKind::Space) {
            kept.push(ts[i].clone());
        }
        i += 1;
    }
    proof {
        assert(ts@.subrange(0, ts@.len() as int) =~= ts@);
    }
    kept
}

proof fn lemma_reports_push(errors: Seq<Error>, fails: Seq<ParseFailure>, message: String, token: Token)
    requires
        reports_failures(errors, fails),
    ensures
        reports_failures(
            errors.push(Error::ParseErr { message, token }),
            fails.push((message@, token)),
        ),
{
    let e2 = errors.push(Error::ParseErr { message, token });
    let f2 = fails.push((message@, token));
    assert forall|i: int| 0 <= i < e2.len() implies (#[trigger] e2[i] matches Error::ParseErr {
        message: m,
        token: t,
    } && m@ == f2[i].0 && t == f2[i].1) by {
        if i < errors.len() {
            assert(e2[i] == errors[i]);
        }
    }
}

impl Parser {
    /// The rounds of the program from here on, as `p_all` says: each expression is added to
    /// `exprs` and each error to `diagnostics`.
    fn all(
        &mut self,
        exprs: Vec<Expr>,
        diagnostics: &mut Diagnostics,
        Ghost(fails): Ghost<Seq<ParseFailure>>,
    ) -> (r: Option<Vec<Expr>>)
        requires
            reports_failures(old(diagnostics).errors(), fails),
        ensures
            match r {
                None => p_all(old(self).tokens@, old(self).st(), nodes_of(exprs@), fails) is None,
                Some(v) => p_all(old(self).tokens@, old(self).st(), nodes_of(exprs@), fails) matches Some(
                    (ns, fs),
                ) && ns == nodes_of(v@) && reports_failures(final(diagnostics).errors(), fs),
            },
        decreases self.tokens@.len() - self.current,
    {
        proof {
            unfold_p_all(self.tokens@, self.st(), nodes_of(exprs@), fails);
        }
        if self.current > self.tokens.len() {
            return None;
        }
        let before = self.current;
        let r = match self.expression() {
            None => return None,
            Some(r) => r,
        };
        if self.current < before || self.current > self.tokens.len() {
            return None;
        }
        let mut exprs = exprs;
        let ghost mut fails2 = fails;
        match r {
            Ok(Some(e)) => {
                proof {
                    lemma_nodes_push(exprs@, e);
                }
                exprs.push(e);
            },
            Ok(None) => {},
            Err(m) => {
                if self.current == 0 {
                    return None;
                }
                let token = self.tokens[self.current - 1].clone();
                proof {
                    lemma_reports_push(diagnostics.errors(), fails, m, token);
                    fails2 = fails.push((m@, token));
                }
                diagnostics.add_error(Error::ParseErr { message: m, token });
            },
        }
        if self.current >= self.tokens.len() {
            return Some(exprs);
        }
        if self.current == before {
            return None;
        }
        self.all(exprs, diagnostics, Ghost(fails2))
    }
}

/// The expressions of a program, or the diagnostics with its parse errors, as `parse_spec`
/// says; `None` exactly where parsing panics or never returns.
pub fn try_parse(tokens: Vec<Token>) -> (r: Option<Result<Vec<Expr>, Diagnostics>>)
    ensures
        r is None <==> parse_spec(tokens@) is None,
        r matches Some(Ok(v)) ==> parse_spec(tokens@) == Some(
            Ok::<Seq<Node>, Seq<ParseFailure>>(nodes_of(v@)),
        ),
        r matches Some(Err(d)) ==> parse_spec(tokens@) matches Some(Err(fs)) && reports_failures(
            d.errors(),
            fs,
        ),
{
    let kept = drop_spaces(&tokens);
    let mut parser = Parser { tokens: kept, current: 0, indentation: 0 };
    let mut diagnostics = Diagnostics::new();
    let no_exprs: Vec<Expr> = Vec::new();
    proof {
        assert(nodes_of(no_exprs@) =~= Seq::<Node>::empty());
        assert(parser.st() == PState { current: 0, indentation: 0 });
    }
    match parser.all(no_exprs, &mut diagnostics, Ghost(Seq::empty())) {
        None => None,
        Some(exprs) => if diagnostics.has_errors() {
            Some(Err(diagnostics))
        } else {
            Some(Ok(exprs))
        },
    }
}

/// The expressions of a program, or the diagnostics with its parse errors, as `parse_spec`
/// says.
pub fn parse(tokens: Vec<Token>) -> (r: Result<Vec<Expr>, Diagnostics>)
    requires
        parse_spec(tokens@) is Some,
    ensures
        r matches Ok(v) ==> parse_spec(tokens@) == Some(
            Ok::<Seq<Node>, Seq<ParseFailure>>(nodes_of(v@)),
        ),
        r matches Err(d) ==> parse_spec(tokens@) matches Some(Err(fs)) && reports_failures(
            d.errors(),
            fs,
        ),
{
    match try_parse(tokens) {
        Some(r) => r,
        None => {
            assert(false);
            Err(Diagnostics::new())
        },
    }
}

} // verus!
