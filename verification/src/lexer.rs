use vstd::prelude::*;

use crate::text::{chars_of, push_char};
use crate::tokens::{Span, Token, TokenKind, fixed_text, law_fixed_text_distinct};

verus! {

/// A token as a value: its kind, line, column and text.
pub struct Lexeme {
    pub kind: TokenKind,
    pub line: int,
    pub column: int,
    pub text: Seq<char>,
}

/// The value of a token.
pub open spec fn lexeme_of(t: Token) -> Lexeme {
    Lexeme {
        kind: t.kind,
        line: t.position.line as int,
        column: t.position.column as int,
        text: t.lexeme@,
    }
}

/// The state of the lexer between two steps: where the current token starts, the next
/// character to read, the position of the next token, whether a string is being interpolated,
/// and the tokens so far.
pub struct LexState {
    pub start: int,
    pub current: int,
    pub line: int,
    pub column: int,
    pub interpolating: bool,
    pub tokens: Seq<Lexeme>,
}

/// Whether `c` is an ASCII letter.
pub open spec fn is_letter(c: char) -> bool {
    ('a' <= c && c <= 'z') || ('A' <= c && c <= 'Z')
}

/// Whether `c` is an ASCII digit.
pub open spec fn is_digit(c: char) -> bool {
    '0' <= c && c <= '9'
}

/// The character at `k`, or the NUL character past the end.
pub open spec fn char_at(s: Seq<char>, k: int) -> char {
    if 0 <= k < s.len() {
        s[k]
    } else {
        '\0'
    }
}

/// The first position at or after `k` whose character is not a space, or the end.
pub open spec fn space_end(s: Seq<char>, k: int) -> int
    decreases s.len() - k,
{
    if k < 0 || k >= s.len() || s[k] != ' ' {
        k
    } else {
        space_end(s, k + 1)
    }
}

/// The first position at or after `k` whose character is not a digit.
pub open spec fn digit_end(s: Seq<char>, k: int) -> int
    decreases s.len() - k,
{
    if k < 0 || k >= s.len() || !is_digit(s[k]) {
        k
    } else {
        digit_end(s, k + 1)
    }
}

/// The first position at or after `k` whose character is neither a letter, a digit nor `_`.
pub open spec fn word_end(s: Seq<char>, k: int) -> int
    decreases s.len() - k,
{
    if k < 0 || k >= s.len() || !(is_letter(s[k]) || is_digit(s[k]) || s[k] == '_') {
        k
    } else {
        word_end(s, k + 1)
    }
}

/// The first position at or after `k` that holds a line feed, or the end.
pub open spec fn comment_end(s: Seq<char>, k: int) -> int
    decreases s.len() - k,
{
    if k < 0 || k >= s.len() || s[k] == '\n' {
        k
    } else {
        comment_end(s, k + 1)
    }
}

/// The first position at or after `k` that holds a line feed, a double quote or `{`, or the
/// end.
pub open spec fn string_stop(s: Seq<char>, k: int) -> int
    decreases s.len() - k,
{
    if k < 0 || k >= s.len() || s[k] == '\n' || s[k] == '"' || s[k] == '{' {
        k
    } else {
        string_stop(s, k + 1)
    }
}

/// `v` without the double quotes that start it.
pub open spec fn trim_quotes_start(v: Seq<char>) -> Seq<char>
    decreases v.len(),
{
    if v.len() > 0 && v[0] == '"' {
        trim_quotes_start(v.subrange(1, v.len() as int))
    } else {
        v
    }
}

/// `v` without the double quotes that end it.
pub open spec fn trim_quotes_end(v: Seq<char>) -> Seq<char>
    decreases v.len(),
{
    if v.len() > 0 && v.last() == '"' {
        trim_quotes_end(v.drop_last())
    } else {
        v
    }
}

/// `v` with each backslash followed by `code`, from left to right, replaced by `by`.
pub open spec fn unescape(v: Seq<char>, code: char, by: char) -> Seq<char>
    decreases v.len(),
{
    if v.len() < 2 {
        v
    } else if v[0] == '\\' && v[1] == code {
        seq![by] + unescape(v.subrange(2, v.len() as int), code, by)
    } else {
        seq![v[0]] + unescape(v.subrange(1, v.len() as int), code, by)
    }
}

/// The text of a string token whose source text is `v`: quotes trimmed, then `\n`, `\t` and
/// `\'` replaced by a line feed, a tab and a single quote, in that order.
pub open spec fn escaped(v: Seq<char>) -> Seq<char> {
    unescape(
        unescape(unescape(trim_quotes_end(trim_quotes_start(v)), 'n', '\n'), 't', '\t'),
        '\'',
        '\'',
    )
}

/// `st` after recording a token of `kind` with text `text` at the current position, and
/// moving that position: to the next line after a line break, else by the distance from the
/// token's start to the next character.
pub open spec fn add_token(st: LexState, kind: TokenKind, text: Seq<char>) -> LexState {
    LexState {
        tokens: st.tokens.push(Lexeme { kind, line: st.line, column: st.column, text }),
        line: if kind is NewLine {
            st.line + 1
        } else {
            st.line
        },
        column: if kind is NewLine {
            1
        } else {
            st.column + (st.current - st.start)
        },
        ..st
    }
}

/// The kind and the end of a number whose digits start at `k`; `None` when a `.` follows
/// the digits as the last character of the source.
pub open spec fn number_spec(s: Seq<char>, k: int) -> Option<(TokenKind, int)> {
    let d = digit_end(s, k);
    if char_at(s, d) == '.' {
        if d + 1 >= s.len() {
            None
        } else if is_digit(s[d + 1]) {
            Some((TokenKind::Float, digit_end(s, d + 2)))
        } else {
            Some((TokenKind::Integer, d))
        }
    } else {
        Some((TokenKind::Integer, d))
    }
}

/// The rest of a string literal read from `st.current` on, `st.start` being where it began:
/// the kind that the step ends with and the state after.
pub open spec fn string_spec(s: Seq<char>, st: LexState) -> (TokenKind, LexState) {
    let j = string_stop(s, st.current);
    if j >= s.len() {
        (TokenKind::SyntaxError("Unterminated string"), LexState { current: j, ..st })
    } else if s[j] == '\n' {
        (TokenKind::SyntaxError("String literal must be single line"), LexState { current: j, ..st })
    } else if s[j] == '"' {
        (TokenKind::Text, LexState { current: j + 1, start: st.start + 1, ..st })
    } else {
        let before = add_token(
            LexState { current: j, ..st },
            TokenKind::Text,
            escaped(s.subrange(st.start + 1, j)),
        );
        (TokenKind::StringConcat, LexState { start: j, current: j + 1, interpolating: true, ..before })
    }
}

/// The kind of the token that starts at `st.current` and the state after reading it, before
/// the token itself is recorded; `None` where reading it fails.
pub open spec fn scan_next(s: Seq<char>, st: LexState) -> Option<(TokenKind, LexState)> {
    let c = s[st.current];
    let a = st.current + 1;
    let simple = |kind: TokenKind| Some((kind, LexState { current: a, ..st }));
    let dotted = |one: TokenKind, dot: TokenKind| if char_at(s, a) == '.' {
        Some((dot, LexState { current: a + 1, ..st }))
    } else {
        Some((one, LexState { current: a, ..st }))
    };
    let with_equal = |one: TokenKind, two: TokenKind, two_dot: TokenKind| if char_at(s, a)
        == '=' {
        if char_at(s, a + 1) == '.' {
            Some((two_dot, LexState { current: a + 2, ..st }))
        } else {
            Some((two, LexState { current: a + 1, ..st }))
        }
    } else {
        Some((one, LexState { current: a, ..st }))
    };
    let chevron = |one: TokenKind, one_dot: TokenKind, two: TokenKind, two_dot: TokenKind| if char_at(
        s,
        a,
    ) == '=' {
        if char_at(s, a + 1) == '.' {
            Some((two_dot, LexState { current: a + 2, ..st }))
        } else {
            Some((two, LexState { current: a + 1, ..st }))
        }
    } else if char_at(s, a) == '.' {
        Some((one_dot, LexState { current: a + 1, ..st }))
    } else {
        Some((one, LexState { current: a, ..st }))
    };
    if c == ' ' {
        let e = space_end(s, a);
        let count = e - st.current;
        let kind = if count == 1 {
            TokenKind::Space
        } else if count == 4 {
            TokenKind::Tab
        } else {
            TokenKind::SyntaxError("Unexpected whitespace")
        };
        Some((kind, LexState { current: e, ..st }))
    } else if c == '+' {
        dotted(TokenKind::Plus, TokenKind::PlusDot)
    } else if c == '-' && is_digit(char_at(s, a)) {
        match number_spec(s, a) {
            Some((kind, e)) => Some((kind, LexState { current: e, ..st })),
            None => None,
        }
    } else if c == '-' {
        dotted(TokenKind::Minus, TokenKind::MinusDot)
    } else if c == '*' {
        dotted(TokenKind::Star, TokenKind::StarDot)
    } else if c == '/' {
        dotted(TokenKind::Slash, TokenKind::SlashDot)
    } else if c == '%' {
        dotted(TokenKind::Percent, TokenKind::PercentDot)
    } else if c == '\\' {
        simple(TokenKind::BackSlash)
    } else if c == '!' {
        with_equal(TokenKind::Bang, TokenKind::BangEqual, TokenKind::BangEqualDot)
    } else if c == '=' {
        with_equal(TokenKind::Equal, TokenKind::EqualEqual, TokenKind::EqualEqualDot)
    } else if c == '#' {
        Some((TokenKind::Comment, LexState { current: comment_end(s, a), ..st }))
    } else if c == '|' {
        simple(TokenKind::Pipe)
    } else if c == '(' {
        simple(TokenKind::LeftParen)
    } else if c == ')' {
        simple(TokenKind::RightParen)
    } else if c == '{' {
        simple(TokenKind::LeftBrace)
    } else if c == '}' && st.interpolating {
        let closed = add_token(
            LexState { current: a, ..st },
            TokenKind::StringConcat,
            s.subrange(st.start, a),
        );
        Some(string_spec(s, LexState { interpolating: false, ..closed }))
    } else if c == '}' {
        simple(TokenKind::RightBrace)
    } else if c == '<' {
        chevron(
            TokenKind::LeftChevron,
            TokenKind::LeftChevronDot,
            TokenKind::LeftChevronEqual,
            TokenKind::LeftChevronEqualDot,
        )
    } else if c == '>' {
        chevron(
            TokenKind::RightChevron,
            TokenKind::RightChevronDot,
            TokenKind::RightChevronEqual,
            TokenKind::RightChevronEqualDot,
        )
    } else if c == '\t' {
        simple(TokenKind::Tab)
    } else if c == '\n' {
        simple(TokenKind::NewLine)
    } else if c == '_' {
        simple(TokenKind::Underscore)
    } else if c == '"' {
        Some(string_spec(s, LexState { current: a, ..st }))
    } else if is_letter(c) {
        let e = word_end(s, a);
        let word = s.subrange(st.current, e);
        Some((word_kind(word), LexState { current: e, ..st }))
    } else if is_digit(c) {
        match number_spec(s, a) {
            Some((kind, e)) => Some((kind, LexState { current: e, ..st })),
            None => None,
        }
    } else {
        simple(TokenKind::SyntaxError("Unexpected token"))
    }
}

/// The kind of a word: a literal, a keyword or an identifier.
pub open spec fn word_kind(word: Seq<char>) -> TokenKind {
    if word == "true"@ {
        TokenKind::True
    } else if word == "false"@ {
        TokenKind::False
    } else if word == "and"@ {
        TokenKind::KeywordAnd
    } else if word == "or"@ {
        TokenKind::KeywordOr
    } else if word == "is"@ {
        TokenKind::KeywordIs
    } else if word == "if"@ {
        TokenKind::KeywordIf
    } else {
        TokenKind::Identifier
    }
}

/// One step of the lexer from a state whose token starts at its next character: read a token
/// and record it, a string's text unescaped.
pub open spec fn step(s: Seq<char>, st: LexState) -> Option<LexState> {
    let begun = LexState { start: st.current, ..st };
    match scan_next(s, begun) {
        Some((kind, after)) => {
            let text = s.subrange(after.start, after.current);
            if kind is Text {
                Some(add_token(after, kind, escaped(text)))
            } else {
                Some(add_token(after, kind, text))
            }
        },
        None => None,
    }
}

/// The tokens of `s` when the lexer runs from `st` to the end; `None` where it fails.
pub open spec fn lex_from(s: Seq<char>, st: LexState) -> Option<Seq<Lexeme>>
    decreases s.len() - st.current,
{
    if st.current < 0 || st.current >= s.len() {
        Some(st.tokens)
    } else {
        match step(s, st) {
            Some(next) => if st.current < next.current <= s.len() {
                lex_from(s, next)
            } else {
                None
            },
            None => None,
        }
    }
}

/// The state the lexer starts in.
pub open spec fn initial_state() -> LexState {
    LexState {
        start: 0,
        current: 0,
        line: 1,
        column: 1,
        interpolating: false,
        tokens: Seq::empty(),
    }
}

/// The tokens of `s`; `None` where lexing fails.
pub open spec fn lex_spec(s: Seq<char>) -> Option<Seq<Lexeme>> {
    lex_from(s, initial_state())
}

/// The longest source, in characters, that the lexer takes: a third of the address space,
/// so that positions and columns counted over it stay within a `usize`.
pub const MAX_SOURCE: usize = usize::MAX / 3 - 1;

/// Whether the positions of `st` are in order within a source of length `n`, and its line and
/// column small enough to be counted on.
pub open spec fn bounded(st: LexState, n: int) -> bool {
    &&& 0 <= st.start <= st.current <= n
    &&& 1 <= st.line <= st.current + 1
    &&& 1 <= st.column <= 2 * st.current + 1
}

/// Whether `source` holds the characters of `word` from `b` up to `e`.
fn word_is(source: &Vec<char>, b: usize, e: usize, word: &str) -> (r: bool)
    requires
        b <= e <= source@.len(),
    ensures
        r == (source@.subrange(b as int, e as int) == word@),
{
    let cs = chars_of(word);
    if e - b != cs.len() {
        proof {
            assert(source@.subrange(b as int, e as int).len() != word@.len());
        }
        return false;
    }
    let mut i: usize = 0;
    while i < cs.len()
        invariant
            cs@ == word@,
            e - b == cs@.len(),
            b <= e <= source@.len(),
            i <= cs@.len(),
            forall|j: int| 0 <= j < i ==> source@[b + j] == cs@[j],
        decreases cs.len() - i,
    {
        if source[b + i] != cs[i] {
            proof {
                assert(source@.subrange(b as int, e as int)[i as int] != word@[i as int]);
            }
            return false;
        }
        i += 1;
    }
    proof {
        assert(source@.subrange(b as int, e as int) =~= word@);
    }
    true
}

struct Lexer {
    source: Vec<char>,
    start: usize,
    current: usize,
    line: usize,
    column: usize,
    string_interpolation: bool,
    tokens: Vec<Token>,
}

impl Lexer {
    spec fn state(&self) -> LexState {
        LexState {
            start: self.start as int,
            current: self.current as int,
            line: self.line as int,
            column: self.column as int,
            interpolating: self.string_interpolation,
            tokens: self.tokens@.map_values(|t: Token| lexeme_of(t)),
        }
    }

    spec fn src(&self) -> Seq<char> {
        self.source@
    }

    fn new() -> (r: Self)
        ensures
            r.state() == initial_state(),
            r.src() == Seq::<char>::empty(),
    {
        let r = Self {
            source: Vec::new(),
            start: 0,
            current: 0,
            line: 1,
            column: 1,
            string_interpolation: false,
            tokens: Vec::new(),
        };
        proof {
            assert(r.state().tokens =~= Seq::<Lexeme>::empty());
        }
        r
    }

    fn is_at_end(&self) -> (r: bool)
        ensures
            r == (self.current >= self.source.len()),
    {
        self.current >= self.source.len()
    }

    fn peek(&self) -> (r: char)
        ensures
            r == char_at(self.src(), self.current as int),
    {
        if self.is_at_end() {
            '\0'
        } else {
            self.source[self.current]
        }
    }

    fn peek_next(&self) -> (r: char)
        requires
            self.current >= self.source.len() || self.current + 1 < self.source.len(),
        ensures
            self.current < self.source.len() ==> r == char_at(self.src(), self.current + 1),
    {
        if self.current >= self.source.len() {
            '\0'
        } else {
            self.source[self.current + 1]
        }
    }

    fn is_letter(&self, value: char) -> (r: bool)
        ensures
            r == is_letter(value),
    {
        ('a' <= value && value <= 'z') || ('A' <= value && value <= 'Z')
    }

    fn is_digit(&self, value: char) -> (r: bool)
        ensures
            r == is_digit(value),
    {
        '0' <= value && value <= '9'
    }

    fn advance(&mut self) -> (r: char)
        requires
            old(self).current < old(self).source.len(),
        ensures
            r == old(self).src()[old(self).current as int],
            final(self).state() == (LexState { current: old(self).current + 1, ..old(self).state() }),
            final(self).source == old(self).source,
    {
        self.current += 1;
        self.source[self.current - 1]
    }

    fn matches(&mut self, c: char) -> (r: bool)
        requires
            c != '\0',
        ensures
            r == (char_at(old(self).src(), old(self).current as int) == c),
            final(self).state() == (LexState {
                current: if r {
                    old(self).current + 1
                } else {
                    old(self).current as int
                },
                ..old(self).state()
            }),
            final(self).source == old(self).source,
    {
        if self.peek() == c {
            self.advance();
            true
        } else {
            false
        }
    }

    fn spaces(&mut self) -> (r: TokenKind)
        requires
            1 <= old(self).current <= old(self).source.len(),
        ensures
            final(self).source == old(self).source,
            final(self).state() == (LexState {
                current: space_end(old(self).src(), old(self).current as int),
                ..old(self).state()
            }),
            r == (if space_end(old(self).src(), old(self).current as int) - old(self).current + 1
                == 1 {
                TokenKind::Space
            } else if space_end(old(self).src(), old(self).current as int) - old(self).current + 1
                == 4 {
                TokenKind::Tab
            } else {
                TokenKind::SyntaxError("Unexpected whitespace")
            }),
    {
        let mut spaces: usize = 1;
        while !self.is_at_end() && self.peek() == ' '
            invariant
                1 <= old(self).current <= self.current <= self.source.len(),
                self.source == old(self).source,
                self.state() == (LexState { current: self.current as int, ..old(self).state() }),
                space_end(self.src(), old(self).current as int) == space_end(
                    self.src(),
                    self.current as int,
                ),
                spaces == self.current - old(self).current + 1,
            decreases self.source.len() - self.current,
        {
            self.advance();
            spaces += 1;
        }
        if spaces == 1 {
            TokenKind::Space
        } else if spaces == 4 {
            TokenKind::Tab
        } else {
            TokenKind::SyntaxError("Unexpected whitespace")
        }
    }

    fn identifier(&mut self) -> (r: TokenKind)
        requires
            old(self).start + 1 == old(self).current <= old(self).source.len(),
        ensures
            final(self).source == old(self).source,
            final(self).state() == (LexState {
                current: word_end(old(self).src(), old(self).current as int),
                ..old(self).state()
            }),
            r == word_kind(
                old(self).src().subrange(
                    old(self).start as int,
                    word_end(old(self).src(), old(self).current as int),
                ),
            ),
    {
        while !self.is_at_end() && (self.is_letter(self.peek()) || self.is_digit(self.peek())
            || self.peek() == '_')
            invariant
                old(self).current <= self.current <= self.source.len(),
                self.source == old(self).source,
                self.state() == (LexState { current: self.current as int, ..old(self).state() }),
                word_end(self.src(), old(self).current as int) == word_end(
                    self.src(),
                    self.current as int,
                ),
            decreases self.source.len() - self.current,
        {
            self.advance();
        }
        proof {
            assert(word_end(self.src(), old(self).current as int) == self.current);
        }
        let b = self.start;
        let e = self.current;
        if word_is(&self.source, b, e, "true") {
            TokenKind::True
        } else if word_is(&self.source, b, e, "false") {
            TokenKind::False
        } else if word_is(&self.source, b, e, "and") {
            TokenKind::KeywordAnd
        } else if word_is(&self.source, b, e, "or") {
            TokenKind::KeywordOr
        } else if word_is(&self.source, b, e, "is") {
            TokenKind::KeywordIs
        } else if word_is(&self.source, b, e, "if") {
            TokenKind::KeywordIf
        } else {
            TokenKind::Identifier
        }
    }

    fn number(&mut self) -> (r: TokenKind)
        requires
            old(self).current <= old(self).source.len(),
            number_spec(old(self).src(), old(self).current as int) is Some,
        ensures
            final(self).source == old(self).source,
            (r, final(self).current as int) == number_spec(
                old(self).src(),
                old(self).current as int,
            ).unwrap(),
            final(self).state() == (LexState {
                current: final(self).current as int,
                ..old(self).state()
            }),
    {
        while self.is_digit(self.peek())
            invariant
                old(self).current <= self.current <= self.source.len(),
                self.source == old(self).source,
                self.state() == (LexState { current: self.current as int, ..old(self).state() }),
                digit_end(self.src(), old(self).current as int) == digit_end(
                    self.src(),
                    self.current as int,
                ),
            decreases self.source.len() - self.current,
        {
            self.advance();
        }
        let is_float = self.peek() == '.' && self.is_digit(self.peek_next());
        if is_float {
            self.advance();
            let ghost after_point = self.current as int;
            while self.is_digit(self.peek())
                invariant
                    after_point <= self.current <= self.source.len(),
                    self.source == old(self).source,
                    self.state() == (LexState {
                        current: self.current as int,
                        ..old(self).state()
                    }),
                    digit_end(self.src(), after_point + 1) == digit_end(
                        self.src(),
                        self.current as int,
                    ) || self.current == after_point,
                    self.current == after_point ==> digit_end(self.src(), after_point + 1)
                        == digit_end(self.src(), after_point) && is_digit(self.src()[after_point]),
                decreases self.source.len() - self.current,
            {
                self.advance();
            }
            TokenKind::Float
        } else {
            TokenKind::Integer
        }
    }

    fn comment(&mut self) -> (r: TokenKind)
        requires
            old(self).current <= old(self).source.len(),
        ensures
            final(self).source == old(self).source,
            final(self).state() == (LexState {
                current: comment_end(old(self).src(), old(self).current as int),
                ..old(self).state()
            }),
            r == TokenKind::Comment,
    {
        while !self.is_at_end() && self.peek() != '\n'
            invariant
                old(self).current <= self.current <= self.source.len(),
                self.source == old(self).source,
                self.state() == (LexState { current: self.current as int, ..old(self).state() }),
                comment_end(self.src(), old(self).current as int) == comment_end(
                    self.src(),
                    self.current as int,
                ),
            decreases self.source.len() - self.current,
        {
            self.advance();
        }
        TokenKind::Comment
    }

    /// The source text between `from` and `to`.
    fn text_between(&self, from: usize, to: usize) -> (r: String)
        requires
            from <= to <= self.source.len(),
        ensures
            r@ == self.src().subrange(from as int, to as int),
    {
        let mut text = String::new();
        let mut k = from;
        while k < to
            invariant
                from <= k <= to <= self.source.len(),
                text@ == self.src().subrange(from as int, k as int),
            decreases to - k,
        {
            push_char(&mut text, self.source[k]);
            k += 1;
            proof {
                assert(text@ =~= self.src().subrange(from as int, k as int));
            }
        }
        text
    }

    fn get_token_from_lexeme(&mut self, kind: TokenKind, lexeme: String) -> (r: Token)
        ensures
            lexeme_of(r) == (Lexeme {
                kind,
                line: old(self).line as int,
                column: old(self).column as int,
                text: lexeme@,
            }),
            r.position == (Span { line: old(self).line, column: old(self).column }),
            *final(self) == *old(self),
    {
        let position = Span { line: self.line, column: self.column };
        Token { kind, position, lexeme }
    }

    fn escape_string(&mut self, value: String) -> (r: String)
        ensures
            r@ == escaped(value@),
            *final(self) == *old(self),
    {
        let v = chars_of(value.as_str());
        let n = v.len();
        let mut i: usize = 0;
        proof {
            assert(v@.subrange(0, n as int) =~= v@);
        }
        while i < n && v[i] == '"'
            invariant
                n == v@.len(),
                i <= n,
                trim_quotes_start(v@) == trim_quotes_start(v@.subrange(i as int, n as int)),
            decreases n - i,
        {
            proof {
                assert(v@.subrange(i as int, n as int).subrange(1, (n - i) as int) =~= v@.subrange(
                    i + 1,
                    n as int,
                ));
            }
            i += 1;
        }
        let mut j: usize = n;
        while j > i && v[j - 1] == '"'
            invariant
                n == v@.len(),
                i <= j <= n,
                trim_quotes_start(v@) == v@.subrange(i as int, n as int),
                trim_quotes_end(v@.subrange(i as int, n as int)) == trim_quotes_end(
                    v@.subrange(i as int, j as int),
                ),
            decreases j - i,
        {
            proof {
                assert(v@.subrange(i as int, j as int).drop_last() =~= v@.subrange(
                    i as int,
                    j - 1,
                ));
            }
            j -= 1;
        }
        let mut trimmed: Vec<char> = Vec::new();
        let mut k = i;
        while k < j
            invariant
                i <= k <= j <= n == v@.len(),
                trimmed@ == v@.subrange(i as int, k as int),
            decreases j - k,
        {
            trimmed.push(v[k]);
            k += 1;
            proof {
                assert(trimmed@ =~= v@.subrange(i as int, k as int));
            }
        }
        proof {
            if i < n {
                assert(trim_quotes_start(v@) =~= v@.subrange(i as int, n as int));
            }
        }
        let lines = unescape_chars(&trimmed, 'n', '\n');
        let tabs = unescape_chars(&lines, 't', '\t');
        let quotes = unescape_chars(&tabs, '\'', '\'');
        let mut text = String::new();
        let mut m: usize = 0;
        while m < quotes.len()
            invariant
                m <= quotes.len(),
                text@ == quotes@.subrange(0, m as int),
            decreases quotes.len() - m,
        {
            push_char(&mut text, quotes[m]);
            m += 1;
            proof {
                assert(text@ =~= quotes@.subrange(0, m as int));
            }
        }
        proof {
            assert(quotes@.subrange(0, m as int) =~= quotes@);
        }
        text
    }

    fn get_string_token(&mut self, value: String) -> (r: Token)
        ensures
            lexeme_of(r) == (Lexeme {
                kind: TokenKind::Text,
                line: old(self).line as int,
                column: old(self).column as int,
                text: escaped(value@),
            }),
            r.position == (Span { line: old(self).line, column: old(self).column }),
            *final(self) == *old(self),
    {
        let escaped_value = self.escape_string(value);
        self.get_token_from_lexeme(TokenKind::Text, escaped_value)
    }

    fn add_token(&mut self, token: Token)
        requires
            old(self).start <= old(self).current,
            old(self).line < usize::MAX,
            old(self).column + (old(self).current - old(self).start) <= usize::MAX,
            token.position == (Span { line: old(self).line, column: old(self).column }),
        ensures
            final(self).state() == add_token(old(self).state(), token.kind, token.lexeme@),
            final(self).source == old(self).source,
    {
        let is_new_line = matches!(token.kind, TokenKind::NewLine);
        let ghost before = self.tokens@;
        self.tokens.push(token);
        if is_new_line {
            self.line += 1;
            self.column = 1;
        } else {
            self.column += self.current - self.start;
        }
        proof {
            assert(self.tokens@.map_values(|t: Token| lexeme_of(t)) =~= before.map_values(
                |t: Token| lexeme_of(t),
            ).push(lexeme_of(token)));
        }
    }

    fn add_token_kind(&mut self, kind: TokenKind)
        requires
            old(self).start <= old(self).current <= old(self).source.len(),
            old(self).line < usize::MAX,
            old(self).column + (old(self).current - old(self).start) <= usize::MAX,
        ensures
            final(self).state() == add_token(
                old(self).state(),
                kind,
                old(self).src().subrange(old(self).start as int, old(self).current as int),
            ),
            final(self).source == old(self).source,
    {
        let lexeme = self.text_between(self.start, self.current);
        let token = self.get_token_from_lexeme(kind, lexeme);
        self.add_token(token);
    }

    fn string(&mut self) -> (r: TokenKind)
        requires
            old(self).start + 1 <= old(self).current <= old(self).source.len() <= MAX_SOURCE,
            1 <= old(self).line <= old(self).current + 1,
            old(self).column <= 2 * old(self).current,
        ensures
            final(self).source == old(self).source,
            (r, final(self).state()) == string_spec(old(self).src(), old(self).state()),
    {
        while !self.is_at_end() && self.peek() != '\n' && self.peek() != '"' && self.peek() != '{'
            invariant
                old(self).current <= self.current <= self.source.len() <= MAX_SOURCE,
                self.source == old(self).source,
                self.state() == (LexState { current: self.current as int, ..old(self).state() }),
                string_stop(self.src(), old(self).current as int) == string_stop(
                    self.src(),
                    self.current as int,
                ),
            decreases self.source.len() - self.current,
        {
            self.advance();
        }
        if self.is_at_end() {
            return TokenKind::SyntaxError("Unterminated string");
        }
        let c = self.peek();
        if c == '\n' {
            return TokenKind::SyntaxError("String literal must be single line");
        }
        if c == '"' {
            self.advance();
            self.start += 1;
            return TokenKind::Text;
        }
        let lexeme = self.text_between(self.start + 1, self.current);
        let string_token = self.get_string_token(lexeme);
        assert(3 * MAX_SOURCE + 2 <= usize::MAX);
        self.add_token(string_token);
        self.start = self.current;
        self.advance();
        self.string_interpolation = true;
        TokenKind::StringConcat
    }

    fn scan_next(&mut self) -> (r: TokenKind)
        requires
            old(self).start == old(self).current < old(self).source.len() <= MAX_SOURCE,
            bounded(old(self).state(), old(self).source.len() as int),
            scan_next(old(self).src(), old(self).state()) is Some,
        ensures
            final(self).source == old(self).source,
            (r, final(self).state()) == scan_next(old(self).src(), old(self).state()).unwrap(),
    {
        let c = self.advance();
        if c == ' ' {
            self.spaces()
        } else if c == '+' {
            if self.matches('.') {
                TokenKind::PlusDot
            } else {
                TokenKind::Plus
            }
        } else if c == '-' && self.is_digit(self.peek()) {
            self.number()
        } else if c == '-' {
            if self.matches('.') {
                TokenKind::MinusDot
            } else {
                TokenKind::Minus
            }
        } else if c == '*' {
            if self.matches('.') {
                TokenKind::StarDot
            } else {
                TokenKind::Star
            }
        } else if c == '/' {
            if self.matches('.') {
                TokenKind::SlashDot
            } else {
                TokenKind::Slash
            }
        } else if c == '%' {
            if self.matches('.') {
                TokenKind::PercentDot
            } else {
                TokenKind::Percent
            }
        } else if c == '\\' {
            TokenKind::BackSlash
        } else if c == '!' {
            if self.matches('=') {
                if self.matches('.') {
                    TokenKind::BangEqualDot
                } else {
                    TokenKind::BangEqual
                }
            } else {
                TokenKind::Bang
            }
        } else if c == '=' {
            if self.matches('=') {
                if self.matches('.') {
                    TokenKind::EqualEqualDot
                } else {
                    TokenKind::EqualEqual
                }
            } else {
                TokenKind::Equal
            }
        } else if c == '#' {
            self.comment()
        } else if c == '|' {
            TokenKind::Pipe
        } else if c == '(' {
            TokenKind::LeftParen
        } else if c == ')' {
            TokenKind::RightParen
        } else if c == '{' {
            TokenKind::LeftBrace
        } else if c == '}' && self.string_interpolation {
            self.add_token_kind(TokenKind::StringConcat);
            self.string_interpolation = false;
            self.string()
        } else if c == '}' {
            TokenKind::RightBrace
        } else if c == '<' {
            if self.matches('=') {
                if self.matches('.') {
                    TokenKind::LeftChevronEqualDot
                } else {
                    TokenKind::LeftChevronEqual
                }
            } else if self.matches('.') {
                TokenKind::LeftChevronDot
            } else {
                TokenKind::LeftChevron
            }
        } else if c == '>' {
            if self.matches('=') {
                if self.matches('.') {
                    TokenKind::RightChevronEqualDot
                } else {
                    TokenKind::RightChevronEqual
                }
            } else if self.matches('.') {
                TokenKind::RightChevronDot
            } else {
                TokenKind::RightChevron
            }
        } else if c == '\t' {
            TokenKind::Tab
        } else if c == '\n' {
            TokenKind::NewLine
        } else if c == '_' {
            TokenKind::Underscore
        } else if c == '"' {
            self.string()
        } else if self.is_letter(c) {
            self.identifier()
        } else if self.is_digit(c) {
            self.number()
        } else {
            TokenKind::SyntaxError("Unexpected token")
        }
    }

    fn scan_tokens(&mut self, source: &str) -> (r: Vec<Token>)
        requires
            old(self).state() == initial_state(),
            source@.len() <= MAX_SOURCE,
            lex_spec(source@) is Some,
        ensures
            r@.map_values(|t: Token| lexeme_of(t)) == lex_spec(source@).unwrap(),
    {
        self.source = chars_of(source);
        while !self.is_at_end()
            invariant
                self.src() == source@,
                self.source.len() <= MAX_SOURCE,
                bounded(self.state(), self.source.len() as int),
                lex_from(self.src(), self.state()) == lex_spec(source@),
                lex_spec(source@) is Some,
            decreases self.source.len() - self.current,
        {
            let ghost before = self.state();
            proof {
                assert(step(self.src(), before) is Some);
                lemma_step(self.src(), before);
                lemma_scan_next(self.src(), LexState { start: before.current, ..before });
            }
            self.start = self.current;
            let token_kind = self.scan_next();
            let lexeme = self.text_between(self.start, self.current);
            let token = if matches!(token_kind, TokenKind::Text) {
                self.get_string_token(lexeme)
            } else {
                self.get_token_from_lexeme(token_kind, lexeme)
            };
            self.add_token(token);
        }
        proof {
            assert(lex_from(self.src(), self.state()) == Some(self.state().tokens));
        }
        let mut tokens: Vec<Token> = Vec::new();
        let mut i: usize = 0;
        while i < self.tokens.len()
            invariant
                i <= self.tokens.len(),
                tokens@.len() == i,
                forall|j: int| 0 <= j < i ==> #[trigger] tokens@[j] == self.tokens@[j],
            decreases self.tokens.len() - i,
        {
            tokens.push(self.tokens[i].clone());
            i += 1;
        }
        proof {
            assert(tokens@.map_values(|t: Token| lexeme_of(t)) =~= self.tokens@.map_values(
                |t: Token| lexeme_of(t),
            ));
        }
        tokens
    }

    /// Whether reading the token at the current position fails: a number whose digits are
    /// followed by a `.` that ends the source.
    fn token_fails(&self) -> (r: bool)
        requires
            self.current < self.source.len(),
        ensures
            r == (scan_next(self.src(), LexState { start: self.current as int, ..self.state() })
                is None),
    {
        let c = self.source[self.current];
        let n = self.source.len();
        let after = self.current + 1;
        let starts_number = (c == '-' && after < n && self.is_digit(self.source[after]))
            || self.is_digit(c);
        if !starts_number {
            return false;
        }
        let mut d = after;
        while d < n && self.is_digit(self.source[d])
            invariant
                after <= d <= n == self.source.len(),
                digit_end(self.src(), after as int) == digit_end(self.src(), d as int),
            decreases n - d,
        {
            d += 1;
        }
        d < n && self.source[d] == '.' && d + 1 >= n
    }

    fn scan_tokens_checked(&mut self, source: &str) -> (r: Option<Vec<Token>>)
        requires
            old(self).state() == initial_state(),
            source@.len() <= MAX_SOURCE,
        ensures
            r is Some <==> lex_spec(source@) is Some,
            r is Some ==> r.unwrap()@.map_values(|t: Token| lexeme_of(t)) == lex_spec(
                source@,
            ).unwrap(),
    {
        self.source = chars_of(source);
        while !self.is_at_end()
            invariant
                self.src() == source@,
                self.source.len() <= MAX_SOURCE,
                bounded(self.state(), self.source.len() as int),
                lex_from(self.src(), self.state()) == lex_spec(source@),
            decreases self.source.len() - self.current,
        {
            let ghost before = self.state();
            if self.token_fails() {
                return None;
            }
            proof {
                assert(step(self.src(), before) is Some);
                lemma_step(self.src(), before);
                lemma_scan_next(self.src(), LexState { start: before.current, ..before });
            }
            self.start = self.current;
            let token_kind = self.scan_next();
            let lexeme = self.text_between(self.start, self.current);
            let token = if matches!(token_kind, TokenKind::Text) {
                self.get_string_token(lexeme)
            } else {
                self.get_token_from_lexeme(token_kind, lexeme)
            };
            self.add_token(token);
        }
        let mut tokens: Vec<Token> = Vec::new();
        let mut i: usize = 0;
        while i < self.tokens.len()
            invariant
                i <= self.tokens.len(),
                tokens@.len() == i,
                forall|j: int| 0 <= j < i ==> #[trigger] tokens@[j] == self.tokens@[j],
            decreases self.tokens.len() - i,
        {
            tokens.push(self.tokens[i].clone());
            i += 1;
        }
        proof {
            assert(tokens@.map_values(|t: Token| lexeme_of(t)) =~= self.tokens@.map_values(
                |t: Token| lexeme_of(t),
            ));
        }
        Some(tokens)
    }
}

/// `v` with each backslash followed by `code` replaced by `by`, as `unescape` gives it.
fn unescape_chars(v: &Vec<char>, code: char, by: char) -> (r: Vec<char>)
    ensures
        r@ == unescape(v@, code, by),
{
    let n = v.len();
    let mut out: Vec<char> = Vec::new();
    let mut k: usize = 0;
    proof {
        assert(v@.subrange(0, n as int) =~= v@);
        assert(out@ + v@ =~= v@);
        assert(out@ + unescape(v@, code, by) =~= unescape(v@, code, by));
    }
    while k < n
        invariant
            n == v@.len(),
            k <= n,
            out@ + unescape(v@.subrange(k as int, n as int), code, by) == unescape(v@, code, by),
        decreases n - k,
    {
        let ghost rest = v@.subrange(k as int, n as int);
        if k + 1 < n && v[k] == '\\' && v[k + 1] == code {
            proof {
                assert(rest.subrange(2, rest.len() as int) =~= v@.subrange(k + 2, n as int));
                assert(out@ + unescape(rest, code, by) =~= out@.push(by) + unescape(
                    v@.subrange(k + 2, n as int),
                    code,
                    by,
                ));
            }
            out.push(by);
            k += 2;
        } else {
            proof {
                if rest.len() >= 2 {
                    assert(rest.subrange(1, rest.len() as int) =~= v@.subrange(k + 1, n as int));
                    assert(out@ + unescape(rest, code, by) =~= out@.push(v@[k as int]) + unescape(
                        v@.subrange(k + 1, n as int),
                        code,
                        by,
                    ));
                } else {
                    assert(v@.subrange(k + 1, n as int) =~= Seq::<char>::empty());
                    assert(out@ + unescape(rest, code, by) =~= out@.push(v@[k as int]) + unescape(
                        v@.subrange(k + 1, n as int),
                        code,
                        by,
                    ));
                }
            }
            out.push(v[k]);
            k += 1;
        }
    }
    proof {
        assert(v@.subrange(n as int, n as int) =~= Seq::<char>::empty());
        assert(out@ + Seq::<char>::empty() =~= out@);
    }
    out
}

proof fn lemma_space_end(s: Seq<char>, k: int)
    requires
        0 <= k <= s.len(),
    ensures
        k <= space_end(s, k) <= s.len(),
    decreases s.len() - k,
{
    if k < s.len() && s[k] == ' ' {
        lemma_space_end(s, k + 1);
    }
}

proof fn lemma_digit_end(s: Seq<char>, k: int)
    requires
        0 <= k <= s.len(),
    ensures
        k <= digit_end(s, k) <= s.len(),
    decreases s.len() - k,
{
    if k < s.len() && is_digit(s[k]) {
        lemma_digit_end(s, k + 1);
    }
}

proof fn lemma_word_end(s: Seq<char>, k: int)
    requires
        0 <= k <= s.len(),
    ensures
        k <= word_end(s, k) <= s.len(),
    decreases s.len() - k,
{
    if k < s.len() && (is_letter(s[k]) || is_digit(s[k]) || s[k] == '_') {
        lemma_word_end(s, k + 1);
    }
}

proof fn lemma_comment_end(s: Seq<char>, k: int)
    requires
        0 <= k <= s.len(),
    ensures
        k <= comment_end(s, k) <= s.len(),
    decreases s.len() - k,
{
    if k < s.len() && s[k] != '\n' {
        lemma_comment_end(s, k + 1);
    }
}

proof fn lemma_string_stop(s: Seq<char>, k: int)
    requires
        0 <= k <= s.len(),
    ensures
        k <= string_stop(s, k) <= s.len(),
    decreases s.len() - k,
{
    if k < s.len() && s[k] != '\n' && s[k] != '"' && s[k] != '{' {
        lemma_string_stop(s, k + 1);
    }
}

/// Reading a token moves forward within the source and keeps the position small.
proof fn lemma_scan_next(s: Seq<char>, st: LexState)
    requires
        st.start == st.current,
        bounded(st, s.len() as int),
        st.current < s.len(),
        scan_next(s, st) is Some,
    ensures
        ({
            let after = scan_next(s, st).unwrap().1;
            &&& st.current < after.current <= s.len()
            &&& 0 <= after.start <= after.current
            &&& 1 <= after.line <= after.current
            &&& 1 <= after.column
            &&& after.column + (after.current - after.start) <= 2 * after.current + 1
        }),
{
    let a = st.current + 1;
    lemma_space_end(s, a);
    lemma_digit_end(s, a);
    lemma_word_end(s, a);
    lemma_comment_end(s, a);
    lemma_string_stop(s, a);
    if char_at(s, digit_end(s, a)) == '.' && digit_end(s, a) + 2 <= s.len() {
        lemma_digit_end(s, digit_end(s, a) + 2);
    }
}

/// A step of the lexer moves forward within the source and keeps the position small.
proof fn lemma_step(s: Seq<char>, st: LexState)
    requires
        bounded(st, s.len() as int),
        st.current < s.len(),
        step(s, st) is Some,
    ensures
        bounded(step(s, st).unwrap(), s.len() as int),
        st.current < step(s, st).unwrap().current,
        lex_from(s, st) == lex_from(s, step(s, st).unwrap()),
{
    lemma_scan_next(s, LexState { start: st.current, ..st });
}

/// The tokens of `source`, as `lex_spec` gives them.
pub fn lex(source: &str) -> (r: Vec<Token>)
    requires
        source@.len() <= MAX_SOURCE,
        lex_spec(source@) is Some,
    ensures
        r@.map_values(|t: Token| lexeme_of(t)) == lex_spec(source@).unwrap(),
{
    Lexer::new().scan_tokens(source)
}

/// The tokens of `source` when lexing it succeeds, else `None`: where `lex` would fail, this
/// says so.
pub fn try_lex(source: &str) -> (r: Option<Vec<Token>>)
    requires
        source@.len() <= MAX_SOURCE,
    ensures
        r is Some <==> lex_spec(source@) is Some,
        r is Some ==> r.unwrap()@.map_values(|t: Token| lexeme_of(t)) == lex_spec(source@).unwrap(),
{
    Lexer::new().scan_tokens_checked(source)
}

/// The number of line breaks among `ts`.
pub open spec fn newlines(ts: Seq<Lexeme>) -> int
    decreases ts.len(),
{
    if ts.len() == 0 {
        0
    } else {
        newlines(ts.drop_last()) + if ts.last().kind is NewLine {
            1int
        } else {
            0int
        }
    }
}

/// The texts of `ts`, one after the other.
pub open spec fn texts(ts: Seq<Lexeme>) -> Seq<char>
    decreases ts.len(),
{
    if ts.len() == 0 {
        Seq::empty()
    } else {
        texts(ts.drop_last()) + ts.last().text
    }
}

/// Whether each token's line is one more than the number of line breaks before it, and the
/// next token's line too.
pub open spec fn lines_counted(st: LexState) -> bool {
    &&& st.line == 1 + newlines(st.tokens)
    &&& forall|i: int|
        0 <= i < st.tokens.len() ==> (#[trigger] st.tokens[i]).line == 1 + newlines(
            st.tokens.take(i),
        )
}

proof fn lemma_add_token_lines(st: LexState, kind: TokenKind, text: Seq<char>)
    requires
        lines_counted(st),
    ensures
        lines_counted(add_token(st, kind, text)),
{
    let next = add_token(st, kind, text);
    assert(next.tokens.drop_last() =~= st.tokens);
    assert forall|i: int| 0 <= i < next.tokens.len() implies (#[trigger] next.tokens[i]).line
        == 1 + newlines(next.tokens.take(i)) by {
        if i < st.tokens.len() {
            assert(next.tokens.take(i) =~= st.tokens.take(i));
            assert(next.tokens[i] == st.tokens[i]);
        } else {
            assert(next.tokens.take(i) =~= st.tokens);
        }
    }
}

proof fn lemma_step_lines(s: Seq<char>, st: LexState)
    requires
        lines_counted(st),
        0 <= st.current < s.len(),
        step(s, st) is Some,
    ensures
        lines_counted(step(s, st).unwrap()),
{
    let begun = LexState { start: st.current, ..st };
    let (kind, after) = scan_next(s, begun).unwrap();
    let c = s[st.current];
    let a = st.current + 1;
    if c == '}' && st.interpolating {
        let opened = LexState { current: a, ..begun };
        let closed = add_token(opened, TokenKind::StringConcat, s.subrange(begun.start, a));
        lemma_add_token_lines(opened, TokenKind::StringConcat, s.subrange(begun.start, a));
        let from = LexState { interpolating: false, ..closed };
        let j = string_stop(s, from.current);
        if j < s.len() && s[j] != '\n' && s[j] != '"' {
            lemma_add_token_lines(
                LexState { current: j, ..from },
                TokenKind::Text,
                escaped(s.subrange(from.start + 1, j)),
            );
        }
        assert(lines_counted(string_spec(s, from).1));
        assert(after == string_spec(s, from).1);
    } else if c == '"' {
        let from = LexState { current: a, ..begun };
        let j = string_stop(s, from.current);
        if j < s.len() && s[j] != '\n' && s[j] != '"' {
            lemma_add_token_lines(
                LexState { current: j, ..from },
                TokenKind::Text,
                escaped(s.subrange(from.start + 1, j)),
            );
        }
        assert(lines_counted(string_spec(s, from).1));
    } else {
        assert(after.line == st.line && after.tokens == st.tokens);
    }
    assert(lines_counted(after));
    let text = s.subrange(after.start, after.current);
    if kind is Text {
        lemma_add_token_lines(after, kind, escaped(text));
    } else {
        lemma_add_token_lines(after, kind, text);
    }
}

proof fn lemma_lex_lines(s: Seq<char>, st: LexState)
    requires
        lines_counted(st),
        lex_from(s, st) is Some,
    ensures
        forall|i: int|
            0 <= i < lex_from(s, st).unwrap().len() ==> (#[trigger] lex_from(s, st).unwrap()[i]).line
                == 1 + newlines(lex_from(s, st).unwrap().take(i)),
    decreases s.len() - st.current,
{
    if 0 <= st.current < s.len() {
        lemma_step_lines(s, st);
        lemma_lex_lines(s, step(s, st).unwrap());
    }
}

/// The line of each token is one more than the number of line breaks before it.
pub proof fn law_lex_lines(s: Seq<char>)
    requires
        lex_spec(s) is Some,
    ensures
        forall|i: int|
            0 <= i < lex_spec(s).unwrap().len() ==> (#[trigger] lex_spec(s).unwrap()[i]).line == 1
                + newlines(lex_spec(s).unwrap().take(i)),
{
    assert(initial_state().tokens =~= Seq::<Lexeme>::empty());
    lemma_lex_lines(s, initial_state());
}

/// Whether `s` holds no double quote.
pub open spec fn without_quotes(s: Seq<char>) -> bool {
    forall|i: int| 0 <= i < s.len() ==> s[i] != '"'
}

proof fn lemma_texts_push(ts: Seq<Lexeme>, t: Lexeme)
    ensures
        texts(ts.push(t)) == texts(ts) + t.text,
{
    assert(ts.push(t).drop_last() =~= ts);
}

proof fn lemma_lex_texts(s: Seq<char>, st: LexState)
    requires
        without_quotes(s),
        !st.interpolating,
        0 <= st.current <= s.len(),
        texts(st.tokens) == s.subrange(0, st.current),
        lex_from(s, st) is Some,
    ensures
        texts(lex_from(s, st).unwrap()) == s,
    decreases s.len() - st.current,
{
    if st.current < s.len() {
        let begun = LexState { start: st.current, ..st };
        let (kind, after) = scan_next(s, begun).unwrap();
        assert(s[st.current] != '"');
        assert(after.start == st.current && after.tokens == st.tokens && !after.interpolating);
        assert(!(kind is Text));
        let next = step(s, st).unwrap();
        lemma_texts_push(after.tokens, Lexeme {
            kind,
            line: after.line,
            column: after.column,
            text: s.subrange(after.start, after.current),
        });
        assert(texts(next.tokens) =~= s.subrange(0, next.current));
        lemma_lex_texts(s, next);
    } else {
        assert(s.subrange(0, st.current) =~= s);
    }
}

/// Without string literals nothing is lost or changed: the texts of the tokens, one after the
/// other, are the source.
pub proof fn law_lex_texts(s: Seq<char>)
    requires
        without_quotes(s),
        lex_spec(s) is Some,
    ensures
        texts(lex_spec(s).unwrap()) == s,
{
    assert(texts(initial_state().tokens) =~= s.subrange(0, 0));
    lemma_lex_texts(s, initial_state());
}

/// The number of characters in the texts of `ts` after their last line break.
pub open spec fn line_width(ts: Seq<Lexeme>) -> int
    decreases ts.len(),
{
    if ts.len() == 0 {
        0
    } else if ts.last().kind is NewLine {
        0
    } else {
        line_width(ts.drop_last()) + ts.last().text.len()
    }
}

/// Whether each token's column is one more than the width of its line before it, and the
/// next token's column too.
pub open spec fn columns_counted(st: LexState) -> bool {
    &&& st.column == 1 + line_width(st.tokens)
    &&& forall|i: int|
        0 <= i < st.tokens.len() ==> (#[trigger] st.tokens[i]).column == 1 + line_width(
            st.tokens.take(i),
        )
}

proof fn lemma_lex_columns(s: Seq<char>, st: LexState)
    requires
        without_quotes(s),
        !st.interpolating,
        0 <= st.current <= s.len(),
        columns_counted(st),
        lex_from(s, st) is Some,
    ensures
        forall|i: int|
            0 <= i < lex_from(s, st).unwrap().len() ==> (#[trigger] lex_from(s, st).unwrap()[i]).column
                == 1 + line_width(lex_from(s, st).unwrap().take(i)),
    decreases s.len() - st.current,
{
    if st.current < s.len() {
        let begun = LexState { start: st.current, ..st };
        let (kind, after) = scan_next(s, begun).unwrap();
        assert(s[st.current] != '"');
        assert(after.start == st.current && after.tokens == st.tokens && !after.interpolating);
        assert(after.column == st.column);
        assert(!(kind is Text));
        let next = step(s, st).unwrap();
        let text = s.subrange(after.start, after.current);
        assert(next == add_token(after, kind, text));
        assert(next.tokens.drop_last() =~= st.tokens);
        assert(text.len() == after.current - after.start);
        assert forall|i: int| 0 <= i < next.tokens.len() implies (#[trigger] next.tokens[i]).column
            == 1 + line_width(next.tokens.take(i)) by {
            if i < st.tokens.len() {
                assert(next.tokens.take(i) =~= st.tokens.take(i));
                assert(next.tokens[i] == st.tokens[i]);
            } else {
                assert(next.tokens.take(i) =~= st.tokens);
            }
        }
        assert(columns_counted(next));
        lemma_lex_columns(s, next);
    } else {
        assert(lex_from(s, st).unwrap() == st.tokens);
    }
}

/// Without string literals, each token's column is one more than the number of characters
/// of the tokens before it on its line.
pub proof fn law_lex_columns(s: Seq<char>)
    requires
        without_quotes(s),
        lex_spec(s) is Some,
    ensures
        forall|i: int|
            0 <= i < lex_spec(s).unwrap().len() ==> (#[trigger] lex_spec(s).unwrap()[i]).column
                == 1 + line_width(lex_spec(s).unwrap().take(i)),
{
    assert(initial_state().tokens =~= Seq::<Lexeme>::empty());
    lemma_lex_columns(s, initial_state());
}

/// Whether the text of `t` is the one text of its kind, where its kind has one.
pub open spec fn has_kind_text(t: Lexeme) -> bool {
    fixed_text(t.kind) matches Some(text) ==> t.text == text
}

/// Whether each of `ts` has the text of its kind, where its kind has one.
pub open spec fn all_kind_texts(ts: Seq<Lexeme>) -> bool {
    forall|i: int| 0 <= i < ts.len() ==> has_kind_text(#[trigger] ts[i])
}

proof fn lemma_kind_texts_push(ts: Seq<Lexeme>, t: Lexeme)
    requires
        all_kind_texts(ts),
        has_kind_text(t),
    ensures
        all_kind_texts(ts.push(t)),
{
    assert forall|i: int| 0 <= i < ts.push(t).len() implies has_kind_text(#[trigger] ts.push(t)[i]) by {
        if i < ts.len() {
            assert(ts.push(t)[i] == ts[i]);
        }
    }
}

proof fn lemma_string_kind_texts(s: Seq<char>, st: LexState)
    requires
        all_kind_texts(st.tokens),
    ensures
        all_kind_texts(string_spec(s, st).1.tokens),
        fixed_text(string_spec(s, st).0) is None,
{
    let j = string_stop(s, st.current);
    if j < s.len() && s[j] != '\n' && s[j] != '"' {
        lemma_kind_texts_push(st.tokens, Lexeme {
            kind: TokenKind::Text,
            line: st.line,
            column: st.column,
            text: escaped(s.subrange(st.start + 1, j)),
        });
    }
}

proof fn lemma_scan_kind_text(s: Seq<char>, st: LexState)
    requires
        st.start == st.current,
        0 <= st.current < s.len(),
        scan_next(s, st) is Some,
        all_kind_texts(st.tokens),
    ensures
        ({
            let (kind, after) = scan_next(s, st).unwrap();
            &&& all_kind_texts(after.tokens)
            &&& fixed_text(kind) is Some ==> {
                &&& after.start == st.start
                &&& st.start <= after.current <= s.len()
                &&& s.subrange(after.start, after.current) == fixed_text(kind)->0
            }
        }),
{
    let a = st.current + 1;
    let c = s[st.current];
    lemma_space_end(s, a);
    lemma_word_end(s, a);
    let (kind, after) = scan_next(s, st).unwrap();
    if c == '"' {
        lemma_string_kind_texts(s, LexState { current: a, ..st });
    } else if c == '}' && st.interpolating {
        let closed = add_token(
            LexState { current: a, ..st },
            TokenKind::StringConcat,
            s.subrange(st.start, a),
        );
        lemma_kind_texts_push(st.tokens, Lexeme {
            kind: TokenKind::StringConcat,
            line: st.line,
            column: st.column,
            text: s.subrange(st.start, a),
        });
        assert(closed.tokens == st.tokens.push(Lexeme {
            kind: TokenKind::StringConcat,
            line: st.line,
            column: st.column,
            text: s.subrange(st.start, a),
        }));
        lemma_string_kind_texts(s, LexState { interpolating: false, ..closed });
    } else if fixed_text(kind) is Some {
        assert(s.subrange(after.start, after.current) =~= fixed_text(kind)->0);
    }
}

proof fn lemma_lex_kind_texts(s: Seq<char>, st: LexState)
    requires
        all_kind_texts(st.tokens),
    ensures
        lex_from(s, st) matches Some(ts) ==> all_kind_texts(ts),
    decreases s.len() - st.current,
{
    if 0 <= st.current < s.len() {
        let begun = LexState { start: st.current, ..st };
        if scan_next(s, begun) is Some {
            lemma_scan_kind_text(s, begun);
            let (kind, after) = scan_next(s, begun).unwrap();
            let raw = s.subrange(after.start, after.current);
            let text = if kind is Text {
                escaped(raw)
            } else {
                raw
            };
            lemma_kind_texts_push(after.tokens, Lexeme {
                kind,
                line: after.line,
                column: after.column,
                text,
            });
            let next = step(s, st).unwrap();
            assert(next.tokens == after.tokens.push(Lexeme {
                kind,
                line: after.line,
                column: after.column,
                text,
            }));
            if st.current < next.current <= s.len() {
                lemma_lex_kind_texts(s, next);
            }
        }
    }
}

/// A token of a kind that has one text has that text: an operator token is written as its
/// symbol (`-.` is the token of float subtraction, `<=` that of less than or equal), a
/// keyword as its word, a punctuation mark as itself.
pub proof fn law_lex_kind_texts(s: Seq<char>)
    ensures
        lex_spec(s) matches Some(ts) ==> forall|i: int|
            0 <= i < ts.len() ==> (fixed_text(#[trigger] ts[i].kind) matches Some(t) ==> ts[i].text
                == t),
{
    lemma_lex_kind_texts(s, initial_state());
    if lex_spec(s) is Some {
        let ts = lex_spec(s)->0;
        assert forall|i: int| 0 <= i < ts.len() implies (fixed_text(#[trigger] ts[i].kind) matches Some(t)
            ==> ts[i].text == t) by {
            assert(has_kind_text(ts[i]));
        }
    }
}

/// Whether the text `text` of a token of `kind` names no other kind: where the text is the
/// one text of a kind, that kind is `kind`. Texts, string pieces and errors may carry any
/// text, and are left out.
pub open spec fn text_names_kind(kind: TokenKind, text: Seq<char>) -> bool {
    !(kind is Text || kind is StringConcat || kind is SyntaxError) ==> forall|k: TokenKind|
        #[trigger] fixed_text(k) == Some(text) ==> kind == k
}

/// A text that starts as a name, a number, a comment or a tab does is no kind's one text.
proof fn lemma_no_fixed_text(text: Seq<char>)
    requires
        text.len() >= 1,
        ({
            ||| text[0] == '#'
            ||| is_digit(text[0])
            ||| text[0] == '-' && text.len() >= 2 && is_digit(text[1])
            ||| is_letter(text[0]) && text != "true"@ && text != "false"@ && text != "and"@
                && text != "or"@ && text != "is"@ && text != "if"@
            ||| text =~= seq!['\t']
            ||| text.len() == 4 && text[0] == ' '
        }),
    ensures
        forall|k: TokenKind| #[trigger] fixed_text(k) != Some(text),
{
    reveal_strlit("false");
    reveal_strlit("true");
    reveal_strlit("and");
    reveal_strlit("or");
    reveal_strlit("is");
    reveal_strlit("if");
    assert forall|k: TokenKind| #[trigger] fixed_text(k) != Some(text) by {
        if fixed_text(k) == Some(text) {
            let u = fixed_text(k)->0;
            assert(u.len() == text.len());
            assert(u[0] == text[0]);
            assert(u.len() > 1 ==> u[1] == text[1]);
            if is_letter(text[0]) {
                assert(u =~= text);
            }
        }
    }
}

proof fn lemma_scan_text_kind(s: Seq<char>, st: LexState)
    requires
        st.start == st.current,
        0 <= st.current < s.len(),
        scan_next(s, st) is Some,
    ensures
        ({
            let (kind, after) = scan_next(s, st).unwrap();
            !(kind is Text || kind is StringConcat || kind is SyntaxError) ==> {
                &&& after.start == st.start
                &&& st.start < after.current <= s.len()
                &&& text_names_kind(kind, s.subrange(after.start, after.current))
            }
        }),
{
    let a = st.current + 1;
    let c = s[st.current];
    lemma_space_end(s, a);
    lemma_word_end(s, a);
    lemma_comment_end(s, a);
    lemma_digit_end(s, a);
    let d = digit_end(s, a);
    if d + 2 <= s.len() {
        lemma_digit_end(s, d + 2);
    }
    if a < s.len() && is_digit(s[a]) {
        lemma_digit_end(s, a + 1);
    }
    let (kind, after) = scan_next(s, st).unwrap();
    if !(kind is Text || kind is StringConcat || kind is SyntaxError) {
        let text = s.subrange(after.start, after.current);
        assert(text.len() >= 1 && text[0] == c);
        if fixed_text(kind) is Some {
            lemma_scan_kind_text_only(s, st);
            assert forall|k: TokenKind| #[trigger] fixed_text(k) == Some(text) implies kind == k by {
                law_fixed_text_distinct(kind, k);
            }
        } else {
            if c == '-' {
                assert(text[1] == s[a]);
            }
            if c == ' ' {
                assert(text.len() == 4);
            }
            if c == '\t' {
                assert(text =~= seq!['\t']);
            }
            lemma_no_fixed_text(text);
        }
    }
}

proof fn lemma_scan_kind_text_only(s: Seq<char>, st: LexState)
    requires
        st.start == st.current,
        0 <= st.current < s.len(),
        scan_next(s, st) is Some,
    ensures
        ({
            let (kind, after) = scan_next(s, st).unwrap();
            fixed_text(kind) is Some ==> {
                &&& after.start == st.start
                &&& st.start <= after.current <= s.len()
                &&& s.subrange(after.start, after.current) == fixed_text(kind)->0
            }
        }),
{
    let a = st.current + 1;
    lemma_space_end(s, a);
    lemma_word_end(s, a);
    let (kind, after) = scan_next(s, st).unwrap();
    if fixed_text(kind) is Some {
        assert(s.subrange(after.start, after.current) =~= fixed_text(kind)->0);
    }
}

proof fn lemma_lex_text_kinds(s: Seq<char>, st: LexState)
    requires
        forall|i: int| 0 <= i < st.tokens.len() ==> text_names_kind(#[trigger] st.tokens[i].kind, st.tokens[i].text),
    ensures
        lex_from(s, st) matches Some(ts) ==> forall|i: int|
            0 <= i < ts.len() ==> text_names_kind(#[trigger] ts[i].kind, ts[i].text),
    decreases s.len() - st.current,
{
    if 0 <= st.current < s.len() {
        let begun = LexState { start: st.current, ..st };
        if scan_next(s, begun) is Some {
            lemma_scan_text_kind(s, begun);
            let (kind, after) = scan_next(s, begun).unwrap();
            let c = s[st.current];
            let a = st.current + 1;
            // The tokens that reading a string adds are texts and string pieces.
            assert forall|i: int| 0 <= i < after.tokens.len() implies text_names_kind(
                #[trigger] after.tokens[i].kind,
                after.tokens[i].text,
            ) by {
                if i >= st.tokens.len() {
                    assert(after.tokens[i].kind is Text || after.tokens[i].kind is StringConcat);
                } else {
                    assert(after.tokens[i] == st.tokens[i]);
                }
            }
            let raw = s.subrange(after.start, after.current);
            let text = if kind is Text {
                escaped(raw)
            } else {
                raw
            };
            let next = step(s, st).unwrap();
            let l = Lexeme { kind, line: after.line, column: after.column, text };
            assert(next.tokens == after.tokens.push(l));
            assert forall|i: int| 0 <= i < next.tokens.len() implies text_names_kind(
                #[trigger] next.tokens[i].kind,
                next.tokens[i].text,
            ) by {
                if i < after.tokens.len() {
                    assert(next.tokens[i] == after.tokens[i]);
                }
            }
            if st.current < next.current <= s.len() {
                lemma_lex_text_kinds(s, next);
            }
        }
    }
}

/// The kind of a token is told by its text: a token (other than a text, a string piece or an
/// error, which carry any text) whose text is the one text of a kind is of that kind, so
/// `-.` is always float subtraction and `<=` always less than or equal.
pub proof fn law_lex_text_kinds(s: Seq<char>)
    ensures
        lex_spec(s) matches Some(ts) ==> forall|i: int, k: TokenKind|
            0 <= i < ts.len() && !(ts[i].kind is Text || ts[i].kind is StringConcat
                || ts[i].kind is SyntaxError) && #[trigger] fixed_text(k) == Some(#[trigger] ts[i].text)
                ==> ts[i].kind == k,
{
    lemma_lex_text_kinds(s, initial_state());
    if lex_spec(s) is Some {
        let ts = lex_spec(s)->0;
        assert forall|i: int, k: TokenKind|
            0 <= i < ts.len() && !(ts[i].kind is Text || ts[i].kind is StringConcat
                || ts[i].kind is SyntaxError) && #[trigger] fixed_text(k) == Some(#[trigger] ts[i].text)
            implies ts[i].kind == k by {
            assert(text_names_kind(ts[i].kind, ts[i].text));
        }
    }
}

} // verus!
