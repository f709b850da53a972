use vstd::prelude::*;

use crate::text::{chars_of, decimal, push_str, push_unsigned};
use crate::tokens::{Span, Token};
use crate::unification::{displayable, type_text, UnificationType};

verus! {

/// What can go wrong when a program is read, checked or loaded.
#[derive(Debug)]
pub enum Error {
    SyntaxError { description: String, token: Token },
    ParseErr { message: String, token: Token },
    TypeMismatch {
        expected: UnificationType,
        got: UnificationType,
        declared_at: Token,
        provided_at: Token,
        mismatch_at: Option<Token>,
    },
    NameNotFound { token: Token },
    TypeRedefinition { token: Token },
    TypeNotFound { token: Token },
    FunctionNotFound { name: String },
    FunctionNameTooLong { token: Token },
    FileErr(String),
    PropertyMissing { property_definition: Token, token: Token },
    PropertyDuplicated { token: Token },
}

/// Whether `a` and `b` are the same error: the same variant with the same fields, types
/// compared by their values.
pub open spec fn same_error(a: Error, b: Error) -> bool {
    match a {
        Error::TypeMismatch { expected, got, declared_at, provided_at, mismatch_at } => match b {
            Error::TypeMismatch {
                expected: e,
                got: g,
                declared_at: d,
                provided_at: p,
                mismatch_at: m,
            } => expected@ == e@ && got@ == g@ && declared_at == d && provided_at == p
                && mismatch_at == m,
            _ => false,
        },
        _ => a == b,
    }
}

impl Clone for Error {
    fn clone(&self) -> (r: Self)
        ensures
            same_error(r, *self),
    {
        match self {
            Error::SyntaxError { description, token } => Error::SyntaxError {
                description: description.clone(),
                token: token.clone(),
            },
            Error::ParseErr { message, token } => Error::ParseErr {
                message: message.clone(),
                token: token.clone(),
            },
            Error::TypeMismatch { expected, got, declared_at, provided_at, mismatch_at } => {
                let mismatch_at = match mismatch_at {
                    Some(token) => Some(token.clone()),
                    None => None,
                };
                Error::TypeMismatch {
                    expected: expected.clone(),
                    got: got.clone(),
                    declared_at: declared_at.clone(),
                    provided_at: provided_at.clone(),
                    mismatch_at,
                }
            },
            Error::NameNotFound { token } => Error::NameNotFound { token: token.clone() },
            Error::TypeRedefinition { token } => Error::TypeRedefinition { token: token.clone() },
            Error::TypeNotFound { token } => Error::TypeNotFound { token: token.clone() },
            Error::FunctionNotFound { name } => Error::FunctionNotFound { name: name.clone() },
            Error::FunctionNameTooLong { token } => Error::FunctionNameTooLong {
                token: token.clone(),
            },
            Error::FileErr(message) => Error::FileErr(message.clone()),
            Error::PropertyMissing { property_definition, token } => Error::PropertyMissing {
                property_definition: property_definition.clone(),
                token: token.clone(),
            },
            Error::PropertyDuplicated { token } => Error::PropertyDuplicated {
                token: token.clone(),
            },
        }
    }
}

/// `Line {line}.{column}: ` for the start of `token`.
pub open spec fn at_text(token: Token) -> Seq<char> {
    "Line "@ + decimal(token.position.line as int) + "."@ + decimal(token.position.column as int)
        + ": "@
}

/// The debug text of a position.
pub open spec fn span_text(span: Span) -> Seq<char> {
    "Span { line: "@ + decimal(span.line as int) + ", column: "@ + decimal(span.column as int)
        + " }"@
}

/// Whether the text of `e` is defined: the types of a mismatch have texts.
pub open spec fn describable(e: Error) -> bool {
    match e {
        Error::TypeMismatch { expected, got, .. } => displayable(expected@) && displayable(got@),
        _ => true,
    }
}

/// The one-line text of an error.
pub open spec fn message_text(e: Error) -> Seq<char> {
    match e {
        Error::SyntaxError { description, token } => at_text(token) + "Syntax error: "@
            + description@,
        Error::ParseErr { message, token } => at_text(token) + "Parse error: "@ + message@,
        Error::TypeMismatch { expected, got, declared_at, .. } => at_text(declared_at)
            + "Expected "@ + type_text(expected@) + " but got "@ + type_text(got@) + "."@,
        Error::NameNotFound { token } => at_text(token) + "Name not found in scope: "@
            + token.lexeme@,
        Error::FunctionNotFound { name } => "Function not found: "@ + name@,
        Error::FunctionNameTooLong { token } => "Function name too long; at "@ + span_text(
            token.position,
        ),
        Error::FileErr(message) => "File error: "@ + message@,
        Error::PropertyMissing { property_definition, token } => at_text(token)
            + "Property missing: '"@ + property_definition.lexeme@ + "'"@,
        Error::TypeRedefinition { token } => at_text(token) + "Type '"@ + token.lexeme@
            + "' redefined"@,
        Error::TypeNotFound { token } => at_text(token) + "Type '"@ + token.lexeme@
            + "' not found"@,
        Error::PropertyDuplicated { token } => at_text(token) + "Property '"@ + token.lexeme@
            + "' is duplicated"@,
    }
}

fn push_at(text: &mut String, token: &Token)
    ensures
        final(text)@ == old(text)@ + at_text(*token),
{
    push_str(text, "Line ");
    push_unsigned(text, token.position.line as u64);
    push_str(text, ".");
    push_unsigned(text, token.position.column as u64);
    push_str(text, ": ");
}

impl Error {
    /// The one-line text of the error, as `message_text` gives it.
    pub fn to_string(&self) -> (r: String)
        requires
            describable(*self),
        ensures
            r@ == message_text(*self),
    {
        let mut text = String::new();
        match self {
            Error::SyntaxError { description, token } => {
                push_at(&mut text, token);
                push_str(&mut text, "Syntax error: ");
                push_str(&mut text, description.as_str());
                proof {
                    assert(text@ =~= message_text(*self));
                }
            },
            Error::ParseErr { message, token } => {
                push_at(&mut text, token);
                push_str(&mut text, "Parse error: ");
                push_str(&mut text, message.as_str());
                proof {
                    assert(text@ =~= message_text(*self));
                }
            },
            Error::TypeMismatch { expected, got, declared_at, .. } => {
                push_at(&mut text, declared_at);
                push_str(&mut text, "Expected ");
                let expected_text = expected.to_string();
                push_str(&mut text, expected_text.as_str());
                push_str(&mut text, " but got ");
                let got_text = got.to_string();
                push_str(&mut text, got_text.as_str());
                push_str(&mut text, ".");
                proof {
                    assert(text@ =~= message_text(*self));
                }
            },
            Error::NameNotFound { token } => {
                push_at(&mut text, token);
                push_str(&mut text, "Name not found in scope: ");
                push_str(&mut text, token.lexeme.as_str());
                proof {
                    assert(text@ =~= message_text(*self));
                }
            },
            Error::FunctionNotFound { name } => {
                push_str(&mut text, "Function not found: ");
                push_str(&mut text, name.as_str());
                proof {
                    assert(text@ =~= message_text(*self));
                }
            },
            Error::FunctionNameTooLong { token } => {
                push_str(&mut text, "Function name too long; at ");
                push_str(&mut text, "Span { line: ");
                push_unsigned(&mut text, token.position.line as u64);
                push_str(&mut text, ", column: ");
                push_unsigned(&mut text, token.position.column as u64);
                push_str(&mut text, " }");
                proof {
                    assert(text@ =~= message_text(*self));
                }
            },
            Error::FileErr(message) => {
                push_str(&mut text, "File error: ");
                push_str(&mut text, message.as_str());
                proof {
                    assert(text@ =~= message_text(*self));
                }
            },
            Error::PropertyMissing { property_definition, token } => {
                push_at(&mut text, token);
                push_str(&mut text, "Property missing: '");
                push_str(&mut text, property_definition.lexeme.as_str());
                push_str(&mut text, "'");
                proof {
                    assert(text@ =~= message_text(*self));
                }
            },
            Error::TypeRedefinition { token } => {
                push_at(&mut text, token);
                push_str(&mut text, "Type '");
                push_str(&mut text, token.lexeme.as_str());
                push_str(&mut text, "' redefined");
                proof {
                    assert(text@ =~= message_text(*self));
                }
            },
            Error::TypeNotFound { token } => {
                push_at(&mut text, token);
                push_str(&mut text, "Type '");
                push_str(&mut text, token.lexeme.as_str());
                push_str(&mut text, "' not found");
                proof {
                    assert(text@ =~= message_text(*self));
                }
            },
            Error::PropertyDuplicated { token } => {
                push_at(&mut text, token);
                push_str(&mut text, "Property '");
                push_str(&mut text, token.lexeme.as_str());
                push_str(&mut text, "' is duplicated");
                proof {
                    assert(text@ =~= message_text(*self));
                }
            },
        }
        text
    }
}

/// Whether `c` is ASCII whitespace: space, tab, line feed, form feed or carriage return.
pub open spec fn is_ascii_space(c: char) -> bool {
    c == ' ' || c == '\t' || c == '\n' || c == '\x0C' || c == '\r'
}

/// The lines of `s` from position `k` on, the current line holding `cur` so far: split at each
/// line feed, without the line feed and a carriage return just before it; a last line feed
/// ends the last line.
pub open spec fn lines_acc(s: Seq<char>, k: int, cur: Seq<char>) -> Seq<Seq<char>>
    decreases s.len() - k,
{
    if k < 0 || k >= s.len() {
        if cur.len() > 0 {
            seq![cur]
        } else {
            Seq::empty()
        }
    } else if s[k] == '\n' {
        seq![
            if cur.len() > 0 && cur.last() == '\r' {
                cur.drop_last()
            } else {
                cur
            },
        ] + lines_acc(s, k + 1, Seq::empty())
    } else {
        lines_acc(s, k + 1, cur.push(s[k]))
    }
}

/// The lines of `s`.
pub open spec fn lines_of(s: Seq<char>) -> Seq<Seq<char>> {
    lines_acc(s, 0, Seq::empty())
}

/// The number of whitespace characters that start `line` when some other character follows
/// them, else zero.
pub open spec fn indent_from(line: Seq<char>, k: int) -> int
    decreases line.len() - k,
{
    if k < 0 || k >= line.len() {
        0
    } else if !is_ascii_space(line[k]) {
        k
    } else {
        indent_from(line, k + 1)
    }
}

/// The length in bytes of the UTF-8 encoding of `s`, as a `usize`.
pub open spec fn byte_len(s: Seq<char>) -> usize {
    vstd::utf8::encode_utf8(s).len() as usize
}

/// `n` copies of `c`.
pub open spec fn repeat(c: char, n: int) -> Seq<char> {
    Seq::new(if n < 0 { 0 } else { n as nat }, |i: int| c)
}

/// The source line of `token`, then a line with the line's indentation, spaces up to the
/// token's column and one caret per byte of the token, the carets in yellow; empty when the
/// line does not exist.
pub open spec fn error_line(source: Seq<char>, token: Token) -> Seq<char> {
    let lines = lines_of(source);
    let l = token.position.line;
    let column = token.position.column;
    if l == 0 || l > lines.len() {
        Seq::empty()
    } else {
        let line = lines[l - 1];
        let indent = indent_from(line, 0);
        line + "\n"@ + line.subrange(0, indent) + (if column - 1 > indent {
            repeat(' ', column - indent - 1)
        } else {
            Seq::empty()
        }) + "\x1b[33m"@ + repeat('^', byte_len(token.lexeme@) as int)
            + "\x1b[0m"@
    }
}

/// Whether the error line of `token` in `source` is defined: the token's line is not in the
/// source, or its column is at least one.
pub open spec fn caret_fits(source: Seq<char>, token: Token) -> bool {
    token.position.line == 0 || token.position.line > lines_of(source).len()
        || token.position.column >= 1
}

/// The lines of `s`, as `lines_of` gives them.
fn split_lines(s: &Vec<char>) -> (r: Vec<Vec<char>>)
    ensures
        r@.len() == lines_of(s@).len(),
        forall|i: int| 0 <= i < r@.len() ==> (#[trigger] r@[i])@ == lines_of(s@)[i],
{
    let mut lines: Vec<Vec<char>> = Vec::new();
    let mut cur: Vec<char> = Vec::new();
    let ghost done: Seq<Seq<char>> = Seq::empty();
    let mut k: usize = 0;
    while k < s.len()
        invariant
            k <= s.len(),
            lines@.len() == done.len(),
            forall|i: int| 0 <= i < lines@.len() ==> (#[trigger] lines@[i])@ == done[i],
            done + lines_acc(s@, k as int, cur@) == lines_of(s@),
        decreases s.len() - k,
    {
        let ghost before = cur@;
        if s[k] == '\n' {
            let n = cur.len();
            if n > 0 && cur[n - 1] == '\r' {
                cur.pop();
            }
            proof {
                assert(lines_acc(s@, k as int, before) == seq![cur@] + lines_acc(
                    s@,
                    k + 1,
                    Seq::empty(),
                ));
                if n > 0 && before.last() == '\r' {
                    assert(cur@ =~= before.drop_last());
                }
                assert(done + lines_acc(s@, k as int, before) =~= done.push(cur@) + lines_acc(
                    s@,
                    k + 1,
                    Seq::empty(),
                ));
                done = done.push(cur@);
            }
            lines.push(cur);
            cur = Vec::new();
        } else {
            cur.push(s[k]);
        }
        k += 1;
    }
    if cur.len() > 0 {
        proof {
            assert(done + lines_acc(s@, k as int, cur@) =~= done.push(cur@));
            done = done.push(cur@);
        }
        lines.push(cur);
    } else {
        proof {
            assert(done + lines_acc(s@, k as int, cur@) =~= done);
        }
    }
    lines
}

fn push_repeat(text: &mut String, c: char, n: usize)
    ensures
        final(text)@ == old(text)@ + repeat(c, n as int),
{
    let mut i: usize = 0;
    while i < n
        invariant
            i <= n,
            text@ == old(text)@ + repeat(c, i as int),
        decreases n - i,
    {
        crate::text::push_char(text, c);
        i += 1;
        proof {
            assert(text@ =~= old(text)@ + repeat(c, i as int));
        }
    }
}

/// The source line of `token` with carets under it, as `error_line` gives it.
fn get_error_line(source: &str, token: &Token) -> (r: String)
    requires
        caret_fits(source@, *token),
    ensures
        r@ == error_line(source@, *token),
{
    let chars = chars_of(source);
    let lines = split_lines(&chars);
    let position = token.position;
    if position.line == 0 || position.line > lines.len() {
        return String::new();
    }
    let line = &lines[position.line - 1];
    let mut result = String::new();
    let mut k: usize = 0;
    while k < line.len()
        invariant
            k <= line.len(),
            result@ == line@.subrange(0, k as int),
        decreases line.len() - k,
    {
        crate::text::push_char(&mut result, line[k]);
        k += 1;
        proof {
            assert(result@ =~= line@.subrange(0, k as int));
        }
    }
    push_str(&mut result, "\n");
    proof {
        assert(line@.subrange(0, line@.len() as int) =~= line@);
    }
    let mut indent: usize = 0;
    while indent < line.len() && is_space(line[indent])
        invariant
            indent <= line.len(),
            indent_from(line@, 0) == indent_from(line@, indent as int),
        decreases line.len() - indent,
    {
        indent += 1;
    }
    if indent == line.len() {
        indent = 0;
    }
    proof {
        assert(chars@ == source@);
        assert(line@ == lines_of(source@)[position.line - 1]);
        assert(indent == indent_from(line@, 0));
    }
    let mut j: usize = 0;
    while j < indent
        invariant
            j <= indent <= line.len(),
            result@ == line@ + "\n"@ + line@.subrange(0, j as int),
        decreases indent - j,
    {
        crate::text::push_char(&mut result, line[j]);
        j += 1;
        proof {
            assert(result@ =~= line@ + "\n"@ + line@.subrange(0, j as int));
        }
    }
    if position.column - 1 > indent {
        push_repeat(&mut result, ' ', position.column - indent - 1);
    }
    push_str(&mut result, "\x1b[33m");
    let carets = token.lexeme.as_str().len();
    proof {
        assert(carets == byte_len(token.lexeme@));
    }
    push_repeat(&mut result, '^', carets);
    push_str(&mut result, "\x1b[0m");
    proof {
        assert(result@ =~= error_line(source@, *token));
    }
    result
}

fn is_space(c: char) -> (r: bool)
    ensures
        r == is_ascii_space(c),
{
    c == ' ' || c == '\t' || c == '\n' || c == '\x0C' || c == '\r'
}

/// The token whose source line an error shows, if any.
pub open spec fn shown_token(e: Error) -> Option<Token> {
    match e {
        Error::SyntaxError { token, .. } => Some(token),
        Error::ParseErr { token, .. } => Some(token),
        Error::TypeMismatch { declared_at, .. } => Some(declared_at),
        Error::NameNotFound { token } => Some(token),
        Error::TypeRedefinition { token } => Some(token),
        Error::TypeNotFound { token } => Some(token),
        Error::FunctionNotFound { .. } => None,
        Error::FunctionNameTooLong { token } => Some(token),
        Error::FileErr(_) => None,
        Error::PropertyMissing { token, .. } => Some(token),
        Error::PropertyDuplicated { token } => Some(token),
    }
}

/// The grey heading line of one part of a type mismatch.
pub open spec fn heading(line: usize, what: Seq<char>) -> Seq<char> {
    "\x1b[90m"@ + "Line "@ + decimal(line as int) + what + "\x1b[0m"@ + "\n"@
}

/// What an error looks like to a reader of `source`: the source lines it concerns with carets,
/// then its one-line text.
pub open spec fn error_description(e: Error, source: Seq<char>) -> Seq<char> {
    match e {
        Error::TypeMismatch { declared_at, provided_at, mismatch_at: Some(at), .. } => heading(
            at.position.line,
            ": Type mismatch:"@,
        ) + error_line(source, at) + "\n\n"@ + heading(
            provided_at.position.line,
            ": Expected this type:"@,
        ) + error_line(source, provided_at) + "\n\n"@ + heading(
            declared_at.position.line,
            ": Got this type:"@,
        ) + error_line(source, declared_at) + "\n\n"@ + message_text(e),
        _ => match shown_token(e) {
            Some(token) => error_line(source, token) + "\n"@ + message_text(e),
            None => "???\n"@ + message_text(e),
        },
    }
}

/// Whether an error can be described on `source`: its text is defined, and so is each source
/// line that it shows.
pub open spec fn error_printable(e: Error, source: Seq<char>) -> bool {
    &&& describable(e)
    &&& match shown_token(e) {
        Some(token) => caret_fits(source, token),
        None => true,
    }
    &&& match e {
        Error::TypeMismatch { provided_at, mismatch_at: Some(at), .. } => caret_fits(
            source,
            provided_at,
        ) && caret_fits(source, at),
        _ => true,
    }
}

/// A description of an error for a reader of the source it is about.
pub trait ErrorDescription {
    /// Whether `print` is defined on `source`.
    spec fn printable(&self, source: Seq<char>) -> bool;

    /// What `print` gives on `source`.
    spec fn description(&self, source: Seq<char>) -> Seq<char>;

    /// The description of the error on `source`.
    fn print(&self, source: &str) -> (r: String)
        requires
            self.printable(source@),
        ensures
            r@ == self.description(source@),
    ;
}

fn push_heading(text: &mut String, line: usize, what: &str)
    ensures
        final(text)@ == old(text)@ + heading(line, what@),
{
    push_str(text, "\x1b[90m");
    push_str(text, "Line ");
    push_unsigned(text, line as u64);
    push_str(text, what);
    push_str(text, "\x1b[0m");
    push_str(text, "\n");
    proof {
        assert(final(text)@ =~= old(text)@ + heading(line, what@));
    }
}

impl ErrorDescription for Error {
    open spec fn printable(&self, source: Seq<char>) -> bool {
        error_printable(*self, source)
    }

    open spec fn description(&self, source: Seq<char>) -> Seq<char> {
        error_description(*self, source)
    }

    fn print(&self, source: &str) -> (r: String) {
        let message = self.to_string();
        let mut text = String::new();
        match self {
            Error::TypeMismatch { declared_at, provided_at, mismatch_at: Some(at), .. } => {
                push_heading(&mut text, at.position.line, ": Type mismatch:");
                let shown = get_error_line(source, at);
                push_str(&mut text, shown.as_str());
                push_str(&mut text, "\n\n");
                push_heading(&mut text, provided_at.position.line, ": Expected this type:");
                let shown = get_error_line(source, provided_at);
                push_str(&mut text, shown.as_str());
                push_str(&mut text, "\n\n");
                push_heading(&mut text, declared_at.position.line, ": Got this type:");
                let shown = get_error_line(source, declared_at);
                push_str(&mut text, shown.as_str());
                push_str(&mut text, "\n\n");
                push_str(&mut text, message.as_str());
                proof {
                    assert(text@ =~= error_description(*self, source@));
                }
            },
            Error::FunctionNotFound { .. } | Error::FileErr(_) => {
                push_str(&mut text, "???\n");
                push_str(&mut text, message.as_str());
                proof {
                    assert(text@ =~= error_description(*self, source@));
                }
            },
            Error::SyntaxError { token, .. } | Error::ParseErr { token, .. }
            | Error::TypeMismatch { declared_at: token, .. } | Error::NameNotFound { token }
            | Error::TypeRedefinition { token } | Error::TypeNotFound { token }
            | Error::FunctionNameTooLong { token } | Error::PropertyMissing { token, .. }
            | Error::PropertyDuplicated { token } => {
                let shown = get_error_line(source, token);
                push_str(&mut text, shown.as_str());
                push_str(&mut text, "\n");
                push_str(&mut text, message.as_str());
                proof {
                    assert(text@ =~= error_description(*self, source@));
                }
            },
        }
        text
    }
}

} // verus!
