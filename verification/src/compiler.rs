use vstd::prelude::*;

use crate::diagnostics::Diagnostics;
use crate::emission::{Host, program_code};
use crate::errors::Error;
use crate::generator::{codegen, deterministic, host};
use crate::grammar::parse_spec;
use crate::inference::check_spec;
use crate::lexer::{Lexeme, MAX_SOURCE, lex_spec, lexeme_of, try_lex};
use crate::parser::{reports_failures, try_parse};
use crate::program::Context;
use crate::tokens::{Token, TokenKind};
use crate::typer::try_type_check;
use crate::unification::reports;

verus! {

/// The lexemes of `ts`.
pub open spec fn lexemes_of(ts: Seq<Token>) -> Seq<Lexeme> {
    ts.map_values(|t: Token| lexeme_of(t))
}

/// `ts` without its syntax errors, which lexing reports by themselves.
pub open spec fn without_syntax_errors(ts: Seq<Token>) -> Seq<Token>
    decreases ts.len(),
{
    if ts.len() == 0 {
        Seq::empty()
    } else {
        let rest = without_syntax_errors(ts.drop_last());
        if ts.last().kind is SyntaxError {
            rest
        } else {
            rest.push(ts.last())
        }
    }
}

/// Whether compiling the tokens `ts` panics or never returns: in parsing, in type checking, or,
/// with neither reporting an error, in code generation.
pub open spec fn compile_stops(ts: Seq<Token>, h: Host) -> bool {
    match parse_spec(without_syntax_errors(ts)) {
        None => true,
        Some(Err(_)) => false,
        Some(Ok(es)) => match check_spec(es, Seq::empty()) {
            None => true,
            Some((e, ms)) => e.len() == 0 && ms.len() == 0 && program_code(es, h) is None,
        },
    }
}

/// Whether the tokens `ts` compile to the bytecode `b`: they parse and type check without
/// errors, and generation gives `b`.
pub open spec fn compiles_to(ts: Seq<Token>, h: Host, b: Seq<u8>) -> bool {
    match parse_spec(without_syntax_errors(ts)) {
        Some(Ok(es)) => match check_spec(es, Seq::empty()) {
            Some((e, ms)) => e.len() == 0 && ms.len() == 0 && program_code(es, h) == Some(
                Ok::<Seq<u8>, Seq<Error>>(b),
            ),
            None => false,
        },
        _ => false,
    }
}

/// Whether compiling the tokens `ts` is refused with `errors`: those of parsing where it
/// fails, else those of type checking where it finds some, else those of generation.
pub open spec fn rejected_with(ts: Seq<Token>, h: Host, errors: Seq<Error>) -> bool {
    match parse_spec(without_syntax_errors(ts)) {
        Some(Err(fs)) => reports_failures(errors, fs),
        Some(Ok(es)) => match check_spec(es, Seq::empty()) {
            Some((e, ms)) => if e.len() + ms.len() > 0 {
                reports(errors, e, ms)
            } else {
                program_code(es, h) == Some(Err::<Seq<u8>, Seq<Error>>(errors))
            },
            None => false,
        },
        None => false,
    }
}

/// `tokens` without its syntax errors.
fn drop_syntax_errors(tokens: &Vec<Token>) -> (r: Vec<Token>)
    ensures
        r@ == without_syntax_errors(tokens@),
{
    let mut r: Vec<Token> = Vec::new();
    let mut i: usize = 0;
    proof {
        assert(tokens@.subrange(0, 0) =~= Seq::<Token>::empty());
    }
    while i < tokens.len()
        invariant
            i <= tokens@.len(),
            r@ == without_syntax_errors(tokens@.subrange(0, i as int)),
        decreases tokens.len() - i,
    {
        proof {
            assert(tokens@.subrange(0, i + 1).drop_last() =~= tokens@.subrange(0, i as int));
        }
        match tokens[i].kind {
            TokenKind::SyntaxError(_) => {},
            _ => {
                r.push(tokens[i].clone());
            },
        }
        i += 1;
    }
    proof {
        assert(tokens@.subrange(0, i as int) =~= tokens@);
    }
    r
}

/// Compiles `source`: lexes it, drops the syntax errors, parses, checks the types and
/// generates the bytecode. Gives the errors of the first stage that reports some, and `None`
/// where a stage panics or never returns.
pub fn compile<F, G, B: Fn(&str) -> u32>(
    source: &str,
    context: &Context<F, G>,
    float_bits: &B,
) -> (r: Option<Result<Vec<u8>, Diagnostics>>)
    requires
        source@.len() <= MAX_SOURCE,
        context.wf(),
        forall|s: &str| call_requires(*float_bits, (s,)),
        deterministic(*float_bits),
    ensures
        r is None ==> lex_spec(source@) is None || exists|ts: Seq<Token>|
            #[trigger] lexemes_of(ts) == lex_spec(source@).unwrap() && compile_stops(
                ts,
                host(*context, *float_bits),
            ),
        r matches Some(Ok(b)) ==> exists|ts: Seq<Token>|
            #[trigger] lexemes_of(ts) == lex_spec(source@).unwrap() && compiles_to(
                ts,
                host(*context, *float_bits),
                b@,
            ),
        r matches Some(Err(d)) ==> exists|ts: Seq<Token>|
            #[trigger] lexemes_of(ts) == lex_spec(source@).unwrap() && rejected_with(
                ts,
                host(*context, *float_bits),
                d.errors(),
            ),
{
    let ghost h = host(*context, *float_bits);
    let tokens = match try_lex(source) {
        None => {
            return None;
        },
        Some(tokens) => tokens,
    };
    let ghost ts = tokens@;
    proof {
        assert(lexemes_of(ts) == lex_spec(source@).unwrap());
    }
    let kept = drop_syntax_errors(&tokens);
    let exprs = match try_parse(kept) {
        None => {
            return None;
        },
        Some(Err(d)) => {
            return Some(Err(d));
        },
        Some(Ok(exprs)) => exprs,
    };
    let mut diagnostics = Diagnostics::new();
    if !try_type_check(&exprs, context, &mut diagnostics) {
        return None;
    }
    if diagnostics.has_errors() {
        return Some(Err(diagnostics));
    }
    codegen(&exprs, context, float_bits)
}

} // verus!
