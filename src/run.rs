//! One run of a source text: lex, parse, then evaluate against a context.
use vstd::prelude::*;
use crate::ast::Stmt;
use crate::eval::{binds_after, evaluate, runs_as, same_bindings, Context, Report};
use crate::lexer::{byte_offset, lex, lex_spec, spans_view};
use crate::parser::{p_program, parse_program, program_fits, token_list, ParseError};
use crate::token::{LexError, SpannedV, TokenV};
use crate::value::Numeric;

verus! {

/// Why a source text did not become a program.
#[derive(Debug, Clone, Copy, PartialEq, Eq, Structural)]
pub enum RunError {
    Lex(LexError),
    Parse(ParseError),
}

/// A program and what running it reported.
pub struct Run<N> {
    pub program: Vec<Stmt<N>>,
    pub report: Report<N>,
}

/// The tokens of a list of spanned tokens, without their spans.
pub open spec fn tokens_of(ss: Seq<SpannedV>) -> Seq<TokenV> {
    ss.map_values(|x: SpannedV| x.token)
}

/// The statements that a text spells: `None` where it does not lex or does
/// not parse.
pub open spec fn program_of(s: Seq<char>) -> Option<Seq<crate::parser::StmtV>> {
    match lex_spec(s) {
        Ok(ss) => p_program(tokens_of(ss), 0),
        Err(_) => None,
    }
}

/// Lexes and parses `source`, then runs its statements against `ctx`. A
/// lexical or parse error comes back before any statement runs; otherwise
/// the program has the structure of the text, and the report is what running
/// it gives.
pub fn run<N: Numeric>(source: &str, ctx: &mut Context<N>) -> (r: Result<Run<N>, RunError>)
    requires
        byte_offset(source@, source@.len() as int) <= usize::MAX,
    ensures
        match r {
            Err(RunError::Lex(e)) => lex_spec(source@) == Err::<Seq<SpannedV>, LexError>(e),
            Err(RunError::Parse(_)) => lex_spec(source@) is Ok && program_of(source@) is None,
            Ok(_) => program_of(source@) is Some,
        },
        r is Err ==> final(ctx).env() == old(ctx).env() && final(ctx).bindings() == old(
            ctx,
        ).bindings(),
        r matches Ok(run) ==> program_fits(run.program@, program_of(source@).unwrap()) && runs_as(
            run.program@,
            old(ctx).env(),
            run.report,
            final(ctx).env(),
        ) && same_bindings(
            final(ctx).bindings(),
            binds_after(
                run.program@,
                run.report.values@,
                old(ctx).bindings(),
                run.report.values@.len() as int,
            ),
        ),
{
    let toks = match lex(source) {
        Ok(t) => t,
        Err(e) => return Err(RunError::Lex(e)),
    };
    assert(token_list(toks@) =~= tokens_of(spans_view(toks@)));
    let program = match parse_program(&toks) {
        Ok(p) => p,
        Err(e) => return Err(RunError::Parse(e)),
    };
    let report = evaluate(&program, ctx);
    Ok(Run { program, report })
}

} // verus!
