use vstd::prelude::*;

use crate::error::{syntax_error_text, SyntaxError};
use crate::generator::{error_lines, generated, render_program, Generator};
use crate::parser::{
    is_declaration, lemma_stmts_lower_cleanly, p_program, reads_stmts, stmts_wf, Parser,
};
use crate::scanner::{errors_model, final_tokens, run, scan_start, tokens_model, Scanner};
use crate::stmt::Stmt;
use crate::token::Token;

verus! {

/// Each diagnostic as it is shown to a user.
pub open spec fn shown(messages: Seq<String>, errors: Seq<SyntaxError>) -> bool {
    &&& messages.len() == errors.len()
    &&& forall|i: int|
        0 <= i < errors.len() ==> (#[trigger] messages[i])@ == syntax_error_text(
            errors[i].line as nat,
            errors[i].location@,
            errors[i].message@,
        )
}

fn render_syntax_errors(errors: &Vec<SyntaxError>) -> (r: Vec<String>)
    ensures
        shown(r@, errors@),
{
    let mut out: Vec<String> = Vec::new();
    let mut i: usize = 0;
    while i < errors.len()
        invariant
            i <= errors.len(),
            shown(out@, errors@.subrange(0, i as int)),
        decreases errors.len() - i,
    {
        out.push(errors[i].render());
        i = i + 1;
    }
    assert(errors@.subrange(0, errors@.len() as int) =~= errors@);
    out
}

/// The program text lowered from declarations that read back from the
/// whole token list, up to its closing `EOF`.
pub open spec fn lowered_from(text: Seq<char>, tokens: Seq<Token>) -> bool {
    exists|ss: Seq<Stmt>|
        {
            &&& #[trigger] reads_stmts(ss, tokens, 0) == Some(tokens.len() - 1)
            &&& stmts_wf(ss)
            &&& forall|i: int| 0 <= i < ss.len() ==> is_declaration(#[trigger] ss[i])
            &&& text == render_program(ss)
        }
}

/// Runs the whole front end on a source file: scanning, parsing and
/// lowering. The first stage that reports diagnostics stops the run, and its
/// diagnostics are returned as they are shown to a user; otherwise the
/// generated program text is returned. Lowering a tree that the parser built
/// reports nothing, so only scanning and parsing can stop the run.
pub fn compile(source: &str) -> (r: Result<String, Vec<String>>)
    requires
        source@.len() < isize::MAX,
    ensures
        ({
            let scanned = run(source@, scan_start());
            &&& scanned.errors.len() > 0 ==> r is Err && exists|errors: Seq<SyntaxError>|
                #[trigger] shown(r->Err_0@, errors) && errors_model(errors) == scanned.errors
            &&& r is Ok ==> scanned.errors.len() == 0 && exists|tokens: Seq<Token>|
                #[trigger] tokens_model(tokens) == final_tokens(source@, scanned) && lowered_from(
                    r->Ok_0@,
                    tokens,
                )
            &&& r is Err ==> exists|errors: Seq<SyntaxError>|
                #[trigger] shown(r->Err_0@, errors) && errors.len() > 0
            &&& scanned.errors.len() == 0 ==> exists|tokens: Seq<Token>|
                #[trigger] tokens_model(tokens) == final_tokens(source@, scanned) && (r is Ok
                    <==> p_program(tokens, 0).1.len() == 0)
        }),
{
    let mut scanner = Scanner::new(source);
    let (tokens, errors) = scanner.scan();
    if errors.len() > 0 {
        let messages = render_syntax_errors(&errors);
        let res: Result<String, Vec<String>> = Err(messages);
        assert(shown(res->Err_0@, errors@));
        assert(errors_model(errors@).len() == errors@.len());
        return res;
    }
    assert(errors_model(errors@).len() == errors@.len());
    let ghost ts = tokens@;
    let mut parser = Parser::new(tokens);
    let (statements, errors) = parser.parse();
    if errors.len() > 0 {
        let messages = render_syntax_errors(&errors);
        let res: Result<String, Vec<String>> = Err(messages);
        assert(shown(res->Err_0@, errors@));
        assert(p_program(ts, 0).1.len() > 0);
        assert(tokens_model(ts) == final_tokens(source@, run(source@, scan_start())));
        return res;
    }
    let mut generator = Generator::new();
    let (output, errors) = generator.generate(statements.as_slice());
    proof {
        lemma_stmts_lower_cleanly(statements@);
        assert(error_lines(errors@).len() == errors@.len());
        assert(errors@.len() == 0);
        assert(output@ == render_program(statements@));
        if parser.cursor() < ts.len() - 1 {
            assert(ts.drop_last()[parser.cursor()] == ts[parser.cursor()]);
        }
        assert(parser.cursor() == ts.len() - 1);
        assert(reads_stmts(statements@, ts, 0) == Some(ts.len() - 1));
        assert(lowered_from(output@, ts));
        assert(tokens_model(ts) == final_tokens(source@, run(source@, scan_start())));
        assert(p_program(ts, 0).1.len() == 0);
    }
    Ok(output)
}

} // verus!
