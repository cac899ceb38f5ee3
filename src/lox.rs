use vstd::prelude::*;
use crate::token::{token_views, Token, TokenType};
use crate::scanner::{lex_message, scanned_tokens, spec_scan, LexError, Scanner};
use crate::parser::{lemma_scanned_is_parsable, parse, parse_message, spec_expression, tree_of};
use crate::ast_printer::{append_nat, append_str, nat_text, print_text, AstPrinter};
use crate::interpreter::{eval, runtime_message, shown, Interpreter, RuntimeError};

verus! {

/// `[line <n>] Error<where>: <message>`.
pub open spec fn report_text(line: nat, whr: Seq<char>, message: Seq<char>) -> Seq<char> {
    "[line "@ + nat_text(line) + "] Error"@ + whr + ": "@ + message
}

/// Where a token-attributed error stands: ` at end` for the end marker,
/// ` at '<lexeme>'` otherwise.
pub open spec fn where_text(token: Token) -> Seq<char> {
    if token.token_type == TokenType::Eof {
        " at end"@
    } else {
        " at '"@ + token.lexeme@ + "'"@
    }
}

/// What one run of the front end produced: the error reports, in order;
/// and, when the input had no lexical or syntax error, the printed tree and
/// the outcome of evaluating it.
pub struct RunOutput {
    pub diagnostics: Vec<String>,
    pub printed: Option<String>,
    pub value: Option<Result<String, RuntimeError>>,
}

/// What a run on `source` yields, with `ts` the scanned tokens, `was` the
/// error flag before and `now` the flag after.
pub open spec fn run_result(was: bool, source: Seq<char>, ts: Seq<Token>, r: RunOutput, now: bool) -> bool {
    let errs = spec_scan(source, 0, 1).1;
    let tree = tree_of(spec_expression(ts, 0));
    &&& now == (was || errs.len() > 0 || tree is Err)
    &&& r.diagnostics@.len() == errs.len() + (if tree is Err { 1int } else { 0int })
    &&& forall|i: int| 0 <= i < errs.len() ==> #[trigger] r.diagnostics@[i]@
        == report_text(errs[i].line as nat, Seq::empty(), lex_message(errs[i].kind))
    &&& (now ==> r.printed is None && r.value is None)
    &&& match tree {
        Err(x) => r.diagnostics@.last()@
            == report_text(x.token.line as nat, where_text(x.token), parse_message(x.kind)),
        Ok(e) => !now ==> match (r.printed, r.value) {
            (Some(p), Some(v)) => p@ == print_text(e) && shown(v, eval(e)),
            _ => false,
        },
    }
}

/// The text of a report.
fn report_line(line: usize, whr: &str, message: &str) -> (r: String)
    ensures
        r@ == report_text(line as nat, whr@, message@),
{
    let mut s = String::new();
    append_str(&mut s, "[line ");
    append_nat(&mut s, line as u64);
    append_str(&mut s, "] Error");
    append_str(&mut s, whr);
    append_str(&mut s, ": ");
    append_str(&mut s, message);
    proof {
        assert(s@ =~= report_text(line as nat, whr@, message@));
    }
    s
}

/// The report of an error at `token`.
fn token_report(token: &Token, message: &str) -> (r: String)
    ensures
        r@ == report_text(token.line as nat, where_text(*token), message@),
{
    if token.token_type == TokenType::Eof {
        report_line(token.line, " at end", message)
    } else {
        let mut w = String::new();
        append_str(&mut w, " at '");
        append_str(&mut w, token.lexeme.as_str());
        append_str(&mut w, "'");
        proof {
            assert(w@ =~= where_text(*token));
        }
        report_line(token.line, w.as_str(), message)
    }
}

/// The report of a runtime error, at its operator token.
pub fn runtime_report(e: &RuntimeError) -> (r: String)
    ensures
        r@ == report_text(e.token.line as nat, where_text(e.token), runtime_message(e.kind)),
{
    token_report(&e.token, e.kind.message())
}

/// Front-end session state: whether a lexical or syntax error was reported.
pub struct Lox {
    had_error: bool,
}

impl Lox {
    pub fn new() -> (r: Lox)
        ensures
            !r.had_error(),
    {
        Lox { had_error: false }
    }

    pub closed spec fn had_error_spec(&self) -> bool {
        self.had_error
    }

    #[verifier::when_used_as_spec(had_error_spec)]
    pub fn had_error(&self) -> (r: bool)
        ensures
            r == self.had_error_spec(),
    {
        self.had_error
    }

    /// Forgets earlier errors, as an interactive session does after each line.
    pub fn reset(&mut self)
        ensures
            !final(self).had_error(),
    {
        self.had_error = false;
    }

    /// Reports an error at a line; the result is the report's text.
    pub fn error(&mut self, line: usize, message: &str) -> (r: String)
        ensures
            final(self).had_error(),
            r@ == report_text(line as nat, Seq::empty(), message@),
    {
        let r = self.report(line, "", message);
        proof {
            assert(""@ =~= Seq::<char>::empty()) by {
                reveal_strlit("");
            }
        }
        r
    }

    /// Reports an error at a token; the result is the report's text.
    pub fn error_token(&mut self, token: &Token, message: &str) -> (r: String)
        ensures
            final(self).had_error(),
            r@ == report_text(token.line as nat, where_text(*token), message@),
    {
        self.had_error = true;
        token_report(token, message)
    }

    fn report(&mut self, line: usize, whr: &str, message: &str) -> (r: String)
        ensures
            final(self).had_error(),
            r@ == report_text(line as nat, whr@, message@),
    {
        self.had_error = true;
        report_line(line, whr, message)
    }

    /// Scans and parses `source`, reporting every lexical error and the first
    /// syntax error; when this session has no error, prints the tree and
    /// evaluates it.
    pub fn run(&mut self, source: &str) -> (r: RunOutput)
        requires
            source@.len() < usize::MAX,
        ensures
            exists|ts: Seq<Token>| #[trigger] scanned_tokens(ts)
                && token_views(ts) == spec_scan(source@, 0, 1).0
                && run_result(old(self).had_error(), source@, ts, r, final(self).had_error()),
    {
        let mut scanner = Scanner::new(source);
        let tokens = scanner.scan_tokens();
        let errors: Vec<LexError> = scanner.into_errors();
        let ghost ts = tokens@;
        let ghost errs = spec_scan(source@, 0, 1).1;
        let mut diagnostics: Vec<String> = Vec::new();
        let mut i: usize = 0;
        while i < errors.len()
            invariant
                i <= errors@.len(),
                errors@ == errs,
                diagnostics@.len() == i,
                self.had_error() == (old(self).had_error() || i > 0),
                forall|j: int| 0 <= j < i ==> #[trigger] diagnostics@[j]@
                    == report_text(errs[j].line as nat, Seq::empty(), lex_message(errs[j].kind)),
            decreases errors@.len() - i,
        {
            let e = errors[i];
            let d = self.error(e.line, e.kind.message());
            diagnostics.push(d);
            i = i + 1;
        }
        proof {
            lemma_scanned_is_parsable(ts);
        }
        let r = match parse(tokens) {
            Err(x) => {
                let d = self.error_token(&x.token, x.kind.message());
                diagnostics.push(d);
                RunOutput { diagnostics, printed: None, value: None }
            },
            Ok(e) => {
                if self.had_error {
                    RunOutput { diagnostics, printed: None, value: None }
                } else {
                    let printed = AstPrinter.print(&e);
                    let value = Interpreter.interpret(&e);
                    RunOutput { diagnostics, printed: Some(printed), value: Some(value) }
                }
            },
        };
        assert(scanned_tokens(ts) && token_views(ts) == spec_scan(source@, 0, 1).0
            && run_result(old(self).had_error(), source@, ts, r, self.had_error()));
        r
    }
}

} // verus!
