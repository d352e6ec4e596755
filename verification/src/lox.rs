//! The pipeline from text to output, and the wording of diagnostics.

use vstd::prelude::*;
use crate::environment::Chain;
use crate::error::{ParseError, RuntimeError, ScanError};
use crate::expr::Value;
use crate::grammar::{program_at, terminated};
use crate::interpreter::Interpreter;
use crate::semantics::{runs, total};
use crate::number::{Number, Operation};
use crate::parser::Parser;
use crate::scanner::{all_agree, errors_from, lexemes_from, Scanner};
use crate::stmt::{trees, Stmt, Tree};
use crate::token::Token;

verus! {

/// The character of a decimal digit.
pub open spec fn digit_char(d: nat) -> char {
    if d == 0 {
        '0'
    } else if d == 1 {
        '1'
    } else if d == 2 {
        '2'
    } else if d == 3 {
        '3'
    } else if d == 4 {
        '4'
    } else if d == 5 {
        '5'
    } else if d == 6 {
        '6'
    } else if d == 7 {
        '7'
    } else if d == 8 {
        '8'
    } else {
        '9'
    }
}

/// A natural number in decimal, without leading zeros.
pub open spec fn decimal(n: nat) -> Seq<char>
    decreases n,
{
    if n < 10 {
        seq![digit_char(n)]
    } else {
        decimal(n / 10).push(digit_char(n % 10))
    }
}

/// The line that reports a failure: `[line N] Error`, the location, a colon
/// and the message.
pub open spec fn report_text(line: nat, location: Seq<char>, message: Seq<char>) -> Seq<char> {
    "[line "@ + decimal(line) + "] Error"@ + location + ": "@ + message
}

fn digit_text(d: usize) -> (r: &'static str)
    requires
        d < 10,
    ensures
        r@ == seq![digit_char(d as nat)],
{
    proof {
        reveal_strlit("0");
        reveal_strlit("1");
        reveal_strlit("2");
        reveal_strlit("3");
        reveal_strlit("4");
        reveal_strlit("5");
        reveal_strlit("6");
        reveal_strlit("7");
        reveal_strlit("8");
        reveal_strlit("9");
    }
    let r = if d == 0 {
        "0"
    } else if d == 1 {
        "1"
    } else if d == 2 {
        "2"
    } else if d == 3 {
        "3"
    } else if d == 4 {
        "4"
    } else if d == 5 {
        "5"
    } else if d == 6 {
        "6"
    } else if d == 7 {
        "7"
    } else if d == 8 {
        "8"
    } else {
        "9"
    };
    proof {
        assert(r@ =~= seq![digit_char(d as nat)]);
    }
    r
}

/// Writes a number in decimal.
pub fn decimal_text(n: usize) -> (r: String)
    ensures
        r@ == decimal(n as nat),
    decreases n,
{
    if n < 10 {
        digit_text(n).to_owned()
    } else {
        let mut s = decimal_text(n / 10);
        s.append(digit_text(n % 10));
        s
    }
}

/// The line that reports a failure with no location.
pub fn error(line: usize, message: String) -> (r: String)
    ensures
        r@ == report_text(line as nat, Seq::empty(), message@),
{
    let r = report(line, "".to_owned(), message);
    proof {
        reveal_strlit("");
    }
    r
}

/// The line that reports a failure.
pub fn report(line: usize, location: String, message: String) -> (r: String)
    ensures
        r@ == report_text(line as nat, location@, message@),
{
    let mut s: String = "[line ".to_owned();
    s.append(decimal_text(line).as_str());
    s.append("] Error");
    s.append(location.as_str());
    s.append(": ");
    s.append(message.as_str());
    s
}

/// Why a run ended early.
#[derive(Debug, PartialEq)]
pub enum LoxError {
    /// The text does not parse. Nothing of it was run.
    Parse(ParseError),
    /// A statement failed. The statements before it were run.
    Runtime(RuntimeError),
}

/// What a run did: the failures of the scan, the values printed, and how
/// the run ended.
#[derive(Debug, PartialEq)]
pub struct Report {
    pub scan_errors: Vec<ScanError>,
    pub printed: Vec<Value>,
    pub result: Result<(), LoxError>,
}

/// How a run ends that got as far as running the statements.
pub open spec fn finished(outcome: Result<(), RuntimeError>) -> Result<(), LoxError> {
    match outcome {
        Ok(_) => Ok(()),
        Err(e) => Err(LoxError::Runtime(e)),
    }
}

/// The statements are the program with the trees `all`.
pub open spec fn program_of(stmts: Seq<Stmt>, all: Seq<Tree>) -> bool {
    trees(stmts) == all
}

/// `report` is what parsing `tokens` and running the program may give, from
/// the chain `before` to the chain `after`. A text that does not parse is
/// not run at all.
pub open spec fn parsed_and_ran<F: Fn(Operation, Number, Number) -> Number>(
    unit: F,
    tokens: Seq<Token>,
    before: Chain,
    after: Chain,
    report: Report,
) -> bool {
    match program_at(tokens, 0, Seq::empty()) {
        Err(failure) => {
            &&& after == before
            &&& report.printed@ == Seq::<Value>::empty()
            &&& report.result matches Err(LoxError::Parse(e)) && e@ == failure
        },
        Ok(all) => exists|stmts: Seq<Stmt>, outcome: Result<(), RuntimeError>|
            #[trigger] program_of(stmts, all) && runs(
                unit,
                before,
                Seq::empty(),
                stmts,
                0,
                after,
                report.printed@,
                outcome,
            ) && report.result == #[trigger] finished(outcome),
    }
}

/// `report` is what scanning, parsing and running `source` may give. The
/// failures of the scan do not stop the run: the tokens that were found are
/// parsed.
pub open spec fn ran<D: Fn(&str) -> Number, F: Fn(Operation, Number, Number) -> Number>(
    decode: D,
    unit: F,
    source: Seq<char>,
    before: Chain,
    after: Chain,
    report: Report,
) -> bool {
    &&& report.scan_errors@ == errors_from(source, 0)
    &&& exists|tokens: Seq<Token>| #[trigger]
        all_agree(source, decode, tokens, lexemes_from(source, 0)) && parsed_and_ran(
            unit,
            tokens,
            before,
            after,
            report,
        )
}

/// A session: the interpreter whose variables live on from one run to the
/// next.
pub struct Lox {
    interpreter: Interpreter,
}

impl Lox {
    /// The chain of scopes of the session.
    pub closed spec fn scopes(self) -> Chain {
        self.interpreter.scopes()
    }

    /// Between runs nothing printed is held back.
    pub closed spec fn wf(self) -> bool {
        self.interpreter.printed() == Seq::<Value>::empty()
    }

    /// A session with one empty scope.
    pub fn new() -> (r: Lox)
        ensures
            r.wf(),
            r.scopes() == seq![Map::<Seq<char>, Value>::empty()],
    {
        Lox { interpreter: Interpreter::new() }
    }

    /// Scans, parses and runs one text in the session.
    pub fn run<D: Fn(&str) -> Number, F: Fn(Operation, Number, Number) -> Number>(
        &mut self,
        source: String,
        decode: &D,
        unit: &F,
    ) -> (r: Report)
        requires
            old(self).wf(),
            source@.len() < usize::MAX,
            forall|text: &str| #[trigger] decode.requires((text,)),
            total(*unit),
        ensures
            final(self).wf(),
            ran(*decode, *unit, source@, old(self).scopes(), final(self).scopes(), r),
    {
        let mut scanner = Scanner::new(source);
        let tokens = scanner.scan_tokens(decode);
        let scan_errors = scanner.take_errors();
        self.run_tokens(tokens, scan_errors, unit)
    }

    /// Parses and runs the tokens of one text in the session.
    fn run_tokens<F: Fn(Operation, Number, Number) -> Number>(
        &mut self,
        tokens: Vec<Token>,
        scan_errors: Vec<ScanError>,
        unit: &F,
    ) -> (r: Report)
        requires
            old(self).wf(),
            terminated(tokens@),
            total(*unit),
        ensures
            final(self).wf(),
            r.scan_errors == scan_errors,
            parsed_and_ran(*unit, tokens@, old(self).scopes(), final(self).scopes(), r),
    {
        let ghost scanned = tokens@;
        let mut parser = Parser::new(tokens);
        match parser.parse() {
            Err(e) => Report { scan_errors, printed: Vec::new(), result: Err(LoxError::Parse(e)) },
            Ok(stmts) => {
                let outcome = self.interpreter.interpret(&stmts, unit);
                let printed = self.interpreter.take_output();
                let result = match outcome {
                    Ok(_) => Ok(()),
                    Err(e) => Err(LoxError::Runtime(e)),
                };
                proof {
                    assert(program_of(stmts@, program_at(scanned, 0, Seq::empty())->Ok_0));
                    assert(result == finished(outcome));
                }
                Report { scan_errors, printed, result }
            },
        }
    }
}

} // verus!
