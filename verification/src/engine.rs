pub mod codegen;
pub mod evaluator;
pub mod parser;

use std::io::Write;
use vstd::prelude::*;
use crate::engine::codegen::CodeGenError;
use crate::engine::evaluator::EvalError;
use crate::engine::parser::ParseError;

verus! {

/// Relies on str::chars, which yields exactly the characters of the string
/// in order.
#[verifier::external_body]
pub(crate) fn str_to_chars(s: &str) -> (v: Vec<char>)
    ensures
        v@ == s@,
{
    s.chars().collect()
}

/// One unit of the compiled bytecode. Addresses are absolute indices into
/// the program.
#[derive(Clone, Copy, Debug, PartialEq, Eq, Structural)]
pub enum Instruction {
    /// Consume one input character iff it equals the payload.
    Char(char),
    /// Consume one input character unconditionally iff input remains.
    Dot,
    /// The whole expression has matched.
    Match,
    /// Unconditional control transfer.
    Jump(usize),
    /// Try the first target first; on failure retry from the second target
    /// at the same input position.
    Split(usize, usize),
}

/// A program is well formed when it is non-empty, every jump or split
/// target is a valid address, and the final instruction is `Match`.
pub open spec fn well_formed(code: Seq<Instruction>) -> bool {
    &&& code.len() >= 1
    &&& code[code.len() - 1] == Instruction::Match
    &&& forall|i: int|
        0 <= i < code.len() ==> (match #[trigger] code[i] {
            Instruction::Jump(t) => t < code.len(),
            Instruction::Split(a, b) => a < code.len() && b < code.len(),
            _ => true,
        })
}


/// What any stage of matching can report: a parse rejection, a code
/// generation failure, or an evaluation failure.
#[derive(Clone, Copy, Debug, PartialEq, Eq, Structural)]
pub enum RegexError {
    Parse(ParseError),
    CodeGen(CodeGenError),
    Eval(EvalError),
}

/// Parses `expr`, compiles it, and runs the program on `line`, anchored at
/// the line's first character. `is_depth` picks the call-stack strategy,
/// otherwise the explicit-stack strategy runs. A code generation failure
/// can only be address-space overflow, and the malformed-bytecode error
/// never escapes: generated programs are well formed.
pub fn do_matching(expr: &str, line: &str, is_depth: bool) -> (r: Result<bool, RegexError>)
    ensures
        match r {
            Ok(_) => true,
            Err(RegexError::Parse(_)) => true,
            Err(RegexError::CodeGen(e)) => e == CodeGenError::PCOverFlow,
            Err(RegexError::Eval(e)) => e == EvalError::StackExhausted,
        },
{
    let ast = match parser::parse(expr) {
        Ok(ast) => ast,
        Err(e) => {
            return Err(RegexError::Parse(e));
        },
    };
    let code = match codegen::get_code(&ast) {
        Ok(code) => code,
        Err(e) => {
            return Err(RegexError::CodeGen(*e));
        },
    };
    let chars = str_to_chars(line);
    match evaluator::eval(&code, &chars, is_depth) {
        Ok(b) => Ok(b),
        Err(e) => Err(RegexError::Eval(e)),
    }
}

/// Compiles `expr` and prints the pattern and its bytecode, one
/// instruction per line: a diagnostic dump with no semantic role.
pub fn print(expr: &str) -> (r: Result<(), RegexError>)
    ensures
        match r {
            Ok(_) => true,
            Err(RegexError::Parse(_)) => true,
            Err(RegexError::CodeGen(e)) => e == CodeGenError::PCOverFlow,
            Err(RegexError::Eval(_)) => false,
        },
{
    let ast = match parser::parse(expr) {
        Ok(ast) => ast,
        Err(e) => {
            return Err(RegexError::Parse(e));
        },
    };
    let code = match codegen::get_code(&ast) {
        Ok(code) => code,
        Err(e) => {
            return Err(RegexError::CodeGen(*e));
        },
    };
    emit_line(expr);
    let mut i: usize = 0;
    while i < code.len()
        decreases code.len() - i,
    {
        let line = inst_text(i, &code[i]);
        emit_line(line.as_str());
        i = i + 1;
    }
    Ok(())
}

/// The printed form of one instruction at address `n`, as the dump shows
/// it.
pub fn inst_text(n: usize, inst: &Instruction) -> (s: String) {
    chars_to_string(&inst_line(n, inst))
}

fn inst_line(n: usize, inst: &Instruction) -> (line: Vec<char>) {
    let mut out: Vec<char> = Vec::new();
    push_usize(&mut out, n);
    push_str_chars(&mut out, ": ");
    match inst {
        Instruction::Char(c) => {
            push_str_chars(&mut out, "char ");
            out.push(*c);
        },
        Instruction::Dot => {
            push_str_chars(&mut out, "dot");
        },
        Instruction::Match => {
            push_str_chars(&mut out, "match");
        },
        Instruction::Jump(t) => {
            push_str_chars(&mut out, "jump ");
            push_usize(&mut out, *t);
        },
        Instruction::Split(a, b) => {
            push_str_chars(&mut out, "split ");
            push_usize(&mut out, *a);
            push_str_chars(&mut out, ", ");
            push_usize(&mut out, *b);
        },
    }
    out
}

/// Appends the characters of `s`.
fn push_str_chars(out: &mut Vec<char>, s: &str)
    ensures
        final(out)@ == old(out)@ + s@,
{
    let mut cs = str_to_chars(s);
    out.append(&mut cs);
}

/// Appends the decimal digits of `n`.
fn push_usize(out: &mut Vec<char>, n: usize) {
    if n == 0 {
        out.push('0');
        return;
    }
    let mut rev: Vec<char> = Vec::new();
    let mut m = n;
    while m > 0
        decreases m,
    {
        let d = (48 + (m % 10) as u8) as char;
        rev.push(d);
        m = m / 10;
    }
    let mut i = rev.len();
    while i > 0
        invariant
            i <= rev.len(),
        decreases i,
    {
        i = i - 1;
        out.push(rev[i]);
    }
}

/// Relies on String's FromIterator over chars: collecting the characters
/// yields exactly that string.
#[verifier::external_body]
fn chars_to_string(v: &Vec<char>) -> (s: String)
    ensures
        s@ == v@,
{
    v.iter().collect()
}

/// Relies on std::io::stdout and writeln to print one line of text.
#[verifier::external_body]
fn emit_line(s: &str) {
    let mut out = std::io::stdout();
    let _ = writeln!(out, "{}", s);
}

} // verus!
