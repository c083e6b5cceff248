use vstd::prelude::*;
use crate::engine::str_to_chars;

verus! {

/// The expression tree of the restricted regular-expression language:
/// literal characters, the wildcard `.`, alternation `|`, the quantifiers
/// `?`, `+`, `*`, and concatenation.
#[derive(Debug, PartialEq)]
pub enum AST {
    Char(char),
    Dot,
    Or(Box<AST>, Box<AST>),
    Question(Box<AST>),
    Plus(Box<AST>),
    Star(Box<AST>),
    Sequence(Vec<AST>),
}

/// Rejections of malformed pattern text.
#[derive(Clone, Copy, Debug, PartialEq, Eq, Structural)]
pub enum ParseError {
    /// An alternation branch, a group, or the whole pattern is empty.
    Empty,
    /// A quantifier with no expression in front of it.
    NoPrev,
    /// A group is opened but never closed.
    NoRightParen,
    /// A `)` with no `(` to close.
    InvalidRightParen,
}

/// Parses a whole pattern. The empty pattern is rejected.
pub fn parse(expr: &str) -> (r: Result<AST, ParseError>)
    ensures
        expr@.len() == 0 ==> r == Err::<AST, ParseError>(ParseError::Empty),
{
    let cs = str_to_chars(expr);
    if cs.len() == 0 {
        return Err(ParseError::Empty);
    }
    match parse_expr(&cs, 0) {
        Ok((ast, p)) => {
            if p == cs.len() {
                Ok(ast)
            } else {
                Err(ParseError::InvalidRightParen)
            }
        },
        Err(e) => Err(e),
    }
}

/// An expression: one or more concatenations separated by `|`.
fn parse_expr(cs: &Vec<char>, pos: usize) -> (r: Result<(AST, usize), ParseError>)
    requires
        pos <= cs.len(),
    ensures
        r matches Ok(p) ==> pos < p.1 <= cs.len(),
    decreases cs.len() - pos, 3int,
{
    let (first, first_end) = parse_seq(cs, pos)?;
    let mut ast = first;
    let mut p = first_end;
    while p < cs.len() && cs[p] == '|'
        invariant
            pos < p <= cs.len(),
        decreases cs.len() - p,
    {
        let (rhs, p2) = parse_seq(cs, p + 1)?;
        ast = AST::Or(Box::new(ast), Box::new(rhs));
        p = p2;
    }
    Ok((ast, p))
}

/// A concatenation: one or more quantified atoms, joined into
/// `AST::Sequence` unless there is exactly one.
fn parse_seq(cs: &Vec<char>, pos: usize) -> (r: Result<(AST, usize), ParseError>)
    requires
        pos <= cs.len(),
    ensures
        r matches Ok(p) ==> pos < p.1 <= cs.len(),
    decreases cs.len() - pos, 2int,
{
    let mut items: Vec<AST> = Vec::new();
    let mut p = pos;
    while p < cs.len() && cs[p] != '|' && cs[p] != ')'
        invariant
            pos <= p <= cs.len(),
            items@.len() == 0 ==> p == pos,
            items@.len() > 0 ==> p > pos,
        decreases cs.len() - p,
    {
        let (f, p2) = parse_factor(cs, p)?;
        items.push(f);
        p = p2;
    }
    if items.len() == 0 {
        Err(ParseError::Empty)
    } else if items.len() == 1 {
        match items.pop() {
            Some(a) => Ok((a, p)),
            None => Err(ParseError::Empty),
        }
    } else {
        Ok((AST::Sequence(items), p))
    }
}

/// An atom followed by any run of postfix quantifiers.
fn parse_factor(cs: &Vec<char>, pos: usize) -> (r: Result<(AST, usize), ParseError>)
    requires
        pos < cs.len(),
    ensures
        r matches Ok(p) ==> pos < p.1 <= cs.len(),
    decreases cs.len() - pos, 1int,
{
    let (atom, atom_end) = parse_atom(cs, pos)?;
    let mut ast = atom;
    let mut p = atom_end;
    while p < cs.len() && (cs[p] == '?' || cs[p] == '*' || cs[p] == '+')
        invariant
            pos < p <= cs.len(),
        decreases cs.len() - p,
    {
        if cs[p] == '?' {
            ast = AST::Question(Box::new(ast));
        } else if cs[p] == '*' {
            ast = AST::Star(Box::new(ast));
        } else {
            ast = AST::Plus(Box::new(ast));
        }
        p = p + 1;
    }
    Ok((ast, p))
}

/// A literal character, the wildcard, or a parenthesised group.
fn parse_atom(cs: &Vec<char>, pos: usize) -> (r: Result<(AST, usize), ParseError>)
    requires
        pos < cs.len(),
    ensures
        r matches Ok(p) ==> pos < p.1 <= cs.len(),
    decreases cs.len() - pos, 0int,
{
    let c = cs[pos];
    if c == '(' {
        let (inner, p) = parse_expr(cs, pos + 1)?;
        if p < cs.len() && cs[p] == ')' {
            Ok((inner, p + 1))
        } else {
            Err(ParseError::NoRightParen)
        }
    } else if c == '?' || c == '*' || c == '+' {
        Err(ParseError::NoPrev)
    } else if c == ')' || c == '|' {
        Err(ParseError::InvalidRightParen)
    } else if c == '.' {
        Ok((AST::Dot, pos + 1))
    } else {
        Ok((AST::Char(c), pos + 1))
    }
}

} // verus!
