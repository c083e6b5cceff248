use regex_engine::engine::codegen::get_code;
use regex_engine::engine::codegen::CodeGenError;
use regex_engine::engine::do_matching;
use regex_engine::engine::evaluator::eval;
use regex_engine::engine::evaluator::EvalError;
use regex_engine::engine::parser::parse;
use regex_engine::engine::parser::ParseError;
use regex_engine::engine::parser::AST;
use regex_engine::engine::inst_text;
use regex_engine::engine::Instruction;
use regex_engine::engine::RegexError;

fn assert_well_formed(code: &[Instruction]) {
    assert!(!code.is_empty());
    assert_eq!(*code.last().unwrap(), Instruction::Match);
    for inst in code {
        match inst {
            Instruction::Jump(t) => assert!(*t < code.len()),
            Instruction::Split(a, b) => {
                assert!(*a < code.len());
                assert!(*b < code.len());
            }
            _ => {}
        }
    }
}

#[test]
fn compiled_programs_are_well_formed() {
    for pat in ["abc", "abc|def", "(abc)*", "(ab|cd)+", "abc?", "a.*.+b", "a?.*.+b", "e.s.*"] {
        let ast = parse(pat).unwrap();
        let code = get_code(&ast).unwrap();
        assert_well_formed(&code);
    }
}

#[test]
fn compile_emits_exact_code() {
    // abc? compiles to: char a; char b; split 3, 4; char c; match
    let ast = parse("abc?").unwrap();
    let code = get_code(&ast).unwrap();
    assert_eq!(
        code,
        vec![
            Instruction::Char('a'),
            Instruction::Char('b'),
            Instruction::Split(3, 4),
            Instruction::Char('c'),
            Instruction::Match,
        ]
    );

    // a|b compiles to: split 1, 3; char a; jump 4; char b; match
    let ast = parse("a|b").unwrap();
    let code = get_code(&ast).unwrap();
    assert_eq!(
        code,
        vec![
            Instruction::Split(1, 3),
            Instruction::Char('a'),
            Instruction::Jump(4),
            Instruction::Char('b'),
            Instruction::Match,
        ]
    );

    // a* compiles to: split 1, 3; char a; jump 0; match
    let ast = parse("a*").unwrap();
    let code = get_code(&ast).unwrap();
    assert_eq!(
        code,
        vec![
            Instruction::Split(1, 3),
            Instruction::Char('a'),
            Instruction::Jump(0),
            Instruction::Match,
        ]
    );

    // a+ compiles to: char a; split 0, 2; match
    let ast = parse("a+").unwrap();
    let code = get_code(&ast).unwrap();
    assert_eq!(
        code,
        vec![Instruction::Char('a'), Instruction::Split(0, 2), Instruction::Match]
    );
}

#[test]
fn strategies_agree() {
    let cases = [
        ("abc|def", "def"),
        ("abc|def", "efa"),
        ("(abc)*", "abcabc"),
        ("(ab|cd)+", "abcdcd"),
        ("(ab|cd)+", ""),
        ("abc?", "ab"),
        ("abc?", "acb"),
        ("a.*b", "acb"),
        ("a.+b", "ab"),
        ("a.*.+b", "acccb"),
        ("a?.*.+b", "b"),
        (".?.*a", "a"),
    ];
    for (pat, text) in cases {
        let depth = do_matching(pat, text, true).unwrap();
        let width = do_matching(pat, text, false).unwrap();
        assert_eq!(depth, width);
    }
}

#[test]
fn greedy_quantifiers_prefer_consuming() {
    assert!(do_matching("a.*b", "acccb", true).unwrap());
    assert!(do_matching("a.*b", "acccb", false).unwrap());
    assert!(!do_matching("a.*.+b", "ab", true).unwrap());
    assert!(!do_matching("a.*.+b", "ab", false).unwrap());
}

#[test]
fn alternation_matches_either_branch() {
    assert!(do_matching("abc|def", "def", true).unwrap());
    assert!(do_matching("abc|def", "abc", true).unwrap());
    assert!(!do_matching("abc|def", "efa", true).unwrap());
    assert!(!do_matching("abc|def", "efa", false).unwrap());
}

#[test]
fn matching_is_anchored() {
    // the engine never skips leading characters; sliding is the driver's job
    assert!(!do_matching("bc", "abc", true).unwrap());
    assert!(!do_matching("bc", "abc", false).unwrap());
    assert!(do_matching("bc", "bca", true).unwrap());
    assert!(!do_matching("abc?", "acb", true).unwrap());
}

#[test]
fn generated_code_never_faults_the_evaluator() {
    for pat in ["abc", "abc|def", "(abc)*", "(ab|cd)+", "abc?", "a.*.+b"] {
        for text in ["", "a", "abc", "abcabc", "xyz"] {
            let ast = parse(pat).unwrap();
            let code = get_code(&ast).unwrap();
            let chars: Vec<char> = text.chars().collect();
            for is_depth in [true, false] {
                let r = eval(&code, &chars, is_depth);
                assert!(!matches!(r, Err(EvalError::InvalidPC)));
            }
        }
    }
}

#[test]
fn malformed_bytecode_is_reported() {
    // a hand-made program whose jump leaves the program
    let code = vec![Instruction::Jump(5)];
    let chars: Vec<char> = "abc".chars().collect();
    assert_eq!(eval(&code, &chars, true), Err(EvalError::InvalidPC));
    assert_eq!(eval(&code, &chars, false), Err(EvalError::InvalidPC));
}

#[test]
fn parse_error_kinds() {
    assert!(matches!(parse(""), Err(ParseError::Empty)));
    assert!(matches!(parse("|b"), Err(ParseError::Empty)));
    assert!(matches!(parse("+b"), Err(ParseError::NoPrev)));
    assert!(matches!(parse("*b"), Err(ParseError::NoPrev)));
    assert!(matches!(parse("?b"), Err(ParseError::NoPrev)));
    assert!(matches!(parse("(ab"), Err(ParseError::NoRightParen)));
    assert!(matches!(parse("ab)"), Err(ParseError::InvalidRightParen)));
}

#[test]
fn deep_recursion_is_a_recoverable_error() {
    // the call-stack strategy reports exhaustion instead of crashing
    let long = "a".repeat(5000);
    let r = do_matching(".*b", &long, true);
    assert_eq!(r, Err(RegexError::Eval(EvalError::StackExhausted)));

    // the explicit-stack strategy handles the same input
    let mut with_end = long.clone();
    with_end.push('b');
    assert!(do_matching(".*b", &with_end, false).unwrap());
    assert!(!do_matching(".*b", &long, false).unwrap());
}

#[test]
fn overflow_error_kind_exists() {
    // the one compile failure is address-space overflow; on any tree that
    // fits, compilation succeeds
    let ast = parse("(ab|cd)+").unwrap();
    assert!(!matches!(
        get_code(&ast),
        Err(e) if *e != CodeGenError::PCOverFlow
    ));
    assert!(get_code(&ast).is_ok());
}

#[test]
fn ast_shape_of_parsed_patterns() {
    assert_eq!(parse("a").unwrap(), AST::Char('a'));
    assert_eq!(parse(".").unwrap(), AST::Dot);
    assert_eq!(
        parse("ab").unwrap(),
        AST::Sequence(vec![AST::Char('a'), AST::Char('b')])
    );
    assert_eq!(
        parse("a|b").unwrap(),
        AST::Or(Box::new(AST::Char('a')), Box::new(AST::Char('b')))
    );
    assert_eq!(parse("a?").unwrap(), AST::Question(Box::new(AST::Char('a'))));
    assert_eq!(parse("a+").unwrap(), AST::Plus(Box::new(AST::Char('a'))));
    assert_eq!(parse("(a)*").unwrap(), AST::Star(Box::new(AST::Char('a'))));
}

#[test]
fn instruction_text_is_exact() {
    assert_eq!(inst_text(0, &Instruction::Char('a')), "0: char a");
    assert_eq!(inst_text(7, &Instruction::Dot), "7: dot");
    assert_eq!(inst_text(12, &Instruction::Match), "12: match");
    assert_eq!(inst_text(3, &Instruction::Jump(0)), "3: jump 0");
    assert_eq!(inst_text(205, &Instruction::Split(4, 17)), "205: split 4, 17");
}
