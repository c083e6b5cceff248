use regex_engine::engine::do_matching;
use regex_engine::engine::print;
use regex_engine::helper::safe_add;
use regex_engine::helper::SafeAdd;

#[test]
fn test_safe_add() {
    let n: usize = 10;
    assert_eq!(Some(30), n.safe_add(&20));

    let n: usize = !0; // 2^64 - 1 (64 bits CPU)
    assert_eq!(None, n.safe_add(&1));

    let mut n: usize = 10;
    assert!(safe_add(&mut n, &20, || ()).is_ok());

    let mut n: usize = !0;
    assert!(safe_add(&mut n, &1, || ()).is_err());
}

#[test]
fn test_matching() {
    // parse errors
    assert!(do_matching("+b", "bbb", true).is_err());
    assert!(do_matching("*b", "bbb", true).is_err());
    assert!(do_matching("|b", "bbb", true).is_err());
    assert!(do_matching("?b", "bbb", true).is_err());

    // parses, and matches
    assert!(do_matching("abc|def", "def", true).unwrap());
    assert!(do_matching("(abc)*", "abcabc", true).unwrap());
    assert!(do_matching("(ab|cd)+", "abcdcd", true).unwrap());
    assert!(do_matching("abc?", "ab", true).unwrap());

    // parses, and does not match
    assert!(!do_matching("abc|def", "efa", true).unwrap());
    assert!(!do_matching("(ab|cd)+", "", true).unwrap());
    assert!(!do_matching("abc?", "acb", true).unwrap());

    // the ? quantifier: any character, zero or one time
    assert!(do_matching(".?.", "abc", true).unwrap());
    assert!(do_matching(".?.", "ac", true).unwrap());

    // the * quantifier: any character, zero or more times
    assert!(do_matching("a.*b", "acb", true).unwrap());
    assert!(do_matching("a.*b", "ab", true).unwrap());

    // the + quantifier: any character, one or more times
    assert!(do_matching("a.+b", "acb", true).unwrap());
    assert!(!do_matching("a.+b", "ab", true).unwrap());

    // ? and * together
    assert!(do_matching(".?.*a", "ba", true).unwrap());
    assert!(do_matching(".?.*a", "a", true).unwrap());

    // ? and + together
    assert!(do_matching(".?.+a", "ba", true).unwrap());
    assert!(!do_matching(".?.+a", "a", true).unwrap());

    // * and + together
    assert!(do_matching("a.*.+b", "acccb", true).unwrap());
    assert!(do_matching("a.*.+b", "accb", true).unwrap());
    assert!(!do_matching("a.*.+b", "ab", true).unwrap());

    // ?, * and + together
    assert!(do_matching("a?.*.+b", "acb", true).unwrap());
    assert!(do_matching("a?.*.+b", "accb", true).unwrap());
    assert!(!do_matching("a?.*.+b", "b", true).unwrap());
}

#[test]
fn test_print() {
    assert!(print("abc").is_ok());
    assert!(print("abc|def").is_ok());
    assert!(print("(abc)*").is_ok());
    assert!(print("(ab|cd)+").is_ok());
    assert!(print("abc?").is_ok());
    assert!(print("e.s.*").is_ok());
}
