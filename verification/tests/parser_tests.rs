use lisp::lispval::LispVal;
use lisp::parser::{
    dotted, match_symbols, parse_atom, parse_dotted_list, parse_expr, parse_list, parse_number,
    parse_quoted, parse_quoted2, parse_string, parse_vector, scan_while, CharClass, ParseError,
};
use lisp::text::to_chars;

fn atom(s: &str) -> LispVal {
    LispVal::Atom(s.to_owned())
}

#[test]
fn string_parser_test() {
    let output = parse_string("\"hello\"").unwrap();
    assert_eq!(output, ("", LispVal::LispString("hello".to_owned())));
}

#[test]
fn number_parser_test() {
    assert!(parse_number("j5").is_err());
    assert!(parse_number("jlsdf").is_err());
    assert_eq!(parse_number("23").unwrap(), ("", LispVal::Number(23)));
}

#[test]
fn atom_parser_test() {
    assert_eq!(parse_atom("$foo").unwrap(), ("", LispVal::Atom("$foo".to_owned())));
    assert_eq!(parse_atom("#f").unwrap(), ("", LispVal::Boolean(false)));
}

#[test]
fn list_parser_test() {
    assert_eq!(
        parse_list("$foo 42 53").unwrap(),
        (
            "",
            LispVal::List(vec!(
                LispVal::Atom("$foo".to_owned()),
                LispVal::Number(42),
                LispVal::Number(53)
            ))
        )
    );
    assert_eq!(
        parse_list("\"foo\" 42 53").unwrap(),
        (
            "",
            LispVal::List(vec!(
                LispVal::LispString("foo".to_owned()),
                LispVal::Number(42),
                LispVal::Number(53)
            ))
        )
    );
}

#[test]
fn quoted_parser_test() {
    let output = parse_quoted("'52").unwrap();
    assert_eq!(output, ("", LispVal::Quote(Box::new(LispVal::Number(52)))));
}

#[test]
fn quoted_parser_test2() {
    let output = parse_quoted2("'52").unwrap();
    assert_eq!(
        output,
        ("", LispVal::List(vec![LispVal::Atom("quote".to_owned()), LispVal::Number(52)]))
    );
}

#[test]
fn atom_takes_letters_digits_and_symbols() {
    assert_eq!(parse_atom("set!x2 rest").unwrap(), (" rest", atom("set!x2")));
    assert_eq!(parse_atom("-5").unwrap(), ("", atom("-5")));
    assert_eq!(parse_atom("#t").unwrap(), ("", LispVal::Boolean(true)));
    assert_eq!(parse_atom("#true").unwrap(), ("", atom("#true")));
    assert_eq!(parse_atom("a.b").unwrap(), (".b", atom("a")));
    assert_eq!(parse_atom("5a"), Err(ParseError::NoMatch));
    assert_eq!(parse_atom(""), Err(ParseError::NoMatch));
    assert_eq!(parse_atom("(a)"), Err(ParseError::NoMatch));
}

#[test]
fn match_symbols_tells_booleans_from_atoms() {
    assert_eq!(match_symbols("#t".to_owned()), LispVal::Boolean(true));
    assert_eq!(match_symbols("#f".to_owned()), LispVal::Boolean(false));
    assert_eq!(match_symbols("t".to_owned()), atom("t"));
}

#[test]
fn number_stops_at_the_first_non_digit() {
    assert_eq!(parse_number("12ab").unwrap(), ("ab", LispVal::Number(12)));
    assert_eq!(parse_number("007").unwrap(), ("", LispVal::Number(7)));
    assert_eq!(parse_number("0").unwrap(), ("", LispVal::Number(0)));
    assert_eq!(parse_number("-1"), Err(ParseError::NoMatch));
}

#[test]
fn number_at_the_edge_of_the_range() {
    assert_eq!(
        parse_number("9223372036854775807").unwrap(),
        ("", LispVal::Number(9223372036854775807))
    );
    assert_eq!(parse_number("9223372036854775808"), Err(ParseError::NumberOutOfRange));
    assert_eq!(parse_expr("(1 99999999999999999999)"), Err(ParseError::NumberOutOfRange));
    assert_eq!(parse_vector("1 99999999999999999999"), Err(ParseError::NumberOutOfRange));
}

#[test]
fn string_needs_content_and_both_quotes() {
    assert_eq!(parse_string("\"a b\" c").unwrap(), (" c", LispVal::LispString("a b".to_owned())));
    assert_eq!(parse_string("\"\""), Err(ParseError::NoMatch));
    assert_eq!(parse_string("\"open"), Err(ParseError::NoMatch));
    assert_eq!(parse_string("plain"), Err(ParseError::NoMatch));
    assert_eq!(
        parse_string("\"h\u{e9}llo\"x").unwrap(),
        ("x", LispVal::LispString("h\u{e9}llo".to_owned()))
    );
}

#[test]
fn quoted_wraps_the_next_expression() {
    assert_eq!(
        parse_quoted("'(a b) c").unwrap(),
        (" c", LispVal::Quote(Box::new(LispVal::List(vec![atom("a"), atom("b")]))))
    );
    assert_eq!(
        parse_quoted("''x").unwrap(),
        ("", LispVal::Quote(Box::new(LispVal::Quote(Box::new(atom("x"))))))
    );
    assert_eq!(parse_quoted("x"), Err(ParseError::NoMatch));
    assert_eq!(parse_quoted("'"), Err(ParseError::NoMatch));
    assert_eq!(parse_quoted2("x"), Err(ParseError::NoMatch));
}

#[test]
fn list_in_parentheses() {
    assert_eq!(parse_list("()").unwrap(), ("", LispVal::List(vec![])));
    assert_eq!(
        parse_list("(a (b 2) \"c\")tail").unwrap(),
        (
            "tail",
            LispVal::List(vec![
                atom("a"),
                LispVal::List(vec![atom("b"), LispVal::Number(2)]),
                LispVal::LispString("c".to_owned())
            ])
        )
    );
    assert_eq!(parse_list("(a b"), Err(ParseError::NoMatch));
    assert_eq!(parse_list("(a b )"), Err(ParseError::NoMatch));
    assert_eq!(parse_list("( a)"), Err(ParseError::NoMatch));
    assert_eq!(parse_list("(a . b)"), Err(ParseError::NoMatch));
}

#[test]
fn bare_list_without_parentheses() {
    assert_eq!(parse_list("").unwrap(), ("", LispVal::List(vec![])));
    assert_eq!(parse_list("a b) c").unwrap(), (") c", LispVal::List(vec![atom("a"), atom("b")])));
    assert_eq!(parse_list("a  \n b ").unwrap(), (" ", LispVal::List(vec![atom("a"), atom("b")])));
}

#[test]
fn dotted_list_has_a_tail() {
    assert_eq!(
        parse_dotted_list("(a b . c)").unwrap(),
        ("", LispVal::DottedList(vec![atom("a"), atom("b")], Box::new(atom("c"))))
    );
    assert_eq!(
        parse_dotted_list("(a.b)").unwrap(),
        ("", LispVal::DottedList(vec![atom("a")], Box::new(atom("b"))))
    );
    assert_eq!(
        parse_dotted_list("( . c)").unwrap(),
        ("", LispVal::DottedList(vec![], Box::new(atom("c"))))
    );
    assert_eq!(parse_dotted_list("(a b)"), Err(ParseError::NoMatch));
    assert_eq!(parse_dotted_list("(a . b c)"), Err(ParseError::NoMatch));
    assert_eq!(parse_dotted_list("(a .\nb)"), Err(ParseError::NoMatch));
    assert_eq!(parse_dotted_list("a . b"), Err(ParseError::NoMatch));
}

#[test]
fn dotted_reads_the_dot_and_its_blanks() {
    assert_eq!(dotted(" \t. x").unwrap(), ("x", "."));
    assert_eq!(dotted(".").unwrap(), ("", "."));
    assert_eq!(dotted(" x"), Err(ParseError::NoMatch));
    assert_eq!(dotted("\n."), Err(ParseError::NoMatch));
}

#[test]
fn expr_picks_the_first_rule_that_matches() {
    assert_eq!(parse_expr("foo").unwrap(), ("", atom("foo")));
    assert_eq!(parse_expr("42").unwrap(), ("", LispVal::Number(42)));
    assert_eq!(parse_expr("\"s\"").unwrap(), ("", LispVal::LispString("s".to_owned())));
    assert_eq!(parse_expr("'x").unwrap(), ("", LispVal::Quote(Box::new(atom("x")))));
    assert_eq!(
        parse_expr("(a . b)").unwrap(),
        ("", LispVal::DottedList(vec![atom("a")], Box::new(atom("b"))))
    );
    assert_eq!(parse_expr("(a b)\n").unwrap(), ("\n", LispVal::List(vec![atom("a"), atom("b")])));
    assert_eq!(parse_expr(" x"), Err(ParseError::NoMatch));
    assert_eq!(parse_expr(")"), Err(ParseError::NoMatch));
    assert_eq!(parse_expr(""), Err(ParseError::NoMatch));
}

#[test]
fn vector_reads_as_many_expressions_as_there_are() {
    assert_eq!(parse_vector("").unwrap(), ("", vec![]));
    assert_eq!(parse_vector(" a").unwrap(), (" a", vec![]));
    assert_eq!(
        parse_vector("a\n(b)\t 3 ;").unwrap(),
        (" ;", vec![atom("a"), LispVal::List(vec![atom("b")]), LispVal::Number(3)])
    );
    assert_eq!(parse_vector("a(b)").unwrap(), ("(b)", vec![atom("a")]));
}

#[test]
fn character_classes() {
    for c in "!#$%&|*+-/:<=>?@^_~".chars() {
        assert!(CharClass::Symbol.contains(c));
        assert!(CharClass::AtomStart.contains(c));
        assert!(CharClass::AtomRest.contains(c));
        assert!(!CharClass::Digit.contains(c));
    }
    for c in "().,;'\"`[]{}\\ \t\n".chars() {
        assert!(!CharClass::Symbol.contains(c));
        assert!(!CharClass::AtomStart.contains(c));
        assert!(!CharClass::AtomRest.contains(c));
    }
    for c in "azAZmQ".chars() {
        assert!(CharClass::AtomStart.contains(c));
        assert!(CharClass::AtomRest.contains(c));
        assert!(!CharClass::Symbol.contains(c));
    }
    for c in "0123456789".chars() {
        assert!(CharClass::Digit.contains(c));
        assert!(CharClass::AtomRest.contains(c));
        assert!(!CharClass::AtomStart.contains(c));
    }
    for c in ['\u{e9}', '\u{661}', '\u{3b1}'] {
        assert!(!CharClass::AtomStart.contains(c));
        assert!(!CharClass::AtomRest.contains(c));
        assert!(!CharClass::Digit.contains(c));
        assert!(CharClass::Text.contains(c));
    }
    assert!(CharClass::Blank.contains(' ') && CharClass::Blank.contains('\t'));
    assert!(!CharClass::Blank.contains('\n') && !CharClass::Blank.contains('\r'));
    for c in [' ', '\t', '\r', '\n'] {
        assert!(CharClass::Space.contains(c));
    }
    assert!(!CharClass::Space.contains('\u{a0}') && !CharClass::Space.contains('a'));
    assert!(!CharClass::Text.contains('"') && CharClass::Text.contains('\''));
}

#[test]
fn scan_stops_at_the_first_character_outside_the_class() {
    let chars = to_chars("ab12  \n.x");
    assert_eq!(scan_while(&chars, 0, CharClass::AtomRest), 4);
    assert_eq!(scan_while(&chars, 0, CharClass::Digit), 0);
    assert_eq!(scan_while(&chars, 2, CharClass::Digit), 4);
    assert_eq!(scan_while(&chars, 4, CharClass::Blank), 6);
    assert_eq!(scan_while(&chars, 4, CharClass::Space), 7);
    assert_eq!(scan_while(&chars, 0, CharClass::Text), 9);
    assert_eq!(scan_while(&chars, 9, CharClass::Text), 9);
}
