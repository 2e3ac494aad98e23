use lisp::error::LispErr;
use lisp::lispval::{clone_all, clone_from, clone_name, clone_names, same_value, LispVal, Primitive};
use lisp::text::{i64_to_string, is_word, parse_i64, read_digits, str_lt, to_chars};

fn atom(s: &str) -> LispVal {
    LispVal::Atom(s.to_owned())
}

fn text(s: &str) -> LispVal {
    LispVal::LispString(s.to_owned())
}

#[test]
fn num_coerces_numbers_and_numeric_texts() {
    assert_eq!(LispVal::Number(-3).num(), Ok(-3));
    assert_eq!(text("42").num(), Ok(42));
    assert_eq!(text("-42").num(), Ok(-42));
    assert_eq!(text("+7").num(), Ok(7));
    assert_eq!(text("007").num(), Ok(7));
    assert_eq!(text("9223372036854775807").num(), Ok(i64::MAX));
    assert_eq!(text("-9223372036854775808").num(), Ok(i64::MIN));
    assert_eq!(text("9223372036854775808").num(), Err(LispErr::TypeMismatch));
    assert_eq!(text("-9223372036854775809").num(), Err(LispErr::TypeMismatch));
    assert_eq!(text("").num(), Err(LispErr::TypeMismatch));
    assert_eq!(text("-").num(), Err(LispErr::TypeMismatch));
    assert_eq!(text("+-1").num(), Err(LispErr::TypeMismatch));
    assert_eq!(text(" 1").num(), Err(LispErr::TypeMismatch));
    assert_eq!(text("1 ").num(), Err(LispErr::TypeMismatch));
    assert_eq!(text("1x").num(), Err(LispErr::TypeMismatch));
    assert_eq!(text("\u{661}").num(), Err(LispErr::TypeMismatch));
    assert_eq!(LispVal::Boolean(true).num(), Err(LispErr::TypeMismatch));
    assert_eq!(atom("1").num(), Err(LispErr::TypeMismatch));
    assert_eq!(LispVal::List(vec![]).num(), Err(LispErr::TypeMismatch));
}

#[test]
fn bool_coerces_booleans_numbers_and_the_two_words() {
    assert_eq!(LispVal::Boolean(true).bool(), Ok(true));
    assert_eq!(LispVal::Boolean(false).bool(), Ok(false));
    assert_eq!(LispVal::Number(0).bool(), Ok(false));
    assert_eq!(LispVal::Number(-1).bool(), Ok(true));
    assert_eq!(text("true").bool(), Ok(true));
    assert_eq!(text("false").bool(), Ok(false));
    assert_eq!(text("True").bool(), Err(LispErr::TypeMismatch));
    assert_eq!(text("1").bool(), Err(LispErr::TypeMismatch));
    assert_eq!(atom("true").bool(), Err(LispErr::TypeMismatch));
    assert_eq!(LispVal::PrimitiveFunc(Primitive::Car).bool(), Err(LispErr::TypeMismatch));
}

#[test]
fn str_coerces_texts_and_numbers() {
    assert_eq!(text("abc").str(), Ok("abc".to_owned()));
    assert_eq!(LispVal::Number(-15).str(), Ok("-15".to_owned()));
    assert_eq!(LispVal::Boolean(true).str(), Err(LispErr::TypeMismatch));
    assert_eq!(atom("abc").str(), Err(LispErr::TypeMismatch));
}

#[test]
fn values_render_to_their_canonical_text() {
    assert_eq!(atom("foo").to_string(), "foo");
    assert_eq!(LispVal::Number(0).to_string(), "0");
    assert_eq!(LispVal::Number(-120).to_string(), "-120");
    assert_eq!(LispVal::Number(i64::MIN).to_string(), "-9223372036854775808");
    assert_eq!(LispVal::Number(i64::MAX).to_string(), "9223372036854775807");
    assert_eq!(text("hi there").to_string(), "\"hi there\"");
    assert_eq!(text("").to_string(), "\"\"");
    assert_eq!(LispVal::Boolean(true).to_string(), "true");
    assert_eq!(LispVal::Boolean(false).to_string(), "false");
    assert_eq!(LispVal::List(vec![]).to_string(), "()");
    assert_eq!(LispVal::List(vec![atom("a")]).to_string(), "(a)");
    assert_eq!(
        LispVal::List(vec![atom("a"), LispVal::Number(1), LispVal::List(vec![text("s"), atom("b")])])
            .to_string(),
        "(a 1 (\"s\" b))"
    );
    assert_eq!(
        LispVal::DottedList(vec![atom("a"), atom("b")], Box::new(atom("c"))).to_string(),
        "(a b . c)"
    );
    assert_eq!(LispVal::DottedList(vec![], Box::new(atom("c"))).to_string(), "( . c)");
    assert_eq!(LispVal::Quote(Box::new(LispVal::List(vec![atom("x")]))).to_string(), "quote (x)");
    assert_eq!(
        LispVal::Func { args: vec!["x".to_owned()], vararg: None, body: vec![atom("x")], closure: 0 }
            .to_string(),
        "lambda"
    );
    assert_eq!(LispVal::PrimitiveFunc(Primitive::Add).to_string(), "primitiveFunc");
}

#[test]
fn equality_is_structural() {
    let a = LispVal::List(vec![atom("a"), LispVal::Number(1)]);
    assert_eq!(a, a.clone());
    assert!(same_value(&a, &a.clone()));
    assert_ne!(a, LispVal::List(vec![atom("a")]));
    assert_ne!(a, LispVal::List(vec![atom("a"), LispVal::Number(2)]));
    assert_ne!(atom("a"), text("a"));
    assert_ne!(LispVal::Number(1), text("1"));
    assert_ne!(LispVal::Number(1), LispVal::Boolean(true));
    let d = LispVal::DottedList(vec![atom("a")], Box::new(atom("b")));
    assert_eq!(d, d.clone());
    assert_ne!(d, LispVal::DottedList(vec![atom("a")], Box::new(atom("c"))));
    assert_ne!(d, LispVal::DottedList(vec![atom("b")], Box::new(atom("b"))));
    assert_ne!(LispVal::Quote(Box::new(atom("a"))), atom("a"));
    assert_eq!(LispVal::Quote(Box::new(atom("a"))), LispVal::Quote(Box::new(atom("a"))));
    let f = LispVal::Func {
        args: vec!["x".to_owned()],
        vararg: Some("r".to_owned()),
        body: vec![atom("x")],
        closure: 1,
    };
    assert_eq!(f, f.clone());
    assert_ne!(
        f,
        LispVal::Func { args: vec!["x".to_owned()], vararg: None, body: vec![atom("x")], closure: 1 }
    );
    assert_ne!(
        f,
        LispVal::Func {
            args: vec!["x".to_owned()],
            vararg: Some("r".to_owned()),
            body: vec![atom("x")],
            closure: 2
        }
    );
    assert_ne!(
        f,
        LispVal::Func {
            args: vec!["y".to_owned()],
            vararg: Some("r".to_owned()),
            body: vec![atom("x")],
            closure: 1
        }
    );
    assert_eq!(LispVal::PrimitiveFunc(Primitive::Car), LispVal::PrimitiveFunc(Primitive::Car));
    assert_ne!(LispVal::PrimitiveFunc(Primitive::Car), LispVal::PrimitiveFunc(Primitive::Cdr));
}

#[test]
fn copies_keep_every_element() {
    let v = vec![atom("a"), LispVal::Number(1), text("s")];
    assert_eq!(clone_all(&v), v);
    assert_eq!(clone_from(&v, 1), vec![LispVal::Number(1), text("s")]);
    assert_eq!(clone_from(&v, 3), vec![]);
    let names = vec!["a".to_owned(), "b".to_owned()];
    assert_eq!(clone_names(&names), names);
    assert_eq!(clone_name(&Some("r".to_owned())), Some("r".to_owned()));
    assert_eq!(clone_name(&None), None);
}

#[test]
fn errors_have_messages() {
    assert_eq!(LispErr::UnboundVariable("x".to_owned()).to_string(), "Variable x is not defined");
    assert_eq!(LispErr::ArityMismatch.to_string(), "Incorrect argument count");
    assert_eq!(LispErr::TypeMismatch.to_string(), "Unexpected type of value");
    assert_eq!(LispErr::UnrecognizedForm.to_string(), "Invalid expression");
    assert_eq!(LispErr::NotCallable.to_string(), "Incorrect function call");
    assert_eq!(LispErr::EmptyBody.to_string(), "Function has no body");
    assert_eq!(LispErr::Overflow.to_string(), "Integer overflow");
    assert_eq!(LispErr::DivisionByZero.to_string(), "Division by zero");
    assert_eq!(LispErr::LoadFailure.to_string(), "Error reading file");
    assert_eq!(LispErr::DepthExceeded.to_string(), "Evaluation is nested too deeply");
    assert_eq!(LispErr::UnboundVariable("x".to_owned()), LispErr::UnboundVariable("x".to_owned()).clone());
    assert_ne!(LispErr::UnboundVariable("x".to_owned()), LispErr::UnboundVariable("y".to_owned()));
    assert_ne!(LispErr::Overflow, LispErr::DivisionByZero);
}

#[test]
fn decimal_numerals() {
    assert_eq!(i64_to_string(0), "0");
    assert_eq!(i64_to_string(9), "9");
    assert_eq!(i64_to_string(10), "10");
    assert_eq!(i64_to_string(-1), "-1");
    assert_eq!(i64_to_string(1234567890), "1234567890");
    assert_eq!(i64_to_string(i64::MIN), i64::MIN.to_string());
    assert_eq!(parse_i64("1234567890"), Some(1234567890));
    assert_eq!(parse_i64("-0"), Some(0));
    assert_eq!(parse_i64("+"), None);
    for n in [-1000_i64, -11, -10, -9, -1, 0, 1, 9, 10, 11, 99, 100, 101, 65535, i64::MAX, i64::MIN] {
        assert_eq!(parse_i64(&i64_to_string(n)), Some(n));
        assert_eq!(i64_to_string(n), n.to_string());
    }
}

#[test]
fn digits_are_read_between_two_positions() {
    let chars = to_chars("ab123cd");
    assert_eq!(chars, vec!['a', 'b', '1', '2', '3', 'c', 'd']);
    assert_eq!(read_digits(&chars, 2, 5, false), Some(123));
    assert_eq!(read_digits(&chars, 2, 5, true), Some(-123));
    assert_eq!(read_digits(&chars, 2, 2, false), Some(0));
    assert_eq!(read_digits(&chars, 1, 5, false), None);
    assert_eq!(read_digits(&chars, 2, 6, false), None);
    let big = to_chars("9223372036854775808");
    assert_eq!(read_digits(&big, 0, big.len(), false), None);
    assert_eq!(read_digits(&big, 0, big.len(), true), Some(i64::MIN));
}

#[test]
fn words_and_characters() {
    assert!(is_word(&"define".to_owned(), "define"));
    assert!(!is_word(&"define".to_owned(), "defin"));
    assert!(!is_word(&"".to_owned(), "x"));
    assert_eq!(to_chars(""), vec![]);
    assert_eq!(to_chars("h\u{e9}\u{4e16}"), vec!['h', '\u{e9}', '\u{4e16}']);
}

#[test]
fn strings_are_ordered_by_their_bytes() {
    assert!(str_lt("a", "b"));
    assert!(!str_lt("b", "a"));
    assert!(!str_lt("a", "a"));
    assert!(str_lt("", "a"));
    assert!(!str_lt("a", ""));
    assert!(!str_lt("", ""));
    assert!(str_lt("ab", "abc"));
    assert!(!str_lt("abc", "ab"));
    assert!(str_lt("Z", "a"));
    assert!(str_lt("abd", "abe"));
    assert!(str_lt("z", "\u{e9}"));
    assert!(str_lt("\u{e9}", "\u{4e16}"));
    for (a, b) in [("apple", "apricot"), ("x", "x"), ("10", "9"), ("\u{7f}", "\u{80}"), ("b", "a")] {
        assert_eq!(str_lt(a, b), a < b);
    }
}
