use lisp::env::Env;
use lisp::error::LispErr;
use lisp::evaluation::eval;
use lisp::lispval::LispVal;
use lisp::parser::parse_expr;
use lisp::primitive_functions::{create_eden_env, load_text};

const DEPTH: usize = 200;

const LIBRARY: &str = "(define (not x) (if x #f #t))
(define (null? obj) (if (eqv? obj '()) #t #f))
(define (list . objs) objs)
(define (id obj) obj)
(define (flip func) (lambda (arg1 arg2) (func arg2 arg1)))
(define (curry func arg1) (lambda (arg) (apply func (cons arg1 (list arg)))))
(define (compose f g) (lambda (arg) (f (apply g arg))))
(define zero? (curry = 0))
(define positive? (curry < 0))
(define negative? (curry > 0))
(define (odd? num) (= (mod num 2) 1))
(define (even? num) (= (mod num 2) 0))
(define (foldr func end lst)
  (if (null? lst)
      end
      (func (car lst) (foldr func end (cdr lst)))))
(define (foldl func accum lst)
  (if (null? lst)
      accum
      (foldl func (func accum (car lst)) (cdr lst))))
(define fold foldl)
(define reduce foldr)
(define (sum . lst) (fold + 0 lst))
(define (product . lst) (fold * 1 lst))
(define (map func lst) (foldr (lambda (x y) (cons (func x) y)) '() lst))
(define (filter pred lst) (foldr (lambda (x y) (if (pred x) (cons x y) y)) '() lst))
(define (length lst) (fold (lambda (x y) (+ x 1)) 0 lst))
(define (reverse lst) (fold (flip cons) '() lst))
(define (max first . rest) (fold (lambda (old new) (if (> old new) old new)) first rest))
(define (fib n) (if (< n 2) n (+ (fib (- n 1)) (fib (- n 2)))))
(define (make-account balance)
  (lambda (amount)
    (set! balance (+ balance amount))
    balance))
'loaded";

fn session() -> Env {
    let mut env = create_eden_env();
    assert_eq!(load_text(LIBRARY, &mut env, 0, DEPTH), Ok(LispVal::Atom("loaded".to_owned())));
    env
}

fn show(env: &mut Env, text: &str) -> String {
    let (rest, e) = parse_expr(text).unwrap();
    assert_eq!(rest, "");
    match eval(&e, env, 0, DEPTH) {
        Ok(v) => v.to_string(),
        Err(e) => format!("error: {}", e.to_string()),
    }
}

#[test]
fn library_predicates() {
    let mut env = session();
    assert_eq!(show(&mut env, "(not #t)"), "false");
    assert_eq!(show(&mut env, "(not #f)"), "true");
    assert_eq!(show(&mut env, "(null? '())"), "true");
    assert_eq!(show(&mut env, "(null? '(1))"), "false");
    assert_eq!(show(&mut env, "(zero? 0)"), "true");
    assert_eq!(show(&mut env, "(zero? 3)"), "false");
    assert_eq!(show(&mut env, "(positive? 3)"), "true");
    assert_eq!(show(&mut env, "(negative? 3)"), "false");
    assert_eq!(show(&mut env, "(odd? 7)"), "true");
    assert_eq!(show(&mut env, "(even? 7)"), "false");
}

#[test]
fn library_lists() {
    let mut env = session();
    assert_eq!(show(&mut env, "(list)"), "()");
    assert_eq!(show(&mut env, "(list 1 \"two\" 'three)"), "(1 \"two\" three)");
    assert_eq!(show(&mut env, "(id 5)"), "5");
    assert_eq!(show(&mut env, "(sum 1 2 3 4)"), "10");
    assert_eq!(show(&mut env, "(sum)"), "0");
    assert_eq!(show(&mut env, "(product 1 2 3 4)"), "24");
    assert_eq!(show(&mut env, "(map (curry + 2) '(1 2 3))"), "(3 4 5)");
    assert_eq!(show(&mut env, "(filter even? '(1 2 3 4 5 6))"), "(2 4 6)");
    assert_eq!(show(&mut env, "(length '(a b c d))"), "4");
    assert_eq!(show(&mut env, "(reverse '(1 2 3))"), "(3 2 1)");
    assert_eq!(show(&mut env, "(max 3 9 2)"), "9");
    assert_eq!(show(&mut env, "(foldr cons '() '(1 2 3))"), "(1 2 3)");
    assert_eq!(show(&mut env, "(foldl (flip cons) '() '(1 2 3))"), "(3 2 1)");
    assert_eq!(show(&mut env, "((compose car list) '(7 8))"), "7");
    assert_eq!(show(&mut env, "(cdr '(a . b))"), "b");
    assert_eq!(show(&mut env, "(cdr '(a b . c))"), "(b . c)");
    assert_eq!(show(&mut env, "(cons 1 '(2 . 3))"), "(1 2 . 3)");
    assert_eq!(show(&mut env, "(cons 1 2)"), "(1 . 2)");
}

#[test]
fn library_recursion_and_state() {
    let mut env = session();
    assert_eq!(show(&mut env, "(fib 10)"), "55");
    assert_eq!(show(&mut env, "(define acc (make-account 100))"), "lambda");
    assert_eq!(show(&mut env, "(acc 50)"), "150");
    assert_eq!(show(&mut env, "(acc (- 0 20))"), "130");
    assert_eq!(show(&mut env, "(acc -20)"), "error: Variable -20 is not defined");
    assert_eq!(show(&mut env, "(define other (make-account 0))"), "lambda");
    assert_eq!(show(&mut env, "(other 1)"), "1");
    assert_eq!(show(&mut env, "(acc 0)"), "130");
    assert_eq!(show(&mut env, "balance"), "error: Variable balance is not defined");
}

#[test]
fn library_errors() {
    let mut env = session();
    assert_eq!(show(&mut env, "(max)"), "error: Incorrect argument count");
    assert_eq!(show(&mut env, "(sum 1 'a)"), "error: Unexpected type of value");
    assert_eq!(show(&mut env, "(car '())"), "error: Unexpected type of value");
    assert_eq!(show(&mut env, "(/ 1 0)"), "error: Division by zero");
    assert_eq!(show(&mut env, "(* 9223372036854775807 2)"), "error: Integer overflow");
    assert_eq!(show(&mut env, "(5 5)"), "error: Incorrect function call");
    assert_eq!(show(&mut env, "()"), "error: Invalid expression");
    assert_eq!(show(&mut env, "(load \"nowhere\")"), "error: Error reading file");
    assert_eq!(show(&mut env, "(sum 1 2)"), "3");
    let (_, deep) = parse_expr("(fib 25)").unwrap();
    assert_eq!(eval(&deep, &mut env, 0, 20), Err(LispErr::DepthExceeded));
}
