use lisp::lispval::LispVal;
use lisp::parser::{parse_expr, parse_vector};
use nom::branch::alt;
use nom::bytes::complete::{is_a, is_not};
use nom::character::complete::{alpha1, alphanumeric1, char, digit1, multispace1, space0};
use nom::multi::{many0, many1, separated_list0};
use nom::sequence::{delimited, separated_pair};
use nom::IResult;

fn o_string(input: &str) -> IResult<&str, LispVal> {
    delimited(char('"'), is_not("\""), char('"'))(input)
        .map(|(i, o)| (i, LispVal::LispString(String::from(o))))
}

fn o_number(input: &str) -> IResult<&str, LispVal> {
    many1(digit1)(input).map(|(i, o)| (i, LispVal::Number(o.join("").parse::<i64>().unwrap())))
}

fn o_match_symbols(input: String) -> LispVal {
    match input.as_str() {
        "#t" => LispVal::Boolean(true),
        "#f" => LispVal::Boolean(false),
        _ => LispVal::Atom(input),
    }
}

fn o_symbol(s: &str) -> IResult<&str, &str> {
    is_a("!#$%&|*+-/:<=>?@^_~")(s)
}

fn o_atom(input: &str) -> IResult<&str, LispVal> {
    let (input, first) = alt((alpha1, o_symbol))(input)?;
    let (input, rest) = many0(alt((alphanumeric1, o_symbol)))(input)?;
    Ok((input, o_match_symbols(format!("{}{}", String::from(first), rest.join("")))))
}

fn o_vector(input: &str) -> IResult<&str, Vec<LispVal>> {
    separated_list0(multispace1, o_expr)(input)
}

fn o_quoted(input: &str) -> IResult<&str, LispVal> {
    let (input, _) = char('\'')(input)?;
    o_expr(input).map(|(i, l)| (i, LispVal::Quote(Box::new(l))))
}

fn o_expr(input: &str) -> IResult<&str, LispVal> {
    alt((o_atom, o_number, o_string, o_quoted, o_dotted_list, o_list))(input)
}

fn o_dotted(input: &str) -> IResult<&str, &str> {
    let (input, _) = space0(input)?;
    let (input, _) = char('.')(input)?;
    let (input, _) = space0(input)?;
    Ok((input, "."))
}

fn o_dotted_list(input: &str) -> IResult<&str, LispVal> {
    let (input, _) = char('(')(input)?;
    let (input, (head, rest)) = separated_pair(o_vector, o_dotted, o_expr)(input)?;
    let (input, _) = char(')')(input)?;
    Ok((input, LispVal::DottedList(head, Box::new(rest))))
}

fn o_list(input: &str) -> IResult<&str, LispVal> {
    let (input, _) = char('(')(input)?;
    let (input, items) = o_vector(input)?;
    let (input, _) = char(')')(input)?;
    Ok((input, LispVal::List(items)))
}

fn same_expr(text: &str) {
    let ours = parse_expr(text).ok();
    let theirs = o_expr(text).ok();
    assert_eq!(ours, theirs, "expression read from {:?}", text);
}

fn same_vector(text: &str) {
    let ours = parse_vector(text).ok();
    let theirs = o_vector(text).ok();
    assert_eq!(ours, theirs, "sequence read from {:?}", text);
}

#[test]
fn reader_agrees_with_combinators_on_programs() {
    let corpus = [
        "(define (square x) (* x x))",
        "(define (list . objs) objs)",
        "(define (compose f g) (lambda (arg) (f (apply g arg))))",
        "(if (> 3 2) \"yes\" 'no)",
        "(car (cons 1 (cons 2 (cons 3 '()))))",
        "(a b . c)",
        "(a b .c)",
        "(a b. c)",
        "(a b  \t .  \t c)",
        "(a b . c d)",
        "(a b . )",
        "( . c)",
        "(. c)",
        "(a\nb\r\n\tc)",
        "(a b )",
        "( a b)",
        "(a b",
        "a b)",
        "'(1 2 3)",
        "''a",
        "'",
        "\"unterminated",
        "\"\"",
        "\"a\"\"b\"",
        "12ab",
        "ab12",
        "-12",
        "+",
        "#t",
        "#f",
        "#tt",
        "#",
        "x.y",
        "(x.y)",
        "(1.5)",
        "((a) (b (c (d))) e)",
        "(a(b)c)",
        "(\"s\"1)",
        "",
        " ",
        "\n(a)",
        "(a) (b)\n(c)\n",
        "h\u{e9}llo",
        "\"\u{4e16}\u{754c}\" x",
        "(\u{e9})",
    ];
    for text in corpus {
        same_expr(text);
        same_vector(text);
    }
}

fn all_texts(alphabet: &[char], longest: usize) -> Vec<String> {
    let mut texts: Vec<String> = vec![String::new()];
    let mut from = 0;
    for _ in 0..longest {
        let upto = texts.len();
        for i in from..upto {
            for c in alphabet {
                let mut longer = texts[i].clone();
                longer.push(*c);
                texts.push(longer);
            }
        }
        from = upto;
    }
    texts
}

#[test]
fn reader_agrees_with_combinators_on_all_short_texts() {
    let alphabet = ['a', 'Z', '1', '(', ')', ' ', '\t', '\n', '.', '\'', '"', '#', 't'];
    let texts = all_texts(&alphabet, 5);
    assert_eq!(texts.len(), 1 + 13 + 169 + 2197 + 28561 + 371293);
    for text in &texts {
        same_expr(text);
        same_vector(text);
    }
}

#[test]
fn reader_agrees_with_combinators_on_all_texts_of_lists() {
    let alphabet = ['a', '1', '(', ')', ' ', '.', '\''];
    let texts = all_texts(&alphabet, 7);
    assert_eq!(texts.len(), 1 + 7 + 49 + 343 + 2401 + 16807 + 117649 + 823543);
    for text in &texts {
        same_expr(text);
        same_vector(text);
    }
}
