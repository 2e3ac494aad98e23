//! The reader: from text to expressions.
//!
//! The grammar is an ordered choice, tried at a position of the text: an atom,
//! a number, a string, a quoted expression, an improper list, a list. Each
//! spec function below says what one rule reads at a position and where it
//! stops; the executable functions are proved to read exactly that.

use vstd::prelude::*;
use crate::lispval::{view_all, LispVal, Value};
use crate::text::{digits_value, is_digit, is_word, read_digits, to_chars};

verus! {

/// Why a rule did not read an expression.
#[derive(Clone, Copy, Debug, PartialEq, Eq, Structural)]
pub enum ParseError {
    /// The text at this position is not what the rule reads. In a choice the
    /// next rule is tried.
    NoMatch,
    /// A number literal that does not fit in 64 signed bits. No other rule is
    /// tried: the whole reading fails.
    NumberOutOfRange,
}

/// The sets of characters that the grammar tells apart.
#[derive(Clone, Copy, Debug, PartialEq, Eq, Structural)]
pub enum CharClass {
    /// The characters that an atom may hold besides letters and digits.
    Symbol,
    /// A letter or a symbol character: how an atom starts.
    AtomStart,
    /// A letter, a digit or a symbol character: how an atom goes on.
    AtomRest,
    /// A decimal digit.
    Digit,
    /// A space or a tab.
    Blank,
    /// A space, a tab, a carriage return or a line feed.
    Space,
    /// Anything but a double quote.
    Text,
}

/// An ASCII letter.
pub open spec fn is_letter(c: char) -> bool {
    ('a' <= c && c <= 'z') || ('A' <= c && c <= 'Z')
}

/// One of `! # $ % & | * + - / : < = > ? @ ^ _ ~`.
pub open spec fn is_symbol_char(c: char) -> bool {
    c == '!' || c == '#' || c == '$' || c == '%' || c == '&' || c == '|' || c == '*' || c == '+'
        || c == '-' || c == '/' || c == ':' || c == '<' || c == '=' || c == '>' || c == '?' || c
        == '@' || c == '^' || c == '_' || c == '~'
}

impl CharClass {
    /// Whether `c` belongs to the class.
    pub open spec fn holds(self, c: char) -> bool {
        match self {
            CharClass::Symbol => is_symbol_char(c),
            CharClass::AtomStart => is_letter(c) || is_symbol_char(c),
            CharClass::AtomRest => is_letter(c) || is_digit(c) || is_symbol_char(c),
            CharClass::Digit => is_digit(c),
            CharClass::Blank => c == ' ' || c == '\t',
            CharClass::Space => c == ' ' || c == '\t' || c == '\r' || c == '\n',
            CharClass::Text => c != '"',
        }
    }

    /// Whether `c` belongs to the class.
    pub fn contains(self, c: char) -> (b: bool)
        ensures
            b == self.holds(c),
    {
        let letter = (c >= 'a' && c <= 'z') || (c >= 'A' && c <= 'Z');
        let digit = c >= '0' && c <= '9';
        let symbol = c == '!' || c == '#' || c == '$' || c == '%' || c == '&' || c == '|' || c
            == '*' || c == '+' || c == '-' || c == '/' || c == ':' || c == '<' || c == '=' || c
            == '>' || c == '?' || c == '@' || c == '^' || c == '_' || c == '~';
        match self {
            CharClass::Symbol => symbol,
            CharClass::AtomStart => letter || symbol,
            CharClass::AtomRest => letter || digit || symbol,
            CharClass::Digit => digit,
            CharClass::Blank => c == ' ' || c == '\t',
            CharClass::Space => c == ' ' || c == '\t' || c == '\r' || c == '\n',
            CharClass::Text => c != '"',
        }
    }
}

/// Where the longest run of characters of `class` that starts at `pos` ends.
pub open spec fn scan(s: Seq<char>, pos: nat, class: CharClass) -> nat
    decreases s.len() - pos,
{
    if pos < s.len() && class.holds(s[pos as int]) {
        scan(s, pos + 1, class)
    } else {
        pos
    }
}

/// What a rule read: the expression, and the position after it.
pub type Reading = Result<(Value, nat), ParseError>;

/// What a rule for a sequence read: the expressions, and the position after
/// them.
pub type Readings = Result<(Seq<Value>, nat), ParseError>;

/// The ordered choice of two rules: the second is tried where the first finds
/// no match.
pub open spec fn or_else(first: Reading, second: Reading) -> Reading {
    if first == Err::<(Value, nat), ParseError>(ParseError::NoMatch) {
        second
    } else {
        first
    }
}

/// What an identifier stands for: `#t` and `#f` are the booleans, anything
/// else is an atom.
pub open spec fn symbol_value(text: Seq<char>) -> Value {
    if text == "#t"@ {
        Value::Boolean(true)
    } else if text == "#f"@ {
        Value::Boolean(false)
    } else {
        Value::Atom(text)
    }
}

/// An atom: a letter or symbol character, then letters, digits and symbol
/// characters as far as they go.
pub open spec fn atom_at(s: Seq<char>, pos: nat) -> Reading {
    if pos < s.len() && CharClass::AtomStart.holds(s[pos as int]) {
        let end = scan(s, pos + 1, CharClass::AtomRest);
        Ok((symbol_value(s.subrange(pos as int, end as int)), end))
    } else {
        Err(ParseError::NoMatch)
    }
}

/// A number: decimal digits as far as they go.
pub open spec fn number_at(s: Seq<char>, pos: nat) -> Reading {
    if pos < s.len() && is_digit(s[pos as int]) {
        let end = scan(s, pos, CharClass::Digit);
        let value = digits_value(s.subrange(pos as int, end as int));
        if value <= i64::MAX {
            Ok((Value::Number(value), end))
        } else {
            Err(ParseError::NumberOutOfRange)
        }
    } else {
        Err(ParseError::NoMatch)
    }
}

/// A string: a double quote, one or more characters that are none, a double
/// quote.
pub open spec fn string_at(s: Seq<char>, pos: nat) -> Reading {
    if pos < s.len() && s[pos as int] == '"' {
        let end = scan(s, pos + 1, CharClass::Text);
        if pos + 1 < end && end < s.len() {
            Ok((Value::LispString(s.subrange(pos as int + 1, end as int)), end + 1))
        } else {
            Err(ParseError::NoMatch)
        }
    } else {
        Err(ParseError::NoMatch)
    }
}

/// A dot between blanks: optional blanks, a dot, optional blanks. The result
/// is the position after them.
pub open spec fn dot_at(s: Seq<char>, pos: nat) -> Option<nat> {
    let dot = scan(s, pos, CharClass::Blank);
    if dot < s.len() && s[dot as int] == '.' {
        Some(scan(s, dot + 1, CharClass::Blank))
    } else {
        None
    }
}

/// A closing parenthesis stands at `pos`.
pub open spec fn closes(s: Seq<char>, pos: nat) -> bool {
    pos < s.len() && s[pos as int] == ')'
}

/// An expression: the first of atom, number, string, quoted expression,
/// improper list and list that matches at `pos`.
pub open spec fn expr_at(s: Seq<char>, pos: nat) -> Reading
    decreases s.len() - pos, 2nat,
{
    or_else(
        atom_at(s, pos),
        or_else(
            number_at(s, pos),
            or_else(
                string_at(s, pos),
                or_else(quoted_at(s, pos), or_else(dotted_list_at(s, pos), list_at(s, pos))),
            ),
        ),
    )
}

/// A quoted expression: an apostrophe, then an expression.
pub open spec fn quoted_at(s: Seq<char>, pos: nat) -> Reading
    decreases s.len() - pos, 1nat,
{
    if pos < s.len() && s[pos as int] == '\'' {
        match expr_at(s, pos + 1) {
            Ok((v, end)) => Ok((Value::Quote(Box::new(v)), end)),
            Err(e) => Err(e),
        }
    } else {
        Err(ParseError::NoMatch)
    }
}

/// An improper list: an opening parenthesis, a sequence of expressions, a dot
/// between blanks, one expression, a closing parenthesis.
pub open spec fn dotted_list_at(s: Seq<char>, pos: nat) -> Reading
    decreases s.len() - pos, 1nat,
{
    if pos < s.len() && s[pos as int] == '(' {
        match items_at(s, pos + 1) {
            Ok((items, end)) => match dot_at(s, end) {
                Some(after) => if pos < after && after <= s.len() {
                    match expr_at(s, after) {
                        Ok((tail, last)) => if closes(s, last) {
                            Ok((Value::DottedList(items, Box::new(tail)), last + 1))
                        } else {
                            Err(ParseError::NoMatch)
                        },
                        Err(e) => Err(e),
                    }
                } else {
                    Err(ParseError::NoMatch)
                },
                None => Err(ParseError::NoMatch),
            },
            Err(e) => Err(e),
        }
    } else {
        Err(ParseError::NoMatch)
    }
}

/// A list: an opening parenthesis, a sequence of expressions, a closing
/// parenthesis.
pub open spec fn list_at(s: Seq<char>, pos: nat) -> Reading
    decreases s.len() - pos, 1nat,
{
    if pos < s.len() && s[pos as int] == '(' {
        match items_at(s, pos + 1) {
            Ok((items, end)) => if closes(s, end) {
                Ok((Value::List(items), end + 1))
            } else {
                Err(ParseError::NoMatch)
            },
            Err(e) => Err(e),
        }
    } else {
        Err(ParseError::NoMatch)
    }
}

/// A sequence of expressions with white space between neighbours: as many as
/// there are, none included. White space that no expression follows is not
/// read.
pub open spec fn items_at(s: Seq<char>, pos: nat) -> Readings
    decreases s.len() - pos, 3nat,
{
    match expr_at(s, pos) {
        Ok((v, end)) => if pos < end && end <= s.len() {
            more_items(s, end, seq![v])
        } else {
            Ok((seq![v], end))
        },
        Err(ParseError::NoMatch) => Ok((Seq::empty(), pos)),
        Err(e) => Err(e),
    }
}

/// The rest of a sequence of which `acc` was read up to `end`.
pub open spec fn more_items(s: Seq<char>, end: nat, acc: Seq<Value>) -> Readings
    decreases s.len() - end, 0nat,
{
    let next = scan(s, end, CharClass::Space);
    if end < next && next <= s.len() {
        match expr_at(s, next) {
            Ok((v, after)) => if next < after && after <= s.len() {
                more_items(s, after, acc.push(v))
            } else {
                Ok((acc, end))
            },
            Err(ParseError::NoMatch) => Ok((acc, end)),
            Err(e) => Err(e),
        }
    } else {
        Ok((acc, end))
    }
}

/// A quoted expression read as the list of the atom `quote` and the
/// expression.
pub open spec fn quoted_list_at(s: Seq<char>, pos: nat) -> Reading {
    if pos < s.len() && s[pos as int] == '\'' {
        match expr_at(s, pos + 1) {
            Ok((v, end)) => Ok((Value::List(seq![Value::Atom("quote"@), v]), end)),
            Err(e) => Err(e),
        }
    } else {
        Err(ParseError::NoMatch)
    }
}

/// A list in parentheses where the text opens with a parenthesis; otherwise
/// the sequence of expressions that the text starts with, as a list.
pub open spec fn list_or_bare_at(s: Seq<char>) -> Reading {
    if 0 < s.len() && s[0] == '(' {
        list_at(s, 0)
    } else {
        match items_at(s, 0) {
            Ok((items, end)) => Ok((Value::List(items), end)),
            Err(e) => Err(e),
        }
    }
}

/// An executable reading is the reading that the grammar defines.
pub open spec fn agrees(r: Result<(LispVal, usize), ParseError>, m: Reading) -> bool {
    match m {
        Ok((v, end)) => r is Ok && r->Ok_0.0@ == v && r->Ok_0.1 == end,
        Err(e) => r is Err && r->Err_0 == e,
    }
}

/// An executable reading of a sequence is the one that the grammar defines.
pub open spec fn agree_all(r: Result<(Vec<LispVal>, usize), ParseError>, m: Readings) -> bool {
    match m {
        Ok((vs, end)) => r is Ok && view_all(r->Ok_0.0@) == vs && r->Ok_0.1 == end,
        Err(e) => r is Err && r->Err_0 == e,
    }
}

/// What a public reading function returns for a reading of the whole text
/// `s`: the text left over and the expression.
pub open spec fn delivers(
    r: Result<(&str, LispVal), ParseError>,
    s: Seq<char>,
    m: Reading,
) -> bool {
    match m {
        Ok((v, end)) => r is Ok && r->Ok_0.1@ == v && r->Ok_0.0@ == s.subrange(
            end as int,
            s.len() as int,
        ),
        Err(e) => r is Err && r->Err_0 == e,
    }
}

/// A run never ends before it starts nor after the text.
pub proof fn lemma_scan_bounds(s: Seq<char>, pos: nat, class: CharClass)
    requires
        pos <= s.len(),
    ensures
        pos <= scan(s, pos, class) <= s.len(),
    decreases s.len() - pos,
{
    if pos < s.len() && class.holds(s[pos as int]) {
        lemma_scan_bounds(s, pos + 1, class);
    }
}

/// Every character of a run belongs to the class.
pub proof fn lemma_scan_holds(s: Seq<char>, pos: nat, class: CharClass, i: int)
    requires
        pos <= i < scan(s, pos, class),
    ensures
        i < s.len(),
        class.holds(s[i]),
    decreases s.len() - pos,
{
    if pos < s.len() && class.holds(s[pos as int]) {
        if i > pos {
            lemma_scan_holds(s, pos + 1, class, i);
        }
    }
}

/// Where the run of characters of `class` that starts at `pos` ends.
pub fn scan_while(chars: &Vec<char>, pos: usize, class: CharClass) -> (end: usize)
    requires
        pos <= chars.len(),
    ensures
        end == scan(chars@, pos as nat, class),
        pos <= end <= chars.len(),
{
    let mut i: usize = pos;
    while i < chars.len() && class.contains(chars[i])
        invariant
            pos <= i <= chars.len(),
            scan(chars@, pos as nat, class) == scan(chars@, i as nat, class),
        decreases chars.len() - i,
    {
        i += 1;
    }
    i
}

/// What an identifier stands for: a boolean for `#t` and `#f`, else an atom.
pub fn match_symbols(input: String) -> (v: LispVal)
    ensures
        v@ == symbol_value(input@),
{
    if is_word(&input, "#t") {
        LispVal::Boolean(true)
    } else if is_word(&input, "#f") {
        LispVal::Boolean(false)
    } else {
        LispVal::Atom(input)
    }
}

/// A text that is being read: the text, its characters one by one, and
/// whether all of them are ASCII, in which case a piece of the text is found
/// without walking through it.
struct Source<'a> {
    text: &'a str,
    chars: Vec<char>,
    ascii: bool,
}

impl<'a> Source<'a> {
    /// The characters are those of the text, and the text is ASCII where it
    /// is said to be.
    spec fn wf(&self) -> bool {
        &&& self.chars@ == self.text@
        &&& self.ascii ==> self.text.is_ascii()
    }

    /// The text `text`, ready to be read.
    fn new(text: &'a str) -> (src: Self)
        ensures
            src.wf(),
            src.text == text,
            src.chars@ == text@,
    {
        Source { text, chars: to_chars(text), ascii: text.is_ascii() }
    }

    /// The number of characters.
    fn len(&self) -> (n: usize)
        requires
            self.wf(),
        ensures
            n == self.chars@.len(),
    {
        self.chars.len()
    }

    /// The text between two positions.
    fn slice(&self, from: usize, to: usize) -> (piece: &'a str)
        requires
            self.wf(),
            from <= to <= self.chars@.len(),
        ensures
            piece@ == self.chars@.subrange(from as int, to as int),
    {
        if self.ascii {
            self.text.substring_ascii(from, to)
        } else {
            self.text.substring_char(from, to)
        }
    }

    /// The text from a position to the end.
    fn rest(&self, from: usize) -> (piece: &'a str)
        requires
            self.wf(),
            from <= self.chars@.len(),
        ensures
            piece@ == self.chars@.subrange(from as int, self.chars@.len() as int),
    {
        self.slice(from, self.chars.len())
    }
}

/// Reads an atom at `pos`.
fn atom_from(src: &Source, pos: usize) -> (r: Result<(LispVal, usize), ParseError>)
    requires
        src.wf(),
        pos <= src.chars.len(),
    ensures
        agrees(r, atom_at(src.chars@, pos as nat)),
        r is Ok ==> pos < r->Ok_0.1 <= src.chars.len(),
{
    if pos < src.len() && CharClass::AtomStart.contains(src.chars[pos]) {
        let end = scan_while(&src.chars, pos + 1, CharClass::AtomRest);
        let text = String::from_str(src.slice(pos, end));
        Ok((match_symbols(text), end))
    } else {
        Err(ParseError::NoMatch)
    }
}

/// Reads a number at `pos`.
fn number_from(chars: &Vec<char>, pos: usize) -> (r: Result<(LispVal, usize), ParseError>)
    requires
        pos <= chars.len(),
    ensures
        agrees(r, number_at(chars@, pos as nat)),
        r is Ok ==> pos < r->Ok_0.1 <= chars.len(),
{
    if pos < chars.len() && CharClass::Digit.contains(chars[pos]) {
        let end = scan_while(chars, pos, CharClass::Digit);
        proof {
            lemma_scan_bounds(chars@, (pos + 1) as nat, CharClass::Digit);
            let body = chars@.subrange(pos as int, end as int);
            assert forall|i: int| 0 <= i < body.len() implies is_digit(#[trigger] body[i]) by {
                lemma_scan_holds(chars@, pos as nat, CharClass::Digit, pos + i);
            }
            crate::text::lemma_digits_prefix(body, 0);
        }
        match read_digits(chars, pos, end, false) {
            Some(n) => Ok((LispVal::Number(n), end)),
            None => Err(ParseError::NumberOutOfRange),
        }
    } else {
        Err(ParseError::NoMatch)
    }
}

/// Reads a string at `pos`.
fn string_from(src: &Source, pos: usize) -> (r: Result<(LispVal, usize), ParseError>)
    requires
        src.wf(),
        pos <= src.chars.len(),
    ensures
        agrees(r, string_at(src.chars@, pos as nat)),
        r is Ok ==> pos < r->Ok_0.1 <= src.chars.len(),
{
    if pos < src.len() && src.chars[pos] == '"' {
        let end = scan_while(&src.chars, pos + 1, CharClass::Text);
        if pos + 1 < end && end < src.len() {
            let text = String::from_str(src.slice(pos + 1, end));
            Ok((LispVal::LispString(text), end + 1))
        } else {
            Err(ParseError::NoMatch)
        }
    } else {
        Err(ParseError::NoMatch)
    }
}

/// Reads a dot between blanks at `pos`; the result is the position after it.
fn dot_from(chars: &Vec<char>, pos: usize) -> (r: Option<usize>)
    requires
        pos <= chars.len(),
    ensures
        match dot_at(chars@, pos as nat) {
            Some(after) => r == Some(after as usize) && pos < after <= chars.len(),
            None => r is None,
        },
{
    let dot = scan_while(chars, pos, CharClass::Blank);
    if dot < chars.len() && chars[dot] == '.' {
        Some(scan_while(chars, dot + 1, CharClass::Blank))
    } else {
        None
    }
}

/// Reads an expression at `pos`: the first rule that matches.
fn expr_from(src: &Source, pos: usize) -> (r: Result<(LispVal, usize), ParseError>)
    requires
        src.wf(),
        pos <= src.chars.len(),
    ensures
        agrees(r, expr_at(src.chars@, pos as nat)),
        r is Ok ==> pos < r->Ok_0.1 <= src.chars.len(),
    decreases src.chars.len() - pos, 2nat,
{
    match atom_from(src, pos) {
        Err(ParseError::NoMatch) => {},
        r => {
            return r;
        },
    }
    match number_from(&src.chars, pos) {
        Err(ParseError::NoMatch) => {},
        r => {
            return r;
        },
    }
    match string_from(src, pos) {
        Err(ParseError::NoMatch) => {},
        r => {
            return r;
        },
    }
    match quoted_from(src, pos) {
        Err(ParseError::NoMatch) => {},
        r => {
            return r;
        },
    }
    group_from(src, pos)
}

/// Reads a quoted expression at `pos`.
fn quoted_from(src: &Source, pos: usize) -> (r: Result<(LispVal, usize), ParseError>)
    requires
        src.wf(),
        pos <= src.chars.len(),
    ensures
        agrees(r, quoted_at(src.chars@, pos as nat)),
        r is Ok ==> pos < r->Ok_0.1 <= src.chars.len(),
    decreases src.chars.len() - pos, 1nat,
{
    if pos < src.len() && src.chars[pos] == '\'' {
        match expr_from(src, pos + 1) {
            Ok((v, end)) => Ok((LispVal::Quote(Box::new(v)), end)),
            Err(e) => Err(e),
        }
    } else {
        Err(ParseError::NoMatch)
    }
}

/// Reads what follows the leading elements of an improper list: the dot, the
/// tail and the closing parenthesis.
fn tail_from(src: &Source, pos: usize, items: Vec<LispVal>, end: usize) -> (r: Result<
    (LispVal, usize),
    ParseError,
>)
    requires
        src.wf(),
        pos < src.chars.len(),
        src.chars[pos as int] == '(',
        pos < end <= src.chars.len(),
        items_at(src.chars@, (pos + 1) as nat) == Ok::<(Seq<Value>, nat), ParseError>(
            (view_all(items@), end as nat),
        ),
    ensures
        agrees(r, dotted_list_at(src.chars@, pos as nat)),
        r is Ok ==> pos < r->Ok_0.1 <= src.chars.len(),
    decreases src.chars.len() - pos, 0nat,
{
    match dot_from(&src.chars, end) {
        Some(after) => match expr_from(src, after) {
            Ok((tail, last)) => if last < src.len() && src.chars[last] == ')' {
                Ok((LispVal::DottedList(items, Box::new(tail)), last + 1))
            } else {
                Err(ParseError::NoMatch)
            },
            Err(e) => Err(e),
        },
        None => Err(ParseError::NoMatch),
    }
}

/// Reads an improper list or a list, whichever stands at `pos`.
fn group_from(src: &Source, pos: usize) -> (r: Result<(LispVal, usize), ParseError>)
    requires
        src.wf(),
        pos <= src.chars.len(),
    ensures
        agrees(
            r,
            or_else(dotted_list_at(src.chars@, pos as nat), list_at(src.chars@, pos as nat)),
        ),
        r is Ok ==> pos < r->Ok_0.1 <= src.chars.len(),
    decreases src.chars.len() - pos, 1nat,
{
    if pos < src.len() && src.chars[pos] == '(' {
        match items_from(src, pos + 1) {
            Ok((items, end)) => {
                if end < src.len() && src.chars[end] == ')' {
                    assert(dot_at(src.chars@, end as nat) is None);
                    Ok((LispVal::List(items), end + 1))
                } else {
                    tail_from(src, pos, items, end)
                }
            },
            Err(e) => Err(e),
        }
    } else {
        Err(ParseError::NoMatch)
    }
}

/// Reads an improper list at `pos`.
fn dotted_list_from(src: &Source, pos: usize) -> (r: Result<(LispVal, usize), ParseError>)
    requires
        src.wf(),
        pos <= src.chars.len(),
    ensures
        agrees(r, dotted_list_at(src.chars@, pos as nat)),
        r is Ok ==> pos < r->Ok_0.1 <= src.chars.len(),
{
    if pos < src.len() && src.chars[pos] == '(' {
        match items_from(src, pos + 1) {
            Ok((items, end)) => tail_from(src, pos, items, end),
            Err(e) => Err(e),
        }
    } else {
        Err(ParseError::NoMatch)
    }
}

/// Reads a list in parentheses at `pos`.
fn list_from(src: &Source, pos: usize) -> (r: Result<(LispVal, usize), ParseError>)
    requires
        src.wf(),
        pos <= src.chars.len(),
    ensures
        agrees(r, list_at(src.chars@, pos as nat)),
        r is Ok ==> pos < r->Ok_0.1 <= src.chars.len(),
{
    if pos < src.len() && src.chars[pos] == '(' {
        match items_from(src, pos + 1) {
            Ok((items, end)) => if end < src.len() && src.chars[end] == ')' {
                Ok((LispVal::List(items), end + 1))
            } else {
                Err(ParseError::NoMatch)
            },
            Err(e) => Err(e),
        }
    } else {
        Err(ParseError::NoMatch)
    }
}

/// Reads a sequence of expressions at `pos`, white space between neighbours.
fn items_from(src: &Source, pos: usize) -> (r: Result<(Vec<LispVal>, usize), ParseError>)
    requires
        src.wf(),
        pos <= src.chars.len(),
    ensures
        agree_all(r, items_at(src.chars@, pos as nat)),
        r is Ok ==> pos <= r->Ok_0.1 <= src.chars.len(),
    decreases src.chars.len() - pos, 3nat,
{
    let mut items: Vec<LispVal> = Vec::new();
    let mut end: usize = pos;
    match expr_from(src, pos) {
        Ok((v, after)) => {
            items.push(v);
            end = after;
            assert(view_all(items@) =~= seq![v@]);
        },
        Err(ParseError::NoMatch) => {
            assert(view_all(items@) =~= Seq::empty());
            return Ok((items, pos));
        },
        Err(e) => {
            return Err(e);
        },
    }
    loop
        invariant
            src.wf(),
            pos < end <= src.chars.len(),
            items_at(src.chars@, pos as nat) == more_items(
                src.chars@,
                end as nat,
                view_all(items@),
            ),
        decreases src.chars.len() - end,
    {
        let next = scan_while(&src.chars, end, CharClass::Space);
        if next == end {
            return Ok((items, end));
        }
        let ghost before = view_all(items@);
        match expr_from(src, next) {
            Ok((v, after)) => {
                items.push(v);
                end = after;
                assert(view_all(items@) =~= before.push(v@));
            },
            Err(ParseError::NoMatch) => {
                return Ok((items, end));
            },
            Err(e) => {
                return Err(e);
            },
        }
    }
}

/// Hands a reading out as the text left over and the expression.
fn deliver<'a>(src: &Source<'a>, r: Result<(LispVal, usize), ParseError>) -> (out: Result<
    (&'a str, LispVal),
    ParseError,
>)
    requires
        src.wf(),
        r is Ok ==> r->Ok_0.1 <= src.chars.len(),
    ensures
        forall|m: Reading| agrees(r, m) ==> delivers(out, src.chars@, m),
{
    match r {
        Ok((v, end)) => Ok((src.rest(end), v)),
        Err(e) => Err(e),
    }
}

/// Reads one expression at the start of `input`: the first of atom, number,
/// string, quoted expression, improper list and list that matches.
pub fn parse_expr<'a>(input: &'a str) -> (r: Result<(&'a str, LispVal), ParseError>)
    ensures
        delivers(r, input@, expr_at(input@, 0)),
{
    let src = Source::new(input);
    let r = expr_from(&src, 0);
    deliver(&src, r)
}

/// Reads the sequence of expressions at the start of `input`, white space
/// between neighbours.
pub fn parse_vector<'a>(input: &'a str) -> (r: Result<(&'a str, Vec<LispVal>), ParseError>)
    ensures
        match items_at(input@, 0) {
            Ok((vs, end)) => r is Ok && view_all(r->Ok_0.1@) == vs && r->Ok_0.0@
                == input@.subrange(end as int, input@.len() as int),
            Err(e) => r is Err && r->Err_0 == e,
        },
{
    let src = Source::new(input);
    match items_from(&src, 0) {
        Ok((items, end)) => Ok((src.rest(end), items)),
        Err(e) => Err(e),
    }
}

/// Reads an atom at the start of `input`.
pub fn parse_atom<'a>(input: &'a str) -> (r: Result<(&'a str, LispVal), ParseError>)
    ensures
        delivers(r, input@, atom_at(input@, 0)),
{
    let src = Source::new(input);
    let r = atom_from(&src, 0);
    deliver(&src, r)
}

/// Reads a number at the start of `input`.
pub fn parse_number<'a>(input: &'a str) -> (r: Result<(&'a str, LispVal), ParseError>)
    ensures
        delivers(r, input@, number_at(input@, 0)),
{
    let src = Source::new(input);
    let r = number_from(&src.chars, 0);
    deliver(&src, r)
}

/// Reads a string at the start of `input`.
pub fn parse_string<'a>(input: &'a str) -> (r: Result<(&'a str, LispVal), ParseError>)
    ensures
        delivers(r, input@, string_at(input@, 0)),
{
    let src = Source::new(input);
    let r = string_from(&src, 0);
    deliver(&src, r)
}

/// Reads a quoted expression at the start of `input`.
pub fn parse_quoted<'a>(input: &'a str) -> (r: Result<(&'a str, LispVal), ParseError>)
    ensures
        delivers(r, input@, quoted_at(input@, 0)),
{
    let src = Source::new(input);
    let r = quoted_from(&src, 0);
    deliver(&src, r)
}

/// Reads a quoted expression at the start of `input` as the list of the atom
/// `quote` and the expression.
pub fn parse_quoted2<'a>(input: &'a str) -> (r: Result<(&'a str, LispVal), ParseError>)
    ensures
        delivers(r, input@, quoted_list_at(input@, 0)),
{
    let src = Source::new(input);
    if 0 < src.len() && src.chars[0] == '\'' {
        match expr_from(&src, 1) {
            Ok((v, end)) => {
                let mut pair: Vec<LispVal> = Vec::new();
                pair.push(LispVal::Atom(String::from_str("quote")));
                pair.push(v);
                assert(view_all(pair@) =~= seq![Value::Atom("quote"@), v@]);
                Ok((src.rest(end), LispVal::List(pair)))
            },
            Err(e) => Err(e),
        }
    } else {
        Err(ParseError::NoMatch)
    }
}

/// Reads an improper list at the start of `input`.
pub fn parse_dotted_list<'a>(input: &'a str) -> (r: Result<(&'a str, LispVal), ParseError>)
    ensures
        delivers(r, input@, dotted_list_at(input@, 0)),
{
    let src = Source::new(input);
    let r = dotted_list_from(&src, 0);
    deliver(&src, r)
}

/// Reads a list at the start of `input`: one in parentheses where the text
/// opens with a parenthesis, otherwise the sequence of expressions that the
/// text starts with.
pub fn parse_list<'a>(input: &'a str) -> (r: Result<(&'a str, LispVal), ParseError>)
    ensures
        delivers(r, input@, list_or_bare_at(input@)),
{
    let src = Source::new(input);
    if 0 < src.len() && src.chars[0] == '(' {
        let r = list_from(&src, 0);
        deliver(&src, r)
    } else {
        match items_from(&src, 0) {
            Ok((items, end)) => Ok((src.rest(end), LispVal::List(items))),
            Err(e) => Err(e),
        }
    }
}

/// Reads a dot between blanks at the start of `input`; the result is the text
/// left over and the dot.
pub fn dotted<'a>(input: &'a str) -> (r: Result<(&'a str, &'static str), ParseError>)
    ensures
        match dot_at(input@, 0) {
            Some(after) => r is Ok && r->Ok_0.0@ == input@.subrange(
                after as int,
                input@.len() as int,
            ) && r->Ok_0.1@ == "."@,
            None => r is Err && r->Err_0 == ParseError::NoMatch,
        },
{
    let src = Source::new(input);
    match dot_from(&src.chars, 0) {
        Some(after) => Ok((src.rest(after), ".")),
        None => Err(ParseError::NoMatch),
    }
}

} // verus!
