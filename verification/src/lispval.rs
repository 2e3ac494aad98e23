//! The values of the language, their mathematical model, their canonical text
//! and the coercions between numbers, booleans and texts.

use vstd::prelude::*;
use crate::error::{Fault, LispErr};
use crate::text::{decimal, i64_to_string, is_word, parse_i64, parse_int};

verus! {

/// The native operations of the language.
#[derive(Clone, Copy, Debug, PartialEq, Eq, Structural)]
pub enum Primitive {
    Add,
    Sub,
    Mul,
    Div,
    Mod,
    NumEq,
    Gt,
    Lt,
    Ge,
    Le,
    And,
    Or,
    BoolNe,
    StrEq,
    StrLt,
    StrGt,
    StrLe,
    StrGe,
    Car,
    Cdr,
    Cons,
    Eqv,
    Equal,
    Apply,
    Load,
}

/// A value of the language, which is also an expression of it.
#[derive(Debug)]
pub enum LispVal {
    /// An identifier.
    Atom(String),
    Number(i64),
    LispString(String),
    Boolean(bool),
    /// A proper list.
    List(Vec<LispVal>),
    /// An improper list: its leading elements, then its tail.
    DottedList(Vec<LispVal>, Box<LispVal>),
    /// A datum kept from evaluation.
    Quote(Box<LispVal>),
    /// A closure. `closure` is the frame in which it was made, the parent of
    /// the frame of each of its calls.
    Func { args: Vec<String>, vararg: Option<String>, body: Vec<LispVal>, closure: usize },
    PrimitiveFunc(Primitive),
}

/// The mathematical model of a [`LispVal`].
pub enum Value {
    Atom(Seq<char>),
    Number(int),
    LispString(Seq<char>),
    Boolean(bool),
    List(Seq<Value>),
    DottedList(Seq<Value>, Box<Value>),
    Quote(Box<Value>),
    Func { args: Seq<Seq<char>>, vararg: Option<Seq<char>>, body: Seq<Value>, closure: nat },
    PrimitiveFunc(Primitive),
}

/// The models of a sequence of values, element by element.
pub open spec fn view_all(v: Seq<LispVal>) -> Seq<Value>
    decreases v,
{
    Seq::new(
        v.len(),
        |i: int|
            if 0 <= i < v.len() {
                value_of(v[i])
            } else {
                Value::Boolean(false)
            },
    )
}

/// The characters of each of a sequence of strings.
pub open spec fn view_names(v: Seq<String>) -> Seq<Seq<char>> {
    Seq::new(v.len(), |i: int| v[i]@)
}

/// The characters of an optional string.
pub open spec fn view_name(v: Option<String>) -> Option<Seq<char>> {
    match v {
        Some(s) => Some(s@),
        None => None,
    }
}

/// The model of a value.
pub open spec fn value_of(v: LispVal) -> Value
    decreases v,
{
    match v {
        LispVal::Atom(s) => Value::Atom(s@),
        LispVal::Number(n) => Value::Number(n as int),
        LispVal::LispString(s) => Value::LispString(s@),
        LispVal::Boolean(b) => Value::Boolean(b),
        LispVal::List(items) => Value::List(view_all(items@)),
        LispVal::DottedList(items, tail) => Value::DottedList(
            view_all(items@),
            Box::new(value_of(*tail)),
        ),
        LispVal::Quote(q) => Value::Quote(Box::new(value_of(*q))),
        LispVal::Func { args, vararg, body, closure } => Value::Func {
            args: view_names(args@),
            vararg: view_name(vararg),
            body: view_all(body@),
            closure: closure as nat,
        },
        LispVal::PrimitiveFunc(p) => Value::PrimitiveFunc(p),
    }
}

/// The model of a sequence is as long as the sequence and holds, at each
/// index, the model of the element there.
pub proof fn lemma_view_all(v: Seq<LispVal>)
    ensures
        view_all(v).len() == v.len(),
        forall|i: int| 0 <= i < v.len() ==> #[trigger] view_all(v)[i] == v[i]@,
{
}

impl View for LispVal {
    type V = Value;

    open spec fn view(&self) -> Value {
        value_of(*self)
    }
}

/// The model of the result of an evaluation.
pub open spec fn result_view(r: Result<LispVal, LispErr>) -> Result<Value, Fault> {
    match r {
        Ok(v) => Ok(v@),
        Err(e) => Err(e@),
    }
}

/// The canonical text of the first `n` of `items`, one space between
/// neighbours.
pub open spec fn render_items(items: Seq<Value>, n: nat) -> Seq<char>
    decreases items, n,
{
    if n == 0 || n > items.len() {
        Seq::empty()
    } else if n == 1 {
        render(items[0])
    } else {
        render_items(items, (n - 1) as nat) + seq![' '] + render(items[n - 1])
    }
}

/// The canonical text of a value: atoms bare, numbers in decimal, strings
/// between double quotes, booleans as `true` and `false`, lists in
/// parentheses, an improper list with ` . ` before its tail, a quoted datum
/// after the word `quote`; a closure is `lambda` and a primitive
/// `primitiveFunc`, whatever they compute.
pub open spec fn render(v: Value) -> Seq<char>
    decreases v, 0nat,
{
    match v {
        Value::Atom(s) => s,
        Value::Number(n) => decimal(n),
        Value::LispString(s) => seq!['"'] + s + seq!['"'],
        Value::Boolean(b) => if b {
            "true"@
        } else {
            "false"@
        },
        Value::List(items) => seq!['('] + render_items(items, items.len()) + seq![')'],
        Value::DottedList(items, tail) => seq!['('] + render_items(items, items.len()) + " . "@
            + render(*tail) + seq![')'],
        Value::Quote(q) => "quote "@ + render(*q),
        Value::Func { .. } => "lambda"@,
        Value::PrimitiveFunc(_) => "primitiveFunc"@,
    }
}

/// A number as it is, a text that writes a signed decimal integer as that
/// integer; nothing else is a number.
pub open spec fn as_number(v: Value) -> Result<int, Fault> {
    match v {
        Value::Number(n) => Ok(n),
        Value::LispString(s) => match parse_int(s) {
            Some(n) => Ok(n),
            None => Err(Fault::TypeMismatch),
        },
        _ => Err(Fault::TypeMismatch),
    }
}

/// A boolean as it is, a number as whether it is not zero, the texts `true`
/// and `false` as what they say; nothing else is a boolean.
pub open spec fn as_boolean(v: Value) -> Result<bool, Fault> {
    match v {
        Value::Boolean(b) => Ok(b),
        Value::Number(n) => Ok(n != 0),
        Value::LispString(s) => if s == "true"@ {
            Ok(true)
        } else if s == "false"@ {
            Ok(false)
        } else {
            Err(Fault::TypeMismatch)
        },
        _ => Err(Fault::TypeMismatch),
    }
}

/// A text as it is, a number as its decimal numeral; nothing else is a text.
pub open spec fn as_text(v: Value) -> Result<Seq<char>, Fault> {
    match v {
        Value::LispString(s) => Ok(s),
        Value::Number(n) => Ok(decimal(n)),
        _ => Err(Fault::TypeMismatch),
    }
}

/// A copy of each name.
pub fn clone_names(v: &Vec<String>) -> (r: Vec<String>)
    ensures
        view_names(r@) == view_names(v@),
{
    let mut r: Vec<String> = Vec::new();
    let mut i: usize = 0;
    while i < v.len()
        invariant
            i <= v.len(),
            r.len() == i,
            forall|j: int| 0 <= j < i ==> r[j]@ == v[j]@,
        decreases v.len() - i,
    {
        r.push(v[i].clone());
        i += 1;
    }
    assert(view_names(r@) =~= view_names(v@));
    r
}

/// A copy of an optional name.
pub fn clone_name(v: &Option<String>) -> (r: Option<String>)
    ensures
        view_name(r) == view_name(*v),
{
    match v {
        Some(s) => Some(s.clone()),
        None => None,
    }
}

/// A copy of the elements of `v` from index `from` on.
pub fn clone_from(v: &Vec<LispVal>, from: usize) -> (r: Vec<LispVal>)
    requires
        from <= v.len(),
    ensures
        view_all(r@) == view_all(v@).subrange(from as int, v.len() as int),
    decreases v, 0nat,
{
    let mut r: Vec<LispVal> = Vec::new();
    let mut i: usize = from;
    while i < v.len()
        invariant
            from <= i <= v.len(),
            r.len() == i - from,
            forall|j: int| 0 <= j < i - from ==> r[j]@ == v[j + from]@,
        decreases v.len() - i,
    {
        r.push(v[i].clone());
        i += 1;
    }
    assert(view_all(r@) =~= view_all(v@).subrange(from as int, v.len() as int));
    r
}

/// A copy of each element of `v`.
pub fn clone_all(v: &Vec<LispVal>) -> (r: Vec<LispVal>)
    ensures
        view_all(r@) == view_all(v@),
    decreases v, 1nat,
{
    let r = clone_from(v, 0);
    assert(view_all(v@).subrange(0, v.len() as int) =~= view_all(v@));
    r
}

impl Clone for LispVal {
    fn clone(&self) -> (r: Self)
        ensures
            r@ == self@,
        decreases self, 0nat,
    {
        match self {
            LispVal::Atom(s) => LispVal::Atom(s.clone()),
            LispVal::Number(n) => LispVal::Number(*n),
            LispVal::LispString(s) => LispVal::LispString(s.clone()),
            LispVal::Boolean(b) => LispVal::Boolean(*b),
            LispVal::List(items) => LispVal::List(clone_all(items)),
            LispVal::DottedList(items, tail) => LispVal::DottedList(
                clone_all(items),
                Box::new((**tail).clone()),
            ),
            LispVal::Quote(q) => LispVal::Quote(Box::new((**q).clone())),
            LispVal::Func { args, vararg, body, closure } => LispVal::Func {
                args: clone_names(args),
                vararg: clone_name(vararg),
                body: clone_all(body),
                closure: *closure,
            },
            LispVal::PrimitiveFunc(p) => LispVal::PrimitiveFunc(*p),
        }
    }
}

/// Whether two lists of names hold the same names in the same order.
fn same_names(a: &Vec<String>, b: &Vec<String>) -> (r: bool)
    ensures
        r == (view_names(a@) == view_names(b@)),
{
    if a.len() != b.len() {
        assert(view_names(a@).len() != view_names(b@).len());
        return false;
    }
    let mut i: usize = 0;
    while i < a.len()
        invariant
            i <= a.len(),
            a.len() == b.len(),
            forall|j: int| 0 <= j < i ==> a[j]@ == b[j]@,
        decreases a.len() - i,
    {
        if a[i] != b[i] {
            assert(view_names(a@)[i as int] != view_names(b@)[i as int]);
            return false;
        }
        i += 1;
    }
    assert(view_names(a@) =~= view_names(b@));
    true
}

/// Whether two optional names are the same.
fn same_name(a: &Option<String>, b: &Option<String>) -> (r: bool)
    ensures
        r == (view_name(*a) == view_name(*b)),
{
    match (a, b) {
        (Some(x), Some(y)) => *x == *y,
        (None, None) => true,
        _ => false,
    }
}

/// Whether two lists of values are equal element by element.
fn same_values(a: &Vec<LispVal>, b: &Vec<LispVal>) -> (r: bool)
    ensures
        r == (view_all(a@) == view_all(b@)),
    decreases a,
{
    if a.len() != b.len() {
        assert(view_all(a@).len() != view_all(b@).len());
        return false;
    }
    let mut i: usize = 0;
    while i < a.len()
        invariant
            i <= a.len(),
            a.len() == b.len(),
            forall|j: int| 0 <= j < i ==> a[j]@ == b[j]@,
        decreases a.len() - i,
    {
        if !same_value(&a[i], &b[i]) {
            assert(view_all(a@)[i as int] != view_all(b@)[i as int]);
            return false;
        }
        i += 1;
    }
    assert(view_all(a@) =~= view_all(b@));
    true
}

/// Structural equality: literals by value, lists element by element and by
/// their tails, closures by parameters, body and defining frame, primitives by
/// which operation they are.
pub fn same_value(a: &LispVal, b: &LispVal) -> (r: bool)
    ensures
        r == (a@ == b@),
    decreases a,
{
    match (a, b) {
        (LispVal::Atom(x), LispVal::Atom(y)) => *x == *y,
        (LispVal::Number(x), LispVal::Number(y)) => *x == *y,
        (LispVal::LispString(x), LispVal::LispString(y)) => *x == *y,
        (LispVal::Boolean(x), LispVal::Boolean(y)) => *x == *y,
        (LispVal::List(x), LispVal::List(y)) => same_values(x, y),
        (LispVal::DottedList(x, s), LispVal::DottedList(y, t)) => same_values(x, y) && same_value(
            &**s,
            &**t,
        ),
        (LispVal::Quote(x), LispVal::Quote(y)) => same_value(&**x, &**y),
        (
            LispVal::Func { args: a1, vararg: v1, body: b1, closure: c1 },
            LispVal::Func { args: a2, vararg: v2, body: b2, closure: c2 },
        ) => same_names(a1, a2) && same_name(v1, v2) && same_values(b1, b2) && *c1 == *c2,
        (LispVal::PrimitiveFunc(x), LispVal::PrimitiveFunc(y)) => *x == *y,
        _ => false,
    }
}

impl PartialEq for LispVal {
    fn eq(&self, other: &Self) -> (r: bool) {
        same_value(self, other)
    }
}

impl vstd::std_specs::cmp::PartialEqSpecImpl for LispVal {
    open spec fn obeys_eq_spec() -> bool {
        true
    }

    open spec fn eq_spec(&self, other: &Self) -> bool {
        self@ == other@
    }
}

/// The canonical text of each of `items`, one space between neighbours.
fn render_all(items: &Vec<LispVal>) -> (r: String)
    ensures
        r@ == render_items(view_all(items@), items@.len()),
    decreases items,
{
    let mut r = String::new();
    let mut i: usize = 0;
    while i < items.len()
        invariant
            i <= items.len(),
            r@ == render_items(view_all(items@), i as nat),
        decreases items.len() - i,
    {
        if i > 0 {
            proof {
                reveal_strlit(" ");
            }
            r.append(" ");
        }
        let one = items[i].to_string();
        r.append(one.as_str());
        proof {
            let all = view_all(items@);
            assert(all[i as int] == items[i as int]@);
            if i == 0 {
                assert(r@ =~= render(all[0]));
            } else {
                assert(r@ =~= render_items(all, i as nat) + seq![' '] + render(all[i as int]));
            }
        }
        i += 1;
    }
    r
}

impl LispVal {
    /// This value as a number, as [`as_number`] coerces it.
    pub fn num(&self) -> (r: Result<i64, LispErr>)
        ensures
            r is Ok <==> as_number(self@) is Ok,
            r is Ok ==> r->Ok_0 as int == as_number(self@)->Ok_0,
            r is Err ==> r->Err_0@ == as_number(self@)->Err_0,
    {
        match self {
            LispVal::Number(n) => Ok(*n),
            LispVal::LispString(s) => match parse_i64(s.as_str()) {
                Some(n) => Ok(n),
                None => Err(LispErr::TypeMismatch),
            },
            _ => Err(LispErr::TypeMismatch),
        }
    }

    /// This value as a boolean, as [`as_boolean`] coerces it.
    pub fn bool(&self) -> (r: Result<bool, LispErr>)
        ensures
            r is Ok <==> as_boolean(self@) is Ok,
            r is Ok ==> r->Ok_0 == as_boolean(self@)->Ok_0,
            r is Err ==> r->Err_0@ == as_boolean(self@)->Err_0,
    {
        match self {
            LispVal::Boolean(b) => Ok(*b),
            LispVal::Number(n) => Ok(*n != 0),
            LispVal::LispString(s) => if is_word(s, "true") {
                Ok(true)
            } else if is_word(s, "false") {
                Ok(false)
            } else {
                Err(LispErr::TypeMismatch)
            },
            _ => Err(LispErr::TypeMismatch),
        }
    }

    /// This value as a text, as [`as_text`] coerces it.
    pub fn str(&self) -> (r: Result<String, LispErr>)
        ensures
            r is Ok <==> as_text(self@) is Ok,
            r is Ok ==> r->Ok_0@ == as_text(self@)->Ok_0,
            r is Err ==> r->Err_0@ == as_text(self@)->Err_0,
    {
        match self {
            LispVal::LispString(s) => Ok(s.clone()),
            LispVal::Number(n) => Ok(i64_to_string(*n)),
            _ => Err(LispErr::TypeMismatch),
        }
    }

    /// The canonical text of this value, as [`render`] defines it.
    pub fn to_string(&self) -> (r: String)
        ensures
            r@ == render(self@),
        decreases self,
    {
        match self {
            LispVal::Atom(s) => s.clone(),
            LispVal::Number(n) => i64_to_string(*n),
            LispVal::LispString(s) => {
                proof {
                    reveal_strlit("\"");
                }
                let mut r = String::from_str("\"");
                r.append(s.as_str());
                r.append("\"");
                assert(r@ =~= seq!['"'] + s@ + seq!['"']);
                r
            },
            LispVal::Boolean(b) => if *b {
                String::from_str("true")
            } else {
                String::from_str("false")
            },
            LispVal::List(items) => {
                proof {
                    reveal_strlit("(");
                    reveal_strlit(")");
                }
                let mut r = String::from_str("(");
                let inner = render_all(items);
                r.append(inner.as_str());
                r.append(")");
                assert(r@ =~= seq!['('] + inner@ + seq![')']);
                r
            },
            LispVal::DottedList(items, tail) => {
                proof {
                    reveal_strlit("(");
                    reveal_strlit(")");
                }
                let mut r = String::from_str("(");
                let inner = render_all(items);
                r.append(inner.as_str());
                r.append(" . ");
                let last = (**tail).to_string();
                r.append(last.as_str());
                r.append(")");
                assert(r@ =~= seq!['('] + inner@ + " . "@ + last@ + seq![')']);
                r
            },
            LispVal::Quote(q) => {
                let mut r = String::from_str("quote ");
                let inner = (**q).to_string();
                r.append(inner.as_str());
                r
            },
            LispVal::Func { .. } => String::from_str("lambda"),
            LispVal::PrimitiveFunc(_) => String::from_str("primitiveFunc"),
        }
    }
}

} // verus!
