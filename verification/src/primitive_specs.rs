//! What the native operations compute, over the model of values.
//!
//! Arithmetic is on 64-bit signed integers and neither wraps nor saturates:
//! a result that does not fit is the fault `Overflow`, a zero divisor the
//! fault `DivisionByZero`. `eqv?` compares structure, so two closures are
//! equal where their parameters, their bodies and their frames are, and two
//! primitives where they are the same operation; `equal?` compares canonical
//! texts, in which every closure reads `lambda` and every primitive
//! `primitiveFunc`.

use vstd::prelude::*;
use crate::error::Fault;
use crate::lispval::{as_boolean, as_number, as_text, render, Primitive, Value};
use crate::text::text_lt;

verus! {

/// A number that fits in 64 signed bits is a result; a larger or smaller one is
/// an overflow.
pub open spec fn in_range(n: int) -> Result<int, Fault> {
    if i64::MIN <= n <= i64::MAX {
        Ok(n)
    } else {
        Err(Fault::Overflow)
    }
}

/// The quotient of `x` by `y` (not zero), rounded towards zero.
pub open spec fn quotient(x: int, y: int) -> int {
    if x == 0 {
        0
    } else if x > 0 && y > 0 {
        x / y
    } else if x < 0 && y < 0 {
        (-x) / (-y)
    } else if x < 0 {
        -((-x) / y)
    } else {
        -(x / (-y))
    }
}

/// What is left of `x` after the quotient by `y` (not zero) rounded towards
/// zero: it has the sign of `x`.
pub open spec fn remainder(x: int, y: int) -> int {
    if x == 0 {
        0
    } else if x > 0 && y > 0 {
        x % y
    } else if x < 0 && y < 0 {
        -((-x) % (-y))
    } else if x < 0 {
        -((-x) % y)
    } else {
        x % (-y)
    }
}

/// On 64-bit numbers the quotient overflows for the least number divided by
/// minus one and for nothing else, and the remainder never does.
pub proof fn lemma_quotient_bounds(x: int, y: int)
    requires
        i64::MIN <= x <= i64::MAX,
        i64::MIN <= y <= i64::MAX,
        y != 0,
    ensures
        in_range(quotient(x, y)) is Err <==> (x == i64::MIN && y == -1),
        i64::MIN <= remainder(x, y) <= i64::MAX,
{
    let a = if x < 0 {
        -x
    } else {
        x
    };
    let b = if y < 0 {
        -y
    } else {
        y
    };
    vstd::arithmetic::div_mod::lemma_div_pos_is_pos(a, b);
    vstd::arithmetic::div_mod::lemma_div_nonincreasing(a, b);
    vstd::arithmetic::div_mod::lemma_mod_bound(a, b);
    assert(0 <= a / b <= a);
    assert(0 <= a % b < b);
    if b >= 2 {
        vstd::arithmetic::div_mod::lemma_div_is_ordered_by_denominator(a, 2, b);
        assert(a / b <= a / 2);
    } else {
        assert(b == 1);
        vstd::arithmetic::div_mod::lemma_div_basics(a);
        assert(a / b == a);
    }
    if x < 0 && y < 0 {
        assert(quotient(x, y) == a / b);
        assert(remainder(x, y) == -(a % b));
    } else if x < 0 {
        assert(quotient(x, y) == -(a / b));
        assert(remainder(x, y) == -(a % b));
    } else if x > 0 && y > 0 {
        assert(quotient(x, y) == a / b);
        assert(remainder(x, y) == a % b);
    } else if x > 0 {
        assert(quotient(x, y) == -(a / b));
        assert(remainder(x, y) == a % b);
    }
}

/// One step of arithmetic. A result outside the 64-bit range is an overflow,
/// a zero divisor a division by zero; a remainder is given where the
/// quotient is.
pub open spec fn arith(p: Primitive, x: int, y: int) -> Result<int, Fault> {
    match p {
        Primitive::Add => in_range(x + y),
        Primitive::Sub => in_range(x - y),
        Primitive::Mul => in_range(x * y),
        Primitive::Div => if y == 0 {
            Err(Fault::DivisionByZero)
        } else {
            in_range(quotient(x, y))
        },
        _ => if y == 0 {
            Err(Fault::DivisionByZero)
        } else {
            match in_range(quotient(x, y)) {
                Ok(_) => Ok(remainder(x, y)),
                Err(e) => Err(e),
            }
        },
    }
}

/// The operation applied from the left: `acc` with the argument at `from`,
/// the result with the next one, and so on to the last.
pub open spec fn fold_numbers(p: Primitive, acc: int, args: Seq<Value>, from: nat) -> Result<
    Value,
    Fault,
>
    decreases args.len() - from,
{
    if from >= args.len() {
        Ok(Value::Number(acc))
    } else {
        match as_number(args[from as int]) {
            Ok(y) => match arith(p, acc, y) {
                Ok(z) => fold_numbers(p, z, args, from + 1),
                Err(e) => Err(e),
            },
            Err(e) => Err(e),
        }
    }
}

/// `+ - * / mod`: two arguments or more, each coerced to a number, combined
/// from the left. On two arguments this is the operation on them.
pub open spec fn numeric(p: Primitive, args: Seq<Value>) -> Result<Value, Fault> {
    if args.len() < 2 {
        Err(Fault::ArityMismatch)
    } else {
        match as_number(args[0]) {
            Ok(x) => fold_numbers(p, x, args, 1),
            Err(e) => Err(e),
        }
    }
}

/// `= > < >= <=` on the first two arguments, coerced to numbers.
pub open spec fn comparison(p: Primitive, args: Seq<Value>) -> Result<Value, Fault> {
    if args.len() < 2 {
        Err(Fault::ArityMismatch)
    } else {
        match as_number(args[0]) {
            Ok(x) => match as_number(args[1]) {
                Ok(y) => Ok(
                    Value::Boolean(
                        match p {
                            Primitive::NumEq => x == y,
                            Primitive::Gt => x > y,
                            Primitive::Lt => x < y,
                            Primitive::Ge => x >= y,
                            _ => x <= y,
                        },
                    ),
                ),
                Err(e) => Err(e),
            },
            Err(e) => Err(e),
        }
    }
}

/// `&& || /=` on the first two arguments, coerced to booleans. `&&` and `||`
/// look at the second only where the first does not decide.
pub open spec fn logical(p: Primitive, args: Seq<Value>) -> Result<Value, Fault> {
    if args.len() < 2 {
        Err(Fault::ArityMismatch)
    } else {
        match as_boolean(args[0]) {
            Ok(x) => if p == Primitive::And && !x {
                Ok(Value::Boolean(false))
            } else if p == Primitive::Or && x {
                Ok(Value::Boolean(true))
            } else {
                match as_boolean(args[1]) {
                    Ok(y) => Ok(
                        Value::Boolean(
                            if p == Primitive::BoolNe {
                                x != y
                            } else {
                                y
                            },
                        ),
                    ),
                    Err(e) => Err(e),
                }
            },
            Err(e) => Err(e),
        }
    }
}

/// `string=? string<? string>? string<=? string>=?` on the first two
/// arguments, coerced to texts, in the byte-wise order of strings.
pub open spec fn textual(p: Primitive, args: Seq<Value>) -> Result<Value, Fault> {
    if args.len() < 2 {
        Err(Fault::ArityMismatch)
    } else {
        match as_text(args[0]) {
            Ok(x) => match as_text(args[1]) {
                Ok(y) => Ok(
                    Value::Boolean(
                        match p {
                            Primitive::StrEq => x == y,
                            Primitive::StrLt => text_lt(x, y),
                            Primitive::StrGt => text_lt(y, x),
                            Primitive::StrLe => !text_lt(y, x),
                            _ => !text_lt(x, y),
                        },
                    ),
                ),
                Err(e) => Err(e),
            },
            Err(e) => Err(e),
        }
    }
}

/// `car`: the first element of a list or of an improper list that has one.
pub open spec fn car_spec(args: Seq<Value>) -> Result<Value, Fault> {
    if args.len() != 1 {
        Err(Fault::ArityMismatch)
    } else {
        match args[0] {
            Value::List(items) => if items.len() > 0 {
                Ok(items[0])
            } else {
                Err(Fault::TypeMismatch)
            },
            Value::DottedList(items, _) => if items.len() > 0 {
                Ok(items[0])
            } else {
                Err(Fault::TypeMismatch)
            },
            _ => Err(Fault::TypeMismatch),
        }
    }
}

/// `cdr`: a list without its first element; an improper list without its
/// first element, which is its tail alone where it had one element.
pub open spec fn cdr_spec(args: Seq<Value>) -> Result<Value, Fault> {
    if args.len() != 1 {
        Err(Fault::ArityMismatch)
    } else {
        match args[0] {
            Value::List(items) => if items.len() > 0 {
                Ok(Value::List(items.subrange(1, items.len() as int)))
            } else {
                Err(Fault::TypeMismatch)
            },
            Value::DottedList(items, tail) => if items.len() == 1 {
                Ok(*tail)
            } else if items.len() > 1 {
                Ok(Value::DottedList(items.subrange(1, items.len() as int), tail))
            } else {
                Err(Fault::TypeMismatch)
            },
            _ => Err(Fault::TypeMismatch),
        }
    }
}

/// `cons`: the first argument put before the elements of a list or of an
/// improper list; with anything else, the improper list of the two.
pub open spec fn cons_spec(args: Seq<Value>) -> Result<Value, Fault> {
    if args.len() != 2 {
        Err(Fault::ArityMismatch)
    } else {
        match args[1] {
            Value::List(items) => Ok(Value::List(seq![args[0]] + items)),
            Value::DottedList(items, tail) => Ok(Value::DottedList(seq![args[0]] + items, tail)),
            other => Ok(Value::DottedList(seq![args[0]], Box::new(other))),
        }
    }
}

/// `eqv?`: whether the first two arguments are structurally equal.
pub open spec fn eqv_spec(args: Seq<Value>) -> Result<Value, Fault> {
    if args.len() < 2 {
        Err(Fault::ArityMismatch)
    } else {
        Ok(Value::Boolean(args[0] == args[1]))
    }
}

/// `equal?`: whether the first two arguments have the same canonical text.
pub open spec fn equal_spec(args: Seq<Value>) -> Result<Value, Fault> {
    if args.len() < 2 {
        Err(Fault::ArityMismatch)
    } else {
        Ok(Value::Boolean(render(args[0]) == render(args[1])))
    }
}

/// What a primitive that neither calls nor loads computes from its arguments.
pub open spec fn pure_primitive(p: Primitive, args: Seq<Value>) -> Result<Value, Fault> {
    match p {
        Primitive::Add
        | Primitive::Sub
        | Primitive::Mul
        | Primitive::Div
        | Primitive::Mod => numeric(p, args),
        Primitive::NumEq
        | Primitive::Gt
        | Primitive::Lt
        | Primitive::Ge
        | Primitive::Le => comparison(p, args),
        Primitive::And | Primitive::Or | Primitive::BoolNe => logical(p, args),
        Primitive::StrEq
        | Primitive::StrLt
        | Primitive::StrGt
        | Primitive::StrLe
        | Primitive::StrGe => textual(p, args),
        Primitive::Car => car_spec(args),
        Primitive::Cdr => cdr_spec(args),
        Primitive::Cons => cons_spec(args),
        Primitive::Eqv => eqv_spec(args),
        _ => equal_spec(args),
    }
}

/// The names under which the root frame binds the primitives.
pub open spec fn primitive_table() -> Map<Seq<char>, Value> {
    Map::<Seq<char>, Value>::empty().insert("+"@, Value::PrimitiveFunc(Primitive::Add)).insert(
        "-"@,
        Value::PrimitiveFunc(Primitive::Sub),
    ).insert("*"@, Value::PrimitiveFunc(Primitive::Mul)).insert(
        "/"@,
        Value::PrimitiveFunc(Primitive::Div),
    ).insert("mod"@, Value::PrimitiveFunc(Primitive::Mod)).insert(
        "="@,
        Value::PrimitiveFunc(Primitive::NumEq),
    ).insert(">"@, Value::PrimitiveFunc(Primitive::Gt)).insert(
        "<"@,
        Value::PrimitiveFunc(Primitive::Lt),
    ).insert(">="@, Value::PrimitiveFunc(Primitive::Ge)).insert(
        "<="@,
        Value::PrimitiveFunc(Primitive::Le),
    ).insert("&&"@, Value::PrimitiveFunc(Primitive::And)).insert(
        "||"@,
        Value::PrimitiveFunc(Primitive::Or),
    ).insert("/="@, Value::PrimitiveFunc(Primitive::BoolNe)).insert(
        "string=?"@,
        Value::PrimitiveFunc(Primitive::StrEq),
    ).insert("string<?"@, Value::PrimitiveFunc(Primitive::StrLt)).insert(
        "string>?"@,
        Value::PrimitiveFunc(Primitive::StrGt),
    ).insert("string<=?"@, Value::PrimitiveFunc(Primitive::StrLe)).insert(
        "string>=?"@,
        Value::PrimitiveFunc(Primitive::StrGe),
    ).insert("car"@, Value::PrimitiveFunc(Primitive::Car)).insert(
        "cdr"@,
        Value::PrimitiveFunc(Primitive::Cdr),
    ).insert("cons"@, Value::PrimitiveFunc(Primitive::Cons)).insert(
        "eqv?"@,
        Value::PrimitiveFunc(Primitive::Eqv),
    ).insert("equal?"@, Value::PrimitiveFunc(Primitive::Equal)).insert(
        "apply"@,
        Value::PrimitiveFunc(Primitive::Apply),
    ).insert("load"@, Value::PrimitiveFunc(Primitive::Load))
}

} // verus!
