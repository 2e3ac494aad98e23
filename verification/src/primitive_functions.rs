//! The native operations, and the root environment that binds them.

use vstd::prelude::*;
use crate::env::{Env, Scope, Store};
use crate::error::LispErr;
use crate::evaluation::{call_function, evaluates, run_body};
use crate::lispval::{
    clone_all,
    clone_from,
    lemma_view_all,
    result_view,
    same_value,
    view_all,
    LispVal,
    Primitive,
};
use crate::parser::parse_vector;
use crate::primitive_specs::{
    arith,
    car_spec,
    cdr_spec,
    comparison,
    cons_spec,
    equal_spec,
    eqv_spec,
    fold_numbers,
    logical,
    numeric,
    lemma_quotient_bounds,
    primitive_table,
    textual,
};
use crate::semantics::{apply_spec, load_spec, load_text_spec, primitive_spec};
use crate::text::str_lt;

verus! {

/// One step of arithmetic on 64-bit numbers, with overflow and division by
/// zero reported.
fn arith_op(p: Primitive, x: i64, y: i64) -> (r: Result<i64, LispErr>)
    ensures
        match arith(p, x as int, y as int) {
            Ok(n) => r is Ok && r->Ok_0 == n,
            Err(e) => r is Err && r->Err_0@ == e,
        },
{
    let computed = match p {
        Primitive::Add => x.checked_add(y),
        Primitive::Sub => x.checked_sub(y),
        Primitive::Mul => x.checked_mul(y),
        Primitive::Div => {
            if y == 0 {
                return Err(LispErr::DivisionByZero);
            }
            x.checked_div(y)
        },
        _ => {
            if y == 0 {
                return Err(LispErr::DivisionByZero);
            }
            proof {
                lemma_quotient_bounds(x as int, y as int);
            }
            x.checked_rem(y)
        },
    };
    match computed {
        Some(n) => Ok(n),
        None => Err(LispErr::Overflow),
    }
}

/// `+ - * / mod`.
fn numeric_op(p: Primitive, a: &[LispVal]) -> (r: Result<LispVal, LispErr>)
    ensures
        result_view(r) == numeric(p, view_all(a@)),
{
    if a.len() < 2 {
        return Err(LispErr::ArityMismatch);
    }
    let mut acc = match a[0].num() {
        Ok(n) => n,
        Err(e) => {
            return Err(e);
        },
    };
    let mut i: usize = 1;
    while i < a.len()
        invariant
            1 <= i <= a.len(),
            numeric(p, view_all(a@)) == fold_numbers(p, acc as int, view_all(a@), i as nat),
        decreases a.len() - i,
    {
        let y = match a[i].num() {
            Ok(n) => n,
            Err(e) => {
                return Err(e);
            },
        };
        acc = match arith_op(p, acc, y) {
            Ok(n) => n,
            Err(e) => {
                return Err(e);
            },
        };
        i += 1;
    }
    Ok(LispVal::Number(acc))
}

/// `= > < >= <=`.
fn comparison_op(p: Primitive, a: &[LispVal]) -> (r: Result<LispVal, LispErr>)
    ensures
        result_view(r) == comparison(p, view_all(a@)),
{
    if a.len() < 2 {
        return Err(LispErr::ArityMismatch);
    }
    let x = match a[0].num() {
        Ok(n) => n,
        Err(e) => {
            return Err(e);
        },
    };
    let y = match a[1].num() {
        Ok(n) => n,
        Err(e) => {
            return Err(e);
        },
    };
    Ok(
        LispVal::Boolean(
            match p {
                Primitive::NumEq => x == y,
                Primitive::Gt => x > y,
                Primitive::Lt => x < y,
                Primitive::Ge => x >= y,
                _ => x <= y,
            },
        ),
    )
}

/// `&& || /=`.
fn logical_op(p: Primitive, a: &[LispVal]) -> (r: Result<LispVal, LispErr>)
    ensures
        result_view(r) == logical(p, view_all(a@)),
{
    if a.len() < 2 {
        return Err(LispErr::ArityMismatch);
    }
    let x = match a[0].bool() {
        Ok(b) => b,
        Err(e) => {
            return Err(e);
        },
    };
    if p == Primitive::And && !x {
        return Ok(LispVal::Boolean(false));
    }
    if p == Primitive::Or && x {
        return Ok(LispVal::Boolean(true));
    }
    let y = match a[1].bool() {
        Ok(b) => b,
        Err(e) => {
            return Err(e);
        },
    };
    Ok(LispVal::Boolean(if p == Primitive::BoolNe {
        x != y
    } else {
        y
    }))
}

/// `string=? string<? string>? string<=? string>=?`.
fn textual_op(p: Primitive, a: &[LispVal]) -> (r: Result<LispVal, LispErr>)
    ensures
        result_view(r) == textual(p, view_all(a@)),
{
    if a.len() < 2 {
        return Err(LispErr::ArityMismatch);
    }
    let x = match a[0].str() {
        Ok(s) => s,
        Err(e) => {
            return Err(e);
        },
    };
    let y = match a[1].str() {
        Ok(s) => s,
        Err(e) => {
            return Err(e);
        },
    };
    Ok(
        LispVal::Boolean(
            match p {
                Primitive::StrEq => x == y,
                Primitive::StrLt => str_lt(x.as_str(), y.as_str()),
                Primitive::StrGt => str_lt(y.as_str(), x.as_str()),
                Primitive::StrLe => !str_lt(y.as_str(), x.as_str()),
                _ => !str_lt(x.as_str(), y.as_str()),
            },
        ),
    )
}

/// A copy of `first`, then a copy of each of `rest`.
fn prepend(first: &LispVal, rest: &Vec<LispVal>) -> (r: Vec<LispVal>)
    ensures
        view_all(r@) == seq![first@] + view_all(rest@),
{
    let mut list = clone_all(rest);
    proof {
        lemma_view_all(list@);
    }
    list.insert(0, first.clone());
    assert(view_all(list@) =~= seq![first@] + view_all(rest@));
    list
}

/// `cons`: puts the first argument before the second.
pub fn cons(p: &[LispVal]) -> (r: Result<LispVal, LispErr>)
    ensures
        result_view(r) == cons_spec(view_all(p@)),
{
    if p.len() != 2 {
        return Err(LispErr::ArityMismatch);
    }
    let a = &p[0];
    let b = &p[1];
    match b {
        LispVal::List(xs) => Ok(LispVal::List(prepend(a, xs))),
        LispVal::DottedList(xs, r) => Ok(
            LispVal::DottedList(prepend(a, xs), Box::new((**r).clone())),
        ),
        _ => {
            let mut list: Vec<LispVal> = Vec::new();
            list.push(a.clone());
            assert(view_all(list@) =~= seq![a@]);
            Ok(LispVal::DottedList(list, Box::new(b.clone())))
        },
    }
}

/// `car`: the first element of a list or of an improper list.
pub fn car(a: &[LispVal]) -> (r: Result<LispVal, LispErr>)
    ensures
        result_view(r) == car_spec(view_all(a@)),
{
    if a.len() != 1 {
        return Err(LispErr::ArityMismatch);
    }
    proof {
        lemma_view_all(a@);
    }
    match &a[0] {
        LispVal::List(v) => {
            proof {
                lemma_view_all(v@);
            }
            match atleast(v, 1) {
                Ok(_) => Ok(v[0].clone()),
                Err(e) => Err(e),
            }
        },
        LispVal::DottedList(v, _) => {
            proof {
                lemma_view_all(v@);
            }
            match atleast(v, 1) {
                Ok(_) => Ok(v[0].clone()),
                Err(e) => Err(e),
            }
        },
        _ => Err(LispErr::TypeMismatch),
    }
}

/// `cdr`: a list or an improper list without its first element.
pub fn cdr(a: &[LispVal]) -> (r: Result<LispVal, LispErr>)
    ensures
        result_view(r) == cdr_spec(view_all(a@)),
{
    if a.len() != 1 {
        return Err(LispErr::ArityMismatch);
    }
    proof {
        lemma_view_all(a@);
    }
    match &a[0] {
        LispVal::List(v) => {
            proof {
                lemma_view_all(v@);
            }
            match atleast(v, 1) {
                Ok(_) => Ok(LispVal::List(clone_from(v, 1))),
                Err(e) => Err(e),
            }
        },
        LispVal::DottedList(v, r) => {
            proof {
                lemma_view_all(v@);
            }
            if v.len() == 1 {
                Ok((**r).clone())
            } else {
                match atleast(v, 1) {
                    Ok(_) => Ok(LispVal::DottedList(clone_from(v, 1), Box::new((**r).clone()))),
                    Err(e) => Err(e),
                }
            }
        },
        _ => Err(LispErr::TypeMismatch),
    }
}

/// Whether `v` has at least `i` elements; a type mismatch where it has not.
pub fn atleast(v: &Vec<LispVal>, i: usize) -> (r: Result<(), LispErr>)
    ensures
        r is Ok <==> v.len() >= i,
        r is Err ==> r->Err_0 == LispErr::TypeMismatch,
{
    if v.len() < i {
        return Err(LispErr::TypeMismatch);
    }
    Ok(())
}

/// `eqv?`: structural equality of the first two arguments.
pub fn eqv(a: &[LispVal]) -> (r: Result<LispVal, LispErr>)
    ensures
        result_view(r) == eqv_spec(view_all(a@)),
{
    if a.len() < 2 {
        return Err(LispErr::ArityMismatch);
    }
    Ok(LispVal::Boolean(same_value(&a[0], &a[1])))
}

/// `equal?`: equality of the canonical texts of the first two arguments.
pub fn equal(a: &[LispVal]) -> (r: Result<LispVal, LispErr>)
    ensures
        result_view(r) == equal_spec(view_all(a@)),
{
    if a.len() < 2 {
        return Err(LispErr::ArityMismatch);
    }
    Ok(LispVal::Boolean(a[0].to_string() == a[1].to_string()))
}

/// `apply`: applies the first argument to the elements of the second, a list.
pub fn apply(a: &[LispVal], env: &mut Env, frame: usize, depth: usize) -> (r: Result<
    LispVal,
    LispErr,
>)
    requires
        old(env).wf(),
        frame < old(env)@.frames.len(),
    ensures
        evaluates(
            *old(env),
            r,
            *final(env),
            apply_spec(view_all(a@), old(env)@, frame as nat, depth as nat),
        ),
    decreases depth, 2nat, 0nat,
{
    if a.len() < 2 {
        return Err(LispErr::ArityMismatch);
    }
    let f = &a[0];
    match &a[1] {
        LispVal::List(args) => {
            if depth == 0 {
                Err(LispErr::DepthExceeded)
            } else {
                call_function(f, args.as_slice(), env, frame, depth - 1)
            }
        },
        _ => Err(LispErr::TypeMismatch),
    }
}

/// Evaluates the forms that `text` starts with, in order, in `frame`, and
/// returns the value of the last one; the empty list where there is none.
pub fn load_text(text: &str, env: &mut Env, frame: usize, depth: usize) -> (r: Result<
    LispVal,
    LispErr,
>)
    requires
        old(env).wf(),
        frame < old(env)@.frames.len(),
    ensures
        evaluates(
            *old(env),
            r,
            *final(env),
            load_text_spec(text@, old(env)@, frame as nat, depth as nat),
        ),
    decreases depth, 2nat, 0nat,
{
    let expressions = match parse_vector(text) {
        Ok((_, v)) => v,
        Err(_) => {
            return Err(LispErr::LoadFailure);
        },
    };
    if expressions.len() == 0 {
        assert(view_all(expressions@) =~= Seq::empty());
        return Ok(LispVal::List(expressions));
    }
    run_body(&expressions, env, frame, depth)
}

/// `load`: evaluates the forms of the resource that the one argument names.
pub fn load(a: &[LispVal], env: &mut Env, frame: usize, depth: usize) -> (r: Result<
    LispVal,
    LispErr,
>)
    requires
        old(env).wf(),
        frame < old(env)@.frames.len(),
    ensures
        evaluates(
            *old(env),
            r,
            *final(env),
            load_spec(view_all(a@), old(env)@, frame as nat, depth as nat),
        ),
    decreases depth, 2nat, 1nat,
{
    if a.len() != 1 {
        return Err(LispErr::ArityMismatch);
    }
    let name = match a[0].str() {
        Ok(s) => s,
        Err(e) => {
            return Err(e);
        },
    };
    match env.resource(name.as_str()) {
        Some(text) => load_text(text.as_str(), env, frame, depth),
        None => Err(LispErr::LoadFailure),
    }
}

/// Applies the primitive `p` to the arguments `a`, called from `frame`.
pub fn apply_primitive(
    p: Primitive,
    a: &[LispVal],
    env: &mut Env,
    frame: usize,
    depth: usize,
) -> (r: Result<LispVal, LispErr>)
    requires
        old(env).wf(),
        frame < old(env)@.frames.len(),
    ensures
        evaluates(
            *old(env),
            r,
            *final(env),
            primitive_spec(p, view_all(a@), old(env)@, frame as nat, depth as nat),
        ),
    decreases depth, 2nat, 2nat,
{
    match p {
        Primitive::Add
        | Primitive::Sub
        | Primitive::Mul
        | Primitive::Div
        | Primitive::Mod => numeric_op(p, a),
        Primitive::NumEq
        | Primitive::Gt
        | Primitive::Lt
        | Primitive::Ge
        | Primitive::Le => comparison_op(p, a),
        Primitive::And | Primitive::Or | Primitive::BoolNe => logical_op(p, a),
        Primitive::StrEq
        | Primitive::StrLt
        | Primitive::StrGt
        | Primitive::StrLe
        | Primitive::StrGe => textual_op(p, a),
        Primitive::Car => car(a),
        Primitive::Cdr => cdr(a),
        Primitive::Cons => cons(a),
        Primitive::Eqv => eqv(a),
        Primitive::Equal => equal(a),
        Primitive::Apply => apply(a, env, frame, depth),
        Primitive::Load => load(a, env, frame, depth),
    }
}

/// The store of a root environment: one frame, which binds each primitive
/// under its name, and no resource.
pub open spec fn eden_store() -> Store {
    Store {
        frames: seq![Scope { parent: None, vars: primitive_table() }],
        resources: Map::empty(),
    }
}

/// A new environment whose root frame, frame 0, binds the primitives.
pub fn create_eden_env() -> (env: Env)
    ensures
        env.wf(),
        env@ == eden_store(),
{
    let mut e = Env::new();
    let _ = e.define(0, "+", LispVal::PrimitiveFunc(Primitive::Add));
    let _ = e.define(0, "-", LispVal::PrimitiveFunc(Primitive::Sub));
    let _ = e.define(0, "*", LispVal::PrimitiveFunc(Primitive::Mul));
    let _ = e.define(0, "/", LispVal::PrimitiveFunc(Primitive::Div));
    let _ = e.define(0, "mod", LispVal::PrimitiveFunc(Primitive::Mod));
    let _ = e.define(0, "=", LispVal::PrimitiveFunc(Primitive::NumEq));
    let _ = e.define(0, ">", LispVal::PrimitiveFunc(Primitive::Gt));
    let _ = e.define(0, "<", LispVal::PrimitiveFunc(Primitive::Lt));
    let _ = e.define(0, ">=", LispVal::PrimitiveFunc(Primitive::Ge));
    let _ = e.define(0, "<=", LispVal::PrimitiveFunc(Primitive::Le));
    let _ = e.define(0, "&&", LispVal::PrimitiveFunc(Primitive::And));
    let _ = e.define(0, "||", LispVal::PrimitiveFunc(Primitive::Or));
    let _ = e.define(0, "/=", LispVal::PrimitiveFunc(Primitive::BoolNe));
    let _ = e.define(0, "string=?", LispVal::PrimitiveFunc(Primitive::StrEq));
    let _ = e.define(0, "string<?", LispVal::PrimitiveFunc(Primitive::StrLt));
    let _ = e.define(0, "string>?", LispVal::PrimitiveFunc(Primitive::StrGt));
    let _ = e.define(0, "string<=?", LispVal::PrimitiveFunc(Primitive::StrLe));
    let _ = e.define(0, "string>=?", LispVal::PrimitiveFunc(Primitive::StrGe));
    let _ = e.define(0, "car", LispVal::PrimitiveFunc(Primitive::Car));
    let _ = e.define(0, "cdr", LispVal::PrimitiveFunc(Primitive::Cdr));
    let _ = e.define(0, "cons", LispVal::PrimitiveFunc(Primitive::Cons));
    let _ = e.define(0, "eqv?", LispVal::PrimitiveFunc(Primitive::Eqv));
    let _ = e.define(0, "equal?", LispVal::PrimitiveFunc(Primitive::Equal));
    let _ = e.define(0, "apply", LispVal::PrimitiveFunc(Primitive::Apply));
    let _ = e.define(0, "load", LispVal::PrimitiveFunc(Primitive::Load));
    proof {
        assert(e@.frames =~= eden_store().frames);
    }
    e
}

} // verus!
