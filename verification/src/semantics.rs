//! The meaning of expressions: a big-step semantics over the models of values
//! and environments.
//!
//! Evaluation may not end, so the semantics counts how deeply it nests:
//! `depth` is how many lists may still be entered, one inside the other, and
//! an evaluation that would go deeper is the fault `DepthExceeded`. Every
//! function here is total; the evaluator is proved to compute exactly these.

use vstd::prelude::*;
use crate::env::Store;
use crate::error::Fault;
use crate::lispval::{as_text, render, Primitive, Value};
use crate::parser::items_at;
use crate::primitive_specs::pure_primitive;

verus! {

/// How an evaluation ends: with a value or a fault, and with the store as the
/// evaluation left it.
pub struct Outcome {
    pub result: Result<Value, Fault>,
    pub store: Store,
}

/// How the evaluation of a sequence ends: with all its values or the first
/// fault.
pub struct Gathered {
    pub result: Result<Seq<Value>, Fault>,
    pub store: Store,
}

/// The evaluation that ends with `v`.
pub open spec fn done(v: Value, s: Store) -> Outcome {
    Outcome { result: Ok(v), store: s }
}

/// The evaluation that ends with the fault `f`.
pub open spec fn failed(f: Fault, s: Store) -> Outcome {
    Outcome { result: Err(f), store: s }
}

/// The list starts with the atom `word`.
pub open spec fn headed_by(items: Seq<Value>, word: Seq<char>) -> bool {
    items.len() > 0 && items[0] == Value::Atom(word)
}

/// `(if cond then else)`.
pub open spec fn is_if(items: Seq<Value>) -> bool {
    items.len() == 4 && headed_by(items, "if"@)
}

/// `(define name expr)`, where `name` is an atom.
pub open spec fn is_define_var(items: Seq<Value>) -> bool {
    items.len() == 3 && headed_by(items, "define"@) && items[1] is Atom
}

/// `(define (name x y ... . rest) body...)`.
pub open spec fn is_define_vararg(items: Seq<Value>) -> bool {
    items.len() >= 2 && headed_by(items, "define"@) && items[1] is DottedList
}

/// `(define (name x y ...) body...)`.
pub open spec fn is_define_func(items: Seq<Value>) -> bool {
    items.len() >= 2 && headed_by(items, "define"@) && items[1] is List
}

/// `(set! name expr)`.
pub open spec fn is_set(items: Seq<Value>) -> bool {
    items.len() == 3 && headed_by(items, "set!"@)
}

/// `(lambda (x y ...) body...)`.
pub open spec fn is_lambda(items: Seq<Value>) -> bool {
    items.len() >= 2 && headed_by(items, "lambda"@) && items[1] is List
}

/// The names of parameters: the canonical text of each, which for an atom is
/// the atom itself.
pub open spec fn param_names(params: Seq<Value>) -> Seq<Seq<char>> {
    Seq::new(params.len(), |i: int| render(params[i]))
}

/// The closure that a definition or a `lambda` makes in `frame`: the
/// parameters are `head` from index `skip` on, the body is what follows the
/// second element of `items`.
pub open spec fn closure_of(
    items: Seq<Value>,
    head: Seq<Value>,
    skip: nat,
    vararg: Option<Seq<char>>,
    frame: nat,
) -> Value {
    Value::Func {
        args: param_names(head.subrange(skip as int, head.len() as int)),
        vararg,
        body: items.subrange(2, items.len() as int),
        closure: frame,
    }
}

/// The store after the first `n` parameters were bound to the first `n`
/// arguments in the frame `callee`, one after the other.
pub open spec fn bind_params(
    s: Store,
    callee: nat,
    params: Seq<Seq<char>>,
    args: Seq<Value>,
    n: nat,
) -> Store
    decreases n,
{
    if n == 0 {
        s
    } else {
        bind_params(s, callee, params, args, (n - 1) as nat).define(
            callee,
            params[n - 1],
            args[n - 1],
        )
    }
}

/// Whether a closure with these parameters takes `count` arguments: exactly
/// as many as it has parameters, or at least as many where it is variadic.
pub open spec fn arity_fits(params: Seq<Seq<char>>, vararg: Option<Seq<char>>, count: nat) -> bool {
    if vararg is Some {
        count >= params.len()
    } else {
        count == params.len()
    }
}

/// The store in which the body of a closure runs: a new frame enclosed by the
/// frame of the closure, in which each parameter is bound to its argument and
/// the variadic name to the list of the arguments that are left.
pub open spec fn enter(
    s: Store,
    params: Seq<Seq<char>>,
    vararg: Option<Seq<char>>,
    closure: nat,
    args: Seq<Value>,
) -> Store {
    let callee = s.frames.len();
    let bound = bind_params(s.child(closure), callee, params, args, params.len());
    match vararg {
        Some(rest) => bound.define(
            callee,
            rest,
            Value::List(args.subrange(params.len() as int, args.len() as int)),
        ),
        None => bound,
    }
}

/// The value of `v` in `frame`.
///
/// A number, a text, a boolean, an improper list, a closure and a primitive
/// are their own value; an atom is what its innermost binding holds; a quoted
/// datum is the datum; a list is a special form or an application.
pub open spec fn eval_spec(v: Value, s: Store, frame: nat, depth: nat) -> Outcome
    decreases depth, 0nat, 0nat,
{
    match v {
        Value::Atom(name) => match s.lookup(frame, name) {
            Some(x) => done(x, s),
            None => failed(Fault::UnboundVariable(name), s),
        },
        Value::Quote(q) => done(*q, s),
        Value::List(items) => if depth == 0 {
            failed(Fault::DepthExceeded, s)
        } else {
            eval_list_spec(items, s, frame, (depth - 1) as nat)
        },
        _ => done(v, s),
    }
}

/// The value of a list: of the first special form whose shape it has, else of
/// the application that it is. The empty list is none of them.
pub open spec fn eval_list_spec(items: Seq<Value>, s: Store, frame: nat, depth: nat) -> Outcome
    decreases depth, 5nat, 0nat,
{
    if is_if(items) {
        if_spec(items, s, frame, depth)
    } else if is_define_var(items) {
        define_var_spec(items, s, frame, depth)
    } else if is_define_vararg(items) {
        define_vararg_spec(items, s, frame)
    } else if is_define_func(items) {
        define_func_spec(items, s, frame)
    } else if is_set(items) {
        set_spec(items, s, frame, depth)
    } else if is_lambda(items) {
        lambda_spec(items, s, frame)
    } else if items.len() > 0 {
        application_spec(items, s, frame, depth)
    } else {
        failed(Fault::UnrecognizedForm, s)
    }
}

/// `(if cond then else)`: the value of `then` where `cond` is true, of `else`
/// where it is false; a condition that is no boolean is a type mismatch.
pub open spec fn if_spec(items: Seq<Value>, s: Store, frame: nat, depth: nat) -> Outcome
    decreases depth, 4nat, 0nat,
{
    let cond = eval_spec(items[1], s, frame, depth);
    match cond.result {
        Ok(Value::Boolean(true)) => eval_spec(items[2], cond.store, frame, depth),
        Ok(Value::Boolean(false)) => eval_spec(items[3], cond.store, frame, depth),
        Ok(_) => failed(Fault::TypeMismatch, cond.store),
        Err(_) => cond,
    }
}

/// `(define name expr)`: the value of `expr`, which `frame` then binds to
/// `name`.
pub open spec fn define_var_spec(items: Seq<Value>, s: Store, frame: nat, depth: nat) -> Outcome
    decreases depth, 4nat, 0nat,
{
    let value = eval_spec(items[2], s, frame, depth);
    match value.result {
        Ok(v) => done(v, value.store.define(frame, items[1]->Atom_0, v)),
        Err(_) => value,
    }
}

/// `(define (name x y ... . rest) body...)`: a variadic closure made in
/// `frame`, which `frame` then binds to `name`. A head without a name that is
/// an atom is a type mismatch.
pub open spec fn define_vararg_spec(items: Seq<Value>, s: Store, frame: nat) -> Outcome {
    let head = items[1]->DottedList_0;
    let rest = items[1]->DottedList_1;
    if head.len() > 0 && head[0] is Atom {
        let f = closure_of(items, head, 1, Some(render(*rest)), frame);
        done(f, s.define(frame, head[0]->Atom_0, f))
    } else {
        failed(Fault::TypeMismatch, s)
    }
}

/// `(define (name x y ...) body...)`: a closure made in `frame`, which
/// `frame` then binds to `name`. A head without a name that is an atom is a
/// type mismatch.
pub open spec fn define_func_spec(items: Seq<Value>, s: Store, frame: nat) -> Outcome {
    let head = items[1]->List_0;
    if head.len() > 0 && head[0] is Atom {
        let f = closure_of(items, head, 1, None, frame);
        done(f, s.define(frame, head[0]->Atom_0, f))
    } else {
        failed(Fault::TypeMismatch, s)
    }
}

/// `(set! name expr)`: the value of `expr`, which the innermost binding of
/// `name` then holds. A name that is no atom is a type mismatch; a name that
/// no frame of the chain binds is unbound.
pub open spec fn set_spec(items: Seq<Value>, s: Store, frame: nat, depth: nat) -> Outcome
    decreases depth, 4nat, 0nat,
{
    match items[1] {
        Value::Atom(name) => {
            let value = eval_spec(items[2], s, frame, depth);
            match value.result {
                Ok(v) => match value.store.assign(frame, name, v) {
                    Some(after) => done(v, after),
                    None => failed(Fault::UnboundVariable(name), value.store),
                },
                Err(_) => value,
            }
        },
        _ => failed(Fault::TypeMismatch, s),
    }
}

/// `(lambda (x y ...) body...)`: a closure made in `frame`; nothing is
/// bound.
pub open spec fn lambda_spec(items: Seq<Value>, s: Store, frame: nat) -> Outcome {
    done(closure_of(items, items[1]->List_0, 0, None, frame), s)
}

/// `(f a1 a2 ...)`: the head and the arguments are evaluated from left to
/// right, then the value of the head is applied to those of the arguments.
pub open spec fn application_spec(items: Seq<Value>, s: Store, frame: nat, depth: nat) -> Outcome
    decreases depth, 4nat, 0nat,
{
    let all = eval_each(items, 0, Seq::empty(), s, frame, depth);
    match all.result {
        Ok(values) => if values.len() > 0 {
            call_spec(values[0], values.subrange(1, values.len() as int), all.store, frame, depth)
        } else {
            failed(Fault::UnrecognizedForm, all.store)
        },
        Err(e) => failed(e, all.store),
    }
}

/// The values of `items` from index `from` on, in order, after those in
/// `acc`; the first fault ends the evaluation.
pub open spec fn eval_each(
    items: Seq<Value>,
    from: nat,
    acc: Seq<Value>,
    s: Store,
    frame: nat,
    depth: nat,
) -> Gathered
    decreases depth, 1nat, items.len() - from,
{
    if from >= items.len() {
        Gathered { result: Ok(acc), store: s }
    } else {
        let one = eval_spec(items[from as int], s, frame, depth);
        match one.result {
            Ok(v) => eval_each(items, from + 1, acc.push(v), one.store, frame, depth),
            Err(e) => Gathered { result: Err(e), store: one.store },
        }
    }
}

/// The expressions of `body` from index `from` on, evaluated in order: the
/// value of the last, or the first fault. Nothing to evaluate is the fault
/// `EmptyBody`.
pub open spec fn eval_body(body: Seq<Value>, from: nat, s: Store, frame: nat, depth: nat) -> Outcome
    decreases depth, 1nat, body.len() - from,
{
    if from >= body.len() {
        failed(Fault::EmptyBody, s)
    } else {
        let one = eval_spec(body[from as int], s, frame, depth);
        if one.result is Err || from + 1 == body.len() {
            one
        } else {
            eval_body(body, from + 1, one.store, frame, depth)
        }
    }
}

/// `target` applied to `args`, called from `frame`.
///
/// A primitive computes on the arguments. A closure first checks their
/// number, then runs its body in a new frame enclosed by the frame in which
/// the closure was made (not the one it is called from). Anything else is not
/// callable, and so is a closure whose frame the store does not hold.
pub open spec fn call_spec(
    target: Value,
    args: Seq<Value>,
    s: Store,
    frame: nat,
    depth: nat,
) -> Outcome
    decreases depth, 3nat, 0nat,
{
    match target {
        Value::PrimitiveFunc(p) => primitive_spec(p, args, s, frame, depth),
        Value::Func { args: params, vararg, body, closure } => if !arity_fits(
            params,
            vararg,
            args.len(),
        ) {
            failed(Fault::ArityMismatch, s)
        } else if closure >= s.frames.len() {
            failed(Fault::NotCallable, s)
        } else {
            eval_body(body, 0, enter(s, params, vararg, closure, args), s.frames.len(), depth)
        },
        _ => failed(Fault::NotCallable, s),
    }
}

/// The primitive `p` applied to `args`, called from `frame`. `apply` and
/// `load` evaluate in turn; the others compute on the arguments alone and
/// leave the store as it is.
pub open spec fn primitive_spec(
    p: Primitive,
    args: Seq<Value>,
    s: Store,
    frame: nat,
    depth: nat,
) -> Outcome
    decreases depth, 2nat, 2nat,
{
    match p {
        Primitive::Apply => apply_spec(args, s, frame, depth),
        Primitive::Load => load_spec(args, s, frame, depth),
        _ => Outcome { result: pure_primitive(p, args), store: s },
    }
}

/// `apply`: the first argument applied to the elements of the second, which
/// is a list. The call nests one deeper.
pub open spec fn apply_spec(args: Seq<Value>, s: Store, frame: nat, depth: nat) -> Outcome
    decreases depth, 2nat, 0nat,
{
    if args.len() < 2 {
        failed(Fault::ArityMismatch, s)
    } else {
        match args[1] {
            Value::List(given) => if depth == 0 {
                failed(Fault::DepthExceeded, s)
            } else {
                call_spec(args[0], given, s, frame, (depth - 1) as nat)
            },
            _ => failed(Fault::TypeMismatch, s),
        }
    }
}

/// `load`: the forms of the resource that the one argument names, evaluated
/// in `frame`. A name under which the store holds no resource is a load
/// failure.
pub open spec fn load_spec(args: Seq<Value>, s: Store, frame: nat, depth: nat) -> Outcome
    decreases depth, 2nat, 1nat,
{
    if args.len() != 1 {
        failed(Fault::ArityMismatch, s)
    } else {
        match as_text(args[0]) {
            Ok(name) => if s.resources.contains_key(name) {
                load_text_spec(s.resources[name], s, frame, depth)
            } else {
                failed(Fault::LoadFailure, s)
            },
            Err(e) => failed(e, s),
        }
    }
}

/// The forms that `text` starts with, evaluated in order in `frame`: the
/// value of the last one, the empty list where there is none, the first fault
/// where one fails. A text that cannot be read is a load failure.
pub open spec fn load_text_spec(text: Seq<char>, s: Store, frame: nat, depth: nat) -> Outcome
    decreases depth, 2nat, 0nat,
{
    match items_at(text, 0) {
        Ok((forms, _)) => if forms.len() == 0 {
            done(Value::List(Seq::empty()), s)
        } else {
            eval_body(forms, 0, s, frame, depth)
        },
        Err(_) => failed(Fault::LoadFailure, s),
    }
}

} // verus!
