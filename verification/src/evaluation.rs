//! The evaluator: special forms, application, calls of closures.
//!
//! Each function computes what the function of the same purpose in
//! [`crate::semantics`] defines, on the models of its arguments.

use vstd::prelude::*;
use crate::env::Env;
use crate::error::LispErr;
use crate::lispval::{
    clone_from,
    lemma_view_all,
    result_view,
    view_all,
    view_name,
    view_names,
    LispVal,
    Value,
};
use crate::primitive_functions::apply_primitive;
use crate::semantics::{
    application_spec,
    bind_params,
    call_spec,
    define_func_spec,
    define_var_spec,
    define_vararg_spec,
    enter,
    eval_body,
    eval_each,
    eval_list_spec,
    eval_spec,
    if_spec,
    is_define_func,
    is_define_var,
    is_define_vararg,
    is_if,
    is_lambda,
    is_set,
    lambda_spec,
    param_names,
    set_spec,
    Outcome,
};
use crate::text::is_word;

verus! {

/// An evaluation that started in `before` and ended in `after` with `r` ended
/// as `expected` says: with that result, in that store. The environment is
/// still well formed and has lost no frame.
pub open spec fn evaluates(
    before: Env,
    r: Result<LispVal, LispErr>,
    after: Env,
    expected: Outcome,
) -> bool {
    &&& after.wf()
    &&& before@.frames.len() <= after@.frames.len()
    &&& result_view(r) == expected.result
    &&& after@ == expected.store
}

/// Evaluates `v` in the frame `frame` of `env`, entering at most `depth`
/// lists one inside the other.
pub fn eval(v: &LispVal, env: &mut Env, frame: usize, depth: usize) -> (r: Result<LispVal, LispErr>)
    requires
        old(env).wf(),
        frame < old(env)@.frames.len(),
    ensures
        evaluates(*old(env), r, *final(env), eval_spec(v@, old(env)@, frame as nat, depth as nat)),
    decreases depth, 0nat, 0nat,
{
    match v {
        LispVal::Atom(name) => get_var(name.as_str(), env, frame),
        LispVal::Quote(q) => Ok((**q).clone()),
        LispVal::List(items) => {
            if depth == 0 {
                Err(LispErr::DepthExceeded)
            } else {
                eval_list(items, env, frame, depth - 1)
            }
        },
        _ => Ok(v.clone()),
    }
}

/// Evaluates a list: as the first special form whose shape it has, else as an
/// application.
fn eval_list(list: &Vec<LispVal>, env: &mut Env, frame: usize, depth: usize) -> (r: Result<
    LispVal,
    LispErr,
>)
    requires
        old(env).wf(),
        frame < old(env)@.frames.len(),
    ensures
        evaluates(
            *old(env),
            r,
            *final(env),
            eval_list_spec(view_all(list@), old(env)@, frame as nat, depth as nat),
        ),
    decreases depth, 5nat, 0nat,
{
    match evaluate_if(list, env, frame, depth) {
        Some(r) => {
            return r;
        },
        None => {},
    }
    match define_var(list, env, frame, depth) {
        Some(r) => {
            return r;
        },
        None => {},
    }
    match define_vararg_func(list, env, frame) {
        Some(r) => {
            return r;
        },
        None => {},
    }
    match define_func(list, env, frame) {
        Some(r) => {
            return r;
        },
        None => {},
    }
    match set_var(list, env, frame, depth) {
        Some(r) => {
            return r;
        },
        None => {},
    }
    match eval_lambda(list, env, frame) {
        Some(r) => {
            return r;
        },
        None => {},
    }
    match eval_function_call(list, env, frame, depth) {
        Some(r) => r,
        None => Err(LispErr::UnrecognizedForm),
    }
}

/// The element at index `i`, where there is one.
fn consume(list: &Vec<LispVal>, i: usize) -> (r: Option<&LispVal>)
    ensures
        match r {
            Some(v) => i < list.len() && *v == list[i as int],
            None => i >= list.len(),
        },
{
    if i < list.len() {
        Some(&list[i])
    } else {
        None
    }
}

/// Whether there is an element and it is the atom `expected`.
fn consume_exact(opt: Option<&LispVal>, expected: &str) -> (b: bool)
    ensures
        b == (opt is Some && opt->0@ == Value::Atom(expected@)),
{
    match opt {
        Some(LispVal::Atom(name)) => is_word(name, expected),
        _ => false,
    }
}

/// The elements of the list that the element is, where it is one.
fn consume_list(opt: Option<&LispVal>) -> (r: Option<&Vec<LispVal>>)
    ensures
        match r {
            Some(items) => opt is Some && *opt->0 == LispVal::List(*items),
            None => !(opt is Some && opt->0@ is List),
        },
{
    match opt {
        Some(LispVal::List(items)) => Some(items),
        _ => None,
    }
}

/// The leading elements and the tail of the improper list that the element
/// is, where it is one.
fn consume_dotted_list(opt: Option<&LispVal>) -> (r: Option<(&Vec<LispVal>, &LispVal)>)
    ensures
        match r {
            Some((items, tail)) => opt is Some && *opt->0 == LispVal::DottedList(
                *items,
                Box::new(*tail),
            ),
            None => !(opt is Some && opt->0@ is DottedList),
        },
{
    match opt {
        Some(LispVal::DottedList(items, tail)) => Some((items, &**tail)),
        _ => None,
    }
}

/// The name that the element is, where it is an atom; a type mismatch where
/// it is none or there is no element.
fn extract_str_from_atom(opt: Option<&LispVal>) -> (r: Result<String, LispErr>)
    ensures
        match r {
            Ok(name) => opt is Some && opt->0@ == Value::Atom(name@),
            Err(e) => !(opt is Some && opt->0@ is Atom) && e == LispErr::TypeMismatch,
        },
{
    match opt {
        Some(LispVal::Atom(name)) => Ok(name.clone()),
        _ => Err(LispErr::TypeMismatch),
    }
}

/// The canonical text of each element from index `from` on: the names of the
/// parameters that the elements stand for.
fn names_from(items: &Vec<LispVal>, from: usize) -> (r: Vec<String>)
    requires
        from <= items.len(),
    ensures
        view_names(r@) == param_names(view_all(items@).subrange(from as int, items.len() as int)),
{
    let mut r: Vec<String> = Vec::new();
    let mut i: usize = from;
    while i < items.len()
        invariant
            from <= i <= items.len(),
            r.len() == i - from,
            forall|j: int| 0 <= j < i - from ==> r[j]@ == crate::lispval::render(items[j + from]@),
        decreases items.len() - i,
    {
        r.push(items[i].to_string());
        i += 1;
    }
    assert(view_names(r@) =~= param_names(
        view_all(items@).subrange(from as int, items.len() as int),
    ));
    r
}

/// A copy of the elements from index `from` on.
fn copy_from(list: &[LispVal], from: usize) -> (r: Vec<LispVal>)
    requires
        from <= list.len(),
    ensures
        view_all(r@) == view_all(list@).subrange(from as int, list.len() as int),
{
    let mut r: Vec<LispVal> = Vec::new();
    let mut i: usize = from;
    while i < list.len()
        invariant
            from <= i <= list.len(),
            r.len() == i - from,
            forall|j: int| 0 <= j < i - from ==> r[j]@ == list[j + from]@,
        decreases list.len() - i,
    {
        r.push(list[i].clone());
        i += 1;
    }
    assert(view_all(r@) =~= view_all(list@).subrange(from as int, list.len() as int));
    r
}

/// `(if cond then else)`. None where the list has not this shape.
fn evaluate_if(list: &Vec<LispVal>, env: &mut Env, frame: usize, depth: usize) -> (r: Option<
    Result<LispVal, LispErr>,
>)
    requires
        old(env).wf(),
        frame < old(env)@.frames.len(),
    ensures
        match r {
            Some(res) => is_if(view_all(list@)) && evaluates(
                *old(env),
                res,
                *final(env),
                if_spec(view_all(list@), old(env)@, frame as nat, depth as nat),
            ),
            None => !is_if(view_all(list@)) && *final(env) == *old(env),
        },
    decreases depth, 4nat, 0nat,
{
    if !(list.len() == 4 && consume_exact(consume(list, 0), "if")) {
        return None;
    }
    let condition = match eval(&list[1], env, frame, depth) {
        Ok(c) => c,
        Err(e) => {
            return Some(Err(e));
        },
    };
    match condition {
        LispVal::Boolean(true) => Some(eval(&list[2], env, frame, depth)),
        LispVal::Boolean(false) => Some(eval(&list[3], env, frame, depth)),
        _ => Some(Err(LispErr::TypeMismatch)),
    }
}

/// `(define name expr)`. None where the list has not this shape.
fn define_var(list: &Vec<LispVal>, env: &mut Env, frame: usize, depth: usize) -> (r: Option<
    Result<LispVal, LispErr>,
>)
    requires
        old(env).wf(),
        frame < old(env)@.frames.len(),
    ensures
        match r {
            Some(res) => is_define_var(view_all(list@)) && evaluates(
                *old(env),
                res,
                *final(env),
                define_var_spec(view_all(list@), old(env)@, frame as nat, depth as nat),
            ),
            None => !is_define_var(view_all(list@)) && *final(env) == *old(env),
        },
    decreases depth, 4nat, 0nat,
{
    if !(list.len() == 3 && consume_exact(consume(list, 0), "define")) {
        return None;
    }
    let name = match &list[1] {
        LispVal::Atom(s) => s,
        _ => {
            return None;
        },
    };
    let val = match eval(&list[2], env, frame, depth) {
        Ok(v) => v,
        Err(e) => {
            return Some(Err(e));
        },
    };
    Some(env.define(frame, name.as_str(), val))
}

/// `(set! name expr)`. None where the list has not this shape.
fn set_var(list: &Vec<LispVal>, env: &mut Env, frame: usize, depth: usize) -> (r: Option<
    Result<LispVal, LispErr>,
>)
    requires
        old(env).wf(),
        frame < old(env)@.frames.len(),
    ensures
        match r {
            Some(res) => is_set(view_all(list@)) && evaluates(
                *old(env),
                res,
                *final(env),
                set_spec(view_all(list@), old(env)@, frame as nat, depth as nat),
            ),
            None => !is_set(view_all(list@)) && *final(env) == *old(env),
        },
    decreases depth, 4nat, 0nat,
{
    if !(list.len() == 3 && consume_exact(consume(list, 0), "set!")) {
        return None;
    }
    proof {
        lemma_view_all(list@);
    }
    let name = match extract_str_from_atom(consume(list, 1)) {
        Ok(s) => s,
        Err(e) => {
            return Some(Err(e));
        },
    };
    let val = match eval(&list[2], env, frame, depth) {
        Ok(v) => v,
        Err(e) => {
            return Some(Err(e));
        },
    };
    Some(env.set(frame, name.as_str(), val))
}

/// What `name` stands for in `frame`; unbound where no frame of the chain
/// binds it.
fn get_var(name: &str, env: &Env, frame: usize) -> (r: Result<LispVal, LispErr>)
    requires
        env.wf(),
        frame < env@.frames.len(),
    ensures
        evaluates(*env, r, *env, eval_spec(Value::Atom(name@), env@, frame as nat, 0)),
{
    match env.get(frame, name) {
        Some(v) => Ok(v),
        None => Err(LispErr::UnboundVariable(String::from_str(name))),
    }
}

/// `(define (name x y ... . rest) body...)`. None where the list has not
/// this shape.
fn define_vararg_func(list: &Vec<LispVal>, env: &mut Env, frame: usize) -> (r: Option<
    Result<LispVal, LispErr>,
>)
    requires
        old(env).wf(),
        frame < old(env)@.frames.len(),
    ensures
        match r {
            Some(res) => is_define_vararg(view_all(list@)) && evaluates(
                *old(env),
                res,
                *final(env),
                define_vararg_spec(view_all(list@), old(env)@, frame as nat),
            ),
            None => !is_define_vararg(view_all(list@)) && *final(env) == *old(env),
        },
{
    if !(list.len() >= 2 && consume_exact(consume(list, 0), "define")) {
        return None;
    }
    let (definition, vararg) = match consume_dotted_list(consume(list, 1)) {
        Some(pair) => pair,
        None => {
            return None;
        },
    };
    proof {
        lemma_view_all(list@);
        lemma_view_all(definition@);
    }
    let name = match extract_str_from_atom(consume(definition, 0)) {
        Ok(s) => s,
        Err(e) => {
            return Some(Err(e));
        },
    };
    let params = names_from(definition, 1);
    let body = clone_from(list, 2);
    let func = LispVal::Func {
        args: params,
        body: body,
        vararg: Some(vararg.to_string()),
        closure: frame,
    };
    Some(env.define(frame, name.as_str(), func))
}

/// `(define (name x y ...) body...)`. None where the list has not this
/// shape.
fn define_func(list: &Vec<LispVal>, env: &mut Env, frame: usize) -> (r: Option<
    Result<LispVal, LispErr>,
>)
    requires
        old(env).wf(),
        frame < old(env)@.frames.len(),
    ensures
        match r {
            Some(res) => is_define_func(view_all(list@)) && evaluates(
                *old(env),
                res,
                *final(env),
                define_func_spec(view_all(list@), old(env)@, frame as nat),
            ),
            None => !is_define_func(view_all(list@)) && *final(env) == *old(env),
        },
{
    if !(list.len() >= 2 && consume_exact(consume(list, 0), "define")) {
        return None;
    }
    let definition = match consume_list(consume(list, 1)) {
        Some(items) => items,
        None => {
            return None;
        },
    };
    proof {
        lemma_view_all(list@);
        lemma_view_all(definition@);
    }
    let name = match extract_str_from_atom(consume(definition, 0)) {
        Ok(s) => s,
        Err(e) => {
            return Some(Err(e));
        },
    };
    let params = names_from(definition, 1);
    let body = clone_from(list, 2);
    let func = LispVal::Func { args: params, body: body, vararg: None, closure: frame };
    Some(env.define(frame, name.as_str(), func))
}

/// `(lambda (x y ...) body...)`. None where the list has not this shape.
fn eval_lambda(list: &Vec<LispVal>, env: &Env, frame: usize) -> (r: Option<
    Result<LispVal, LispErr>,
>)
    requires
        env.wf(),
        frame < env@.frames.len(),
    ensures
        match r {
            Some(res) => is_lambda(view_all(list@)) && evaluates(
                *env,
                res,
                *env,
                lambda_spec(view_all(list@), env@, frame as nat),
            ),
            None => !is_lambda(view_all(list@)),
        },
{
    if !(list.len() >= 2 && consume_exact(consume(list, 0), "lambda")) {
        return None;
    }
    let definition = match consume_list(consume(list, 1)) {
        Some(items) => items,
        None => {
            return None;
        },
    };
    let params = names_from(definition, 0);
    let body = clone_from(list, 2);
    Some(Ok(LispVal::Func { args: params, body: body, vararg: None, closure: frame }))
}

/// `(f a1 a2 ...)`: evaluates the head and the arguments from left to right
/// and applies the one to the others. None where the list is empty.
fn eval_function_call(list: &Vec<LispVal>, env: &mut Env, frame: usize, depth: usize) -> (r: Option<
    Result<LispVal, LispErr>,
>)
    requires
        old(env).wf(),
        frame < old(env)@.frames.len(),
    ensures
        match r {
            Some(res) => list.len() > 0 && evaluates(
                *old(env),
                res,
                *final(env),
                application_spec(view_all(list@), old(env)@, frame as nat, depth as nat),
            ),
            None => list.len() == 0 && *final(env) == *old(env),
        },
    decreases depth, 4nat, 0nat,
{
    if list.len() < 1 {
        return None;
    }
    let ghost items = view_all(list@);
    let ghost start = env@;
    let mut values: Vec<LispVal> = Vec::new();
    let mut i: usize = 0;
    assert(view_all(values@) =~= Seq::empty());
    while i < list.len()
        invariant
            i <= list.len(),
            values.len() == i,
            items == view_all(list@),
            start == old(env)@,
            env.wf(),
            frame < env@.frames.len(),
            old(env)@.frames.len() <= env@.frames.len(),
            eval_each(items, 0, Seq::empty(), start, frame as nat, depth as nat) == eval_each(
                items,
                i as nat,
                view_all(values@),
                env@,
                frame as nat,
                depth as nat,
            ),
        decreases list.len() - i,
    {
        let ghost before = view_all(values@);
        assert(items[i as int] == list[i as int]@);
        match eval(&list[i], env, frame, depth) {
            Ok(v) => {
                values.push(v);
                assert(view_all(values@) =~= before.push(v@));
            },
            Err(e) => {
                return Some(Err(e));
            },
        }
        i += 1;
    }
    let ghost all = view_all(values@);
    let f = values.remove(0);
    assert(view_all(values@) =~= all.subrange(1, all.len() as int));
    assert(f@ == all[0]);
    Some(call_function(&f, values.as_slice(), env, frame, depth))
}

/// Evaluates the expressions of `body` in order and returns the value of the
/// last one, or the first error. A body without expressions is an error.
pub fn run_body(body: &Vec<LispVal>, env: &mut Env, frame: usize, depth: usize) -> (r: Result<
    LispVal,
    LispErr,
>)
    requires
        old(env).wf(),
        frame < old(env)@.frames.len(),
    ensures
        evaluates(
            *old(env),
            r,
            *final(env),
            eval_body(view_all(body@), 0, old(env)@, frame as nat, depth as nat),
        ),
    decreases depth, 1nat, 0nat,
{
    if body.len() == 0 {
        return Err(LispErr::EmptyBody);
    }
    let ghost forms = view_all(body@);
    let ghost start = env@;
    let mut i: usize = 0;
    loop
        invariant
            i < body.len(),
            forms == view_all(body@),
            start == old(env)@,
            env.wf(),
            frame < env@.frames.len(),
            old(env)@.frames.len() <= env@.frames.len(),
            eval_body(forms, 0, start, frame as nat, depth as nat) == eval_body(
                forms,
                i as nat,
                env@,
                frame as nat,
                depth as nat,
            ),
        decreases body.len() - i,
    {
        let result = eval(&body[i], env, frame, depth);
        if result.is_err() || i + 1 == body.len() {
            return result;
        }
        i += 1;
    }
}

/// Applies `f` to the arguments `list`, called from `frame`.
///
/// A primitive computes on the arguments. A closure takes exactly as many
/// arguments as it has parameters, or at least as many where it is variadic;
/// its body runs in a new frame enclosed by the frame in which the closure
/// was made. Anything else is not callable.
pub fn call_function(
    f: &LispVal,
    list: &[LispVal],
    env: &mut Env,
    frame: usize,
    depth: usize,
) -> (r: Result<LispVal, LispErr>)
    requires
        old(env).wf(),
        frame < old(env)@.frames.len(),
    ensures
        evaluates(
            *old(env),
            r,
            *final(env),
            call_spec(f@, view_all(list@), old(env)@, frame as nat, depth as nat),
        ),
    decreases depth, 3nat, 0nat,
{
    match f {
        LispVal::PrimitiveFunc(func) => apply_primitive(*func, list, env, frame, depth),
        LispVal::Func { args, body, vararg, closure } => {
            if (vararg.is_none() && list.len() != args.len()) || list.len() < args.len() {
                return Err(LispErr::ArityMismatch);
            }
            if *closure >= env.frame_count() {
                return Err(LispErr::NotCallable);
            }
            let ghost start = env@;
            let ghost params = view_names(args@);
            let ghost given = view_all(list@);
            let callee = env.child(*closure);
            let mut i: usize = 0;
            while i < args.len()
                invariant
                    i <= args.len() <= list.len(),
                    params == view_names(args@),
                    given == view_all(list@),
                    env.wf(),
                    callee == start.frames.len(),
                    env@.frames.len() == start.frames.len() + 1,
                    env@ == bind_params(
                        start.child(*closure as nat),
                        callee as nat,
                        params,
                        given,
                        i as nat,
                    ),
                decreases args.len() - i,
            {
                let _ = env.define(callee, args[i].as_str(), list[i].clone());
                i += 1;
            }
            match vararg {
                Some(vararg_name) => {
                    let var_arg_value = copy_from(list, args.len());
                    let _ = env.define(callee, vararg_name.as_str(), LispVal::List(var_arg_value));
                },
                None => {},
            }
            assert(env@ == enter(start, params, view_name(*vararg), *closure as nat, given));
            run_body(body, env, callee, depth)
        },
        _ => Err(LispErr::NotCallable),
    }
}

} // verus!
