//! Laws of evaluation and of environments, proved from the semantics.

use vstd::prelude::*;
use crate::env::Store;
use crate::error::Fault;
use crate::lispval::{as_text, Primitive, Value};
use crate::parser::items_at;
use crate::semantics::{
    apply_spec,
    arity_fits,
    bind_params,
    call_spec,
    define_var_spec,
    done,
    enter,
    eval_body,
    eval_each,
    eval_list_spec,
    eval_spec,
    failed,
    is_define_func,
    is_define_var,
    is_define_vararg,
    is_if,
    is_lambda,
    is_set,
    load_spec,
    load_text_spec,
    primitive_spec,
    set_spec,
};

verus! {

/// `v` is a number, a text or a boolean.
pub open spec fn is_literal(v: Value) -> bool {
    v is Number || v is LispString || v is Boolean
}

/// The form `(define name expr)`.
pub open spec fn define_form(name: Seq<char>, expr: Value) -> Value {
    Value::List(seq![Value::Atom("define"@), Value::Atom(name), expr])
}

/// The form `(set! name expr)`.
pub open spec fn set_form(name: Seq<char>, expr: Value) -> Value {
    Value::List(seq![Value::Atom("set!"@), Value::Atom(name), expr])
}

/// A number, a text and a boolean evaluate to themselves: in every store, in
/// every frame and at every depth, and the store stays as it is.
pub proof fn law_literal_evaluates_to_itself(v: Value, s: Store, frame: nat, depth: nat)
    requires
        is_literal(v),
    ensures
        eval_spec(v, s, frame, depth) == done(v, s),
{
}

/// What evaluation may do to a store: add frames and bindings. It removes
/// no frame, gives no frame another parent, changes no resource, and leaves
/// a well-formed store well formed.
pub open spec fn evolves(a: Store, b: Store) -> bool {
    &&& a.frames.len() <= b.frames.len()
    &&& a.resources == b.resources
    &&& forall|i: int|
        0 <= i < a.frames.len() ==> (#[trigger] b.frames[i]).parent == a.frames[i].parent
    &&& a.well_formed() ==> b.well_formed()
}

/// What a store evolves into may evolve further.
pub proof fn lemma_evolves_on(a: Store, b: Store, c: Store)
    requires
        evolves(a, b),
        evolves(b, c),
    ensures
        evolves(a, c),
{
    assert forall|i: int| 0 <= i < a.frames.len() implies (#[trigger] c.frames[i]).parent
        == a.frames[i].parent by {
        assert(b.frames[i].parent == a.frames[i].parent);
    }
}

/// A definition is a step of evolution.
pub proof fn lemma_define_evolves(s: Store, frame: nat, name: Seq<char>, v: Value)
    ensures
        evolves(s, s.define(frame, name, v)),
{
    let t = s.define(frame, name, v);
    if s.well_formed() {
        assert forall|i: int| 0 <= i < t.frames.len() implies match (#[trigger] t.frames[i]).parent {
            Some(p) => p < i,
            None => true,
        } by {
            assert(t.frames[i].parent == s.frames[i].parent);
        }
    }
}

/// A new frame enclosed by a frame of the store is a step of evolution.
pub proof fn lemma_child_evolves(s: Store, parent: nat)
    requires
        parent < s.frames.len(),
    ensures
        evolves(s, s.child(parent)),
{
    let t = s.child(parent);
    if s.well_formed() {
        assert forall|i: int| 0 <= i < t.frames.len() implies match (#[trigger] t.frames[i]).parent {
            Some(p) => p < i,
            None => true,
        } by {
            if i < s.frames.len() {
                assert(t.frames[i] == s.frames[i]);
            }
        }
    }
}

/// Binding parameters is evolution, and adds no frame.
pub proof fn lemma_bind_params_evolves(
    s: Store,
    callee: nat,
    params: Seq<Seq<char>>,
    args: Seq<Value>,
    n: nat,
)
    ensures
        evolves(s, bind_params(s, callee, params, args, n)),
        bind_params(s, callee, params, args, n).frames.len() == s.frames.len(),
    decreases n,
{
    if n > 0 {
        let before = bind_params(s, callee, params, args, (n - 1) as nat);
        lemma_bind_params_evolves(s, callee, params, args, (n - 1) as nat);
        lemma_define_evolves(before, callee, params[n - 1], args[n - 1]);
        lemma_evolves_on(s, before, before.define(callee, params[n - 1], args[n - 1]));
    } else {
        }
}

/// To enter a closure whose frame the store holds is evolution, and adds one
/// frame.
pub proof fn lemma_enter_evolves(
    s: Store,
    params: Seq<Seq<char>>,
    vararg: Option<Seq<char>>,
    closure: nat,
    args: Seq<Value>,
)
    requires
        closure < s.frames.len(),
    ensures
        evolves(s, enter(s, params, vararg, closure, args)),
        enter(s, params, vararg, closure, args).frames.len() == s.frames.len() + 1,
{
    let callee = s.frames.len();
    let made = s.child(closure);
    let bound = bind_params(made, callee, params, args, params.len());
    lemma_child_evolves(s, closure);
    lemma_bind_params_evolves(made, callee, params, args, params.len());
    lemma_evolves_on(s, made, bound);
    match vararg {
        Some(rest) => {
            let given = Value::List(args.subrange(params.len() as int, args.len() as int));
            lemma_define_evolves(bound, callee, rest, given);
            lemma_evolves_on(s, bound, bound.define(callee, rest, given));
        },
        None => {},
    }
}

/// Evaluation is evolution: of every expression, in every store and frame, at
/// every depth, whether it ends with a value or with a fault.
pub proof fn lemma_eval_evolves(v: Value, s: Store, frame: nat, depth: nat)
    ensures
        evolves(s, eval_spec(v, s, frame, depth).store),
    decreases depth, 0nat, 0nat,
{
    match v {
        Value::List(items) => {
            if depth > 0 {
                lemma_list_evolves(items, s, frame, (depth - 1) as nat);
            }
        },
        _ => {},
    }
}

/// The evaluation of a list is evolution.
pub proof fn lemma_list_evolves(items: Seq<Value>, s: Store, frame: nat, depth: nat)
    ensures
        evolves(s, eval_list_spec(items, s, frame, depth).store),
    decreases depth, 5nat, 0nat,
{
    if is_if(items) {
        lemma_eval_evolves(items[1], s, frame, depth);
        let cond = eval_spec(items[1], s, frame, depth);
        lemma_eval_evolves(items[2], cond.store, frame, depth);
        lemma_eval_evolves(items[3], cond.store, frame, depth);
        lemma_evolves_on(s, cond.store, eval_spec(items[2], cond.store, frame, depth).store);
        lemma_evolves_on(s, cond.store, eval_spec(items[3], cond.store, frame, depth).store);
    } else if is_define_var(items) {
        lemma_eval_evolves(items[2], s, frame, depth);
        let value = eval_spec(items[2], s, frame, depth);
        match value.result {
            Ok(v) => {
                lemma_define_evolves(value.store, frame, items[1]->Atom_0, v);
                lemma_evolves_on(s, value.store, value.store.define(frame, items[1]->Atom_0, v));
            },
            Err(_) => {},
        }
    } else if is_define_vararg(items) {
        let out = eval_list_spec(items, s, frame, depth);
        let head = items[1]->DottedList_0;
        if head.len() > 0 && head[0] is Atom {
            lemma_define_evolves(s, frame, head[0]->Atom_0, out.result->Ok_0);
        }
    } else if is_define_func(items) {
        let out = eval_list_spec(items, s, frame, depth);
        let head = items[1]->List_0;
        if head.len() > 0 && head[0] is Atom {
            lemma_define_evolves(s, frame, head[0]->Atom_0, out.result->Ok_0);
        }
    } else if is_set(items) {
        match items[1] {
            Value::Atom(name) => {
                lemma_eval_evolves(items[2], s, frame, depth);
                let value = eval_spec(items[2], s, frame, depth);
                match value.result {
                    Ok(v) => {
                        match value.store.resolve(frame, name) {
                            Some(f) => {
                                lemma_define_evolves(value.store, f, name, v);
                                lemma_evolves_on(s, value.store, value.store.define(f, name, v));
                            },
                            None => {},
                        }
                    },
                    Err(_) => {},
                }
            },
            _ => {},
        }
    } else if is_lambda(items) {
    } else if items.len() > 0 {
        lemma_each_evolves(items, 0, Seq::empty(), s, frame, depth);
        let all = eval_each(items, 0, Seq::empty(), s, frame, depth);
        match all.result {
            Ok(values) => {
                if values.len() > 0 {
                    let rest = values.subrange(1, values.len() as int);
                    lemma_call_evolves(values[0], rest, all.store, frame, depth);
                    lemma_evolves_on(
                        s,
                        all.store,
                        call_spec(values[0], rest, all.store, frame, depth).store,
                    );
                }
            },
            Err(_) => {},
        }
    }
}

/// The evaluation of a sequence is evolution.
pub proof fn lemma_each_evolves(
    items: Seq<Value>,
    from: nat,
    acc: Seq<Value>,
    s: Store,
    frame: nat,
    depth: nat,
)
    ensures
        evolves(s, eval_each(items, from, acc, s, frame, depth).store),
    decreases depth, 1nat, items.len() - from,
{
    if from < items.len() {
        lemma_eval_evolves(items[from as int], s, frame, depth);
        let one = eval_spec(items[from as int], s, frame, depth);
        match one.result {
            Ok(v) => {
                lemma_each_evolves(items, from + 1, acc.push(v), one.store, frame, depth);
                lemma_evolves_on(
                    s,
                    one.store,
                    eval_each(items, from + 1, acc.push(v), one.store, frame, depth).store,
                );
            },
            Err(_) => {},
        }
    }
}

/// The evaluation of a body is evolution.
pub proof fn lemma_body_evolves(body: Seq<Value>, from: nat, s: Store, frame: nat, depth: nat)
    ensures
        evolves(s, eval_body(body, from, s, frame, depth).store),
    decreases depth, 1nat, body.len() - from,
{
    if from < body.len() {
        lemma_eval_evolves(body[from as int], s, frame, depth);
        let one = eval_spec(body[from as int], s, frame, depth);
        if !(one.result is Err || from + 1 == body.len()) {
            lemma_body_evolves(body, from + 1, one.store, frame, depth);
            lemma_evolves_on(s, one.store, eval_body(body, from + 1, one.store, frame, depth).store);
        }
    }
}

/// A call is evolution.
pub proof fn lemma_call_evolves(
    target: Value,
    args: Seq<Value>,
    s: Store,
    frame: nat,
    depth: nat,
)
    ensures
        evolves(s, call_spec(target, args, s, frame, depth).store),
    decreases depth, 3nat, 0nat,
{
    match target {
        Value::PrimitiveFunc(p) => {
            lemma_primitive_evolves(p, args, s, frame, depth);
        },
        Value::Func { args: params, vararg, body, closure } => {
            if arity_fits(params, vararg, args.len()) && closure < s.frames.len() {
                let callee = s.frames.len();
                let entered = enter(s, params, vararg, closure, args);
                lemma_enter_evolves(s, params, vararg, closure, args);
                lemma_body_evolves(body, 0, entered, callee, depth);
                lemma_evolves_on(s, entered, eval_body(body, 0, entered, callee, depth).store);
            }
        },
        _ => {},
    }
}

/// The application of a primitive is evolution.
pub proof fn lemma_primitive_evolves(
    p: Primitive,
    args: Seq<Value>,
    s: Store,
    frame: nat,
    depth: nat,
)
    ensures
        evolves(s, primitive_spec(p, args, s, frame, depth).store),
    decreases depth, 2nat, 2nat,
{
    match p {
        Primitive::Apply => {
            lemma_apply_evolves(args, s, frame, depth);
        },
        Primitive::Load => {
            lemma_load_evolves(args, s, frame, depth);
        },
        _ => {},
    }
}

/// `apply` is evolution.
pub proof fn lemma_apply_evolves(args: Seq<Value>, s: Store, frame: nat, depth: nat)
    ensures
        evolves(s, apply_spec(args, s, frame, depth).store),
    decreases depth, 2nat, 0nat,
{
    if args.len() >= 2 && depth > 0 {
        match args[1] {
            Value::List(given) => {
                lemma_call_evolves(args[0], given, s, frame, (depth - 1) as nat);
            },
            _ => {},
        }
    }
}

/// `load` is evolution.
pub proof fn lemma_load_evolves(args: Seq<Value>, s: Store, frame: nat, depth: nat)
    ensures
        evolves(s, load_spec(args, s, frame, depth).store),
    decreases depth, 2nat, 1nat,
{
    if args.len() == 1 {
        match as_text(args[0]) {
            Ok(name) => {
                if s.resources.contains_key(name) {
                    lemma_load_text_evolves(s.resources[name], s, frame, depth);
                }
            },
            Err(_) => {},
        }
    }
}

/// The evaluation of the forms of a text is evolution.
pub proof fn lemma_load_text_evolves(text: Seq<char>, s: Store, frame: nat, depth: nat)
    ensures
        evolves(s, load_text_spec(text, s, frame, depth).store),
    decreases depth, 2nat, 0nat,
{
    match items_at(text, 0) {
        Ok((forms, _)) => {
            if forms.len() > 0 {
                lemma_body_evolves(forms, 0, s, frame, depth);
            }
        },
        Err(_) => {},
    }
}

/// After `(define name expr)` has been evaluated in a frame, `name` evaluates
/// in that frame to the value that the definition returned, and the store
/// stays as the definition left it.
pub proof fn law_define_then_lookup(
    name: Seq<char>,
    expr: Value,
    s: Store,
    frame: nat,
    depth: nat,
    later: nat,
)
    requires
        frame < s.frames.len(),
        eval_spec(define_form(name, expr), s, frame, depth).result is Ok,
    ensures
        ({
            let defined = eval_spec(define_form(name, expr), s, frame, depth);
            eval_spec(Value::Atom(name), defined.store, frame, later) == done(
                defined.result->Ok_0,
                defined.store,
            )
        }),
{
    let items = seq![Value::Atom("define"@), Value::Atom(name), expr];
    assert(depth > 0);
    let inner = (depth - 1) as nat;
    assert(is_define_var(items));
    assert(!is_if(items));
    let value = eval_spec(expr, s, frame, inner);
    assert(items[2] == expr);
    assert(eval_list_spec(items, s, frame, inner) == define_var_spec(items, s, frame, inner));
    lemma_eval_evolves(expr, s, frame, inner);
    let v = value.result->Ok_0;
    let after = value.store.define(frame, name, v);
    assert(after.frames[frame as int].vars.contains_key(name));
    assert(after.resolve(frame, name) == Some(frame));
}

/// `(set! name expr)` fails with an unbound variable, whatever `expr` is
/// worth, where no frame of the chain binds `name` once `expr` has been
/// evaluated; the store is as `expr` left it.
pub proof fn law_set_of_unbound_name_fails(
    name: Seq<char>,
    expr: Value,
    s: Store,
    frame: nat,
    depth: nat,
)
    requires
        depth > 0,
        eval_spec(expr, s, frame, (depth - 1) as nat).result is Ok,
        eval_spec(expr, s, frame, (depth - 1) as nat).store.resolve(frame, name) is None,
    ensures
        eval_spec(set_form(name, expr), s, frame, depth) == failed(
            Fault::UnboundVariable(name),
            eval_spec(expr, s, frame, (depth - 1) as nat).store,
        ),
{
    let items = seq![Value::Atom("set!"@), Value::Atom(name), expr];
    let inner = (depth - 1) as nat;
    lemma_set_is_not_define();
    assert(is_set(items));
    assert(!is_if(items));
    assert(!is_define_var(items));
    assert(!is_define_vararg(items));
    assert(!is_define_func(items));
    assert(items[2] == expr);
    assert(eval_list_spec(items, s, frame, inner) == set_spec(items, s, frame, inner));
}

/// `(set! name literal)` fails with an unbound variable in every store in
/// which no frame of the chain binds `name`, and leaves the store as it is.
pub proof fn law_set_on_fresh_name_fails(
    name: Seq<char>,
    literal: Value,
    s: Store,
    frame: nat,
    depth: nat,
)
    requires
        depth > 0,
        is_literal(literal),
        s.resolve(frame, name) is None,
    ensures
        eval_spec(set_form(name, literal), s, frame, depth) == failed(
            Fault::UnboundVariable(name),
            s,
        ),
{
    law_literal_evaluates_to_itself(literal, s, frame, (depth - 1) as nat);
    law_set_of_unbound_name_fails(name, literal, s, frame, depth);
}

/// The words `set!` and `define` differ.
proof fn lemma_set_is_not_define()
    ensures
        "set!"@ != "define"@,
{
    reveal_strlit("set!");
    reveal_strlit("define");
    assert("set!"@.len() == 4);
    assert("define"@.len() == 6);
}

/// A binding made in a frame is what the frame then sees under that name.
pub proof fn law_define_binds_locally(s: Store, frame: nat, name: Seq<char>, v: Value)
    requires
        frame < s.frames.len(),
    ensures
        s.define(frame, name, v).lookup(frame, name) == Some(v),
        s.define(frame, name, v).resolve(frame, name) == Some(frame),
{
}

/// What a frame sees does not depend on a later frame.
pub proof fn lemma_resolve_ignores_later_frames(
    s: Store,
    t: Store,
    frame: nat,
    changed: nat,
    name: Seq<char>,
)
    requires
        s.well_formed(),
        s.frames.len() == t.frames.len(),
        frame < changed,
        forall|i: int| 0 <= i < s.frames.len() && i != changed ==> s.frames[i] == t.frames[i],
    ensures
        s.resolve(frame, name) == t.resolve(frame, name),
        s.lookup(frame, name) == t.lookup(frame, name),
    decreases frame,
{
    if frame < s.frames.len() {
        assert(s.frames[frame as int] == t.frames[frame as int]);
        if !s.frames[frame as int].vars.contains_key(name) {
            match s.frames[frame as int].parent {
                Some(p) => {
                    if p < frame {
                        lemma_resolve_ignores_later_frames(s, t, p, changed, name);
                    }
                },
                None => {},
            }
        }
        s.lemma_resolve(frame, name);
        t.lemma_resolve(frame, name);
    }
}

/// Shadowing: a definition in a frame alters nothing that an earlier frame
/// sees, under any name. The frame that encloses a frame is an earlier one,
/// so a definition in a child frame leaves the parent's bindings as they are.
pub proof fn law_define_in_child_leaves_parent(
    s: Store,
    child: nat,
    parent: nat,
    name: Seq<char>,
    v: Value,
    seen: Seq<char>,
)
    requires
        s.well_formed(),
        child < s.frames.len(),
        parent < child,
    ensures
        s.define(child, name, v).lookup(parent, seen) == s.lookup(parent, seen),
        s.define(child, name, v).frames[parent as int] == s.frames[parent as int],
{
    lemma_resolve_ignores_later_frames(s, s.define(child, name, v), parent, child, seen);
}

/// Assignment goes to the nearest binding: where the frame itself binds the
/// name, the frame is rebound and every other frame stays as it is, whatever
/// the enclosing frames bind.
pub proof fn law_set_rebinds_own_binding(s: Store, frame: nat, name: Seq<char>, v: Value)
    requires
        frame < s.frames.len(),
        s.frames[frame as int].vars.contains_key(name),
    ensures
        s.assign(frame, name, v) == Some(s.define(frame, name, v)),
        s.assign(frame, name, v)->0.lookup(frame, name) == Some(v),
        forall|i: int|
            0 <= i < s.frames.len() && i != frame ==> s.assign(frame, name, v)->0.frames[i]
                == s.frames[i],
{
}

/// Assignment goes to the nearest binding: where the frame does not bind the
/// name itself, the assignment is the one that the enclosing frame would make,
/// so it rebinds the name in an ancestor; the frame then sees the new value
/// and binds nothing more than before.
pub proof fn law_set_reaches_enclosing_binding(
    s: Store,
    frame: nat,
    parent: nat,
    name: Seq<char>,
    v: Value,
)
    requires
        s.well_formed(),
        frame < s.frames.len(),
        !s.frames[frame as int].vars.contains_key(name),
        s.frames[frame as int].parent == Some(parent),
        s.resolve(parent, name) is Some,
    ensures
        s.assign(frame, name, v) == s.assign(parent, name, v),
        s.assign(frame, name, v) is Some,
        s.resolve(frame, name)->0 < frame,
        s.assign(frame, name, v)->0.lookup(frame, name) == Some(v),
        s.assign(frame, name, v)->0.frames[frame as int] == s.frames[frame as int],
{
    assert(parent < frame);
    s.lemma_resolve(parent, name);
    let f = s.resolve(parent, name)->0;
    let t = s.define(f, name, v);
    lemma_resolve_after_rebinding(s, frame, f, name, v);
}

/// To rebind a name in the frame that a chain resolves it to leaves the chain
/// resolving it to that frame.
pub proof fn lemma_resolve_after_rebinding(s: Store, frame: nat, f: nat, name: Seq<char>, v: Value)
    requires
        s.well_formed(),
        frame < s.frames.len(),
        s.resolve(frame, name) == Some(f),
    ensures
        s.define(f, name, v).resolve(frame, name) == Some(f),
        s.define(f, name, v).lookup(frame, name) == Some(v),
    decreases frame,
{
    s.lemma_resolve(frame, name);
    if f != frame {
        match s.frames[frame as int].parent {
            Some(p) => {
                lemma_resolve_after_rebinding(s, p, f, name, v);
            },
            None => {},
        }
    }
}

/// Scoping is lexical: what a call of a closure does depends on the frame in
/// which the closure was made, not on the frame from which it is called. The
/// frame of the call is new, and the frame of the closure encloses it.
pub proof fn law_calls_are_lexically_scoped(
    params: Seq<Seq<char>>,
    vararg: Option<Seq<char>>,
    body: Seq<Value>,
    closure: nat,
    args: Seq<Value>,
    s: Store,
    caller: nat,
    other: nat,
    depth: nat,
)
    ensures
        ({
            let f = Value::Func { args: params, vararg, body, closure };
            let entered = enter(s, params, vararg, closure, args);
            &&& call_spec(f, args, s, caller, depth) == call_spec(f, args, s, other, depth)
            &&& entered.frames.len() == s.frames.len() + 1
            &&& entered.frames[s.frames.len() as int].parent == Some(closure)
            &&& forall|i: int| 0 <= i < s.frames.len() ==> entered.frames[i] == s.frames[i]
        }),
{
    let callee = s.frames.len();
    lemma_bind_params_touches_one_frame(s.child(closure), callee, params, args, params.len());
}

/// Binding parameters changes the bindings of the one frame and nothing else.
pub proof fn lemma_bind_params_touches_one_frame(
    s: Store,
    callee: nat,
    params: Seq<Seq<char>>,
    args: Seq<Value>,
    n: nat,
)
    requires
        callee < s.frames.len(),
    ensures
        ({
            let bound = bind_params(s, callee, params, args, n);
            &&& bound.frames.len() == s.frames.len()
            &&& bound.resources == s.resources
            &&& bound.frames[callee as int].parent == s.frames[callee as int].parent
            &&& forall|i: int|
                0 <= i < s.frames.len() && i != callee ==> bound.frames[i] == s.frames[i]
        }),
    decreases n,
{
    if n > 0 {
        lemma_bind_params_touches_one_frame(s, callee, params, args, (n - 1) as nat);
    }
}

/// Arity: a closure that is not variadic takes exactly as many arguments as it
/// has parameters, a variadic one at least as many. A call with another
/// number of arguments fails with an arity mismatch and leaves the store as
/// it is; a call with a fitting number runs the body in a new frame.
pub proof fn law_arity(
    params: Seq<Seq<char>>,
    vararg: Option<Seq<char>>,
    body: Seq<Value>,
    closure: nat,
    args: Seq<Value>,
    s: Store,
    frame: nat,
    depth: nat,
)
    ensures
        ({
            let f = Value::Func { args: params, vararg, body, closure };
            let fits = match vararg {
                Some(_) => args.len() >= params.len(),
                None => args.len() == params.len(),
            };
            &&& !fits ==> call_spec(f, args, s, frame, depth) == failed(Fault::ArityMismatch, s)
            &&& fits && closure < s.frames.len() ==> call_spec(f, args, s, frame, depth)
                == eval_body(body, 0, enter(s, params, vararg, closure, args), s.frames.len(), depth)
        }),
{
}

/// Arity: a closure whose body is one literal returns that literal on every
/// call with a fitting number of arguments.
pub proof fn law_fitting_call_succeeds(
    params: Seq<Seq<char>>,
    vararg: Option<Seq<char>>,
    literal: Value,
    closure: nat,
    args: Seq<Value>,
    s: Store,
    frame: nat,
    depth: nat,
)
    requires
        is_literal(literal),
        closure < s.frames.len(),
        arity_fits(params, vararg, args.len()),
    ensures
        call_spec(
            Value::Func { args: params, vararg, body: seq![literal], closure },
            args,
            s,
            frame,
            depth,
        ).result == Ok::<Value, Fault>(literal),
{
    let body = seq![literal];
    let entered = enter(s, params, vararg, closure, args);
    assert(body[0] == literal);
    law_literal_evaluates_to_itself(literal, entered, s.frames.len(), depth);
}

} // verus!
