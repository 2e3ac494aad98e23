//! Closures never dangle.
//!
//! A closure names the frame in which it was made. Evaluation makes a
//! closure only in a frame of the store, and the store never loses a frame,
//! so every closure that evaluation makes, returns or binds names a frame
//! that the store holds. What the reader reads holds no closure at all.

use vstd::prelude::*;
use crate::env::{fresh_store, Store};
use crate::laws::lemma_eval_evolves;
use crate::lispval::{as_text, Primitive, Value};
use crate::parser::{
    atom_at,
    dotted_list_at,
    expr_at,
    items_at,
    list_at,
    more_items,
    number_at,
    quoted_at,
    string_at,
    ParseError,
};
use crate::primitive_functions::eden_store;
use crate::primitive_specs::pure_primitive;
use crate::semantics::{
    apply_spec,
    arity_fits,
    bind_params,
    call_spec,
    enter,
    eval_body,
    eval_each,
    eval_list_spec,
    eval_spec,
    is_define_func,
    is_define_var,
    is_define_vararg,
    is_if,
    is_lambda,
    is_set,
    load_spec,
    load_text_spec,
    primitive_spec,
    Outcome,
};

verus! {

/// Every closure in `v`, however deep, names one of the first `frames`
/// frames.
pub open spec fn sound(v: Value, frames: nat) -> bool
    decreases v,
{
    match v {
        Value::List(items) => forall|i: int|
            0 <= i < items.len() ==> sound(#[trigger] items[i], frames),
        Value::DottedList(items, tail) => {
            &&& forall|i: int| 0 <= i < items.len() ==> sound(#[trigger] items[i], frames)
            &&& sound(*tail, frames)
        },
        Value::Quote(q) => sound(*q, frames),
        Value::Func { body, closure, .. } => {
            &&& closure < frames
            &&& forall|i: int| 0 <= i < body.len() ==> sound(#[trigger] body[i], frames)
        },
        _ => true,
    }
}

/// Each of `items` is sound.
pub open spec fn all_sound(items: Seq<Value>, frames: nat) -> bool {
    forall|i: int| 0 <= i < items.len() ==> sound(#[trigger] items[i], frames)
}

/// Every value that a frame binds is sound: no closure in the store names a
/// frame that the store does not hold.
pub open spec fn store_sound(s: Store) -> bool {
    forall|f: int, name: Seq<char>|
        0 <= f < s.frames.len() && s.frames[f].vars.contains_key(name) ==> sound(
            #[trigger] s.frames[f].vars[name],
            s.frames.len(),
        )
}

/// An evaluation ends well: its store is sound, and so is its value where it
/// has one.
pub open spec fn ends_sound(out: Outcome) -> bool {
    &&& store_sound(out.store)
    &&& match out.result {
        Ok(v) => sound(v, out.store.frames.len()),
        Err(_) => true,
    }
}

/// The store of a new environment is sound, and so is the store of a root
/// environment, which binds primitives only.
pub proof fn law_first_stores_are_sound()
    ensures
        store_sound(fresh_store()),
        store_sound(eden_store()),
{
    let s = eden_store();
    assert forall|f: int, name: Seq<char>|
        0 <= f < s.frames.len() && s.frames[f].vars.contains_key(name) implies sound(
        #[trigger] s.frames[f].vars[name],
        s.frames.len(),
    ) by {
        assert(s.frames[f].vars[name] is PrimitiveFunc);
    }
}

/// What is sound stays sound when the store gains frames.
pub proof fn lemma_sound_later(v: Value, frames: nat, later: nat)
    requires
        sound(v, frames),
        frames <= later,
    ensures
        sound(v, later),
    decreases v,
{
    match v {
        Value::List(items) => {
            assert forall|i: int| 0 <= i < items.len() implies sound(
                #[trigger] items[i],
                later,
            ) by {
                lemma_sound_later(items[i], frames, later);
            }
        },
        Value::DottedList(items, tail) => {
            assert forall|i: int| 0 <= i < items.len() implies sound(
                #[trigger] items[i],
                later,
            ) by {
                lemma_sound_later(items[i], frames, later);
            }
            lemma_sound_later(*tail, frames, later);
        },
        Value::Quote(q) => {
            lemma_sound_later(*q, frames, later);
        },
        Value::Func { body, closure, .. } => {
            assert forall|i: int| 0 <= i < body.len() implies sound(#[trigger] body[i], later) by {
                lemma_sound_later(body[i], frames, later);
            }
        },
        _ => {},
    }
}

/// Values that are sound stay sound when the store gains frames.
pub proof fn lemma_all_sound_later(items: Seq<Value>, frames: nat, later: nat)
    requires
        all_sound(items, frames),
        frames <= later,
    ensures
        all_sound(items, later),
{
    assert forall|i: int| 0 <= i < items.len() implies sound(#[trigger] items[i], later) by {
        lemma_sound_later(items[i], frames, later);
    }
}

/// To bind a sound value keeps the store sound.
pub proof fn lemma_define_sound(s: Store, frame: nat, name: Seq<char>, v: Value)
    requires
        store_sound(s),
        sound(v, s.frames.len()),
    ensures
        store_sound(s.define(frame, name, v)),
{
    let t = s.define(frame, name, v);
    assert forall|f: int, k: Seq<char>|
        0 <= f < t.frames.len() && t.frames[f].vars.contains_key(k) implies sound(
        #[trigger] t.frames[f].vars[k],
        t.frames.len(),
    ) by {
        if f == frame && k == name {
        } else {
            assert(s.frames[f].vars.contains_key(k));
            assert(t.frames[f].vars[k] == s.frames[f].vars[k]);
        }
    }
}

/// A new frame keeps the store sound.
pub proof fn lemma_child_sound(s: Store, parent: nat)
    requires
        store_sound(s),
    ensures
        store_sound(s.child(parent)),
{
    let t = s.child(parent);
    assert forall|f: int, k: Seq<char>|
        0 <= f < t.frames.len() && t.frames[f].vars.contains_key(k) implies sound(
        #[trigger] t.frames[f].vars[k],
        t.frames.len(),
    ) by {
        if f < s.frames.len() {
            assert(t.frames[f] == s.frames[f]);
            lemma_sound_later(s.frames[f].vars[k], s.frames.len(), t.frames.len());
        }
    }
}

/// What a name stands for in a sound store is sound.
pub proof fn lemma_lookup_sound(s: Store, frame: nat, name: Seq<char>)
    requires
        store_sound(s),
    ensures
        match s.lookup(frame, name) {
            Some(v) => sound(v, s.frames.len()),
            None => true,
        },
{
    s.lemma_resolve(frame, name);
}

/// To bind sound arguments keeps the store sound.
pub proof fn lemma_bind_params_sound(
    s: Store,
    callee: nat,
    params: Seq<Seq<char>>,
    args: Seq<Value>,
    n: nat,
)
    requires
        store_sound(s),
        all_sound(args, s.frames.len()),
        n <= args.len(),
    ensures
        store_sound(bind_params(s, callee, params, args, n)),
        bind_params(s, callee, params, args, n).frames.len() == s.frames.len(),
    decreases n,
{
    if n > 0 {
        lemma_bind_params_sound(s, callee, params, args, (n - 1) as nat);
        let before = bind_params(s, callee, params, args, (n - 1) as nat);
        assert(sound(args[n - 1], before.frames.len()));
        lemma_define_sound(before, callee, params[n - 1], args[n - 1]);
    }
}

/// To enter a closure with sound arguments keeps the store sound.
pub proof fn lemma_enter_sound(
    s: Store,
    params: Seq<Seq<char>>,
    vararg: Option<Seq<char>>,
    closure: nat,
    args: Seq<Value>,
)
    requires
        store_sound(s),
        all_sound(args, s.frames.len()),
        arity_fits(params, vararg, args.len()),
    ensures
        store_sound(enter(s, params, vararg, closure, args)),
        enter(s, params, vararg, closure, args).frames.len() == s.frames.len() + 1,
{
    let callee = s.frames.len();
    let made = s.child(closure);
    lemma_child_sound(s, closure);
    lemma_all_sound_later(args, s.frames.len(), made.frames.len());
    lemma_bind_params_sound(made, callee, params, args, params.len());
    let bound = bind_params(made, callee, params, args, params.len());
    match vararg {
        Some(rest) => {
            let given = args.subrange(params.len() as int, args.len() as int);
            assert forall|i: int| 0 <= i < given.len() implies sound(
                #[trigger] given[i],
                bound.frames.len(),
            ) by {
                assert(given[i] == args[i + params.len()]);
            }
            lemma_define_sound(bound, callee, rest, Value::List(given));
        },
        None => {},
    }
}

/// What a primitive computes from sound arguments is sound.
pub proof fn lemma_pure_primitive_sound(p: Primitive, args: Seq<Value>, frames: nat)
    requires
        all_sound(args, frames),
    ensures
        match pure_primitive(p, args) {
            Ok(v) => sound(v, frames),
            Err(_) => true,
        },
{
    match p {
        Primitive::Add | Primitive::Sub | Primitive::Mul | Primitive::Div | Primitive::Mod => {
            if args.len() >= 2 {
                match crate::lispval::as_number(args[0]) {
                    Ok(x) => {
                        lemma_fold_is_a_number(p, x, args, 1);
                    },
                    Err(_) => {},
                }
            }
        },
        Primitive::Car => {
            if args.len() == 1 {
                assert(sound(args[0], frames));
            }
        },
        Primitive::Cdr => {
            if args.len() == 1 {
                assert(sound(args[0], frames));
                match args[0] {
                    Value::List(items) => {
                        if items.len() > 0 {
                            let rest = items.subrange(1, items.len() as int);
                            assert forall|i: int| 0 <= i < rest.len() implies sound(
                                #[trigger] rest[i],
                                frames,
                            ) by {
                                assert(rest[i] == items[i + 1]);
                            }
                        }
                    },
                    Value::DottedList(items, tail) => {
                        if items.len() > 1 {
                            let rest = items.subrange(1, items.len() as int);
                            assert forall|i: int| 0 <= i < rest.len() implies sound(
                                #[trigger] rest[i],
                                frames,
                            ) by {
                                assert(rest[i] == items[i + 1]);
                            }
                        }
                    },
                    _ => {},
                }
            }
        },
        Primitive::Cons => {
            if args.len() == 2 {
                assert(sound(args[0], frames));
                assert(sound(args[1], frames));
                match args[1] {
                    Value::List(items) => {
                        let all = seq![args[0]] + items;
                        assert forall|i: int| 0 <= i < all.len() implies sound(
                            #[trigger] all[i],
                            frames,
                        ) by {
                            if i > 0 {
                                assert(all[i] == items[i - 1]);
                            }
                        }
                    },
                    Value::DottedList(items, tail) => {
                        let all = seq![args[0]] + items;
                        assert forall|i: int| 0 <= i < all.len() implies sound(
                            #[trigger] all[i],
                            frames,
                        ) by {
                            if i > 0 {
                                assert(all[i] == items[i - 1]);
                            }
                        }
                    },
                    other => {
                        let one = seq![args[0]];
                        assert forall|i: int| 0 <= i < one.len() implies sound(
                            #[trigger] one[i],
                            frames,
                        ) by {}
                    },
                }
            }
        },
        _ => {},
    }
}

/// Arithmetic ends with a number.
proof fn lemma_fold_is_a_number(p: Primitive, acc: int, args: Seq<Value>, from: nat)
    ensures
        match crate::primitive_specs::fold_numbers(p, acc, args, from) {
            Ok(v) => v is Number,
            Err(_) => true,
        },
    decreases args.len() - from,
{
    if from < args.len() {
        match crate::lispval::as_number(args[from as int]) {
            Ok(y) => match crate::primitive_specs::arith(p, acc, y) {
                Ok(z) => {
                    lemma_fold_is_a_number(p, z, args, from + 1);
                },
                Err(_) => {},
            },
            Err(_) => {},
        }
    }
}

/// What the reader reads as an expression holds no closure.
pub proof fn lemma_expr_reads_data(s: Seq<char>, pos: nat)
    ensures
        match expr_at(s, pos) {
            Ok((v, _)) => sound(v, 0),
            Err(_) => true,
        },
    decreases s.len() - pos, 2nat,
{
    if atom_at(s, pos) != Err::<(Value, nat), ParseError>(ParseError::NoMatch) {
    } else if number_at(s, pos) != Err::<(Value, nat), ParseError>(ParseError::NoMatch) {
    } else if string_at(s, pos) != Err::<(Value, nat), ParseError>(ParseError::NoMatch) {
    } else if quoted_at(s, pos) != Err::<(Value, nat), ParseError>(ParseError::NoMatch) {
        lemma_quoted_reads_data(s, pos);
    } else {
        lemma_group_reads_data(s, pos);
    }
}

/// What the reader reads as a quoted expression holds no closure.
pub proof fn lemma_quoted_reads_data(s: Seq<char>, pos: nat)
    ensures
        match quoted_at(s, pos) {
            Ok((v, _)) => sound(v, 0),
            Err(_) => true,
        },
    decreases s.len() - pos, 1nat,
{
    if pos < s.len() && s[pos as int] == '\'' {
        lemma_expr_reads_data(s, pos + 1);
    }
}

/// What the reader reads as a list, proper or not, holds no closure.
pub proof fn lemma_group_reads_data(s: Seq<char>, pos: nat)
    ensures
        match dotted_list_at(s, pos) {
            Ok((v, _)) => sound(v, 0),
            Err(_) => true,
        },
        match list_at(s, pos) {
            Ok((v, _)) => sound(v, 0),
            Err(_) => true,
        },
    decreases s.len() - pos, 1nat,
{
    if pos < s.len() && s[pos as int] == '(' {
        lemma_items_read_data(s, pos + 1);
        match items_at(s, pos + 1) {
            Ok((items, end)) => {
                match crate::parser::dot_at(s, end) {
                    Some(after) => {
                        if pos < after && after <= s.len() {
                            lemma_expr_reads_data(s, after);
                        }
                    },
                    None => {},
                }
            },
            Err(_) => {},
        }
    }
}

/// What the reader reads as a sequence holds no closure.
pub proof fn lemma_items_read_data(s: Seq<char>, pos: nat)
    ensures
        match items_at(s, pos) {
            Ok((items, _)) => all_sound(items, 0),
            Err(_) => true,
        },
    decreases s.len() - pos, 3nat,
{
    lemma_expr_reads_data(s, pos);
    match expr_at(s, pos) {
        Ok((v, end)) => {
            if pos < end && end <= s.len() {
                assert(all_sound(seq![v], 0));
                lemma_more_items_read_data(s, end, seq![v]);
            } else {
                assert(all_sound(seq![v], 0));
            }
        },
        Err(_) => {},
    }
}

/// What the reader reads as the rest of a sequence holds no closure.
pub proof fn lemma_more_items_read_data(s: Seq<char>, end: nat, acc: Seq<Value>)
    requires
        all_sound(acc, 0),
    ensures
        match more_items(s, end, acc) {
            Ok((items, _)) => all_sound(items, 0),
            Err(_) => true,
        },
    decreases s.len() - end, 0nat,
{
    let next = crate::parser::scan(s, end, crate::parser::CharClass::Space);
    if end < next && next <= s.len() {
        lemma_expr_reads_data(s, next);
        match expr_at(s, next) {
            Ok((v, after)) => {
                if next < after && after <= s.len() {
                    assert forall|i: int| 0 <= i < acc.push(v).len() implies sound(
                        #[trigger] acc.push(v)[i],
                        0,
                    ) by {
                        if i < acc.len() {
                            assert(acc.push(v)[i] == acc[i]);
                        }
                    }
                    lemma_more_items_read_data(s, after, acc.push(v));
                }
            },
            Err(_) => {},
        }
    }
}

/// Closures never dangle: the evaluation of a sound expression in a sound
/// store ends with a sound store and, where it ends with a value, a sound
/// value.
pub proof fn law_evaluation_is_sound(v: Value, s: Store, frame: nat, depth: nat)
    requires
        store_sound(s),
        sound(v, s.frames.len()),
        frame < s.frames.len(),
    ensures
        ends_sound(eval_spec(v, s, frame, depth)),
    decreases depth, 0nat, 0nat,
{
    match v {
        Value::Atom(name) => {
            lemma_lookup_sound(s, frame, name);
        },
        Value::List(items) => {
            if depth > 0 {
                lemma_list_sound(items, s, frame, (depth - 1) as nat);
            }
        },
        _ => {},
    }
}

/// The evaluation of a list of sound elements ends sound.
pub proof fn lemma_list_sound(items: Seq<Value>, s: Store, frame: nat, depth: nat)
    requires
        store_sound(s),
        all_sound(items, s.frames.len()),
        frame < s.frames.len(),
    ensures
        ends_sound(eval_list_spec(items, s, frame, depth)),
    decreases depth, 5nat, 0nat,
{
    let frames = s.frames.len();
    if is_if(items) {
        law_evaluation_is_sound(items[1], s, frame, depth);
        lemma_eval_evolves(items[1], s, frame, depth);
        let cond = eval_spec(items[1], s, frame, depth);
        if cond.result is Ok {
            lemma_sound_later(items[2], frames, cond.store.frames.len());
            lemma_sound_later(items[3], frames, cond.store.frames.len());
            law_evaluation_is_sound(items[2], cond.store, frame, depth);
            law_evaluation_is_sound(items[3], cond.store, frame, depth);
        }
    } else if is_define_var(items) {
        law_evaluation_is_sound(items[2], s, frame, depth);
        let value = eval_spec(items[2], s, frame, depth);
        match value.result {
            Ok(v) => {
                lemma_define_sound(value.store, frame, items[1]->Atom_0, v);
            },
            Err(_) => {},
        }
    } else if is_define_vararg(items) || is_define_func(items) || is_lambda(items) {
        let body = items.subrange(2, items.len() as int);
        assert forall|i: int| 0 <= i < body.len() implies sound(#[trigger] body[i], frames) by {
            assert(body[i] == items[i + 2]);
        }
        let out = eval_list_spec(items, s, frame, depth);
        match out.result {
            Ok(f) => {
                assert(sound(f, frames));
                if is_define_vararg(items) {
                    lemma_define_sound(s, frame, (items[1]->DottedList_0)[0]->Atom_0, f);
                } else if is_define_func(items) {
                    lemma_define_sound(s, frame, (items[1]->List_0)[0]->Atom_0, f);
                }
            },
            Err(_) => {},
        }
    } else if is_set(items) {
        match items[1] {
            Value::Atom(name) => {
                law_evaluation_is_sound(items[2], s, frame, depth);
                let value = eval_spec(items[2], s, frame, depth);
                match value.result {
                    Ok(v) => {
                        match value.store.resolve(frame, name) {
                            Some(f) => {
                                lemma_define_sound(value.store, f, name, v);
                            },
                            None => {},
                        }
                    },
                    Err(_) => {},
                }
            },
            _ => {},
        }
    } else if items.len() > 0 {
        lemma_each_sound(items, 0, Seq::empty(), s, frame, depth);
        let all = eval_each(items, 0, Seq::empty(), s, frame, depth);
        match all.result {
            Ok(values) => {
                if values.len() > 0 {
                    let rest = values.subrange(1, values.len() as int);
                    assert forall|i: int| 0 <= i < rest.len() implies sound(
                        #[trigger] rest[i],
                        all.store.frames.len(),
                    ) by {
                        assert(rest[i] == values[i + 1]);
                    }
                    lemma_call_sound(values[0], rest, all.store, frame, depth);
                }
            },
            Err(_) => {},
        }
    }
}

/// The evaluation of a sequence of sound expressions ends with a sound store
/// and sound values, and in a store that still holds the frame.
pub proof fn lemma_each_sound(
    items: Seq<Value>,
    from: nat,
    acc: Seq<Value>,
    s: Store,
    frame: nat,
    depth: nat,
)
    requires
        store_sound(s),
        all_sound(items, s.frames.len()),
        all_sound(acc, s.frames.len()),
        frame < s.frames.len(),
    ensures
        ({
            let all = eval_each(items, from, acc, s, frame, depth);
            &&& store_sound(all.store)
            &&& frame < all.store.frames.len()
            &&& match all.result {
                Ok(values) => all_sound(values, all.store.frames.len()),
                Err(_) => true,
            }
        }),
    decreases depth, 1nat, items.len() - from,
{
    if from < items.len() {
        law_evaluation_is_sound(items[from as int], s, frame, depth);
        lemma_eval_evolves(items[from as int], s, frame, depth);
        let one = eval_spec(items[from as int], s, frame, depth);
        match one.result {
            Ok(v) => {
                let later = one.store.frames.len();
                lemma_all_sound_later(items, s.frames.len(), later);
                lemma_all_sound_later(acc, s.frames.len(), later);
                assert forall|i: int| 0 <= i < acc.push(v).len() implies sound(
                    #[trigger] acc.push(v)[i],
                    later,
                ) by {
                    if i < acc.len() {
                        assert(acc.push(v)[i] == acc[i]);
                    }
                }
                lemma_each_sound(items, from + 1, acc.push(v), one.store, frame, depth);
            },
            Err(_) => {},
        }
    }
}

/// The evaluation of a body of sound expressions ends sound.
pub proof fn lemma_body_sound(body: Seq<Value>, from: nat, s: Store, frame: nat, depth: nat)
    requires
        store_sound(s),
        all_sound(body, s.frames.len()),
        frame < s.frames.len(),
    ensures
        ends_sound(eval_body(body, from, s, frame, depth)),
    decreases depth, 1nat, body.len() - from,
{
    if from < body.len() {
        law_evaluation_is_sound(body[from as int], s, frame, depth);
        lemma_eval_evolves(body[from as int], s, frame, depth);
        let one = eval_spec(body[from as int], s, frame, depth);
        if !(one.result is Err || from + 1 == body.len()) {
            lemma_all_sound_later(body, s.frames.len(), one.store.frames.len());
            lemma_body_sound(body, from + 1, one.store, frame, depth);
        }
    }
}

/// The call of a sound value with sound arguments ends sound; a closure that
/// is sound is never refused for the frame that it names.
pub proof fn lemma_call_sound(target: Value, args: Seq<Value>, s: Store, frame: nat, depth: nat)
    requires
        store_sound(s),
        sound(target, s.frames.len()),
        all_sound(args, s.frames.len()),
        frame < s.frames.len(),
    ensures
        ends_sound(call_spec(target, args, s, frame, depth)),
    decreases depth, 3nat, 0nat,
{
    match target {
        Value::PrimitiveFunc(p) => {
            lemma_primitive_sound(p, args, s, frame, depth);
        },
        Value::Func { args: params, vararg, body, closure } => {
            if arity_fits(params, vararg, args.len()) {
                let callee = s.frames.len();
                let entered = enter(s, params, vararg, closure, args);
                lemma_enter_sound(s, params, vararg, closure, args);
                lemma_all_sound_later(body, s.frames.len(), entered.frames.len());
                lemma_body_sound(body, 0, entered, callee, depth);
            }
        },
        _ => {},
    }
}

/// The application of a primitive to sound arguments ends sound.
pub proof fn lemma_primitive_sound(
    p: Primitive,
    args: Seq<Value>,
    s: Store,
    frame: nat,
    depth: nat,
)
    requires
        store_sound(s),
        all_sound(args, s.frames.len()),
        frame < s.frames.len(),
    ensures
        ends_sound(primitive_spec(p, args, s, frame, depth)),
    decreases depth, 2nat, 2nat,
{
    match p {
        Primitive::Apply => {
            lemma_apply_sound(args, s, frame, depth);
        },
        Primitive::Load => {
            lemma_load_sound(args, s, frame, depth);
        },
        _ => {
            lemma_pure_primitive_sound(p, args, s.frames.len());
        },
    }
}

/// `apply` on sound arguments ends sound.
pub proof fn lemma_apply_sound(args: Seq<Value>, s: Store, frame: nat, depth: nat)
    requires
        store_sound(s),
        all_sound(args, s.frames.len()),
        frame < s.frames.len(),
    ensures
        ends_sound(apply_spec(args, s, frame, depth)),
    decreases depth, 2nat, 0nat,
{
    if args.len() >= 2 && depth > 0 {
        assert(sound(args[0], s.frames.len()));
        assert(sound(args[1], s.frames.len()));
        match args[1] {
            Value::List(given) => {
                lemma_call_sound(args[0], given, s, frame, (depth - 1) as nat);
            },
            _ => {},
        }
    }
}

/// `load` ends sound.
pub proof fn lemma_load_sound(args: Seq<Value>, s: Store, frame: nat, depth: nat)
    requires
        store_sound(s),
        frame < s.frames.len(),
    ensures
        ends_sound(load_spec(args, s, frame, depth)),
    decreases depth, 2nat, 1nat,
{
    if args.len() == 1 {
        match as_text(args[0]) {
            Ok(name) => {
                if s.resources.contains_key(name) {
                    lemma_load_text_sound(s.resources[name], s, frame, depth);
                }
            },
            Err(_) => {},
        }
    }
}

/// The evaluation of the forms of a text ends sound.
pub proof fn lemma_load_text_sound(text: Seq<char>, s: Store, frame: nat, depth: nat)
    requires
        store_sound(s),
        frame < s.frames.len(),
    ensures
        ends_sound(load_text_spec(text, s, frame, depth)),
    decreases depth, 2nat, 0nat,
{
    lemma_items_read_data(text, 0);
    match items_at(text, 0) {
        Ok((forms, _)) => {
            if forms.len() > 0 {
                lemma_all_sound_later(forms, 0, s.frames.len());
                lemma_body_sound(forms, 0, s, frame, depth);
            }
        },
        Err(_) => {},
    }
}

} // verus!
