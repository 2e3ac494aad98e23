//! The errors that evaluation can report.

use vstd::prelude::*;

verus! {

/// A failed evaluation.
///
/// A special form whose shape does not fit is no error: the evaluator then
/// tries the next form, and only a list that fits none is `UnrecognizedForm`.
#[derive(Debug)]
pub enum LispErr {
    /// A name that no frame of the scope chain binds, read or assigned.
    UnboundVariable(String),
    /// A call with too few or too many arguments.
    ArityMismatch,
    /// A value of the wrong kind, or a text that does not coerce.
    TypeMismatch,
    /// A list that is no special form and no application.
    UnrecognizedForm,
    /// An application whose head is neither a closure nor a primitive, or a
    /// closure whose defining frame the environment does not hold.
    NotCallable,
    /// A call of a closure that has no body expression.
    EmptyBody,
    /// An arithmetic result outside the 64-bit signed range.
    Overflow,
    /// A division or remainder by zero.
    DivisionByZero,
    /// `load` named a resource that is not there, or one that cannot be read
    /// as a sequence of forms.
    LoadFailure,
    /// Evaluation nested deeper than the depth it was given.
    DepthExceeded,
}

/// The mathematical model of a [`LispErr`].
pub enum Fault {
    UnboundVariable(Seq<char>),
    ArityMismatch,
    TypeMismatch,
    UnrecognizedForm,
    NotCallable,
    EmptyBody,
    Overflow,
    DivisionByZero,
    LoadFailure,
    DepthExceeded,
}

impl View for LispErr {
    type V = Fault;

    open spec fn view(&self) -> Fault {
        match self {
            LispErr::UnboundVariable(name) => Fault::UnboundVariable(name@),
            LispErr::ArityMismatch => Fault::ArityMismatch,
            LispErr::TypeMismatch => Fault::TypeMismatch,
            LispErr::UnrecognizedForm => Fault::UnrecognizedForm,
            LispErr::NotCallable => Fault::NotCallable,
            LispErr::EmptyBody => Fault::EmptyBody,
            LispErr::Overflow => Fault::Overflow,
            LispErr::DivisionByZero => Fault::DivisionByZero,
            LispErr::LoadFailure => Fault::LoadFailure,
            LispErr::DepthExceeded => Fault::DepthExceeded,
        }
    }
}

/// The message that describes a fault.
pub open spec fn message(f: Fault) -> Seq<char> {
    match f {
        Fault::UnboundVariable(name) => "Variable "@ + name + " is not defined"@,
        Fault::ArityMismatch => "Incorrect argument count"@,
        Fault::TypeMismatch => "Unexpected type of value"@,
        Fault::UnrecognizedForm => "Invalid expression"@,
        Fault::NotCallable => "Incorrect function call"@,
        Fault::EmptyBody => "Function has no body"@,
        Fault::Overflow => "Integer overflow"@,
        Fault::DivisionByZero => "Division by zero"@,
        Fault::LoadFailure => "Error reading file"@,
        Fault::DepthExceeded => "Evaluation is nested too deeply"@,
    }
}

impl Clone for LispErr {
    fn clone(&self) -> (r: Self)
        ensures
            r@ == self@,
    {
        match self {
            LispErr::UnboundVariable(name) => LispErr::UnboundVariable(name.clone()),
            LispErr::ArityMismatch => LispErr::ArityMismatch,
            LispErr::TypeMismatch => LispErr::TypeMismatch,
            LispErr::UnrecognizedForm => LispErr::UnrecognizedForm,
            LispErr::NotCallable => LispErr::NotCallable,
            LispErr::EmptyBody => LispErr::EmptyBody,
            LispErr::Overflow => LispErr::Overflow,
            LispErr::DivisionByZero => LispErr::DivisionByZero,
            LispErr::LoadFailure => LispErr::LoadFailure,
            LispErr::DepthExceeded => LispErr::DepthExceeded,
        }
    }
}

impl PartialEq for LispErr {
    fn eq(&self, other: &Self) -> (r: bool) {
        match (self, other) {
            (LispErr::UnboundVariable(a), LispErr::UnboundVariable(b)) => *a == *b,
            (LispErr::ArityMismatch, LispErr::ArityMismatch) => true,
            (LispErr::TypeMismatch, LispErr::TypeMismatch) => true,
            (LispErr::UnrecognizedForm, LispErr::UnrecognizedForm) => true,
            (LispErr::NotCallable, LispErr::NotCallable) => true,
            (LispErr::EmptyBody, LispErr::EmptyBody) => true,
            (LispErr::Overflow, LispErr::Overflow) => true,
            (LispErr::DivisionByZero, LispErr::DivisionByZero) => true,
            (LispErr::LoadFailure, LispErr::LoadFailure) => true,
            (LispErr::DepthExceeded, LispErr::DepthExceeded) => true,
            _ => false,
        }
    }
}

impl vstd::std_specs::cmp::PartialEqSpecImpl for LispErr {
    open spec fn obeys_eq_spec() -> bool {
        true
    }

    open spec fn eq_spec(&self, other: &Self) -> bool {
        self@ == other@
    }
}

impl LispErr {
    /// The message of this error, as [`message`] words it.
    pub fn to_string(&self) -> (r: String)
        ensures
            r@ == message(self@),
    {
        match self {
            LispErr::UnboundVariable(name) => {
                let mut s = String::from_str("Variable ");
                s.append(name.as_str());
                s.append(" is not defined");
                s
            },
            LispErr::ArityMismatch => String::from_str("Incorrect argument count"),
            LispErr::TypeMismatch => String::from_str("Unexpected type of value"),
            LispErr::UnrecognizedForm => String::from_str("Invalid expression"),
            LispErr::NotCallable => String::from_str("Incorrect function call"),
            LispErr::EmptyBody => String::from_str("Function has no body"),
            LispErr::Overflow => String::from_str("Integer overflow"),
            LispErr::DivisionByZero => String::from_str("Division by zero"),
            LispErr::LoadFailure => String::from_str("Error reading file"),
            LispErr::DepthExceeded => String::from_str("Evaluation is nested too deeply"),
        }
    }
}

} // verus!
