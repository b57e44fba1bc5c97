//! Failures of evaluation, with the chain of context frames that tells where
//! they happened.
use vstd::prelude::*;

verus! {

/// One frame of context around a failure.
#[derive(Debug)]
pub enum Frame {
    /// While evaluating the value bound to a name.
    Executing { name: String },
    /// While calling a function.
    CallingFunction,
}

/// A failure of evaluation.
#[derive(Debug)]
pub enum Error {
    /// An identifier that no binding matched was evaluated or called.
    UnboundVariable { name: String },
    /// A bare-name statement named a global that is not defined.
    UndefinedGlobal { name: String },
    /// The reduction went deeper than the budget it was given.
    BudgetExhausted,
    /// A failure inside a context frame.
    EvaluationFailure { frame: Frame, cause: Box<Error> },
}

/// The mathematical form of a [`Frame`].
pub enum Context {
    Executing(Seq<char>),
    Calling,
}

/// The mathematical form of an [`Error`].
pub enum Fault {
    Unbound(Seq<char>),
    Undefined(Seq<char>),
    Exhausted,
    Within(Context, Box<Fault>),
}

impl View for Frame {
    type V = Context;

    open spec fn view(&self) -> Context {
        match self {
            Frame::Executing { name } => Context::Executing(name@),
            Frame::CallingFunction => Context::Calling,
        }
    }
}

impl View for Error {
    type V = Fault;

    open spec fn view(&self) -> Fault
        decreases self,
    {
        match self {
            Error::UnboundVariable { name } => Fault::Unbound(name@),
            Error::UndefinedGlobal { name } => Fault::Undefined(name@),
            Error::BudgetExhausted => Fault::Exhausted,
            Error::EvaluationFailure { frame, cause } => Fault::Within(
                frame@,
                Box::new((**cause).view()),
            ),
        }
    }
}

/// The failure at the bottom of a chain of context frames.
pub open spec fn root_cause(f: Fault) -> Fault
    decreases f,
{
    match f {
        Fault::Within(_, inner) => root_cause(*inner),
        _ => f,
    }
}

/// The text of one context frame.
pub open spec fn context_text(c: Context) -> Seq<char> {
    match c {
        Context::Executing(name) => "failure executing "@ + name,
        Context::Calling => "failure calling a function"@,
    }
}

/// The text of a failure: its context frames from the outermost in, then the
/// root cause, separated by `: `.
pub open spec fn fault_text(f: Fault) -> Seq<char>
    decreases f,
{
    match f {
        Fault::Unbound(name) => "unbound variable `"@ + name + "`"@,
        Fault::Undefined(name) => "variable `"@ + name + "` is not defined"@,
        Fault::Exhausted => "reduction budget exhausted"@,
        Fault::Within(c, inner) => context_text(c) + ": "@ + fault_text(*inner),
    }
}

impl Frame {
    /// The human-readable text of the frame.
    pub fn message(&self) -> (r: String)
        ensures
            r@ == context_text(self@),
    {
        match self {
            Frame::Executing { name } => {
                let mut r = String::from_str("failure executing ");
                r.append(name.as_str());
                r
            },
            Frame::CallingFunction => String::from_str("failure calling a function"),
        }
    }
}

impl Error {
    /// The human-readable text of the failure, outermost context first.
    pub fn message(&self) -> (r: String)
        ensures
            r@ == fault_text(self@),
        decreases self,
    {
        match self {
            Error::UnboundVariable { name } => {
                let mut r = String::from_str("unbound variable `");
                r.append(name.as_str());
                r.append("`");
                r
            },
            Error::UndefinedGlobal { name } => {
                let mut r = String::from_str("variable `");
                r.append(name.as_str());
                r.append("` is not defined");
                r
            },
            Error::BudgetExhausted => String::from_str("reduction budget exhausted"),
            Error::EvaluationFailure { frame, cause } => {
                let mut r = frame.message();
                let inner = cause.message();
                r.append(": ");
                r.append(inner.as_str());
                r
            },
        }
    }
}

} // verus!
