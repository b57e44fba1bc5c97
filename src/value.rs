//! Runtime values: conversion from the syntax tree, resolution of names,
//! beta-reduction, and rendering.
//!
//! Values are never changed in place: every transformation builds a new value.
use vstd::prelude::*;

use crate::ast::{Expr, Tree};
use crate::error::{root_cause, Context, Error, Fault, Frame};
use crate::scope::GlobalScope;
use crate::text::{has_char, parenthesized};

verus! {

/// A runtime value.
#[derive(Debug)]
pub enum Value {
    /// A function: parameter name and unevaluated body.
    Def { arg: String, value: Box<Value> },
    /// A free reference not matched to any binding yet.
    Id { name: String },
    /// A reference matched to a global or a local binding; it holds its own
    /// copy of the value it refers to.
    BoundId { name: String, value: Box<Value>, global: bool },
    /// A pending call.
    Call { target: Box<Value>, arg: Box<Value> },
}

/// The mathematical form of a [`Value`].
pub enum Term {
    Def { param: Seq<char>, body: Box<Term> },
    Free { name: Seq<char> },
    Bound { name: Seq<char>, target: Box<Term>, global: bool },
    App { target: Box<Term>, arg: Box<Term> },
}

impl View for Value {
    type V = Term;

    open spec fn view(&self) -> Term
        decreases self,
    {
        match self {
            Value::Def { arg, value } => Term::Def { param: arg@, body: Box::new((**value).view()) },
            Value::Id { name } => Term::Free { name: name@ },
            Value::BoundId { name, value, global } => Term::Bound {
                name: name@,
                target: Box::new((**value).view()),
                global: *global,
            },
            Value::Call { target, arg } => Term::App {
                target: Box::new((**target).view()),
                arg: Box::new((**arg).view()),
            },
        }
    }
}

/// The term that a syntax tree stands for: a structural copy in which every
/// identifier is a free reference.
pub open spec fn term_of(t: Tree) -> Term
    decreases t,
{
    match t {
        Tree::Def { param, body } => Term::Def { param, body: Box::new(term_of(*body)) },
        Tree::Call { target, arg } => Term::App {
            target: Box::new(term_of(*target)),
            arg: Box::new(term_of(*arg)),
        },
        Tree::Id { name } => Term::Free { name },
    }
}

/// Global resolution: every free reference whose name the scope `g` holds
/// becomes a global reference to the scope's value; everything else stays.
pub open spec fn resolve(t: Term, g: Map<Seq<char>, Term>) -> Term
    decreases t,
{
    match t {
        Term::Def { param, body } => Term::Def { param, body: Box::new(resolve(*body, g)) },
        Term::Free { name } => if g.contains_key(name) {
            Term::Bound { name, target: Box::new(g[name]), global: true }
        } else {
            t
        },
        Term::Bound { .. } => t,
        Term::App { target, arg } => Term::App {
            target: Box::new(resolve(*target, g)),
            arg: Box::new(resolve(*arg, g)),
        },
    }
}

/// Binding globals a second time, against the same scope, changes nothing:
/// every reference the first pass could bind is bound, and bound references
/// are left alone.
pub proof fn lemma_bind_global_idempotent(t: Term, g: Map<Seq<char>, Term>)
    ensures
        resolve(resolve(t, g), g) == resolve(t, g),
    decreases t,
{
    match t {
        Term::Def { body, .. } => lemma_bind_global_idempotent(*body, g),
        Term::App { target, arg } => {
            lemma_bind_global_idempotent(*target, g);
            lemma_bind_global_idempotent(*arg, g);
        },
        _ => {},
    }
}

/// Local substitution of `v` for the name `x`: every reference named `x`,
/// free or bound, becomes a local reference to `v`, except inside a definition
/// whose own parameter is `x`, which shadows it.
pub open spec fn substitute(t: Term, x: Seq<char>, v: Term) -> Term
    decreases t,
{
    match t {
        Term::Def { param, body } => if param == x {
            t
        } else {
            Term::Def { param, body: Box::new(substitute(*body, x, v)) }
        },
        Term::Free { name } => if name == x {
            Term::Bound { name, target: Box::new(v), global: false }
        } else {
            t
        },
        Term::Bound { name, .. } => if name == x {
            Term::Bound { name, target: Box::new(v), global: false }
        } else {
            t
        },
        Term::App { target, arg } => Term::App {
            target: Box::new(substitute(*target, x, v)),
            arg: Box::new(substitute(*arg, x, v)),
        },
    }
}

/// Forcing a term to normal form, with at most `fuel` nested beta-reductions.
pub open spec fn eval_term(t: Term, fuel: nat) -> Result<Term, Fault>
    decreases fuel, t,
{
    match t {
        Term::Def { .. } => Ok(t),
        Term::Free { name } => Err(Fault::Unbound(name)),
        Term::Bound { name, target, .. } => match eval_term(*target, fuel) {
            Ok(r) => Ok(r),
            Err(e) => Err(Fault::Within(Context::Executing(name), Box::new(e))),
        },
        Term::App { target, arg } => match call_term(*target, *arg, fuel) {
            Ok(r) => Ok(r),
            Err(e) => Err(Fault::Within(Context::Calling, Box::new(e))),
        },
    }
}

/// Applying `f` to the unevaluated argument `a`, with at most `fuel` nested
/// beta-reductions.
pub open spec fn call_term(f: Term, a: Term, fuel: nat) -> Result<Term, Fault>
    decreases fuel, f,
{
    match f {
        Term::Def { param, body } => if fuel == 0 {
            Err(Fault::Exhausted)
        } else {
            eval_term(substitute(*body, param, a), (fuel - 1) as nat)
        },
        Term::Free { name } => Err(Fault::Unbound(name)),
        Term::Bound { target, .. } => call_term(*target, a, fuel),
        Term::App { target, arg } => match call_term(*target, *arg, fuel) {
            Ok(g) => if fuel == 0 {
                Err(Fault::Exhausted)
            } else {
                call_term(g, a, (fuel - 1) as nat)
            },
            Err(e) => Err(e),
        },
    }
}

/// Whether an outcome is a failure for want of budget.
pub open spec fn out_of_budget(r: Result<Term, Fault>) -> bool {
    r matches Err(f) && root_cause(f) is Exhausted
}

/// A larger budget never changes what a smaller budget reached: the budget
/// only decides whether evaluation gets to a result at all.
pub proof fn lemma_eval_budget_monotone(t: Term, n: nat, m: nat)
    requires
        n <= m,
        !out_of_budget(eval_term(t, n)),
    ensures
        eval_term(t, m) == eval_term(t, n),
    decreases n, t,
{
    match t {
        Term::Bound { target, .. } => lemma_eval_budget_monotone(*target, n, m),
        Term::App { target, arg } => lemma_call_budget_monotone(*target, *arg, n, m),
        _ => {},
    }
}

/// A larger budget never changes what a smaller budget reached when calling
/// a function.
pub proof fn lemma_call_budget_monotone(f: Term, a: Term, n: nat, m: nat)
    requires
        n <= m,
        !out_of_budget(call_term(f, a, n)),
    ensures
        call_term(f, a, m) == call_term(f, a, n),
    decreases n, f,
{
    match f {
        Term::Def { param, body } => {
            if n > 0 {
                lemma_eval_budget_monotone(
                    substitute(*body, param, a),
                    (n - 1) as nat,
                    (m - 1) as nat,
                );
            }
        },
        Term::Bound { target, .. } => lemma_call_budget_monotone(*target, a, n, m),
        Term::App { target, arg } => {
            lemma_call_budget_monotone(*target, *arg, n, m);
            match call_term(*target, *arg, n) {
                Ok(g) => {
                    if n > 0 {
                        lemma_call_budget_monotone(g, a, (n - 1) as nat, (m - 1) as nat);
                    }
                },
                Err(_) => {},
            }
        },
        _ => {},
    }
}

/// The canonical text of a term.
pub open spec fn render(t: Term) -> Seq<char>
    decreases t,
{
    match t {
        Term::Def { param, body } => "λ"@ + param + " "@ + render(*body),
        Term::Free { name } => name,
        Term::Bound { name, target, global } => if global {
            name
        } else {
            render(*target)
        },
        Term::App { target, arg } => {
            let tr = render(*target);
            let ar = render(*arg);
            let tp = if tr.contains('λ') {
                "("@ + tr + ")"@
            } else {
                tr
            };
            let ap = if ar.contains(' ') {
                "("@ + ar + ")"@
            } else {
                ar
            };
            tp + " "@ + ap
        },
    }
}

/// The outcome of an evaluation, in mathematical form.
pub open spec fn outcome(r: Result<Value, Error>) -> Result<Term, Fault> {
    match r {
        Ok(v) => Ok(v@),
        Err(e) => Err(e@),
    }
}

impl Value {
    /// Builds a new value equal to this one.
    pub fn duplicate(&self) -> (r: Value)
        ensures
            r@ == self@,
        decreases self,
    {
        match self {
            Value::Def { arg, value } => Value::Def {
                arg: arg.clone(),
                value: Box::new(value.duplicate()),
            },
            Value::Id { name } => Value::Id { name: name.clone() },
            Value::BoundId { name, value, global } => Value::BoundId {
                name: name.clone(),
                value: Box::new(value.duplicate()),
                global: *global,
            },
            Value::Call { target, arg } => Value::Call {
                target: Box::new(target.duplicate()),
                arg: Box::new(arg.duplicate()),
            },
        }
    }

    /// Converts a syntax tree into a value.
    pub fn from_expr(expr: &Expr) -> (r: Value)
        ensures
            r@ == term_of(expr@),
        decreases expr,
    {
        match expr {
            Expr::Def { arg, expr } => Value::Def {
                arg: arg.clone(),
                value: Box::new(Value::from_expr(expr)),
            },
            Expr::Call { target, arg } => Value::Call {
                target: Box::new(Value::from_expr(target)),
                arg: Box::new(Value::from_expr(arg)),
            },
            Expr::Id { name } => Value::Id { name: name.clone() },
        }
    }

    /// Represents the value as a human-readable expression.
    pub fn repr(&self) -> (r: String)
        ensures
            r@ == render(self@),
        decreases self,
    {
        match self {
            Value::Def { arg, value } => {
                let body = value.repr();
                let mut r = String::from_str("λ");
                r.append(arg.as_str());
                r.append(" ");
                r.append(body.as_str());
                r
            },
            Value::Id { name } => name.clone(),
            Value::BoundId { name, value, global } => {
                if *global {
                    name.clone()
                } else {
                    value.repr()
                }
            },
            Value::Call { target, arg } => {
                let mut tr = target.repr();
                let mut ar = arg.repr();
                if has_char(tr.as_str(), 'λ') {
                    tr = parenthesized(tr.as_str());
                }
                if has_char(ar.as_str(), ' ') {
                    ar = parenthesized(ar.as_str());
                }
                let mut r = tr;
                r.append(" ");
                r.append(ar.as_str());
                r
            },
        }
    }

    /// Binds every free reference to the global of the same name, if the scope
    /// holds one; references already bound stay as they are.
    pub fn bind_global(&self, global: &GlobalScope) -> (r: Value)
        requires
            global.wf(),
        ensures
            r@ == resolve(self@, global@),
        decreases self,
    {
        match self {
            Value::Def { arg, value } => Value::Def {
                arg: arg.clone(),
                value: Box::new(value.bind_global(global)),
            },
            Value::Id { name } => match global.get(name.as_str()) {
                Some(val) => Value::BoundId {
                    name: name.clone(),
                    value: Box::new(val.duplicate()),
                    global: true,
                },
                None => Value::Id { name: name.clone() },
            },
            Value::BoundId { .. } => self.duplicate(),
            Value::Call { target, arg } => Value::Call {
                target: Box::new(target.bind_global(global)),
                arg: Box::new(arg.bind_global(global)),
            },
        }
    }

    /// Binds the name `lname` to the value `lvalue` wherever it is not shadowed.
    pub fn bind_local(&self, lname: &String, lvalue: &Value) -> (r: Value)
        ensures
            r@ == substitute(self@, lname@, lvalue@),
        decreases self,
    {
        match self {
            Value::Def { arg, value } => {
                if *arg == *lname {
                    self.duplicate()
                } else {
                    Value::Def { arg: arg.clone(), value: Box::new(value.bind_local(lname, lvalue)) }
                }
            },
            Value::Id { name } | Value::BoundId { name, .. } => {
                if *name == *lname {
                    Value::BoundId {
                        name: name.clone(),
                        value: Box::new(lvalue.duplicate()),
                        global: false,
                    }
                } else {
                    self.duplicate()
                }
            },
            Value::Call { target, arg } => {
                let target = target.bind_local(lname, lvalue);
                let arg = arg.bind_local(lname, lvalue);
                Value::Call { target: Box::new(target), arg: Box::new(arg) }
            },
        }
    }

    /// Forces the value to normal form, with at most `budget` nested
    /// beta-reductions.
    pub fn eval(&self, budget: u64) -> (r: Result<Value, Error>)
        ensures
            outcome(r) == eval_term(self@, budget as nat),
        decreases budget, self,
    {
        match self {
            Value::Def { .. } => Ok(self.duplicate()),
            Value::Id { name } => Err(Error::UnboundVariable { name: name.clone() }),
            Value::BoundId { name, value, .. } => match value.eval(budget) {
                Ok(r) => Ok(r),
                Err(e) => Err(
                    Error::EvaluationFailure {
                        frame: Frame::Executing { name: name.clone() },
                        cause: Box::new(e),
                    },
                ),
            },
            Value::Call { target, arg } => match target.call(arg, budget) {
                Ok(r) => Ok(r),
                Err(e) => Err(
                    Error::EvaluationFailure { frame: Frame::CallingFunction, cause: Box::new(e) },
                ),
            },
        }
    }

    /// Applies the value as a function to `arg_value`, which is substituted
    /// unevaluated, with at most `budget` nested beta-reductions.
    pub fn call(&self, arg_value: &Value, budget: u64) -> (r: Result<Value, Error>)
        ensures
            outcome(r) == call_term(self@, arg_value@, budget as nat),
        decreases budget, self,
    {
        match self {
            Value::Def { arg, value } => {
                if budget == 0 {
                    return Err(Error::BudgetExhausted);
                }
                let body = value.bind_local(arg, arg_value);
                body.eval(budget - 1)
            },
            Value::Id { name } => Err(Error::UnboundVariable { name: name.clone() }),
            Value::BoundId { value, .. } => value.call(arg_value, budget),
            Value::Call { target, arg } => match target.call(arg, budget) {
                Ok(f) => {
                    if budget == 0 {
                        return Err(Error::BudgetExhausted);
                    }
                    f.call(arg_value, budget - 1)
                },
                Err(e) => Err(e),
            },
        }
    }
}

} // verus!
