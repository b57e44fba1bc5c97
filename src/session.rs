//! A session: one global scope, against which statements run in order.
use vstd::prelude::*;

use crate::ast::{Expr, Module, Stmt, StmtTree, Tree};
use crate::error::{Error, Fault};
use crate::scope::GlobalScope;
use crate::value::{call_term, eval_term, outcome, resolve, term_of, Term, Value};

verus! {

/// The name under which the result of the last evaluated expression is kept.
pub open spec fn last_result_name() -> Seq<char> {
    "_"@
}

/// Running one statement against the scope `g`: the new scope and the result.
pub open spec fn stmt_step(g: Map<Seq<char>, Term>, s: StmtTree, fuel: nat) -> (
    Map<Seq<char>, Term>,
    Result<Term, Fault>,
) {
    match s {
        StmtTree::Assign { target, expr } => {
            let v = resolve(term_of(expr), g);
            (g.insert(target, v), Ok(v))
        },
        StmtTree::Bare { expr } => match expr {
            Tree::Id { name } => if g.contains_key(name) {
                (g, Ok(g[name]))
            } else {
                (g, Err(Fault::Undefined(name)))
            },
            _ => match eval_term(resolve(term_of(expr), g), fuel) {
                Ok(r) => (g.insert(last_result_name(), r), Ok(r)),
                Err(e) => (g, Err(e)),
            },
        },
    }
}

/// Running the statements `ss` in order against the scope `g`, stopping at the
/// first failure: the new scope and the result of the last statement run.
pub open spec fn module_step(g: Map<Seq<char>, Term>, ss: Seq<StmtTree>, fuel: nat) -> (
    Map<Seq<char>, Term>,
    Result<Term, Fault>,
)
    decreases ss.len(),
{
    if ss.len() == 0 {
        (g, arbitrary())
    } else {
        let (g1, r) = stmt_step(g, ss[0], fuel);
        if r is Err || ss.len() == 1 {
            (g1, r)
        } else {
            module_step(g1, ss.drop_first(), fuel)
        }
    }
}

/// Running the modules `ms` in order against the scope `g`, stopping at the
/// first failure: the new scope, and the position and failure of the module
/// that failed, if one did.
pub open spec fn load_step(g: Map<Seq<char>, Term>, ms: Seq<Seq<StmtTree>>, fuel: nat) -> (
    Map<Seq<char>, Term>,
    Option<(nat, Fault)>,
)
    decreases ms.len(),
{
    if ms.len() == 0 {
        (g, None)
    } else {
        let (g1, r) = module_step(g, ms[0], fuel);
        match r {
            Err(e) => (g1, Some((0, e))),
            Ok(_) => {
                let (g2, f) = load_step(g1, ms.drop_first(), fuel);
                match f {
                    Some((i, e)) => (g2, Some(((i + 1) as nat, e))),
                    None => (g2, None),
                }
            },
        }
    }
}

/// Whether the statement assigns to the name `x`.
pub open spec fn assigns(s: StmtTree, x: Seq<char>) -> bool {
    match s {
        StmtTree::Assign { target, .. } => target == x,
        StmtTree::Bare { .. } => false,
    }
}

/// A global keeps its value through any statements that do not assign to it:
/// a value stored earlier is a snapshot, and reassigning the names it used
/// does not change it.
pub proof fn lemma_global_snapshot(
    g: Map<Seq<char>, Term>,
    ss: Seq<StmtTree>,
    x: Seq<char>,
    fuel: nat,
)
    requires
        g.contains_key(x),
        x != last_result_name(),
        forall|k: int| 0 <= k < ss.len() ==> !assigns(#[trigger] ss[k], x),
    ensures
        module_step(g, ss, fuel).0.contains_key(x),
        module_step(g, ss, fuel).0[x] == g[x],
    decreases ss.len(),
{
    if ss.len() > 0 {
        assert(!assigns(ss[0], x));
        let (g1, r) = stmt_step(g, ss[0], fuel);
        assert(g1.contains_key(x) && g1[x] == g[x]);
        if !(r is Err || ss.len() == 1) {
            assert forall|k: int| 0 <= k < ss.drop_first().len() implies !assigns(
                #[trigger] ss.drop_first()[k],
                x,
            ) by {
                assert(ss.drop_first()[k] == ss[k + 1]);
            }
            lemma_global_snapshot(g1, ss.drop_first(), x, fuel);
        }
    }
}

/// Binding-time snapshot: when `a` is assigned, then used in the definition
/// assigned to `f`, then reassigned, the value stored for `f` is the one it
/// got when it was defined, and so is what calling it does.
pub proof fn lemma_binding_time_snapshot(
    g: Map<Seq<char>, Term>,
    a: Seq<char>,
    f: Seq<char>,
    first: Tree,
    def: Tree,
    second: Tree,
    fuel: nat,
)
    requires
        a != f,
    ensures
        ({
            let g1 = stmt_step(g, StmtTree::Assign { target: a, expr: first }, fuel).0;
            let g2 = stmt_step(g1, StmtTree::Assign { target: f, expr: def }, fuel).0;
            let g3 = stmt_step(g2, StmtTree::Assign { target: a, expr: second }, fuel).0;
            &&& g2[f] == resolve(term_of(def), g1)
            &&& g3.contains_key(f)
            &&& g3[f] == g2[f]
            &&& forall|arg: Term, n: nat| #[trigger]
                call_term(g3[f], arg, n) == call_term(g2[f], arg, n)
        }),
{
}

/// The failure of one module while loading several.
#[derive(Debug)]
pub struct LoadError {
    /// The position of the module that failed.
    pub module: usize,
    /// Why it failed.
    pub cause: Error,
}

/// A session: the runtime of a program. It holds the global scope and runs
/// modules and statements against it.
pub struct Session {
    global: GlobalScope,
    budget: u64,
}

impl Session {
    /// The global scope of the session.
    pub closed spec fn globals(&self) -> Map<Seq<char>, Term> {
        self.global@
    }

    /// The bound on nested beta-reductions of each evaluation.
    pub closed spec fn spec_budget(&self) -> nat {
        self.budget as nat
    }

    /// Well-formedness of the session.
    pub closed spec fn wf(&self) -> bool {
        self.global.wf()
    }

    /// A session with an empty global scope and no bound on reduction depth
    /// short of the largest `u64`.
    pub fn new() -> (r: Session)
        ensures
            r.wf(),
            r.globals() == Map::<Seq<char>, Term>::empty(),
            r.spec_budget() == u64::MAX as nat,
    {
        Session { global: GlobalScope::new(), budget: u64::MAX }
    }

    /// A session with an empty global scope that gives up any evaluation that
    /// nests more than `budget` beta-reductions.
    pub fn with_budget(budget: u64) -> (r: Session)
        ensures
            r.wf(),
            r.globals() == Map::<Seq<char>, Term>::empty(),
            r.spec_budget() == budget as nat,
    {
        Session { global: GlobalScope::new(), budget }
    }

    /// The bound on nested beta-reductions of each evaluation.
    pub fn budget(&self) -> (r: u64)
        ensures
            r as nat == self.spec_budget(),
    {
        self.budget
    }

    /// The global scope of the session.
    pub fn scope(&self) -> (r: &GlobalScope)
        requires
            self.wf(),
        ensures
            r.wf(),
            r@ == self.globals(),
    {
        &self.global
    }

    /// Runs one statement and returns its result.
    ///
    /// An assignment stores its resolved, unevaluated value and cannot fail. A
    /// bare name shows the value stored under it. Any other expression is
    /// resolved, forced to normal form, and kept under `_`.
    pub fn eval_stmt(&mut self, stmt: &Stmt) -> (r: Result<Value, Error>)
        requires
            old(self).wf(),
        ensures
            final(self).wf(),
            final(self).spec_budget() == old(self).spec_budget(),
            (final(self).globals(), outcome(r)) == stmt_step(
                old(self).globals(),
                stmt@,
                old(self).spec_budget(),
            ),
    {
        match stmt {
            Stmt::Assign { target, expr } => {
                let val = Value::from_expr(expr);
                let val = val.bind_global(&self.global);
                let stored = self.global.set(target.as_str(), val);
                Ok(stored.duplicate())
            },
            Stmt::Expr { expr: Expr::Id { name } } => match self.global.get(name.as_str()) {
                Some(val) => Ok(val.duplicate()),
                None => Err(Error::UndefinedGlobal { name: name.clone() }),
            },
            Stmt::Expr { expr } => {
                let val = Value::from_expr(expr);
                let val = val.bind_global(&self.global);
                match val.eval(self.budget) {
                    Ok(res) => {
                        proof {
                            reveal_strlit("_");
                        }
                        let stored = self.global.set("_", res);
                        Ok(stored.duplicate())
                    },
                    Err(e) => Err(e),
                }
            },
        }
    }

    /// Runs the statements of a module in order and returns the result of the
    /// last one, or the first failure.
    pub fn eval_module(&mut self, module: &Module) -> (r: Result<Value, Error>)
        requires
            old(self).wf(),
            module.stmts.len() > 0,
        ensures
            final(self).wf(),
            final(self).spec_budget() == old(self).spec_budget(),
            (final(self).globals(), outcome(r)) == module_step(
                old(self).globals(),
                module@,
                old(self).spec_budget(),
            ),
    {
        let n = module.stmts.len();
        let ghost ss = module@;
        let mut i: usize = 0;
        assert(ss.subrange(0, n as int) =~= ss);
        while i < n
            invariant
                self.wf(),
                self.spec_budget() == old(self).spec_budget(),
                n == module.stmts.len(),
                ss == module@,
                ss.len() == n,
                i < n,
                module_step(old(self).globals(), ss, old(self).spec_budget()) == module_step(
                    self.globals(),
                    ss.subrange(i as int, n as int),
                    self.spec_budget(),
                ),
            decreases n - i,
        {
            let ghost g = self.globals();
            let ghost rest = ss.subrange(i as int, n as int);
            assert(rest[0] == module.stmts@[i as int]@);
            let r = self.eval_stmt(&module.stmts[i]);
            if r.is_err() || i + 1 == n {
                return r;
            }
            assert(rest.drop_first() =~= ss.subrange(i + 1, n as int));
            i = i + 1;
        }
        unreached()
    }

    /// Runs the modules in order, each against the same global scope, and
    /// stops at the first module that fails, naming its position.
    pub fn load_stdlib(&mut self, modules: &Vec<Module>) -> (r: Result<(), LoadError>)
        requires
            old(self).wf(),
            forall|k: int| 0 <= k < modules.len() ==> (#[trigger] modules@[k]).stmts.len() > 0,
        ensures
            final(self).wf(),
            final(self).spec_budget() == old(self).spec_budget(),
            ({
                let (g, f) = load_step(
                    old(self).globals(),
                    modules@.map_values(|m: Module| m@),
                    old(self).spec_budget(),
                );
                &&& final(self).globals() == g
                &&& match r {
                    Ok(()) => f is None,
                    Err(e) => f == Some((e.module as nat, e.cause@)),
                }
            }),
    {
        let ghost ms = modules@.map_values(|m: Module| m@);
        let mut i: usize = 0;
        assert(ms.subrange(0, ms.len() as int) =~= ms);
        while i < modules.len()
            invariant
                self.wf(),
                self.spec_budget() == old(self).spec_budget(),
                ms == modules@.map_values(|m: Module| m@),
                i <= modules.len(),
                forall|k: int| 0 <= k < modules.len() ==> (#[trigger] modules@[k]).stmts.len() > 0,
                ({
                    let (g0, f0) = load_step(old(self).globals(), ms, self.spec_budget());
                    let (g1, f1) = load_step(
                        self.globals(),
                        ms.subrange(i as int, ms.len() as int),
                        self.spec_budget(),
                    );
                    &&& g0 == g1
                    &&& match f1 {
                        Some((j, e)) => f0 == Some(((j + i) as nat, e)),
                        None => f0 is None,
                    }
                }),
            decreases modules.len() - i,
        {
            let ghost rest = ms.subrange(i as int, ms.len() as int);
            assert(rest[0] == modules@[i as int]@);
            assert(rest.drop_first() =~= ms.subrange(i + 1, ms.len() as int));
            match self.eval_module(&modules[i]) {
                Ok(_) => {},
                Err(e) => {
                    return Err(LoadError { module: i, cause: e });
                },
            }
            i = i + 1;
        }
        assert(ms.subrange(i as int, ms.len() as int).len() == 0);
        Ok(())
    }
}

} // verus!
