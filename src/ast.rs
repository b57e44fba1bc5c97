//! The syntax tree that the parser produces and the evaluator consumes.
//!
//! The tree is built once and only read afterwards.
use vstd::prelude::*;

verus! {

/// An expression: a node that can stand anywhere.
#[derive(Debug, PartialEq)]
pub enum Expr {
    /// Definition of a lambda: `λarg expr`.
    Def { arg: String, expr: Box<Expr> },
    /// Application: calling `target` with `arg`.
    Call { target: Box<Expr>, arg: Box<Expr> },
    /// Identifier, the name of a lambda.
    Id { name: String },
}

/// The mathematical form of an [`Expr`]: names as character sequences.
pub enum Tree {
    Def { param: Seq<char>, body: Box<Tree> },
    Call { target: Box<Tree>, arg: Box<Tree> },
    Id { name: Seq<char> },
}

impl View for Expr {
    type V = Tree;

    open spec fn view(&self) -> Tree
        decreases self,
    {
        match self {
            Expr::Def { arg, expr } => Tree::Def { param: arg@, body: Box::new((**expr).view()) },
            Expr::Call { target, arg } => Tree::Call {
                target: Box::new((**target).view()),
                arg: Box::new((**arg).view()),
            },
            Expr::Id { name } => Tree::Id { name: name@ },
        }
    }
}

/// The shape of a tree without its names: `def(..)`, `call(.., ..)` and `id`.
pub open spec fn tree_shape(t: Tree) -> Seq<char>
    decreases t,
{
    match t {
        Tree::Def { body, .. } => "def("@ + tree_shape(*body) + ")"@,
        Tree::Call { target, arg } => "call("@ + tree_shape(*target) + ", "@ + tree_shape(*arg)
            + ")"@,
        Tree::Id { .. } => "id"@,
    }
}

impl Expr {
    /// Represents the expression as a short S-tree-like string that reflects
    /// the structure of the tree but not the names in it.
    pub fn short_repr(&self) -> (r: String)
        ensures
            r@ == tree_shape(self@),
        decreases self,
    {
        match self {
            Expr::Def { expr, .. } => {
                let inner = expr.short_repr();
                let mut r = String::from_str("def(");
                r.append(inner.as_str());
                r.append(")");
                r
            },
            Expr::Call { target, arg } => {
                let t = target.short_repr();
                let a = arg.short_repr();
                let mut r = String::from_str("call(");
                r.append(t.as_str());
                r.append(", ");
                r.append(a.as_str());
                r.append(")");
                r
            },
            Expr::Id { .. } => String::from_str("id"),
        }
    }
}

/// A statement: a node that stands only at the top level of a module.
#[derive(Debug, PartialEq)]
pub enum Stmt {
    /// Assigns an expression to a name: `id = \x x`.
    Assign { target: String, expr: Box<Expr> },
    /// A single expression at the top level.
    Expr { expr: Expr },
}

/// The mathematical form of a [`Stmt`].
pub enum StmtTree {
    Assign { target: Seq<char>, expr: Tree },
    Bare { expr: Tree },
}

impl View for Stmt {
    type V = StmtTree;

    open spec fn view(&self) -> StmtTree {
        match self {
            Stmt::Assign { target, expr } => StmtTree::Assign { target: target@, expr: (**expr)@ },
            Stmt::Expr { expr } => StmtTree::Bare { expr: expr@ },
        }
    }
}

/// The shape of a statement: `let(..)` around the shape of an assigned expression.
pub open spec fn stmt_shape(s: StmtTree) -> Seq<char> {
    match s {
        StmtTree::Assign { expr, .. } => "let("@ + tree_shape(expr) + ")"@,
        StmtTree::Bare { expr } => tree_shape(expr),
    }
}

impl Stmt {
    /// Represents the statement as a short S-tree-like string that reflects
    /// the structure of the tree but not the names in it.
    pub fn short_repr(&self) -> (r: String)
        ensures
            r@ == stmt_shape(self@),
    {
        match self {
            Stmt::Assign { expr, .. } => {
                let inner = expr.short_repr();
                let mut r = String::from_str("let(");
                r.append(inner.as_str());
                r.append(")");
                r
            },
            Stmt::Expr { expr } => expr.short_repr(),
        }
    }
}

/// The root of the tree for one input text: its statements in order.
#[derive(Debug, PartialEq)]
pub struct Module {
    pub stmts: Vec<Stmt>,
}

impl View for Module {
    type V = Seq<StmtTree>;

    open spec fn view(&self) -> Seq<StmtTree> {
        self.stmts@.map_values(|s: Stmt| s@)
    }
}

/// An expression of the flat statement form, where an assignment is itself an
/// expression.
#[derive(Debug, PartialEq)]
pub enum Expression {
    Def { arg: String, expr: Box<Expression> },
    Call { target: Box<Expression>, arg: Box<Expression> },
    Assign { target: String, expr: Box<Expression> },
    Id { name: String },
}

/// A statement of the flat form: a sequence of expressions.
#[derive(Debug, PartialEq)]
pub struct Statement {
    pub expressions: Vec<Expression>,
}

impl Expression {
    /// Builds a definition from its parameter name and body.
    pub fn make_def(t: (&str, Expression)) -> (r: Expression)
        ensures
            r matches Expression::Def { arg, expr } && arg@ == t.0@ && *expr == t.1,
    {
        let (arg, expr) = t;
        Expression::Def { arg: String::from_str(arg), expr: Box::new(expr) }
    }

    /// Builds an application from its target and argument.
    pub fn make_call(t: (Expression, Expression)) -> (r: Expression)
        ensures
            r matches Expression::Call { target, arg } && *target == t.0 && *arg == t.1,
    {
        let (target, arg) = t;
        Expression::Call { target: Box::new(target), arg: Box::new(arg) }
    }

    /// Builds an assignment from its target name and expression.
    pub fn make_assign(t: (&str, Expression)) -> (r: Expression)
        ensures
            r matches Expression::Assign { target, expr } && target@ == t.0@ && *expr == t.1,
    {
        let (target, expr) = t;
        Expression::Assign { target: String::from_str(target), expr: Box::new(expr) }
    }

    /// Builds an identifier from its name.
    pub fn make_id(name: &str) -> (r: Expression)
        ensures
            r matches Expression::Id { name: n } && n@ == name@,
    {
        Expression::Id { name: String::from_str(name) }
    }
}

} // verus!
