//! Text to syntax tree.
//!
//! The text is first split into tokens, then the tokens are read by this
//! grammar, where `|` is an ordered choice and `+` a greedy repetition:
//!
//! ```text
//! module     = NEWLINE* statement (NEWLINE+ statement)* NEWLINE*
//! statement  = NAME "=" expression | expression
//! expression = definition | call | atom
//! definition = LAMBDA NAME expression
//! call       = atom atom+            (applications group to the left)
//! atom       = NAME | "(" (definition | call) ")"
//! ```
//!
//! A lambda is `\` or `λ`. Spaces, tabs and carriage returns separate tokens,
//! and `#` starts a comment that runs to the end of the line.
use vstd::prelude::*;

use crate::ast::{Expr, Module, Stmt, StmtTree, Tree};
use crate::text::chars_of;

verus! {

/// A token of the surface syntax.
#[derive(Debug)]
pub enum Token {
    /// `\` or `λ`.
    Lambda,
    /// `(`.
    Open,
    /// `)`.
    Close,
    /// `=`.
    Equals,
    /// The end of a line.
    Newline,
    /// A run of name characters.
    Name(String),
}

/// The mathematical form of a [`Token`].
pub enum Tok {
    Lambda,
    Open,
    Close,
    Equals,
    Newline,
    Name(Seq<char>),
}

impl View for Token {
    type V = Tok;

    open spec fn view(&self) -> Tok {
        match self {
            Token::Lambda => Tok::Lambda,
            Token::Open => Tok::Open,
            Token::Close => Tok::Close,
            Token::Equals => Tok::Equals,
            Token::Newline => Tok::Newline,
            Token::Name(n) => Tok::Name(n@),
        }
    }
}

/// The mathematical form of a sequence of tokens.
pub open spec fn toks_view(v: Seq<Token>) -> Seq<Tok> {
    v.map_values(|t: Token| t@)
}

/// Characters that separate tokens within a line.
pub open spec fn is_blank(c: char) -> bool {
    c == ' ' || c == '\t' || c == '\r'
}

/// Characters that make up names: all but blanks, line ends, and the
/// characters that have a meaning of their own.
pub open spec fn is_name_char(c: char) -> bool {
    !is_blank(c) && c != '\n' && c != '\\' && c != 'λ' && c != '(' && c != ')' && c != '='
        && c != '#'
}

/// The tokens of `s` from position `i` on.
pub open spec fn lex_from(s: Seq<char>, i: int) -> Seq<Tok>
    decreases s.len() - i, 0int,
{
    if i < 0 || i >= s.len() {
        Seq::empty()
    } else {
        let c = s[i];
        if is_blank(c) {
            lex_from(s, i + 1)
        } else if c == '#' {
            lex_comment(s, i + 1)
        } else if c == '\n' {
            seq![Tok::Newline] + lex_from(s, i + 1)
        } else if c == '\\' || c == 'λ' {
            seq![Tok::Lambda] + lex_from(s, i + 1)
        } else if c == '(' {
            seq![Tok::Open] + lex_from(s, i + 1)
        } else if c == ')' {
            seq![Tok::Close] + lex_from(s, i + 1)
        } else if c == '=' {
            seq![Tok::Equals] + lex_from(s, i + 1)
        } else {
            lex_name(s, i, i + 1)
        }
    }
}

/// The tokens of `s` from position `i` on, inside a comment.
pub open spec fn lex_comment(s: Seq<char>, i: int) -> Seq<Tok>
    decreases s.len() - i, 1int,
{
    if 0 <= i < s.len() && s[i] != '\n' {
        lex_comment(s, i + 1)
    } else {
        lex_from(s, i)
    }
}

/// The tokens of `s` from position `i` on, inside a name that began at `start`.
pub open spec fn lex_name(s: Seq<char>, start: int, i: int) -> Seq<Tok>
    decreases s.len() - i, 1int,
{
    if 0 <= i < s.len() && is_name_char(s[i]) {
        lex_name(s, start, i + 1)
    } else {
        seq![Tok::Name(s.subrange(start, i))] + lex_from(s, i)
    }
}

/// The tokens of the text `s`.
pub open spec fn lex(s: Seq<char>) -> Seq<Tok> {
    lex_from(s, 0)
}

/// `expression` at position `p`: the tree and the position after it.
pub open spec fn expr_at(t: Seq<Tok>, p: int) -> Option<(Tree, int)>
    decreases t.len() - p, 4int,
{
    match def_at(t, p) {
        Some(r) => Some(r),
        None => match call_at(t, p) {
            Some(r) => Some(r),
            None => atom_at(t, p),
        },
    }
}

/// `definition | call` at position `p`, the inside of parentheses.
pub open spec fn inner_at(t: Seq<Tok>, p: int) -> Option<(Tree, int)>
    decreases t.len() - p, 4int,
{
    match def_at(t, p) {
        Some(r) => Some(r),
        None => call_at(t, p),
    }
}

/// `definition` at position `p`.
pub open spec fn def_at(t: Seq<Tok>, p: int) -> Option<(Tree, int)>
    decreases t.len() - p, 3int,
{
    if 0 <= p && p + 1 < t.len() && t[p] is Lambda && t[p + 1] is Name {
        match expr_at(t, p + 2) {
            Some((body, q)) => Some((Tree::Def { param: t[p + 1]->Name_0, body: Box::new(body) }, q)),
            None => None,
        }
    } else {
        None
    }
}

/// `call` at position `p`.
pub open spec fn call_at(t: Seq<Tok>, p: int) -> Option<(Tree, int)>
    decreases t.len() - p, 3int,
{
    match atom_at(t, p) {
        Some((f, q)) => if p < q <= t.len() {
            match atom_at(t, q) {
                Some((a, r)) => if q < r <= t.len() {
                    Some(args_at(t, r, Tree::Call { target: Box::new(f), arg: Box::new(a) }))
                } else {
                    None
                },
                None => None,
            }
        } else {
            None
        },
        None => None,
    }
}

/// The further arguments of a call from position `p` on, applied in turn to
/// `acc`, the call so far.
pub open spec fn args_at(t: Seq<Tok>, p: int, acc: Tree) -> (Tree, int)
    decreases t.len() - p, 3int,
{
    match atom_at(t, p) {
        Some((a, q)) => if p < q <= t.len() {
            args_at(t, q, Tree::Call { target: Box::new(acc), arg: Box::new(a) })
        } else {
            (acc, p)
        },
        None => (acc, p),
    }
}

/// `atom` at position `p`.
pub open spec fn atom_at(t: Seq<Tok>, p: int) -> Option<(Tree, int)>
    decreases t.len() - p, 2int,
{
    if 0 <= p < t.len() {
        match t[p] {
            Tok::Name(n) => Some((Tree::Id { name: n }, p + 1)),
            Tok::Open => match inner_at(t, p + 1) {
                Some((e, q)) => if 0 <= q < t.len() && t[q] is Close {
                    Some((e, q + 1))
                } else {
                    None
                },
                None => None,
            },
            _ => None,
        }
    } else {
        None
    }
}

/// `statement` at position `p`.
pub open spec fn stmt_at(t: Seq<Tok>, p: int) -> Option<(StmtTree, int)> {
    if 0 <= p && p + 1 < t.len() && t[p] is Name && t[p + 1] is Equals {
        match expr_at(t, p + 2) {
            Some((e, q)) => Some((StmtTree::Assign { target: t[p]->Name_0, expr: e }, q)),
            None => None,
        }
    } else {
        match expr_at(t, p) {
            Some((e, q)) => Some((StmtTree::Bare { expr: e }, q)),
            None => None,
        }
    }
}

/// The position of the first token at or after `p` that is not a line end.
pub open spec fn skip_newlines(t: Seq<Tok>, p: int) -> int
    decreases t.len() - p,
{
    if 0 <= p < t.len() && t[p] is Newline {
        skip_newlines(t, p + 1)
    } else {
        p
    }
}

/// The statements from position `p` on, where a statement starts.
pub open spec fn stmts_at(t: Seq<Tok>, p: int) -> Option<Seq<StmtTree>>
    decreases t.len() - p,
{
    match stmt_at(t, p) {
        Some((s, q)) => if q >= t.len() {
            Some(seq![s])
        } else if q >= 0 && t[q] is Newline {
            let r = skip_newlines(t, q);
            if r >= t.len() {
                Some(seq![s])
            } else if p < r {
                match stmts_at(t, r) {
                    Some(rest) => Some(seq![s] + rest),
                    None => None,
                }
            } else {
                None
            }
        } else {
            None
        },
        None => None,
    }
}

/// The module that the text `s` reads as, if it reads as one.
pub open spec fn parse_text(s: Seq<char>) -> Option<Seq<StmtTree>> {
    let t = lex(s);
    let p = skip_newlines(t, 0);
    if p >= t.len() {
        None
    } else {
        stmts_at(t, p)
    }
}

/// The text does not read as a module.
#[derive(Debug)]
pub struct ParseError;

impl ParseError {
    /// A human-readable description of the failure.
    pub fn message(&self) -> (r: String)
        ensures
            r@ == "invalid syntax"@,
    {
        String::from_str("invalid syntax")
    }
}

/// A parsed tree and the position after it, in mathematical form.
pub open spec fn found(r: Option<(Expr, usize)>) -> Option<(Tree, int)> {
    match r {
        Some((e, q)) => Some((e@, q as int)),
        None => None,
    }
}

/// `expression` at position `p`.
fn parse_expr(t: &Vec<Token>, p: usize) -> (r: Option<(Expr, usize)>)
    requires
        p <= t.len(),
    ensures
        found(r) == expr_at(toks_view(t@), p as int),
        r matches Some((_, q)) ==> p < q <= t.len(),
    decreases t.len() - p, 4int,
{
    match parse_def(t, p) {
        Some(r) => Some(r),
        None => match parse_call(t, p) {
            Some(r) => Some(r),
            None => parse_atom(t, p),
        },
    }
}

/// `definition | call` at position `p`.
fn parse_inner(t: &Vec<Token>, p: usize) -> (r: Option<(Expr, usize)>)
    requires
        p <= t.len(),
    ensures
        found(r) == inner_at(toks_view(t@), p as int),
        r matches Some((_, q)) ==> p < q <= t.len(),
    decreases t.len() - p, 4int,
{
    match parse_def(t, p) {
        Some(r) => Some(r),
        None => parse_call(t, p),
    }
}

/// `definition` at position `p`.
fn parse_def(t: &Vec<Token>, p: usize) -> (r: Option<(Expr, usize)>)
    requires
        p <= t.len(),
    ensures
        found(r) == def_at(toks_view(t@), p as int),
        r matches Some((_, q)) ==> p < q <= t.len(),
    decreases t.len() - p, 3int,
{
    let ghost tv = toks_view(t@);
    if t.len() - p > 1 && matches!(t[p], Token::Lambda) {
        assert(tv[p as int] == t@[p as int]@);
        assert(tv[p + 1] == t@[p + 1]@);
        match &t[p + 1] {
            Token::Name(n) => match parse_expr(t, p + 2) {
                Some((body, q)) => Some((Expr::Def { arg: n.clone(), expr: Box::new(body) }, q)),
                None => None,
            },
            _ => None,
        }
    } else {
        if t.len() - p > 1 {
            assert(tv[p as int] == t@[p as int]@);
        }
        None
    }
}

/// `call` at position `p`.
fn parse_call(t: &Vec<Token>, p: usize) -> (r: Option<(Expr, usize)>)
    requires
        p <= t.len(),
    ensures
        found(r) == call_at(toks_view(t@), p as int),
        r matches Some((_, q)) ==> p < q <= t.len(),
    decreases t.len() - p, 3int,
{
    match parse_atom(t, p) {
        Some((f, q)) => match parse_atom(t, q) {
            Some((a, r)) => {
                let (e, s) = parse_args(t, r, Expr::Call { target: Box::new(f), arg: Box::new(a) });
                Some((e, s))
            },
            None => None,
        },
        None => None,
    }
}

/// The further arguments of a call from position `p` on, applied in turn to
/// `acc`.
fn parse_args(t: &Vec<Token>, p: usize, first: Expr) -> (r: (Expr, usize))
    requires
        p <= t.len(),
    ensures
        (r.0@, r.1 as int) == args_at(toks_view(t@), p as int, first@),
        p <= r.1 <= t.len(),
    decreases t.len() - p, 3int,
{
    let ghost tv = toks_view(t@);
    let mut acc = first;
    let mut pos = p;
    loop
        invariant
            p <= pos <= t.len(),
            tv == toks_view(t@),
            args_at(tv, p as int, first@) == args_at(tv, pos as int, acc@),
        decreases t.len() - pos,
    {
        match parse_atom(t, pos) {
            Some((a, q)) => {
                acc = Expr::Call { target: Box::new(acc), arg: Box::new(a) };
                pos = q;
            },
            None => {
                return (acc, pos);
            },
        }
    }
}

/// `atom` at position `p`.
fn parse_atom(t: &Vec<Token>, p: usize) -> (r: Option<(Expr, usize)>)
    requires
        p <= t.len(),
    ensures
        found(r) == atom_at(toks_view(t@), p as int),
        r matches Some((_, q)) ==> p < q <= t.len(),
    decreases t.len() - p, 2int,
{
    let ghost tv = toks_view(t@);
    if p < t.len() {
        assert(tv[p as int] == t@[p as int]@);
        match &t[p] {
            Token::Name(n) => Some((Expr::Id { name: n.clone() }, p + 1)),
            Token::Open => match parse_inner(t, p + 1) {
                Some((e, q)) => {
                    if q < t.len() {
                        assert(tv[q as int] == t@[q as int]@);
                    }
                    if q < t.len() && matches!(t[q], Token::Close) {
                        Some((e, q + 1))
                    } else {
                        None
                    }
                },
                None => None,
            },
            _ => None,
        }
    } else {
        None
    }
}

/// A parsed statement and the position after it, in mathematical form.
pub open spec fn found_stmt(r: Option<(Stmt, usize)>) -> Option<(StmtTree, int)> {
    match r {
        Some((s, q)) => Some((s@, q as int)),
        None => None,
    }
}

/// `statement` at position `p`.
fn parse_stmt(t: &Vec<Token>, p: usize) -> (r: Option<(Stmt, usize)>)
    requires
        p <= t.len(),
    ensures
        found_stmt(r) == stmt_at(toks_view(t@), p as int),
        r matches Some((_, q)) ==> p < q <= t.len(),
{
    let ghost tv = toks_view(t@);
    if t.len() - p > 1 {
        assert(tv[p as int] == t@[p as int]@);
        assert(tv[p + 1] == t@[p + 1]@);
    }
    if t.len() - p > 1 && matches!(t[p + 1], Token::Equals) {
        if let Token::Name(n) = &t[p] {
            return match parse_expr(t, p + 2) {
                Some((e, q)) => Some((Stmt::Assign { target: n.clone(), expr: Box::new(e) }, q)),
                None => None,
            };
        }
    }
    match parse_expr(t, p) {
        Some((e, q)) => Some((Stmt::Expr { expr: e }, q)),
        None => None,
    }
}

/// The position of the first token at or after `p` that is not a line end.
fn skip_line_ends(t: &Vec<Token>, p: usize) -> (r: usize)
    requires
        p <= t.len(),
    ensures
        r as int == skip_newlines(toks_view(t@), p as int),
        p <= r <= t.len(),
{
    let ghost tv = toks_view(t@);
    let mut i = p;
    while i < t.len() && matches!(t[i], Token::Newline)
        invariant
            p <= i <= t.len(),
            tv == toks_view(t@),
            skip_newlines(tv, p as int) == skip_newlines(tv, i as int),
        decreases t.len() - i,
    {
        assert(tv[i as int] == t@[i as int]@);
        i = i + 1;
    }
    if i < t.len() {
        assert(tv[i as int] == t@[i as int]@);
    }
    i
}

/// Reads the text as a module: its statements, in order.
pub fn parse(input: &str) -> (r: Result<Module, ParseError>)
    ensures
        r matches Ok(m) ==> m.stmts.len() > 0,
        match r {
            Ok(m) => parse_text(input@) == Some(m@),
            Err(_) => parse_text(input@) is None,
        },
{
    let t = LangParser::tokenize(input);
    let ghost tv = toks_view(t@);
    let start = skip_line_ends(&t, 0);
    if start >= t.len() {
        return Err(ParseError);
    }
    let mut stmts: Vec<Stmt> = Vec::new();
    let mut p = start;
    loop
        invariant
            start <= p < t.len(),
            tv == toks_view(t@),
            tv == lex(input@),
            parse_text(input@) == match stmts_at(tv, p as int) {
                Some(rest) => Some(stmts@.map_values(|s: Stmt| s@) + rest),
                None => None::<Seq<StmtTree>>,
            },
        decreases t.len() - p,
    {
        let ghost before = stmts@.map_values(|s: Stmt| s@);
        match parse_stmt(&t, p) {
            Some((s, q)) => {
                let ghost sv = s@;
                stmts.push(s);
                assert(stmts@.map_values(|s: Stmt| s@) =~= before + seq![sv]);
                if q >= t.len() {
                    assert(before + seq![sv] =~= before + seq![sv]);
                    return Ok(Module { stmts });
                }
                assert(tv[q as int] == t@[q as int]@);
                if !matches!(t[q], Token::Newline) {
                    return Err(ParseError);
                }
                let r = skip_line_ends(&t, q);
                if r >= t.len() {
                    return Ok(Module { stmts });
                }
                proof {
                    let rest = stmts_at(tv, r as int);
                    if rest is Some {
                        assert(before + (seq![sv] + rest->Some_0) =~= before + seq![sv]
                            + rest->Some_0);
                    }
                }
                p = r;
            },
            None => {
                return Err(ParseError);
            },
        }
    }
}

/// A library source that does not read as a module.
#[derive(Debug)]
pub struct SourceError {
    /// The position of the source among those given.
    pub source: usize,
    /// Why it does not read.
    pub cause: ParseError,
}

/// Reads each library source as a module, in order, and stops at the first
/// that does not read, naming its position.
pub fn read_stdlib(sources: &Vec<String>) -> (r: Result<Vec<Module>, SourceError>)
    ensures
        match r {
            Ok(ms) => ms.len() == sources.len() && forall|k: int|
                0 <= k < sources.len() ==> parse_text(sources@[k]@) == Some(
                    (#[trigger] ms@[k])@,
                ),
            Err(e) => e.source < sources.len() && parse_text(sources@[e.source as int]@) is None
                && forall|k: int| 0 <= k < e.source ==> (#[trigger] parse_text(sources@[k]@)) is Some,
        },
{
    let mut modules: Vec<Module> = Vec::new();
    let mut i: usize = 0;
    while i < sources.len()
        invariant
            i <= sources.len(),
            modules.len() == i,
            forall|k: int| 0 <= k < i ==> parse_text(sources@[k]@) == Some((#[trigger] modules@[k])@),
        decreases sources.len() - i,
    {
        match parse(sources[i].as_str()) {
            Ok(m) => modules.push(m),
            Err(cause) => {
                assert forall|k: int| 0 <= k < i implies (#[trigger] parse_text(
                    sources@[k]@,
                )) is Some by {
                    assert(parse_text(sources@[k]@) == Some(modules@[k]@));
                }
                return Err(SourceError { source: i, cause });
            },
        }
        i = i + 1;
    }
    Ok(modules)
}

/// Whether `c` is a character of names.
fn name_char(c: char) -> (r: bool)
    ensures
        r == is_name_char(c),
{
    !(c == ' ' || c == '\t' || c == '\r' || c == '\n' || c == '\\' || c == 'λ' || c == '('
        || c == ')' || c == '=' || c == '#')
}

/// The lexer and parser of the surface syntax.
pub struct LangParser;

impl LangParser {
    /// Splits the text into tokens.
    pub fn tokenize(input: &str) -> (r: Vec<Token>)
        ensures
            toks_view(r@) == lex(input@),
    {
        let cs = chars_of(input);
        let n = cs.len();
        let ghost s = input@;
        let mut out: Vec<Token> = Vec::new();
        let mut i: usize = 0;
        while i < n
            invariant
                s == input@,
                cs@ == s,
                n == s.len(),
                i <= n,
                toks_view(out@) + lex_from(s, i as int) == lex(s),
            decreases n - i,
        {
            let c = cs[i];
            let ghost before = out@;
            if c == ' ' || c == '\t' || c == '\r' {
                i = i + 1;
            } else if c == '#' {
                let start = i;
                i = i + 1;
                while i < n && cs[i] != '\n'
                    invariant
                        cs@ == s,
                        n == s.len(),
                        start < i <= n,
                        toks_view(out@) + lex_comment(s, i as int) == lex(s),
                    decreases n - i,
                {
                    i = i + 1;
                }
            } else if c == '\n' || c == '\\' || c == 'λ' || c == '(' || c == ')' || c == '=' {
                let tok = if c == '\n' {
                    Token::Newline
                } else if c == '(' {
                    Token::Open
                } else if c == ')' {
                    Token::Close
                } else if c == '=' {
                    Token::Equals
                } else {
                    Token::Lambda
                };
                out.push(tok);
                assert(toks_view(out@) =~= toks_view(before) + seq![tok@]);
                i = i + 1;
            } else {
                let start = i;
                i = i + 1;
                while i < n && name_char(cs[i])
                    invariant
                        s == input@,
                        cs@ == s,
                        n == s.len(),
                        start < i <= n,
                        toks_view(out@) + lex_name(s, start as int, i as int) == lex(s),
                    decreases n - i,
                {
                    i = i + 1;
                }
                assert(lex_name(s, start as int, i as int) == seq![
                    Tok::Name(s.subrange(start as int, i as int)),
                ] + lex_from(s, i as int));
                let name = String::from_str(input.substring_char(start, i));
                let tok = Token::Name(name);
                out.push(tok);
                assert(toks_view(out@) =~= toks_view(before) + seq![tok@]);
            }
        }
        assert(toks_view(out@) =~= lex(s));
        out
    }
}

} // verus!
