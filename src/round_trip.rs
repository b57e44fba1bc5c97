//! Rendering and reading agree: the text of a tree reads back as that tree.
use vstd::prelude::*;

use crate::ast::{StmtTree, Tree};
use crate::parser::{
    args_at, atom_at, call_at, def_at, expr_at, inner_at, is_blank, is_name_char, lex, lex_from,
    lex_name, parse_text, skip_newlines, stmt_at, Tok,
};
use crate::value::{render, resolve, term_of, Term};

verus! {

/// A name that reads back as one name token: not empty, and made of name
/// characters only.
pub open spec fn valid_name(n: Seq<char>) -> bool {
    n.len() > 0 && forall|k: int| 0 <= k < n.len() ==> is_name_char(#[trigger] n[k])
}

/// Every name in the tree is valid.
pub open spec fn valid_tree(e: Tree) -> bool
    decreases e,
{
    match e {
        Tree::Id { name } => valid_name(name),
        Tree::Def { param, body } => valid_name(param) && valid_tree(*body),
        Tree::Call { target, arg } => valid_tree(*target) && valid_tree(*arg),
    }
}

/// The text of a tree: the rendering of the value it converts to.
pub open spec fn text(e: Tree) -> Seq<char> {
    render(term_of(e))
}

/// Whether the tree holds a definition.
pub open spec fn has_def(e: Tree) -> bool
    decreases e,
{
    match e {
        Tree::Id { .. } => false,
        Tree::Def { .. } => true,
        Tree::Call { target, arg } => has_def(*target) || has_def(*arg),
    }
}

/// The tokens of a tree written as an atom: a name, or in parentheses.
pub open spec fn atom_toks(e: Tree) -> Seq<Tok>
    decreases e, 1int,
{
    match e {
        Tree::Id { name } => seq![Tok::Name(name)],
        _ => seq![Tok::Open] + toks(e) + seq![Tok::Close],
    }
}

/// The tokens of the text of a tree.
pub open spec fn toks(e: Tree) -> Seq<Tok>
    decreases e, 0int,
{
    match e {
        Tree::Id { name } => seq![Tok::Name(name)],
        Tree::Def { param, body } => seq![Tok::Lambda, Tok::Name(param)] + toks(*body),
        Tree::Call { target, arg } => (if has_def(*target) {
            atom_toks(*target)
        } else {
            toks(*target)
        }) + atom_toks(*arg),
    }
}

/// No character of `s` starts a comment.
pub open spec fn no_hash(s: Seq<char>) -> bool {
    forall|k: int| 0 <= k < s.len() ==> #[trigger] s[k] != '#'
}

/// A name does not run on from the end of `u` into `v`.
pub open spec fn boundary(u: Seq<char>, v: Seq<char>) -> bool {
    u.len() == 0 || v.len() == 0 || !is_name_char(u.last()) || !is_name_char(v[0])
}

proof fn lemma_no_hash_concat(a: Seq<char>, b: Seq<char>)
    requires
        no_hash(a),
        no_hash(b),
    ensures
        no_hash(a + b),
{
    assert forall|k: int| 0 <= k < (a + b).len() implies #[trigger] (a + b)[k] != '#' by {
        if k < a.len() {
            assert((a + b)[k] == a[k]);
        } else {
            assert((a + b)[k] == b[k - a.len()]);
        }
    }
}

proof fn lemma_contains_concat(a: Seq<char>, b: Seq<char>, c: char)
    ensures
        (a + b).contains(c) <==> (a.contains(c) || b.contains(c)),
{
    if (a + b).contains(c) {
        let k = choose|k: int| 0 <= k < (a + b).len() && (a + b)[k] == c;
        if k < a.len() {
            assert(a[k] == c);
        } else {
            assert(b[k - a.len()] == c);
        }
    }
    if a.contains(c) {
        let k = choose|k: int| 0 <= k < a.len() && a[k] == c;
        assert((a + b)[k] == c);
    }
    if b.contains(c) {
        let k = choose|k: int| 0 <= k < b.len() && b[k] == c;
        assert((a + b)[a.len() + k] == c);
    }
}

/// Reading from position `|w| + j` of `w + s` is reading from `j` of `s`.
proof fn lemma_lex_shift(w: Seq<char>, s: Seq<char>, j: int)
    requires
        0 <= j <= s.len(),
        no_hash(s),
    ensures
        lex_from(w + s, w.len() + j) == lex_from(s, j),
    decreases s.len() - j, 0int,
{
    let ws = w + s;
    if j < s.len() {
        assert(ws[w.len() + j] == s[j]);
        let c = s[j];
        if is_blank(c) || c == '\n' || c == '\\' || c == 'λ' || c == '(' || c == ')' || c == '=' {
            lemma_lex_shift(w, s, j + 1);
        } else {
            lemma_lex_name_shift(w, s, j, j + 1);
        }
    }
}

proof fn lemma_lex_name_shift(w: Seq<char>, s: Seq<char>, st: int, j: int)
    requires
        0 <= st < j <= s.len(),
        no_hash(s),
    ensures
        lex_name(w + s, w.len() + st, w.len() + j) == lex_name(s, st, j),
    decreases s.len() - j, 1int,
{
    let ws = w + s;
    assert(ws.subrange(w.len() + st, w.len() + j) =~= s.subrange(st, j));
    if j < s.len() {
        assert(ws[w.len() + j] == s[j]);
        if is_name_char(s[j]) {
            lemma_lex_name_shift(w, s, st, j + 1);
        } else {
            lemma_lex_shift(w, s, j);
        }
    } else {
        lemma_lex_shift(w, s, j);
    }
}

proof fn lemma_lex_concat_from(u: Seq<char>, v: Seq<char>, i: int)
    requires
        0 <= i <= u.len(),
        no_hash(u),
        no_hash(v),
        boundary(u, v),
    ensures
        lex_from(u + v, i) == lex_from(u, i) + lex(v),
    decreases u.len() - i, 0int,
{
    let uv = u + v;
    if i == u.len() {
        lemma_lex_shift(u, v, 0);
        assert(lex_from(u, i) + lex(v) =~= lex(v));
    } else {
        assert(uv[i] == u[i]);
        let c = u[i];
        if is_blank(c) {
            lemma_lex_concat_from(u, v, i + 1);
        } else if c == '\n' || c == '\\' || c == 'λ' || c == '(' || c == ')' || c == '=' {
            lemma_lex_concat_from(u, v, i + 1);
            let tok = if c == '\n' {
                Tok::Newline
            } else if c == '\\' || c == 'λ' {
                Tok::Lambda
            } else if c == '(' {
                Tok::Open
            } else if c == ')' {
                Tok::Close
            } else {
                Tok::Equals
            };
            assert(seq![tok] + (lex_from(u, i + 1) + lex(v)) =~= (seq![tok] + lex_from(u, i + 1))
                + lex(v));
        } else {
            lemma_lex_name_concat(u, v, i, i + 1);
        }
    }
}

proof fn lemma_lex_name_concat(u: Seq<char>, v: Seq<char>, st: int, i: int)
    requires
        0 <= st < i <= u.len(),
        is_name_char(u[i - 1]),
        no_hash(u),
        no_hash(v),
        boundary(u, v),
    ensures
        lex_name(u + v, st, i) == lex_name(u, st, i) + lex(v),
    decreases u.len() - i, 1int,
{
    let uv = u + v;
    assert(uv.subrange(st, i) =~= u.subrange(st, i));
    let name = seq![Tok::Name(u.subrange(st, i))];
    if i < u.len() {
        assert(uv[i] == u[i]);
        if is_name_char(u[i]) {
            lemma_lex_name_concat(u, v, st, i + 1);
        } else {
            lemma_lex_concat_from(u, v, i);
            assert(name + (lex_from(u, i) + lex(v)) =~= (name + lex_from(u, i)) + lex(v));
        }
    } else {
        if v.len() > 0 {
            assert(uv[i] == v[0]);
        }
        lemma_lex_shift(u, v, 0);
        assert(lex_from(u, i) =~= Seq::<Tok>::empty());
        assert(name + lex(v) =~= (name + lex_from(u, i)) + lex(v));
    }
}

/// Reading the concatenation of two texts that no name or comment spans.
proof fn lemma_lex_concat(u: Seq<char>, v: Seq<char>)
    requires
        no_hash(u),
        no_hash(v),
        boundary(u, v),
    ensures
        lex(u + v) == lex(u) + lex(v),
{
    lemma_lex_concat_from(u, v, 0);
}

proof fn lemma_lex_name_run(p: Seq<char>, i: int)
    requires
        valid_name(p),
        0 < i <= p.len(),
    ensures
        lex_name(p, 0, i) == seq![Tok::Name(p)],
    decreases p.len() - i,
{
    if i < p.len() {
        lemma_lex_name_run(p, i + 1);
    } else {
        assert(lex_from(p, i) =~= Seq::<Tok>::empty());
        assert(p.subrange(0, i) =~= p);
        assert(seq![Tok::Name(p)] + Seq::<Tok>::empty() =~= seq![Tok::Name(p)]);
    }
}

proof fn lemma_lex_name(p: Seq<char>)
    requires
        valid_name(p),
    ensures
        lex(p) == seq![Tok::Name(p)],
        no_hash(p),
{
    assert(is_name_char(p[0]));
    lemma_lex_name_run(p, 1);
}

/// A one-character text reads as at most one token.
proof fn lemma_lex_single(c: char, tok: Seq<Tok>)
    requires
        c == 'λ' && tok == seq![Tok::Lambda] || c == '(' && tok == seq![Tok::Open] || c == ')'
            && tok == seq![Tok::Close] || c == ' ' && tok == Seq::<Tok>::empty(),
    ensures
        lex(seq![c]) == tok,
        no_hash(seq![c]),
        boundary(seq![c], seq![]) && !is_name_char(c),
{
    let s = seq![c];
    assert(s[0] == c);
    assert(lex_from(s, 1) =~= Seq::<Tok>::empty());
    assert(tok + Seq::<Tok>::empty() =~= tok);
}

/// What the text of a valid tree is made of.
proof fn lemma_text_facts(e: Tree)
    requires
        valid_tree(e),
    ensures
        text(e).len() > 0,
        no_hash(text(e)),
        text(e).contains('λ') <==> has_def(e),
        text(e).contains(' ') <==> !(e is Id),
        e is Id ==> text(e) == e->Id_name,
    decreases e,
{
    reveal_strlit("λ");
    reveal_strlit(" ");
    reveal_strlit("(");
    reveal_strlit(")");
    match e {
        Tree::Id { name } => {
            lemma_lex_name(name);
            if name.contains('λ') {
                let k = choose|k: int| 0 <= k < name.len() && name[k] == 'λ';
                assert(is_name_char(name[k]));
            }
            if name.contains(' ') {
                let k = choose|k: int| 0 <= k < name.len() && name[k] == ' ';
                assert(is_name_char(name[k]));
            }
        },
        Tree::Def { param, body } => {
            lemma_text_facts(*body);
            lemma_lex_name(param);
            let l = "λ"@;
            let sp = " "@;
            let tb = text(*body);
            assert(l =~= seq!['λ']);
            assert(sp =~= seq![' ']);
            lemma_lex_single('λ', seq![Tok::Lambda]);
            lemma_lex_single(' ', Seq::<Tok>::empty());
            lemma_no_hash_concat(l, param);
            lemma_no_hash_concat(l + param, sp);
            lemma_no_hash_concat(l + param + sp, tb);
            assert(text(e) == l + param + sp + tb);
            assert((l + param + sp + tb)[0] == 'λ');
            assert((l + param + sp + tb)[param.len() + 1int] == ' ');
        },
        Tree::Call { target, arg } => {
            lemma_text_facts(*target);
            lemma_text_facts(*arg);
            let tt = text(*target);
            let ta = text(*arg);
            let op = "("@;
            let cl = ")"@;
            let sp = " "@;
            assert(op =~= seq!['(']);
            assert(cl =~= seq![')']);
            assert(sp =~= seq![' ']);
            lemma_lex_single('(', seq![Tok::Open]);
            lemma_lex_single(')', seq![Tok::Close]);
            lemma_lex_single(' ', Seq::<Tok>::empty());
            let tp = if tt.contains('λ') {
                op + tt + cl
            } else {
                tt
            };
            let ap = if ta.contains(' ') {
                op + ta + cl
            } else {
                ta
            };
            assert(text(e) == tp + sp + ap);
            lemma_no_hash_concat(op, tt);
            lemma_no_hash_concat(op + tt, cl);
            lemma_no_hash_concat(op, ta);
            lemma_no_hash_concat(op + ta, cl);
            lemma_no_hash_concat(tp, sp);
            lemma_no_hash_concat(tp + sp, ap);
            assert((tp + sp + ap)[tp.len() as int] == ' ');
            lemma_contains_concat(op, tt, 'λ');
            lemma_contains_concat(op + tt, cl, 'λ');
            lemma_contains_concat(op, ta, 'λ');
            lemma_contains_concat(op + ta, cl, 'λ');
            lemma_contains_concat(tp, sp, 'λ');
            lemma_contains_concat(tp + sp, ap, 'λ');
            assert(!op.contains('λ'));
            assert(!cl.contains('λ'));
            assert(!sp.contains('λ'));
        },
    }
}

/// The text of a valid tree reads as its canonical tokens.
proof fn lemma_lex_text(e: Tree)
    requires
        valid_tree(e),
    ensures
        lex(text(e)) == toks(e),
    decreases e,
{
    reveal_strlit("λ");
    reveal_strlit(" ");
    reveal_strlit("(");
    reveal_strlit(")");
    lemma_text_facts(e);
    match e {
        Tree::Id { name } => {
            lemma_lex_name(name);
        },
        Tree::Def { param, body } => {
            lemma_text_facts(*body);
            lemma_lex_text(*body);
            lemma_lex_name(param);
            let l = "λ"@;
            let sp = " "@;
            let tb = text(*body);
            assert(l =~= seq!['λ']);
            assert(sp =~= seq![' ']);
            lemma_lex_single('λ', seq![Tok::Lambda]);
            lemma_lex_single(' ', Seq::<Tok>::empty());
            lemma_lex_concat(l, param);
            lemma_no_hash_concat(l, param);
            assert((l + param).last() == param.last());
            lemma_lex_concat(l + param, sp);
            lemma_no_hash_concat(l + param, sp);
            assert((l + param + sp).last() == ' ');
            lemma_lex_concat(l + param + sp, tb);
            assert(text(e) == l + param + sp + tb);
            assert(seq![Tok::Lambda] + seq![Tok::Name(param)] + Seq::<Tok>::empty() + toks(*body)
                =~= seq![Tok::Lambda, Tok::Name(param)] + toks(*body));
        },
        Tree::Call { target, arg } => {
            lemma_text_facts(*target);
            lemma_text_facts(*arg);
            lemma_lex_text(*target);
            lemma_lex_text(*arg);
            let tt = text(*target);
            let ta = text(*arg);
            let op = "("@;
            let cl = ")"@;
            let sp = " "@;
            assert(op =~= seq!['(']);
            assert(cl =~= seq![')']);
            assert(sp =~= seq![' ']);
            lemma_lex_single('(', seq![Tok::Open]);
            lemma_lex_single(')', seq![Tok::Close]);
            lemma_lex_single(' ', Seq::<Tok>::empty());
            lemma_lex_concat(op, tt);
            lemma_no_hash_concat(op, tt);
            lemma_lex_concat(op + tt, cl);
            lemma_lex_concat(op, ta);
            lemma_no_hash_concat(op, ta);
            lemma_lex_concat(op + ta, cl);
            lemma_no_hash_concat(op + tt, cl);
            lemma_no_hash_concat(op + ta, cl);
            let tp = if tt.contains('λ') {
                op + tt + cl
            } else {
                tt
            };
            let ap = if ta.contains(' ') {
                op + ta + cl
            } else {
                ta
            };
            assert(lex(tp) == if has_def(*target) {
                atom_toks(*target)
            } else {
                toks(*target)
            });
            assert(lex(ap) == atom_toks(*arg));
            lemma_lex_concat(tp, sp);
            lemma_no_hash_concat(tp, sp);
            assert((tp + sp).last() == ' ');
            lemma_lex_concat(tp + sp, ap);
            assert(text(e) == tp + sp + ap);
            assert(lex(tp) + Seq::<Tok>::empty() + lex(ap) =~= lex(tp) + lex(ap));
        },
    }
}

/// The tokens `x` stand in `t` from position `p` on.
pub open spec fn at(t: Seq<Tok>, p: int, x: Seq<Tok>) -> bool {
    0 <= p && p + x.len() <= t.len() && forall|k: int| 0 <= k < x.len() ==> t[p + k] == #[trigger] x[k]
}

/// Position `q` of `t` ends an expression: no atom can start there.
pub open spec fn stops(t: Seq<Tok>, q: int) -> bool {
    q >= t.len() || t[q] is Close || t[q] is Newline
}

proof fn lemma_at_split(t: Seq<Tok>, p: int, y: Seq<Tok>, z: Seq<Tok>)
    requires
        at(t, p, y + z),
    ensures
        at(t, p, y),
        at(t, p + y.len(), z),
{
    assert forall|k: int| 0 <= k < y.len() implies t[p + k] == #[trigger] y[k] by {
        assert((y + z)[k] == y[k]);
    }
    assert forall|k: int| 0 <= k < z.len() implies t[p + y.len() + k] == #[trigger] z[k] by {
        assert((y + z)[y.len() + k] == z[k]);
    }
}

/// The canonical tokens of a tree are not empty, hold no `=` and no line end,
/// and those of an application start with a name or a parenthesis.
proof fn lemma_toks_shape(e: Tree)
    ensures
        toks(e).len() > 0,
        atom_toks(e).len() > 0,
        forall|k: int| 0 <= k < toks(e).len() ==> !(#[trigger] toks(e)[k] is Equals) && !(toks(
            e,
        )[k] is Newline),
        forall|k: int| 0 <= k < atom_toks(e).len() ==> !(#[trigger] atom_toks(e)[k] is Equals) && !(
        atom_toks(e)[k] is Newline),
        e is Call ==> (toks(e)[0] is Name || toks(e)[0] is Open),
        e is Id ==> toks(e) == atom_toks(e),
    decreases e,
{
    match e {
        Tree::Id { .. } => {},
        Tree::Def { param, body } => {
            lemma_toks_shape(*body);
            let h = seq![Tok::Lambda, Tok::Name(param)];
            assert forall|k: int| 0 <= k < toks(e).len() implies !(#[trigger] toks(e)[k] is Equals)
                && !(toks(e)[k] is Newline) by {
                if k >= 2 {
                    assert(toks(e)[k] == toks(*body)[k - 2]);
                }
            }
            let a = seq![Tok::Open] + toks(e) + seq![Tok::Close];
            assert forall|k: int| 0 <= k < a.len() implies !(#[trigger] a[k] is Equals) && !(
            a[k] is Newline) by {
                if 1 <= k < a.len() - 1 {
                    assert(a[k] == toks(e)[k - 1]);
                }
            }
        },
        Tree::Call { target, arg } => {
            lemma_toks_shape(*target);
            lemma_toks_shape(*arg);
            let tp = if has_def(*target) {
                atom_toks(*target)
            } else {
                toks(*target)
            };
            let ap = atom_toks(*arg);
            assert(toks(e) == tp + ap);
            assert forall|k: int| 0 <= k < toks(e).len() implies !(#[trigger] toks(e)[k] is Equals)
                && !(toks(e)[k] is Newline) by {
                if k < tp.len() {
                    assert(toks(e)[k] == tp[k]);
                } else {
                    assert(toks(e)[k] == ap[k - tp.len()]);
                }
            }
            let a = seq![Tok::Open] + toks(e) + seq![Tok::Close];
            assert forall|k: int| 0 <= k < a.len() implies !(#[trigger] a[k] is Equals) && !(
            a[k] is Newline) by {
                if 1 <= k < a.len() - 1 {
                    assert(a[k] == toks(e)[k - 1]);
                }
            }
            assert(toks(e)[0] == tp[0]);
        },
    }
}

/// An atom reads back as its tree.
proof fn lemma_read_atom(t: Seq<Tok>, p: int, e: Tree)
    requires
        at(t, p, atom_toks(e)),
    ensures
        atom_at(t, p) == Some((e, p + atom_toks(e).len())),
    decreases e, 3int,
{
    lemma_toks_shape(e);
    match e {
        Tree::Id { name } => {
            assert(t[p + 0] == atom_toks(e)[0]);
        },
        _ => {
            let n = toks(e).len();
            lemma_at_split(t, p, seq![Tok::Open] + toks(e), seq![Tok::Close]);
            lemma_at_split(t, p, seq![Tok::Open], toks(e));
            assert(t[p + 0] == seq![Tok::Open][0]);
            assert(t[p + 1 + n + 0] == seq![Tok::Close][0]);
            lemma_read_inner(t, p + 1, e);
        },
    }
}

/// A definition or an application, followed by a position that ends it,
/// reads back as its tree.
proof fn lemma_read_inner(t: Seq<Tok>, p: int, e: Tree)
    requires
        !(e is Id),
        at(t, p, toks(e)),
        stops(t, p + toks(e).len()),
    ensures
        inner_at(t, p) == Some((e, p + toks(e).len())),
        expr_at(t, p) == Some((e, p + toks(e).len())),
    decreases e, 2int,
{
    lemma_toks_shape(e);
    let n = toks(e).len();
    match e {
        Tree::Def { param, body } => {
            lemma_at_split(t, p, seq![Tok::Lambda, Tok::Name(param)], toks(*body));
            assert(t[p + 0] == seq![Tok::Lambda, Tok::Name(param)][0]);
            assert(t[p + 1] == seq![Tok::Lambda, Tok::Name(param)][1]);
            lemma_read_expr(t, p + 2, *body);
        },
        Tree::Call { .. } => {
            assert(t[p + 0] == toks(e)[0]);
            lemma_read_spine(t, p, e);
            assert(atom_at(t, p + n) is None);
        },
        Tree::Id { .. } => {},
    }
}

/// An expression followed by a position that ends it reads back as its tree.
proof fn lemma_read_expr(t: Seq<Tok>, p: int, e: Tree)
    requires
        at(t, p, toks(e)),
        stops(t, p + toks(e).len()),
    ensures
        expr_at(t, p) == Some((e, p + toks(e).len())),
    decreases e, 3int,
{
    match e {
        Tree::Id { name } => {
            assert(t[p + 0] == toks(e)[0]);
            assert(def_at(t, p) is None);
            assert(atom_at(t, p) == Some((e, p + 1)));
            assert(atom_at(t, p + 1) is None);
            assert(call_at(t, p) is None);
        },
        _ => {
            lemma_read_inner(t, p, e);
        },
    }
}

/// An application reads as its tree, and the reading goes on with whatever
/// atoms follow it.
proof fn lemma_read_spine(t: Seq<Tok>, p: int, e: Tree)
    requires
        e is Call,
        at(t, p, toks(e)),
    ensures
        call_at(t, p) == Some(args_at(t, p + toks(e).len(), e)),
    decreases e, 1int,
{
    match e {
        Tree::Call { target, arg } => {
            lemma_toks_shape(*target);
            lemma_toks_shape(*arg);
            let n = toks(e).len();
            if has_def(*target) || (*target) is Id {
                let tp = atom_toks(*target);
                assert(toks(e) == tp + atom_toks(*arg));
                lemma_at_split(t, p, tp, atom_toks(*arg));
                lemma_read_atom(t, p, *target);
                lemma_read_atom(t, p + tp.len(), *arg);
            } else {
                let tp = toks(*target);
                assert(toks(e) == tp + atom_toks(*arg));
                lemma_at_split(t, p, tp, atom_toks(*arg));
                lemma_read_spine(t, p, *target);
                lemma_read_atom(t, p + tp.len(), *arg);
            }
        },
        _ => {},
    }
}

/// Rendering a tree, after binding its names against any scope, and reading
/// the text back gives a module of one statement: that very tree.
pub proof fn lemma_render_parse_round_trip(e: Tree, g: Map<Seq<char>, Term>)
    requires
        valid_tree(e),
    ensures
        parse_text(render(resolve(term_of(e), g))) == Some(seq![StmtTree::Bare { expr: e }]),
{
    lemma_render_resolved(e, g);
    lemma_lex_text(e);
    lemma_toks_shape(e);
    let t = toks(e);
    assert(at(t, 0, t));
    lemma_read_expr(t, 0, e);
    assert(skip_newlines(t, 0) == 0);
    assert(stmt_at(t, 0) == Some((StmtTree::Bare { expr: e }, t.len() as int)));
}

/// Binding names to globals does not change how a tree renders: globals
/// render by name.
pub proof fn lemma_render_resolved(e: Tree, g: Map<Seq<char>, Term>)
    ensures
        render(resolve(term_of(e), g)) == render(term_of(e)),
    decreases e,
{
    match e {
        Tree::Def { body, .. } => lemma_render_resolved(*body, g),
        Tree::Call { target, arg } => {
            lemma_render_resolved(*target, g);
            lemma_render_resolved(*arg, g);
        },
        Tree::Id { .. } => {},
    }
}

} // verus!
