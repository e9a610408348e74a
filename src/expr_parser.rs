use vstd::prelude::*;
use crate::ident::{Ident, Span};
use crate::syntax::{BlockKind, Expr, ExprArray, ExprBlock, ExprCall, ExprCtor, ExprObject, ExprPath, ExprTuple, Number, Statement};
use crate::types_parser::{Kind, Token, path_at, parse_path};

verus! {

/// Expression syntax as the grammar sees it.
pub enum ExprSyn {
    Tuple(Span, Seq<ExprSyn>),
    Array(Span, Seq<ExprSyn>),
    Path(Option<Span>, Seq<Ident>),
    Ctor(Option<Span>, Seq<Ident>, Span, Seq<(Ident, ExprSyn)>),
    Number(Number),
    String(Span, String),
    Ident(Ident),
    Call(Box<ExprSyn>, Span, Seq<ExprSyn>),
}

pub open spec fn exprs_are(v: Seq<Expr>, s: Seq<ExprSyn>) -> bool
    decreases v, 0nat,
{
    &&& v.len() == s.len()
    &&& forall|i: int| 0 <= i < v.len() ==> expr_is(#[trigger] v[i], s[i])
}

/// `e` is the syntax tree `s`.
pub open spec fn expr_is(e: Expr, s: ExprSyn) -> bool
    decreases e, 1nat,
{
    match e {
        Expr::Tuple(t) => s matches ExprSyn::Tuple(sp, vs) && t.span == sp && exprs_are(t.values@, vs),
        Expr::Array(a) => s matches ExprSyn::Array(sp, vs) && a.span == sp && exprs_are(a.values@, vs),
        Expr::Path(p) => s matches ExprSyn::Path(root, names) && p.root == root && p.path@ == names,
        Expr::Ctor(c) => s matches ExprSyn::Ctor(root, names, sp, fs) && {
            &&& c.ty_path.root == root
            &&& c.ty_path.path@ == names
            &&& c.vals.span == sp
            &&& c.vals.values@.len() == fs.len()
            &&& forall|i: int|
                0 <= i < fs.len() ==> (#[trigger] c.vals.values@[i]).0 == fs[i].0 && expr_is(c.vals.values@[i].1, fs[i].1)
        },
        Expr::Number(n) => s == ExprSyn::Number(*n),
        Expr::String(sp, text) => s == ExprSyn::String(sp, text),
        Expr::Ident(id) => s == ExprSyn::Ident(id),
        Expr::Call(c) => s matches ExprSyn::Call(b, sp, vs) && expr_is(*c.base, *b) && c.args.span == sp && exprs_are(
            c.args.values@,
            vs,
        ),
        Expr::Block(_) => false,
    }
}

/// The expression at `pos`: a primary expression followed by any number of
/// call argument lists.
pub open spec fn expr_at(toks: Seq<Token>, pos: int) -> Option<(int, ExprSyn)>
    decreases toks, toks.len() - pos, 3nat,
{
    if !(0 <= pos < toks.len()) {
        None
    } else {
        match primary_at(toks, pos) {
            Some((e, x)) => if pos < e <= toks.len() {
                Some(calls_after(toks, e, x))
            } else {
                None
            },
            None => None,
        }
    }
}

/// `x` applied to each argument list that follows at `e`.
pub open spec fn calls_after(toks: Seq<Token>, e: int, x: ExprSyn) -> (int, ExprSyn)
    decreases toks, toks.len() - e, 2nat,
{
    if 0 <= e < toks.len() && toks[e].kind is Tuple && exprs_in(toks[e].kind->Tuple_0@) is Some {
        calls_after(toks, e + 1, ExprSyn::Call(Box::new(x), toks[e].span, exprs_in(toks[e].kind->Tuple_0@)->0))
    } else {
        (e, x)
    }
}

/// The first of these that applies at `pos`: a constructor (a path and a
/// braced list of `name = value`), a path of two or more segments, a name,
/// a parenthesised or bracketed list, a string, a number.
pub open spec fn primary_at(toks: Seq<Token>, pos: int) -> Option<(int, ExprSyn)>
    decreases toks, toks.len() - pos, 1nat,
{
    if !(0 <= pos < toks.len()) {
        None
    } else {
        match path_at(toks, pos) {
            Some((e1, root, names)) => if 0 <= e1 < toks.len() && toks[e1].kind is Block && fields_in(
                toks[e1].kind->Block_0@,
            ) is Some {
                Some((e1 + 1, ExprSyn::Ctor(root, names, toks[e1].span, fields_in(toks[e1].kind->Block_0@)->0)))
            } else if names.len() >= 2 {
                Some((e1, ExprSyn::Path(root, names)))
            } else {
                token_expr_at(toks, pos)
            },
            None => token_expr_at(toks, pos),
        }
    }
}

/// A name, a parenthesised or bracketed list, a string or a number at `pos`.
pub open spec fn token_expr_at(toks: Seq<Token>, pos: int) -> Option<(int, ExprSyn)>
    decreases toks, toks.len() - pos, 0nat,
{
    if !(0 <= pos < toks.len()) {
        None
    } else {
        match toks[pos].kind {
            Kind::Name(n) => Some((pos + 1, ExprSyn::Ident(Ident { name: n, span: toks[pos].span }))),
            Kind::Tuple(g) => match exprs_in(g@) {
                Some(vs) => Some((pos + 1, ExprSyn::Tuple(toks[pos].span, vs))),
                None => None,
            },
            Kind::Array(g) => match exprs_in(g@) {
                Some(vs) => Some((pos + 1, ExprSyn::Array(toks[pos].span, vs))),
                None => None,
            },
            Kind::String(text) => Some((pos + 1, ExprSyn::String(toks[pos].span, text))),
            Kind::Number(n) => Some((pos + 1, ExprSyn::Number(n))),
            _ => None,
        }
    }
}

/// A comma-separated list of expressions that takes up all of `g`, with an
/// optional trailing comma.
pub open spec fn exprs_in(g: Seq<Token>) -> Option<Seq<ExprSyn>>
    decreases g, g.len() + 1, 0nat,
{
    if g.len() == 1 && g[0].kind is Comma {
        Some(Seq::empty())
    } else {
        exprs_from(g, 0)
    }
}

pub open spec fn exprs_from(g: Seq<Token>, pos: int) -> Option<Seq<ExprSyn>>
    decreases g, g.len() - pos, 4nat,
{
    if !(0 <= pos < g.len()) {
        Some(Seq::empty())
    } else {
        match expr_at(g, pos) {
            Some((e, x)) => if e >= g.len() {
                Some(seq![x])
            } else if g[e].kind is Comma && e > pos {
                match exprs_from(g, e + 1) {
                    Some(rest) => Some(seq![x] + rest),
                    None => None,
                }
            } else {
                None
            },
            None => None,
        }
    }
}

/// A comma-separated list of `name = value` that takes up all of `g`, with
/// an optional trailing comma.
pub open spec fn fields_in(g: Seq<Token>) -> Option<Seq<(Ident, ExprSyn)>>
    decreases g, g.len() + 1, 0nat,
{
    if g.len() == 1 && g[0].kind is Comma {
        Some(Seq::empty())
    } else {
        fields_from(g, 0)
    }
}

pub open spec fn fields_from(g: Seq<Token>, pos: int) -> Option<Seq<(Ident, ExprSyn)>>
    decreases g, g.len() - pos, 4nat,
{
    if !(0 <= pos < g.len()) {
        Some(Seq::empty())
    } else if pos + 1 < g.len() && g[pos].kind is Name && g[pos + 1].kind is Assign {
        let name = Ident { name: g[pos].kind->Name_0, span: g[pos].span };
        match expr_at(g, pos + 2) {
            Some((e, x)) => if e >= g.len() {
                Some(seq![(name, x)])
            } else if g[e].kind is Comma && e > pos {
                match fields_from(g, e + 1) {
                    Some(rest) => Some(seq![(name, x)] + rest),
                    None => None,
                }
            } else {
                None
            },
            None => None,
        }
    } else {
        None
    }
}

/// The statements of a block from `pos`: expressions each ended by `;`, and
/// a last expression that ends the block.
pub open spec fn stmts_from(g: Seq<Token>, pos: int) -> Option<(Seq<(ExprSyn, Span)>, ExprSyn)>
    decreases g, g.len() - pos, 4nat,
{
    if !(0 <= pos < g.len()) {
        None
    } else {
        match expr_at(g, pos) {
            Some((e, x)) => if e >= g.len() {
                Some((Seq::empty(), x))
            } else if g[e].kind is Semicolon && e > pos {
                match stmts_from(g, e + 1) {
                    Some((rest, last)) => Some((seq![(x, g[e].span)] + rest, last)),
                    None => None,
                }
            } else {
                None
            },
            None => None,
        }
    }
}


/// `b` is the braced block at `sp` with the statements `stmts` and the
/// closing expression `last`.
pub open spec fn block_is(b: ExprBlock, sp: Span, stmts: Seq<(ExprSyn, Span)>, last: ExprSyn) -> bool {
    &&& b.span == sp
    &&& b.kind == BlockKind::Braced
    &&& b.stmts@.len() == stmts.len()
    &&& forall|i: int|
        0 <= i < stmts.len() ==> expr_is((#[trigger] b.stmts@[i]).expr, stmts[i].0) && b.stmts@[i].sim == stmts[i].1
    &&& b.returning matches Some(r) && expr_is(*r, last)
}

/// Reads the expression at `pos`.
pub fn parse_expression(toks: &Vec<Token>, pos: usize) -> (r: Option<(usize, Expr)>)
    requires
        pos <= toks@.len(),
    ensures
        match (r, expr_at(toks@, pos as int)) {
            (None, None) => true,
            (Some((e, x)), Some((e2, s))) => e == e2 && expr_is(x, s) && pos < e <= toks@.len(),
            _ => false,
        },
    decreases toks@, toks@.len() - pos, 3nat,
{
    if pos >= toks.len() {
        return None;
    }
    let (mut cur, mut expr) = match parse_primary(toks, pos) {
        Some(found) => found,
        None => {
            return None;
        },
    };
    let ghost first = primary_at(toks@, pos as int)->0;
    let ghost mut syn = first.1;
    loop
        invariant
            pos < cur <= toks@.len(),
            expr_is(expr, syn),
            calls_after(toks@, first.0, first.1) == calls_after(toks@, cur as int, syn),
        ensures
            pos < cur <= toks@.len(),
            expr_is(expr, syn),
            calls_after(toks@, first.0, first.1) == (cur as int, syn),
        decreases toks@.len() - cur,
    {
        if cur >= toks.len() {
            break;
        }
        match parse_call_wrapper(toks, cur) {
            Some((e, args)) => {
                proof {
                    let g = toks@[cur as int].kind->Tuple_0@;
                    syn = ExprSyn::Call(Box::new(syn), toks@[cur as int].span, exprs_in(g)->0);
                }
                expr = Expr::Call(ExprCall { base: Box::new(expr), args });
                cur = e;
            },
            None => {
                break;
            },
        }
    }
    Some((cur, expr))
}

/// Reads an argument list at `pos`: the arguments of a call of whatever precedes it.
pub fn parse_call_wrapper(toks: &Vec<Token>, pos: usize) -> (r: Option<(usize, ExprTuple)>)
    requires
        pos <= toks@.len(),
    ensures
        match r {
            Some((e, t)) => {
                &&& e == pos + 1
                &&& pos < toks@.len()
                &&& toks@[pos as int].kind is Tuple
                &&& exprs_in(toks@[pos as int].kind->Tuple_0@) matches Some(vs)
                &&& t.span == toks@[pos as int].span
                &&& exprs_are(t.values@, vs)
            },
            None => !(pos < toks@.len() && toks@[pos as int].kind is Tuple && exprs_in(toks@[pos as int].kind->Tuple_0@) is Some),
        },
    decreases toks@, toks@.len() - pos, 2nat,
{
    parse_tuple(toks, pos)
}

/// Reads a parenthesised list of expressions at `pos`.
pub fn parse_tuple(toks: &Vec<Token>, pos: usize) -> (r: Option<(usize, ExprTuple)>)
    requires
        pos <= toks@.len(),
    ensures
        match r {
            Some((e, t)) => {
                &&& e == pos + 1
                &&& pos < toks@.len()
                &&& toks@[pos as int].kind is Tuple
                &&& exprs_in(toks@[pos as int].kind->Tuple_0@) matches Some(vs)
                &&& t.span == toks@[pos as int].span
                &&& exprs_are(t.values@, vs)
            },
            None => !(pos < toks@.len() && toks@[pos as int].kind is Tuple && exprs_in(toks@[pos as int].kind->Tuple_0@) is Some),
        },
    decreases toks@, toks@.len() - pos, 0nat,
{
    if pos >= toks.len() {
        return None;
    }
    match &toks[pos].kind {
        Kind::Tuple(g) => {
            proof {
                assert(decreases_to!(toks@ => toks@[pos as int]));
                assert(decreases_to!(toks@[pos as int] => toks@[pos as int].kind));
                assert(decreases_to!(toks@[pos as int].kind => toks@[pos as int].kind->Tuple_0));
                assert(decreases_to!(toks@[pos as int].kind->Tuple_0 => toks@[pos as int].kind->Tuple_0@));
            }
            match parse_exprs_in(g) {
                Some(values) => Some((pos + 1, ExprTuple { span: toks[pos].span, values })),
                None => None,
            }
        },
        _ => None,
    }
}

/// Reads a bracketed list of expressions at `pos`.
pub fn parse_array(toks: &Vec<Token>, pos: usize) -> (r: Option<(usize, ExprArray)>)
    requires
        pos <= toks@.len(),
    ensures
        match r {
            Some((e, a)) => {
                &&& e == pos + 1
                &&& pos < toks@.len()
                &&& toks@[pos as int].kind is Array
                &&& exprs_in(toks@[pos as int].kind->Array_0@) matches Some(vs)
                &&& a.span == toks@[pos as int].span
                &&& exprs_are(a.values@, vs)
            },
            None => !(pos < toks@.len() && toks@[pos as int].kind is Array && exprs_in(toks@[pos as int].kind->Array_0@) is Some),
        },
    decreases toks@, toks@.len() - pos, 0nat,
{
    if pos >= toks.len() {
        return None;
    }
    match &toks[pos].kind {
        Kind::Array(g) => {
            proof {
                assert(decreases_to!(toks@ => toks@[pos as int]));
                assert(decreases_to!(toks@[pos as int] => toks@[pos as int].kind));
                assert(decreases_to!(toks@[pos as int].kind => toks@[pos as int].kind->Array_0));
                assert(decreases_to!(toks@[pos as int].kind->Array_0 => toks@[pos as int].kind->Array_0@));
            }
            match parse_exprs_in(g) {
                Some(values) => Some((pos + 1, ExprArray { span: toks[pos].span, values })),
                None => None,
            }
        },
        _ => None,
    }
}

/// Reads a braced list of `name = value` at `pos`.
pub fn parse_object(toks: &Vec<Token>, pos: usize) -> (r: Option<(usize, ExprObject)>)
    requires
        pos <= toks@.len(),
    ensures
        match r {
            Some((e, o)) => {
                &&& e == pos + 1
                &&& pos < toks@.len()
                &&& toks@[pos as int].kind is Block
                &&& fields_in(toks@[pos as int].kind->Block_0@) matches Some(fs)
                &&& o.span == toks@[pos as int].span
                &&& o.values@.len() == fs.len()
                &&& forall|i: int| 0 <= i < fs.len() ==> (#[trigger] o.values@[i]).0 == fs[i].0 && expr_is(o.values@[i].1, fs[i].1)
            },
            None => !(pos < toks@.len() && toks@[pos as int].kind is Block && fields_in(toks@[pos as int].kind->Block_0@) is Some),
        },
    decreases toks@, toks@.len() - pos, 0nat,
{
    if pos >= toks.len() {
        return None;
    }
    match &toks[pos].kind {
        Kind::Block(g) => {
            proof {
                assert(decreases_to!(toks@ => toks@[pos as int]));
                assert(decreases_to!(toks@[pos as int] => toks@[pos as int].kind));
                assert(decreases_to!(toks@[pos as int].kind => toks@[pos as int].kind->Block_0));
                assert(decreases_to!(toks@[pos as int].kind->Block_0 => toks@[pos as int].kind->Block_0@));
            }
            match parse_fields_in(g) {
                Some(values) => Some((pos + 1, ExprObject { span: toks[pos].span, values })),
                None => None,
            }
        },
        _ => None,
    }
}

/// Reads a constructor at `pos`: a path and a braced list of `name = value`.
pub fn parse_ctor(toks: &Vec<Token>, pos: usize) -> (r: Option<(usize, ExprCtor)>)
    requires
        pos <= toks@.len(),
    ensures
        match r {
            Some((e, c)) => {
                &&& path_at(toks@, pos as int) matches Some((e1, root, names))
                &&& 0 <= e1 < toks@.len()
                &&& toks@[e1].kind is Block
                &&& fields_in(toks@[e1].kind->Block_0@) matches Some(fs)
                &&& e == e1 + 1
                &&& pos < e1
                &&& expr_is(Expr::Ctor(c), ExprSyn::Ctor(root, names, toks@[e1].span, fs))
            },
            None => !(path_at(toks@, pos as int) matches Some((e1, _, _)) && 0 <= e1 < toks@.len() && toks@[e1].kind is Block
                && fields_in(toks@[e1].kind->Block_0@) is Some),
        },
    decreases toks@, toks@.len() - pos, 1nat,
{
    let (e1, ty_path) = match parse_path(toks, pos) {
        Some(found) => found,
        None => {
            return None;
        },
    };
    match parse_object(toks, e1) {
        Some((e, vals)) => Some((e, ExprCtor { ty_path, vals })),
        None => None,
    }
}

fn parse_primary(toks: &Vec<Token>, pos: usize) -> (r: Option<(usize, Expr)>)
    requires
        pos < toks@.len(),
    ensures
        match (r, primary_at(toks@, pos as int)) {
            (None, None) => true,
            (Some((e, x)), Some((e2, s))) => e == e2 && expr_is(x, s) && pos < e <= toks@.len(),
            _ => false,
        },
    decreases toks@, toks@.len() - pos, 2nat,
{
    if let Some((e, c)) = parse_ctor(toks, pos) {
        return Some((e, Expr::Ctor(c)));
    }
    if let Some((e, p)) = parse_path(toks, pos) {
        if p.path.len() >= 2 {
            return Some((e, Expr::Path(p)));
        }
    }
    parse_token_expr(toks, pos)
}

fn parse_token_expr(toks: &Vec<Token>, pos: usize) -> (r: Option<(usize, Expr)>)
    requires
        pos < toks@.len(),
    ensures
        match (r, token_expr_at(toks@, pos as int)) {
            (None, None) => true,
            (Some((e, x)), Some((e2, s))) => e == e2 && expr_is(x, s) && e == pos + 1,
            _ => false,
        },
    decreases toks@, toks@.len() - pos, 1nat,
{
    let n = toks.len();
    match &toks[pos].kind {
        Kind::Name(n) => Some((pos + 1, Expr::Ident(Ident { name: *n, span: toks[pos].span }))),
        Kind::Tuple(_) => match parse_tuple(toks, pos) {
            Some((e, t)) => Some((e, Expr::Tuple(t))),
            None => None,
        },
        Kind::Array(_) => match parse_array(toks, pos) {
            Some((e, a)) => Some((e, Expr::Array(a))),
            None => None,
        },
        Kind::String(text) => Some((pos + 1, Expr::String(toks[pos].span, text.clone()))),
        Kind::Number(n) => Some((pos + 1, Expr::Number(Box::new(*n)))),
        _ => None,
    }
}

/// Reads a comma-separated list of expressions that takes up all of `g`.
pub fn parse_exprs_in(g: &Vec<Token>) -> (r: Option<Vec<Expr>>)
    ensures
        match (r, exprs_in(g@)) {
            (None, None) => true,
            (Some(v), Some(vs)) => exprs_are(v@, vs),
            _ => false,
        },
    decreases g@, g@.len() + 1, 0nat,
{
    let n = g.len();
    if n == 1 {
        match g[0].kind {
            Kind::Comma => {
                return Some(Vec::new());
            },
            _ => {},
        }
    }
    let mut out: Vec<Expr> = Vec::new();
    let ghost mut syns: Seq<ExprSyn> = Seq::empty();
    let mut pos: usize = 0;
    while pos < n
        invariant
            n == g@.len(),
            pos <= n,
            exprs_in(g@) == exprs_from(g@, 0),
            exprs_are(out@, syns),
            exprs_from(g@, 0) == match exprs_from(g@, pos as int) {
                Some(rest) => Some(syns + rest),
                None => None,
            },
        decreases n - pos,
    {
        match parse_expression(g, pos) {
            Some((e, x)) => {
                let ghost found = expr_at(g@, pos as int)->0;
                let ghost s = found.1;
                out.push(x);
                proof {
                    syns = syns.push(s);
                }
                if e >= n {
                    proof {
                        assert(syns =~= syns.drop_last() + seq![s]);
                    }
                    return Some(out);
                }
                match g[e].kind {
                    Kind::Comma => {
                        proof {
                            assert forall|rest: Seq<ExprSyn>| syns.drop_last() + (seq![s] + rest) == syns + rest by {
                                assert(syns.drop_last() + (seq![s] + rest) =~= syns + rest);
                            }
                        }
                        pos = e + 1;
                    },
                    _ => {
                        return None;
                    },
                }
            },
            None => {
                return None;
            },
        }
    }
    proof {
        assert(syns + Seq::<ExprSyn>::empty() =~= syns);
    }
    Some(out)
}

/// Reads a comma-separated list of `name = value` that takes up all of `g`.
pub fn parse_fields_in(g: &Vec<Token>) -> (r: Option<Vec<(Ident, Expr)>>)
    ensures
        match (r, fields_in(g@)) {
            (None, None) => true,
            (Some(v), Some(fs)) => v@.len() == fs.len() && forall|i: int|
                0 <= i < fs.len() ==> (#[trigger] v@[i]).0 == fs[i].0 && expr_is(v@[i].1, fs[i].1),
            _ => false,
        },
    decreases g@, g@.len() + 1, 0nat,
{
    let n = g.len();
    if n == 1 {
        match g[0].kind {
            Kind::Comma => {
                return Some(Vec::new());
            },
            _ => {},
        }
    }
    let mut out: Vec<(Ident, Expr)> = Vec::new();
    let ghost mut syns: Seq<(Ident, ExprSyn)> = Seq::empty();
    let mut pos: usize = 0;
    while pos < n
        invariant
            n == g@.len(),
            pos <= n,
            fields_in(g@) == fields_from(g@, 0),
            out@.len() == syns.len(),
            forall|i: int| 0 <= i < syns.len() ==> (#[trigger] out@[i]).0 == syns[i].0 && expr_is(out@[i].1, syns[i].1),
            fields_from(g@, 0) == match fields_from(g@, pos as int) {
                Some(rest) => Some(syns + rest),
                None => None,
            },
        decreases n - pos,
    {
        if !(n - pos >= 2) {
            return None;
        }
        let name = match g[pos].kind {
            Kind::Name(k) => Ident { name: k, span: g[pos].span },
            _ => {
                return None;
            },
        };
        match g[pos + 1].kind {
            Kind::Assign => {},
            _ => {
                return None;
            },
        }
        match parse_expression(g, pos + 2) {
            Some((e, x)) => {
                let ghost found = expr_at(g@, pos + 2)->0;
                let ghost s = (name, found.1);
                out.push((name, x));
                proof {
                    syns = syns.push(s);
                }
                if e >= n {
                    proof {
                        assert(syns =~= syns.drop_last() + seq![s]);
                    }
                    return Some(out);
                }
                match g[e].kind {
                    Kind::Comma => {
                        proof {
                            assert forall|rest: Seq<(Ident, ExprSyn)>| syns.drop_last() + (seq![s] + rest) == syns + rest by {
                                assert(syns.drop_last() + (seq![s] + rest) =~= syns + rest);
                            }
                        }
                        pos = e + 1;
                    },
                    _ => {
                        return None;
                    },
                }
            },
            None => {
                return None;
            },
        }
    }
    proof {
        assert(syns + Seq::<(Ident, ExprSyn)>::empty() =~= syns);
    }
    Some(out)
}

/// Reads the braced block at `pos`: statements, each an expression ended by
/// `;`, and a closing expression.
pub fn parse_block(toks: &Vec<Token>, pos: usize) -> (r: Option<(usize, ExprBlock)>)
    requires
        pos <= toks@.len(),
    ensures
        match r {
            Some((e, b)) => {
                &&& e == pos + 1
                &&& pos < toks@.len()
                &&& toks@[pos as int].kind is Block
                &&& stmts_from(toks@[pos as int].kind->Block_0@, 0) matches Some((stmts, last))
                &&& block_is(b, toks@[pos as int].span, stmts, last)
            },
            None => !(pos < toks@.len() && toks@[pos as int].kind is Block && stmts_from(toks@[pos as int].kind->Block_0@, 0) is Some),
        },
{
    let len = toks.len();
    if pos >= len {
        return None;
    }
    let g = match &toks[pos].kind {
        Kind::Block(g) => g,
        _ => {
            return None;
        },
    };
    assert(g@ == toks@[pos as int].kind->Block_0@);
    let n = g.len();
    let mut acc: Vec<Statement> = Vec::new();
    let ghost mut syns: Seq<(ExprSyn, Span)> = Seq::empty();
    let mut i: usize = 0;
    loop
        invariant
            n == g@.len(),
            i <= n,
            pos < toks@.len(),
            toks@.len() <= usize::MAX,
            toks@[pos as int].kind is Block,
            g@ == toks@[pos as int].kind->Block_0@,
            acc@.len() == syns.len(),
            forall|j: int| 0 <= j < syns.len() ==> expr_is((#[trigger] acc@[j]).expr, syns[j].0) && acc@[j].sim == syns[j].1,
            stmts_from(g@, 0) == match stmts_from(g@, i as int) {
                Some((rest, last)) => Some((syns + rest, last)),
                None => None,
            },
        decreases n - i,
    {
        if i >= n {
            return None;
        }
        let (e, expr) = match parse_expression(g, i) {
            Some(found) => found,
            None => {
                return None;
            },
        };
        let ghost found = expr_at(g@, i as int)->0;
        if e >= n {
            proof {
                assert(syns + Seq::<(ExprSyn, Span)>::empty() =~= syns);
            }
            let b = ExprBlock { span: toks[pos].span, kind: BlockKind::Braced, stmts: acc, returning: Some(Box::new(expr)) };
            return Some((pos + 1, b));
        }
        match g[e].kind {
            Kind::Semicolon => {
                let ghost s = (found.1, g@[e as int].span);
                acc.push(Statement { expr, sim: g[e].span });
                proof {
                    assert forall|rest: Seq<(ExprSyn, Span)>| syns + (seq![s] + rest) == syns.push(s) + rest by {
                        assert(syns + (seq![s] + rest) =~= syns.push(s) + rest);
                    }
                    syns = syns.push(s);
                }
                i = e + 1;
            },
            _ => {
                return None;
            },
        }
    }
}

} // verus!
