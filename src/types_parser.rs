use vstd::prelude::*;
use crate::ident::{Ident, Span};
use crate::syntax::{ExprPath, ItemTy, Number, TyNever, TyPtr, TyTuple};

verus! {

/// A token: what it is and where it stands. Bracketed groups hold their
/// tokens.
#[derive(Debug)]
pub enum Kind {
    Name(u64),
    DoubleCol,
    Mul,
    Not,
    Comma,
    Semicolon,
    Assign,
    Func,
    String(String),
    Number(Number),
    Tuple(Vec<Token>),
    Block(Vec<Token>),
    Array(Vec<Token>),
}

#[derive(Debug)]
pub struct Token {
    pub kind: Kind,
    pub span: Span,
}

/// Type syntax as the grammar sees it.
pub enum TySyn {
    Referred(Option<Span>, Seq<Ident>),
    Tuple(Span, Seq<TySyn>),
    Pointer(Span, Box<TySyn>),
    Never(Span),
}

/// `ty` is the syntax tree `s`.
pub open spec fn ty_is(ty: ItemTy, s: TySyn) -> bool
    decreases ty,
{
    match ty {
        ItemTy::Referred(p) => s matches TySyn::Referred(root, names) && p.root == root && p.path@ == names,
        ItemTy::Pointer(p) => s matches TySyn::Pointer(sp, b) && p.span_ptr == sp && ty_is(*p.ty, *b),
        ItemTy::Tuple(tp) => s matches TySyn::Tuple(sp, ts) && tp.span == sp && tp.types@.len() == ts.len() && forall|i: int|
            0 <= i < ts.len() ==> ty_is(#[trigger] tp.types@[i], ts[i]),
        ItemTy::Never(n) => s matches TySyn::Never(sp) && n.0 == sp,
        _ => false,
    }
}

/// The segments of a path from `pos`: a name, then `::` and a name as long
/// as both follow. Returns the end and the segments.
pub open spec fn path_tail(toks: Seq<Token>, pos: int, acc: Seq<Ident>) -> (int, Seq<Ident>)
    decreases toks.len() - pos,
{
    if 0 <= pos && pos + 1 < toks.len() && toks[pos].kind is DoubleCol && toks[pos + 1].kind is Name {
        path_tail(toks, pos + 2, acc.push(Ident { name: toks[pos + 1].kind->Name_0, span: toks[pos + 1].span }))
    } else {
        (pos, acc)
    }
}

/// A path at `pos`: an optional leading `::`, a name, and further `::` names.
pub open spec fn path_at(toks: Seq<Token>, pos: int) -> Option<(int, Option<Span>, Seq<Ident>)> {
    let rooted = 0 <= pos < toks.len() && toks[pos].kind is DoubleCol;
    let p = if rooted {
        pos + 1
    } else {
        pos
    };
    if 0 <= p < toks.len() && toks[p].kind is Name {
        let (e, names) = path_tail(toks, p + 1, seq![Ident { name: toks[p].kind->Name_0, span: toks[p].span }]);
        Some((
            e,
            if rooted {
                Some(toks[pos].span)
            } else {
                None
            },
            names,
        ))
    } else {
        None
    }
}

/// The type at `pos` of `toks`: `*T`, `!`, a parenthesised list of types, or
/// a path. Returns the end and the tree.
pub open spec fn type_at(toks: Seq<Token>, pos: int) -> Option<(int, TySyn)>
    decreases toks, toks.len() - pos, 0nat,
{
    if !(0 <= pos < toks.len()) {
        None
    } else {
        match toks[pos].kind {
            Kind::Mul => match type_at(toks, pos + 1) {
                Some((e, t)) => Some((e, TySyn::Pointer(toks[pos].span, Box::new(t)))),
                None => None,
            },
            Kind::Not => Some((pos + 1, TySyn::Never(toks[pos].span))),
            Kind::Tuple(g) => match types_in(g@) {
                Some(ts) => Some((pos + 1, TySyn::Tuple(toks[pos].span, ts))),
                None => None,
            },
            _ => match path_at(toks, pos) {
                Some((e, root, names)) => Some((e, TySyn::Referred(root, names))),
                None => None,
            },
        }
    }
}

/// A comma-separated list of types that takes up all of `g`, with an
/// optional trailing comma.
pub open spec fn types_in(g: Seq<Token>) -> Option<Seq<TySyn>>
    decreases g, g.len() + 1, 1nat,
{
    if g.len() == 1 && g[0].kind is Comma {
        Some(Seq::empty())
    } else {
        types_from(g, 0)
    }
}

pub open spec fn types_from(g: Seq<Token>, pos: int) -> Option<Seq<TySyn>>
    decreases g, g.len() - pos, 1nat,
{
    if !(0 <= pos < g.len()) {
        Some(Seq::empty())
    } else {
        match type_at(g, pos) {
            Some((e, t)) => if e >= g.len() {
                Some(seq![t])
            } else if g[e].kind is Comma && e > pos {
                match types_from(g, e + 1) {
                    Some(rest) => Some(seq![t] + rest),
                    None => None,
                }
            } else {
                None
            },
            None => None,
        }
    }
}


fn is_double_col(t: &Token) -> (r: bool)
    ensures
        r == t.kind is DoubleCol,
{
    match t.kind {
        Kind::DoubleCol => true,
        _ => false,
    }
}

fn name_of(t: &Token) -> (r: Option<u64>)
    ensures
        r == (if t.kind is Name {
            Some(t.kind->Name_0)
        } else {
            None
        }),
{
    match t.kind {
        Kind::Name(n) => Some(n),
        _ => None,
    }
}

/// Reads the path at `pos`.
pub fn parse_path(toks: &Vec<Token>, pos: usize) -> (r: Option<(usize, ExprPath)>)
    requires
        pos <= toks@.len(),
    ensures
        match (r, path_at(toks@, pos as int)) {
            (None, None) => true,
            (Some((e, p)), Some((e2, root, names))) => e == e2 && p.root == root && p.path@ == names && pos < e <= toks@.len(),
            _ => false,
        },
{
    let n = toks.len();
    let rooted = pos < n && is_double_col(&toks[pos]);
    let p = if rooted {
        pos + 1
    } else {
        pos
    };
    if p >= n {
        return None;
    }
    let first = match name_of(&toks[p]) {
        Some(x) => x,
        None => {
            return None;
        },
    };
    let mut names: Vec<Ident> = Vec::new();
    names.push(Ident { name: first, span: toks[p].span });
    let mut cur = p + 1;
    while cur < n && n - cur >= 2 && is_double_col(&toks[cur]) && name_of(&toks[cur + 1]).is_some()
        invariant
            n == toks@.len(),
            p < cur <= n,
            path_tail(toks@, p + 1, seq![Ident { name: first, span: toks@[p as int].span }]) == path_tail(
                toks@,
                cur as int,
                names@,
            ),
        decreases n - cur,
    {
        let nm = name_of(&toks[cur + 1]).unwrap();
        names.push(Ident { name: nm, span: toks[cur + 1].span });
        cur = cur + 2;
    }
    let root = if rooted {
        Some(toks[pos].span)
    } else {
        None
    };
    Some((cur, ExprPath { root, path: names }))
}

/// Reads the type at `pos`.
pub fn parse_type(toks: &Vec<Token>, pos: usize) -> (r: Option<(usize, ItemTy)>)
    requires
        pos <= toks@.len(),
    ensures
        match (r, type_at(toks@, pos as int)) {
            (None, None) => true,
            (Some((e, t)), Some((e2, s))) => e == e2 && ty_is(t, s) && pos < e <= toks@.len(),
            _ => false,
        },
    decreases toks@, toks@.len() - pos, 1nat,
{
    if pos >= toks.len() {
        return None;
    }
    match &toks[pos].kind {
        Kind::Mul => match parse_ty_ptr(toks, pos) {
            Some((e, p)) => Some((e, ItemTy::Pointer(p))),
            None => None,
        },
        Kind::Not => Some((pos + 1, ItemTy::Never(TyNever(toks[pos].span)))),
        Kind::Tuple(g) => {
            proof {
                assert(decreases_to!(toks@ => toks@[pos as int]));
                assert(decreases_to!(toks@[pos as int] => toks@[pos as int].kind));
                assert(decreases_to!(toks@[pos as int].kind => toks@[pos as int].kind->Tuple_0));
                assert(decreases_to!(toks@[pos as int].kind->Tuple_0 => toks@[pos as int].kind->Tuple_0@));
            }
            match parse_types_in(g) {
                Some(types) => Some((pos + 1, ItemTy::Tuple(TyTuple { span: toks[pos].span, types }))),
                None => None,
            }
        },
        _ => match parse_path(toks, pos) {
            Some((e, p)) => Some((e, ItemTy::Referred(p))),
            None => None,
        },
    }
}

/// Reads `*` and the type it points to, at `pos`.
pub fn parse_ty_ptr(toks: &Vec<Token>, pos: usize) -> (r: Option<(usize, TyPtr)>)
    requires
        pos <= toks@.len(),
    ensures
        match r {
            Some((e, p)) => {
                &&& pos < toks@.len()
                &&& toks@[pos as int].kind is Mul
                &&& p.span_ptr == toks@[pos as int].span
                &&& type_at(toks@, pos + 1) matches Some((e2, s))
                &&& e == e2
                &&& ty_is(*p.ty, s)
                &&& pos < e <= toks@.len()
            },
            None => !(pos < toks@.len() && toks@[pos as int].kind is Mul && type_at(toks@, pos + 1) is Some),
        },
    decreases toks@, toks@.len() - pos, 0nat,
{
    if pos >= toks.len() {
        return None;
    }
    match toks[pos].kind {
        Kind::Mul => {},
        _ => {
            return None;
        },
    }
    match parse_type(toks, pos + 1) {
        Some((e, ty)) => Some((e, TyPtr { span_ptr: toks[pos].span, ty: Box::new(ty) })),
        None => None,
    }
}

/// Reads a comma-separated list of types that takes up all of `g`.
pub fn parse_types_in(g: &Vec<Token>) -> (r: Option<Vec<ItemTy>>)
    ensures
        match (r, types_in(g@)) {
            (None, None) => true,
            (Some(v), Some(ts)) => v@.len() == ts.len() && forall|i: int| 0 <= i < ts.len() ==> ty_is(#[trigger] v@[i], ts[i]),
            _ => false,
        },
    decreases g@, g@.len() + 1, 1nat,
{
    let n = g.len();
    if n == 1 {
        match g[0].kind {
            Kind::Comma => {
                return Some(Vec::new());
            },
            _ => {},
        }
    }
    let mut out: Vec<ItemTy> = Vec::new();
    let ghost mut syns: Seq<TySyn> = Seq::empty();
    let mut pos: usize = 0;
    while pos < n
        invariant
            n == g@.len(),
            pos <= n,
            types_in(g@) == types_from(g@, 0),
            out@.len() == syns.len(),
            forall|i: int| 0 <= i < syns.len() ==> ty_is(#[trigger] out@[i], syns[i]),
            types_from(g@, 0) == match types_from(g@, pos as int) {
                Some(rest) => Some(syns + rest),
                None => None,
            },
        decreases n - pos,
    {
        match parse_type(g, pos) {
            Some((e, t)) => {
                let ghost found = type_at(g@, pos as int)->0;
                let ghost s = found.1;
                out.push(t);
                proof {
                    syns = syns.push(s);
                }
                if e >= n {
                    proof {
                        assert(syns =~= syns.drop_last() + seq![s]);
                    }
                    return Some(out);
                }
                match g[e].kind {
                    Kind::Comma => {
                        proof {
                            assert(syns.drop_last() + (seq![s] + Seq::<TySyn>::empty()) =~= syns);
                            assert forall|rest: Seq<TySyn>| syns.drop_last() + (seq![s] + rest) == syns + rest by {
                                assert(syns.drop_last() + (seq![s] + rest) =~= syns + rest);
                            }
                        }
                        pos = e + 1;
                    },
                    _ => {
                        return None;
                    },
                }
            },
            None => {
                return None;
            },
        }
    }
    proof {
        assert(syns + Seq::<TySyn>::empty() =~= syns);
    }
    Some(out)
}

} // verus!
