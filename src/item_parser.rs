use vstd::prelude::*;
use crate::expr_parser::{ExprSyn, block_is, parse_block, stmts_from};
use crate::ident::{Ident, Span};
use crate::syntax::{ItemFunc, NameTyPair, TyNamedFunc};
use crate::types_parser::{Kind, Token, TySyn, parse_type, ty_is, type_at};

verus! {

/// A comma-separated list of `name Type` that takes up all of `g`, with an
/// optional trailing comma.
pub open spec fn pairs_in(g: Seq<Token>) -> Option<Seq<(Ident, TySyn)>> {
    if g.len() == 1 && g[0].kind is Comma {
        Some(Seq::empty())
    } else {
        pairs_from(g, 0)
    }
}

pub open spec fn pairs_from(g: Seq<Token>, pos: int) -> Option<Seq<(Ident, TySyn)>>
    decreases g.len() - pos,
{
    if !(0 <= pos < g.len()) {
        Some(Seq::empty())
    } else if g[pos].kind is Name {
        let name = Ident { name: g[pos].kind->Name_0, span: g[pos].span };
        match type_at(g, pos + 1) {
            Some((e, t)) => if e >= g.len() {
                Some(seq![(name, t)])
            } else if g[e].kind is Comma && e > pos {
                match pairs_from(g, e + 1) {
                    Some(rest) => Some(seq![(name, t)] + rest),
                    None => None,
                }
            } else {
                None
            },
            None => None,
        }
    } else {
        None
    }
}

/// A function signature at `pos`: `func`, a parenthesised list of named
/// arguments, and a return type. Returns the end, the span of `func`, the
/// arguments and the return type.
pub open spec fn named_func_at(toks: Seq<Token>, pos: int) -> Option<(int, Span, Seq<(Ident, TySyn)>, TySyn)> {
    if 0 <= pos && pos + 1 < toks.len() && toks[pos].kind is Func && toks[pos + 1].kind is Tuple && pairs_in(
        toks[pos + 1].kind->Tuple_0@,
    ) is Some {
        match type_at(toks, pos + 2) {
            Some((e, ret)) => Some((e, toks[pos].span, pairs_in(toks[pos + 1].kind->Tuple_0@)->0, ret)),
            None => None,
        }
    } else {
        None
    }
}

pub open spec fn pairs_are(v: Seq<NameTyPair>, s: Seq<(Ident, TySyn)>) -> bool {
    &&& v.len() == s.len()
    &&& forall|i: int| 0 <= i < s.len() ==> (#[trigger] v[i]).name == s[i].0 && ty_is(v[i].ty, s[i].1)
}

/// `f` is the signature with the given `func` span, arguments and return type.
pub open spec fn named_func_is(f: TyNamedFunc, sp: Span, args: Seq<(Ident, TySyn)>, ret: TySyn) -> bool {
    &&& f.span_func == sp
    &&& pairs_are(f.args@, args)
    &&& ty_is(*f.ret_ty, ret)
}

/// Reads a comma-separated list of `name Type` that takes up all of `g`.
pub fn parse_func_named_args(g: &Vec<Token>) -> (r: Option<Vec<NameTyPair>>)
    ensures
        match (r, pairs_in(g@)) {
            (None, None) => true,
            (Some(v), Some(s)) => pairs_are(v@, s),
            _ => false,
        },
{
    let n = g.len();
    if n == 1 {
        match g[0].kind {
            Kind::Comma => {
                return Some(Vec::new());
            },
            _ => {},
        }
    }
    let mut out: Vec<NameTyPair> = Vec::new();
    let ghost mut syns: Seq<(Ident, TySyn)> = Seq::empty();
    let mut pos: usize = 0;
    while pos < n
        invariant
            n == g@.len(),
            pos <= n,
            pairs_in(g@) == pairs_from(g@, 0),
            pairs_are(out@, syns),
            pairs_from(g@, 0) == match pairs_from(g@, pos as int) {
                Some(rest) => Some(syns + rest),
                None => None,
            },
        decreases n - pos,
    {
        let name = match g[pos].kind {
            Kind::Name(k) => Ident { name: k, span: g[pos].span },
            _ => {
                return None;
            },
        };
        match parse_type(g, pos + 1) {
            Some((e, t)) => {
                let ghost found = type_at(g@, pos + 1)->0;
                let ghost s = (name, found.1);
                out.push(NameTyPair { name, ty: t });
                proof {
                    syns = syns.push(s);
                }
                if e >= n {
                    proof {
                        assert(syns =~= syns.drop_last() + seq![s]);
                    }
                    return Some(out);
                }
                match g[e].kind {
                    Kind::Comma => {
                        proof {
                            assert forall|rest: Seq<(Ident, TySyn)>| syns.drop_last() + (seq![s] + rest) == syns + rest by {
                                assert(syns.drop_last() + (seq![s] + rest) =~= syns + rest);
                            }
                        }
                        pos = e + 1;
                    },
                    _ => {
                        return None;
                    },
                }
            },
            None => {
                return None;
            },
        }
    }
    proof {
        assert(syns + Seq::<(Ident, TySyn)>::empty() =~= syns);
    }
    Some(out)
}

/// Reads the function signature at `pos`.
pub fn parse_ty_named_func(toks: &Vec<Token>, pos: usize) -> (r: Option<(usize, TyNamedFunc)>)
    requires
        pos <= toks@.len(),
    ensures
        match (r, named_func_at(toks@, pos as int)) {
            (None, None) => true,
            (Some((e, f)), Some((e2, sp, args, ret))) => e == e2 && named_func_is(f, sp, args, ret) && pos < e <= toks@.len(),
            _ => false,
        },
{
    let n = toks.len();
    if !(pos < n && n - pos >= 2) {
        return None;
    }
    match toks[pos].kind {
        Kind::Func => {},
        _ => {
            return None;
        },
    }
    let args = match &toks[pos + 1].kind {
        Kind::Tuple(g) => match parse_func_named_args(g) {
            Some(a) => a,
            None => {
                return None;
            },
        },
        _ => {
            return None;
        },
    };
    match parse_type(toks, pos + 2) {
        Some((e, ret)) => Some((e, TyNamedFunc { span_func: toks[pos].span, args, ret_ty: Box::new(ret) })),
        None => None,
    }
}

/// Reads a function item at `pos`: its signature and its body block.
pub fn parse_item_func(toks: &Vec<Token>, pos: usize) -> (r: Option<(usize, ItemFunc)>)
    requires
        pos <= toks@.len(),
    ensures
        match r {
            Some((e, item)) => {
                &&& named_func_at(toks@, pos as int) matches Some((e1, sp, args, ret))
                &&& named_func_is(item.func, sp, args, ret)
                &&& 0 <= e1 < toks@.len()
                &&& toks@[e1].kind is Block
                &&& stmts_from(toks@[e1].kind->Block_0@, 0) matches Some((stmts, last))
                &&& block_is(item.body, toks@[e1].span, stmts, last)
                &&& e == e1 + 1
            },
            None => !(named_func_at(toks@, pos as int) matches Some((e1, _, _, _)) && 0 <= e1 < toks@.len()
                && toks@[e1].kind is Block && stmts_from(toks@[e1].kind->Block_0@, 0) is Some),
        },
{
    let (e1, func) = match parse_ty_named_func(toks, pos) {
        Some(found) => found,
        None => {
            return None;
        },
    };
    match parse_block(toks, e1) {
        Some((e, body)) => Some((e, ItemFunc { func, body })),
        None => None,
    }
}

} // verus!
