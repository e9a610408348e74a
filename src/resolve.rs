use vstd::prelude::*;
use crate::graph::{
    TypeArray, TypeEnum, TypeFunc, TypeInfo, TypeKind, TypeNever, TypePtr, TypeRef, TypeStruct,
    TypeSystem, TypeTuple, kind_bounded, lemma_extends_trans, lemma_slots_carry, lemma_kind_bounded_mono, tuple_bounded,
};
use crate::ident::Ident;
use crate::syntax::{ExprPath, ItemTy, NameTyPair, TyArray, TyEnum, TyFunc, TyPtr, TyStruct, TyTuple};

verus! {

/// The module a written path is resolved from: the root for a rooted path,
/// else `tsys` itself.
pub open spec fn conv_root(a: TypeSystem, tsys: usize, p: ExprPath) -> usize {
    if p.root is Some {
        a.root_of(tsys)
    } else {
        tsys
    }
}

/// The slot a type reference written in `tsys` stands for, imports included.
pub open spec fn ref_slot(a: TypeSystem, tsys: usize, p: ExprPath) -> Option<usize> {
    match a.scoped_type(conv_root(a, tsys, p), p.path@) {
        Some(o) => Some(o.inner()),
        None => None,
    }
}

/// Every type reference in the syntax has at least one segment.
pub open spec fn ty_paths_ok(ty: ItemTy) -> bool
    decreases ty,
{
    match ty {
        ItemTy::Referred(p) => p.path@.len() > 0,
        ItemTy::Struct(s) => forall|i: int| 0 <= i < s.fields@.len() ==> ty_paths_ok(#[trigger] s.fields@[i].ty),
        ItemTy::Enum(e) => forall|i: int|
            0 <= i < e.variants@.len() ==> ((#[trigger] e.variants@[i]).1 matches Some(tp) ==> tuple_paths_ok(tp)),
        ItemTy::Tuple(tp) => tuple_paths_ok(tp),
        ItemTy::Func(f) => ty_paths_ok(*f.ret_ty) && forall|i: int| 0 <= i < f.args@.len() ==> ty_paths_ok(#[trigger] f.args@[i]),
        ItemTy::Array(ar) => ty_paths_ok(*ar.ty),
        ItemTy::Pointer(p) => ty_paths_ok(*p.ty),
        ItemTy::Never(_) => true,
    }
}

pub open spec fn tuple_paths_ok(tp: TyTuple) -> bool
    decreases tp,
{
    forall|i: int| 0 <= i < tp.types@.len() ==> ty_paths_ok(#[trigger] tp.types@[i])
}

/// Slot `id` of `a` stands for the syntax `ty` written in module `tsys`:
/// a reference names the slot it resolves to; any other syntax is a slot of
/// its own, without a location, holding the expansion of `ty`.
pub open spec fn slot_matches(a: TypeSystem, tsys: usize, ty: ItemTy, id: usize, lo: nat) -> bool
    decreases ty, 1nat,
{
    match ty {
        ItemTy::Referred(p) => ref_slot(a, tsys, p) == Some(id),
        _ => {
            &&& lo <= id < a.types@.len()
            &&& a.types@[id as int].loc is None
            &&& a.types@[id as int].definition matches Some(info)
            &&& kind_matches(a, tsys, ty, info.kind, lo)
        },
    }
}

pub open spec fn tuple_matches(a: TypeSystem, tsys: usize, tp: TyTuple, kt: TypeTuple, lo: nat) -> bool
    decreases tp, 0nat,
{
    &&& kt.def == tp.span
    &&& kt.fields@.len() == tp.types@.len()
    &&& forall|i: int| 0 <= i < tp.types@.len() ==> slot_matches(a, tsys, #[trigger] tp.types@[i], kt.fields@[i], lo)
}

/// `k` is the expansion of the syntax `ty` written in module `tsys`: the same
/// shape, spans, names and sizes, with a slot standing for each nested type.
pub open spec fn kind_matches(a: TypeSystem, tsys: usize, ty: ItemTy, k: TypeKind, lo: nat) -> bool
    decreases ty, 0nat,
{
    match ty {
        ItemTy::Referred(p) => ref_slot(a, tsys, p) matches Some(t) && k == TypeKind::Referred(t),
        ItemTy::Struct(s) => k matches TypeKind::Struct(ks) && {
            &&& ks.def == s.span_struct
            &&& ks.fields@.len() == s.fields@.len()
            &&& forall|i: int|
                0 <= i < s.fields@.len() ==> (#[trigger] ks.fields@[i]).0 == s.fields@[i].name && slot_matches(
                    a,
                    tsys,
                    s.fields@[i].ty,
                    ks.fields@[i].1,
                lo)
        },
        ItemTy::Enum(e) => k matches TypeKind::Enum(ke) && {
            &&& ke.def == e.span_enum
            &&& ke.variants@.len() == e.variants@.len()
            &&& forall|i: int|
                0 <= i < e.variants@.len() ==> (#[trigger] ke.variants@[i]).0 == e.variants@[i].0 && match (
                    e.variants@[i].1,
                    ke.variants@[i].1,
                ) {
                    (None, None) => true,
                    (Some(tp), Some(kt)) => tuple_matches(a, tsys, tp, kt, lo),
                    _ => false,
                }
        },
        ItemTy::Tuple(tp) => k matches TypeKind::Tuple(kt) && tuple_matches(a, tsys, tp, kt, lo),
        ItemTy::Func(f) => k matches TypeKind::Func(kf) && {
            &&& kf.def == f.span_func
            &&& slot_matches(a, tsys, *f.ret_ty, kf.ret, lo)
            &&& kf.args@.len() == f.args@.len()
            &&& forall|i: int| 0 <= i < f.args@.len() ==> slot_matches(a, tsys, #[trigger] f.args@[i], kf.args@[i], lo)
        },
        ItemTy::Array(ar) => k matches TypeKind::Array(ka) && {
            &&& ka.def == ar.span
            &&& ka.len == ar.size
            &&& slot_matches(a, tsys, *ar.ty, ka.ty, lo)
        },
        ItemTy::Pointer(p) => k matches TypeKind::Ptr(kp) && kp.def == p.span_ptr && slot_matches(a, tsys, *p.ty, kp.ty, lo),
        ItemTy::Never(n) => k == TypeKind::Never(TypeNever(n.0)),
    }
}

pub proof fn lemma_ref_slot_grows(a: TypeSystem, b: TypeSystem, tsys: usize, p: ExprPath)
    requires
        a.wf(),
        a.extends_to(&b),
        tsys < a.modules@.len(),
        ref_slot(a, tsys, p) is Some,
    ensures
        ref_slot(b, tsys, p) == ref_slot(a, tsys, p),
{
    a.lemma_root_grows(&b, tsys);
    a.lemma_root_bounded(tsys);
    a.lemma_scoped_grows(&b, conv_root(a, tsys, p), p.path@);
}

pub proof fn lemma_slot_matches_grows(a: TypeSystem, b: TypeSystem, tsys: usize, ty: ItemTy, id: usize, lo: nat, lo2: nat)
    requires
        a.wf(),
        a.extends_to(&b),
        tsys < a.modules@.len(),
        lo2 <= lo,
        slot_matches(a, tsys, ty, id, lo),
    ensures
        slot_matches(b, tsys, ty, id, lo2),
    decreases ty, 1nat,
{
    match ty {
        ItemTy::Referred(p) => lemma_ref_slot_grows(a, b, tsys, p),
        _ => {
            assert(b.types@[id as int].loc == a.types@[id as int].loc);
            let info = a.types@[id as int].definition->0;
            lemma_kind_matches_grows(a, b, tsys, ty, info.kind, lo, lo2);
        },
    }
}

pub proof fn lemma_tuple_matches_grows(a: TypeSystem, b: TypeSystem, tsys: usize, tp: TyTuple, kt: TypeTuple, lo: nat, lo2: nat)
    requires
        a.wf(),
        a.extends_to(&b),
        tsys < a.modules@.len(),
        lo2 <= lo,
        tuple_matches(a, tsys, tp, kt, lo),
    ensures
        tuple_matches(b, tsys, tp, kt, lo2),
    decreases tp, 0nat,
{
    assert forall|i: int| 0 <= i < tp.types@.len() implies slot_matches(b, tsys, #[trigger] tp.types@[i], kt.fields@[i], lo2) by {
        lemma_slot_matches_grows(a, b, tsys, tp.types@[i], kt.fields@[i], lo, lo2);
    }
}

pub proof fn lemma_kind_matches_grows(a: TypeSystem, b: TypeSystem, tsys: usize, ty: ItemTy, k: TypeKind, lo: nat, lo2: nat)
    requires
        a.wf(),
        a.extends_to(&b),
        tsys < a.modules@.len(),
        lo2 <= lo,
        kind_matches(a, tsys, ty, k, lo),
    ensures
        kind_matches(b, tsys, ty, k, lo2),
    decreases ty, 0nat,
{
    match ty {
        ItemTy::Referred(p) => lemma_ref_slot_grows(a, b, tsys, p),
        ItemTy::Struct(s) => {
            let ks = k->Struct_0;
            assert forall|i: int| 0 <= i < s.fields@.len() implies slot_matches(b, tsys, s.fields@[i].ty, (
            #[trigger] ks.fields@[i]).1, lo2) by {
                lemma_slot_matches_grows(a, b, tsys, s.fields@[i].ty, ks.fields@[i].1, lo, lo2);
            }
        },
        ItemTy::Enum(e) => {
            let ke = k->Enum_0;
            assert forall|i: int| 0 <= i < e.variants@.len() implies match (
                e.variants@[i].1,
                (#[trigger] ke.variants@[i]).1,
            ) {
                (None, None) => true,
                (Some(tp), Some(kt)) => tuple_matches(b, tsys, tp, kt, lo2),
                _ => false,
            } by {
                if let (Some(tp), Some(kt)) = (e.variants@[i].1, ke.variants@[i].1) {
                    lemma_tuple_matches_grows(a, b, tsys, tp, kt, lo, lo2);
                }
            }
        },
        ItemTy::Tuple(tp) => lemma_tuple_matches_grows(a, b, tsys, tp, k->Tuple_0, lo, lo2),
        ItemTy::Func(f) => {
            let kf = k->Func_0;
            lemma_slot_matches_grows(a, b, tsys, *f.ret_ty, kf.ret, lo, lo2);
            assert forall|i: int| 0 <= i < f.args@.len() implies slot_matches(b, tsys, #[trigger] f.args@[i], kf.args@[i], lo2) by {
                lemma_slot_matches_grows(a, b, tsys, f.args@[i], kf.args@[i], lo, lo2);
            }
        },
        ItemTy::Array(ar) => lemma_slot_matches_grows(a, b, tsys, *ar.ty, k->Array_0.ty, lo, lo2),
        ItemTy::Pointer(p) => lemma_slot_matches_grows(a, b, tsys, *p.ty, k->Ptr_0.ty, lo, lo2),
        ItemTy::Never(_) => {},
    }
}

/// No slot that `a` holds was changed in `b`, and every slot that `b` adds
/// is anonymous or still undefined.
pub open spec fn slots_kept(a: TypeSystem, b: TypeSystem) -> bool {
    &&& a.types@.len() <= b.types@.len()
    &&& forall|t: int| 0 <= t < a.types@.len() ==> #[trigger] b.types@[t] == a.types@[t]
    &&& forall|t: int|
        a.types@.len() <= t < b.types@.len() ==> (#[trigger] b.types@[t]).loc is None || b.types@[t].definition is None
}

/// What `resolve_type` leaves: `new` is `old` grown, with no existing slot
/// changed, and `r` is the slot that stands for `ty`. A structural type
/// gets a slot created by this call; a reference to a name without a slot
/// gets a new, undefined one, and a reference to a known name changes nothing.
pub open spec fn type_resolved(old: TypeSystem, tsys: usize, ty: ItemTy, new: TypeSystem, r: usize) -> bool {
    &&& new.wf()
    &&& old.extends_to(&new)
    &&& slots_kept(old, new)
    &&& slot_matches(new, tsys, ty, r, old.types@.len())
    &&& r < new.types@.len()
    &&& (!(ty is Referred) ==> old.types@.len() <= r)
    &&& (ty matches ItemTy::Referred(p) ==> {
        &&& (ref_slot(old, tsys, p) is Some ==> new == old)
        &&& (ref_slot(old, tsys, p) is None ==> r == old.types@.len() && new.types@[r as int].definition is None)
    })
}

/// The module that the path `p`, written in `tsys`, is relative to.
pub fn conv_path(ts: &TypeSystem, tsys: usize, p: &ExprPath) -> (r: usize)
    requires
        ts.wf(),
        tsys < ts.modules@.len(),
    ensures
        r == conv_root(*ts, tsys, *p),
        r < ts.modules@.len(),
{
    if p.root.is_some() {
        ts.root(tsys)
    } else {
        tsys
    }
}

/// The slot that the type syntax `ty`, written in module `tsys`, stands for.
/// A reference resolves to the named slot (created empty if it does not
/// exist yet); any other syntax gets a fresh anonymous slot holding its
/// expansion.
pub fn resolve_type(ts: &mut TypeSystem, tsys: usize, ty: ItemTy) -> (r: usize)
    requires
        old(ts).wf(),
        tsys < old(ts).modules@.len(),
        ty_paths_ok(ty),
    ensures
        type_resolved(*old(ts), tsys, ty, *final(ts), r),
    decreases ty, 2nat,
{
    let ghost g = ty;
    match ty {
        ItemTy::Referred(p) => {
            let md = conv_path(ts, tsys, &p);
            let ghost s0 = *ts;
            let o = ts.access_or_create_scoped_type(md, &p.path);
            proof {
                s0.lemma_root_grows(ts, tsys);
            }
            o.unwrap()
        },
        _ => {
            let kind = build_type(ts, tsys, ty);
            let ghost s1 = *ts;
            let idx = ts.types.len();
            ts.types.push(TypeRef { loc: None, definition: Some(TypeInfo { kind }) });
            proof {
                assert(s1.grows_to(ts));
                lemma_slots_carry(s1, *ts);
                assert forall|m: int| 0 <= m < ts.modules@.len() implies #[trigger] ts.module_wf(m) by {
                    assert(s1.module_wf(m));
                }
                lemma_kind_bounded_mono(kind, s1.types@.len() as nat, ts.types@.len() as nat);
                assert(ts.slot_wf(idx as int));
                assert(s1.extends_to(ts));
                lemma_extends_trans(*old(ts), s1, *ts);
                lemma_kind_matches_grows(s1, *ts, tsys, g, kind, old(ts).types@.len() as nat, old(ts).types@.len() as nat);
            }
            idx
        },
    }
}

/// Resolves each type of a list, in order.
fn resolve_list(ts: &mut TypeSystem, tsys: usize, tys: Vec<ItemTy>) -> (r: Vec<usize>)
    requires
        old(ts).wf(),
        tsys < old(ts).modules@.len(),
        forall|i: int| 0 <= i < tys@.len() ==> ty_paths_ok(#[trigger] tys@[i]),
    ensures
        final(ts).wf(),
        old(ts).extends_to(final(ts)),
        slots_kept(*old(ts), *final(ts)),
        r@.len() == tys@.len(),
        forall|i: int| 0 <= i < tys@.len() ==> slot_matches(*final(ts), tsys, #[trigger] tys@[i], r@[i], old(ts).types@.len() as nat),
        forall|i: int| 0 <= i < r@.len() ==> #[trigger] r@[i] < final(ts).types@.len(),
    decreases tys, 0nat,
{
    let ghost all = tys@;
    let ghost s0 = *ts;
    let mut rest = tys;
    let mut out: Vec<usize> = Vec::new();
    while rest.len() > 0
        invariant
            ts.wf(),
            s0 == *old(ts),
            s0.extends_to(ts),
            slots_kept(s0, *ts),
            tsys < ts.modules@.len(),
            all == tys@,
            out@.len() + rest@.len() == all.len(),
            rest@ == all.subrange(out@.len() as int, all.len() as int),
            forall|i: int| 0 <= i < all.len() ==> ty_paths_ok(#[trigger] all[i]),
            forall|j: int| 0 <= j < out@.len() ==> slot_matches(*ts, tsys, #[trigger] all[j], out@[j], s0.types@.len() as nat),
            forall|j: int| 0 <= j < out@.len() ==> #[trigger] out@[j] < ts.types@.len(),
        decreases rest@.len(),
    {
        let ghost j0 = out@.len() as int;
        let x = rest.remove(0);
        assert(x == all[j0]);
        let ghost prev = *ts;
        let t = resolve_type(ts, tsys, x);
        proof {
            lemma_slot_matches_grows(*ts, *ts, tsys, x, t, prev.types@.len() as nat, s0.types@.len() as nat);
            lemma_extends_trans(s0, prev, *ts);
            assert forall|j: int| 0 <= j < out@.len() implies slot_matches(*ts, tsys, #[trigger] all[j], out@[j], s0.types@.len() as nat) by {
                lemma_slot_matches_grows(prev, *ts, tsys, all[j], out@[j], s0.types@.len() as nat, s0.types@.len() as nat);
            }
        }
        out.push(t);
        proof {
            assert(rest@ =~= all.subrange(out@.len() as int, all.len() as int));
        }
    }
    out
}

fn conv_tuple(ts: &mut TypeSystem, tsys: usize, tp: TyTuple) -> (r: TypeTuple)
    requires
        old(ts).wf(),
        tsys < old(ts).modules@.len(),
        tuple_paths_ok(tp),
    ensures
        final(ts).wf(),
        old(ts).extends_to(final(ts)),
        slots_kept(*old(ts), *final(ts)),
        tuple_matches(*final(ts), tsys, tp, r, old(ts).types@.len() as nat),
        tuple_bounded(r, final(ts).types@.len() as nat),
    decreases tp, 1nat,
{
    let TyTuple { span, types } = tp;
    let fields = resolve_list(ts, tsys, types);
    TypeTuple { def: span, fields }
}

/// The expansion of the type syntax `ty` written in module `tsys`.
pub fn build_type(ts: &mut TypeSystem, tsys: usize, ty: ItemTy) -> (k: TypeKind)
    requires
        old(ts).wf(),
        tsys < old(ts).modules@.len(),
        ty_paths_ok(ty),
    ensures
        final(ts).wf(),
        old(ts).extends_to(final(ts)),
        slots_kept(*old(ts), *final(ts)),
        kind_matches(*final(ts), tsys, ty, k, old(ts).types@.len() as nat),
        kind_bounded(k, final(ts).types@.len() as nat),
    decreases ty, 1nat,
{
    let ghost g = ty;
    let ghost s0 = *ts;
    match ty {
        ItemTy::Referred(p) => {
            let md = conv_path(ts, tsys, &p);
            let o = ts.access_or_create_scoped_type(md, &p.path);
            proof {
                s0.lemma_root_grows(ts, tsys);
            }
            TypeKind::Referred(o.unwrap())
        },
        ItemTy::Struct(s) => {
            let TyStruct { span_struct, fields } = s;
            let ghost all = fields@;
            let mut rest = fields;
            let mut out: Vec<(Ident, usize)> = Vec::new();
            while rest.len() > 0
                invariant
                    ts.wf(),
                    s0 == *old(ts),
                    s0.extends_to(ts),
                    slots_kept(s0, *ts),
                    tsys < ts.modules@.len(),
                    g == ItemTy::Struct(s),
                    g == ty,
                    all == s.fields@,
                    out@.len() + rest@.len() == all.len(),
                    rest@ == all.subrange(out@.len() as int, all.len() as int),
                    forall|i: int| 0 <= i < all.len() ==> ty_paths_ok(#[trigger] all[i].ty),
                    forall|j: int|
                        0 <= j < out@.len() ==> (#[trigger] out@[j]).0 == all[j].name && slot_matches(*ts, tsys, all[j].ty, out@[j].1, s0.types@.len() as nat),
                    forall|j: int| 0 <= j < out@.len() ==> (#[trigger] out@[j]).1 < ts.types@.len(),
                decreases rest@.len(),
            {
                let ghost j0 = out@.len() as int;
                let f = rest.remove(0);
                assert(f == all[j0]);
                proof {
                    assert(decreases_to!(g => g->Struct_0));
                    assert(g->Struct_0 == s);
                    assert(decreases_to!(s => s.fields));
                    assert(decreases_to!(s.fields => s.fields@));
                    assert(decreases_to!(s.fields@ => s.fields@[j0]));
                    assert(decreases_to!(s.fields@[j0] => s.fields@[j0].ty));
                }
                let NameTyPair { name, ty: fty } = f;
                assert(decreases_to!(g => fty));
                let ghost prev = *ts;
                let t = resolve_type(ts, tsys, fty);
                proof {
                    lemma_slot_matches_grows(*ts, *ts, tsys, fty, t, prev.types@.len() as nat, s0.types@.len() as nat);
                    lemma_extends_trans(s0, prev, *ts);
                    assert forall|j: int| 0 <= j < out@.len() implies slot_matches(*ts, tsys, all[j].ty, (
                    #[trigger] out@[j]).1, s0.types@.len() as nat) by {
                        lemma_slot_matches_grows(prev, *ts, tsys, all[j].ty, out@[j].1, s0.types@.len() as nat, s0.types@.len() as nat);
                    }
                }
                out.push((name, t));
                proof {
                    assert(rest@ =~= all.subrange(out@.len() as int, all.len() as int));
                }
            }
            TypeKind::Struct(TypeStruct { def: span_struct, fields: out })
        },
        ItemTy::Enum(e) => {
            let TyEnum { span_enum, variants } = e;
            let ghost all = variants@;
            let mut rest = variants;
            let mut out: Vec<(Ident, Option<TypeTuple>)> = Vec::new();
            while rest.len() > 0
                invariant
                    ts.wf(),
                    s0 == *old(ts),
                    s0.extends_to(ts),
                    slots_kept(s0, *ts),
                    tsys < ts.modules@.len(),
                    g == ItemTy::Enum(e),
                    g == ty,
                    all == e.variants@,
                    out@.len() + rest@.len() == all.len(),
                    rest@ == all.subrange(out@.len() as int, all.len() as int),
                    forall|i: int| 0 <= i < all.len() ==> ((#[trigger] all[i]).1 matches Some(tp) ==> tuple_paths_ok(tp)),
                    forall|j: int|
                        0 <= j < out@.len() ==> (#[trigger] out@[j]).0 == all[j].0 && match (all[j].1, out@[j].1) {
                            (None, None) => true,
                            (Some(tp), Some(kt)) => tuple_matches(*ts, tsys, tp, kt, s0.types@.len() as nat),
                            _ => false,
                        },
                    forall|j: int|
                        0 <= j < out@.len() ==> ((#[trigger] out@[j]).1 matches Some(kt) ==> tuple_bounded(kt, ts.types@.len() as nat)),
                decreases rest@.len(),
            {
                let ghost j0 = out@.len() as int;
                let v = rest.remove(0);
                assert(v == all[j0]);
                proof {
                    assert(decreases_to!(g => g->Enum_0));
                    assert(g->Enum_0 == e);
                    assert(decreases_to!(e => e.variants));
                    assert(decreases_to!(e.variants => e.variants@));
                    assert(decreases_to!(e.variants@ => e.variants@[j0]));
                    assert(decreases_to!(e.variants@[j0] => e.variants@[j0].1));
                    if let Some(tp) = e.variants@[j0].1 {
                        assert(decreases_to!(e.variants@[j0].1 => tp));
                    }
                }
                let (name, payload) = v;
                let ghost prev = *ts;
                let conv = match payload {
                    Some(tp) => {
                        assert(decreases_to!(g => tp));
                        let kt = conv_tuple(ts, tsys, tp);
                        proof {
                            lemma_tuple_matches_grows(*ts, *ts, tsys, tp, kt, prev.types@.len() as nat, s0.types@.len() as nat);
                        }
                        Some(kt)
                    },
                    None => None,
                };
                proof {
                    lemma_extends_trans(s0, prev, *ts);
                    assert forall|j: int| 0 <= j < out@.len() implies (#[trigger] out@[j]).0 == all[j].0 && match (all[j].1, out@[j].1) {
                        (None, None) => true,
                        (Some(tp), Some(kt)) => tuple_matches(*ts, tsys, tp, kt, s0.types@.len() as nat),
                        _ => false,
                    } by {
                        if let (Some(tp), Some(kt)) = (all[j].1, out@[j].1) {
                            lemma_tuple_matches_grows(prev, *ts, tsys, tp, kt, s0.types@.len() as nat, s0.types@.len() as nat);
                        }
                    }
                    assert forall|j: int| 0 <= j < out@.len() implies ((#[trigger] out@[j]).1 matches Some(kt) ==> tuple_bounded(kt, ts.types@.len() as nat)) by {
                        if let Some(kt) = out@[j].1 {
                            assert(tuple_bounded(kt, prev.types@.len() as nat));
                        }
                    }
                }
                out.push((name, conv));
                proof {
                    assert(rest@ =~= all.subrange(out@.len() as int, all.len() as int));
                }
            }
            TypeKind::Enum(TypeEnum { def: span_enum, variants: out })
        },
        ItemTy::Tuple(tp) => TypeKind::Tuple(conv_tuple(ts, tsys, tp)),
        ItemTy::Func(f) => {
            let TyFunc { span_func, args, ret_ty } = f;
            let args = resolve_list(ts, tsys, args);
            let ghost s1 = *ts;
            let ret = resolve_type(ts, tsys, *ret_ty);
            proof {
                lemma_slot_matches_grows(*ts, *ts, tsys, *ret_ty, ret, s1.types@.len() as nat, s0.types@.len() as nat);
                lemma_extends_trans(s0, s1, *ts);
                assert forall|i: int| 0 <= i < f.args@.len() implies slot_matches(*ts, tsys, #[trigger] f.args@[i], args@[i], s0.types@.len() as nat) by {
                    lemma_slot_matches_grows(s1, *ts, tsys, f.args@[i], args@[i], s0.types@.len() as nat, s0.types@.len() as nat);
                }
            }
            TypeKind::Func(TypeFunc { def: span_func, args, ret })
        },
        ItemTy::Array(ar) => {
            let TyArray { span, ty: elem, size } = ar;
            let t = resolve_type(ts, tsys, *elem);
            TypeKind::Array(TypeArray { def: span, ty: t, len: size })
        },
        ItemTy::Pointer(p) => {
            let TyPtr { span_ptr, ty: elem } = p;
            let t = resolve_type(ts, tsys, *elem);
            TypeKind::Ptr(TypePtr { def: span_ptr, ty: t })
        },
        ItemTy::Never(n) => TypeKind::Never(TypeNever(n.0)),
    }
}

} // verus!
