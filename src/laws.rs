use vstd::prelude::*;
use crate::errors::{AnalyzerError, DefinitionKind, MultipleDefinitionsError};
use crate::graph::{TypeKind, TypeSystem, module_created, type_created};
use crate::ident::Ident;
use crate::table::{seq_get, seq_unique, lemma_seq_get_found};
use crate::origin::Origin;
use crate::pass1::{definer_step, definers_applied, flatten_import, flatten_imports, import_entries, type_defined, unresolved_errors};
use crate::resolve::{kind_matches, slot_matches, slots_kept, type_resolved};
use crate::syntax::{ExprPath, Imports, Item, ItemTy, NamedKind};
use crate::resolve::ref_slot;

verus! {

/// Asking twice for the module at the same path gives the same module, and
/// the second call changes nothing.
pub proof fn lemma_module_access_idempotent(
    a0: TypeSystem,
    md: usize,
    p: Seq<Ident>,
    a1: TypeSystem,
    r1: usize,
    a2: TypeSystem,
    r2: usize,
)
    requires
        a0.wf(),
        md < a0.modules@.len(),
        module_created(a0, md, p, a1, r1),
        module_created(a1, md, p, a2, r2),
    ensures
        r2 == r1,
        a2 == a1,
{
}

/// Asking twice for the type slot at the same path gives the same slot, and
/// the second call changes nothing.
pub proof fn lemma_type_access_idempotent(
    a0: TypeSystem,
    md: usize,
    p: Seq<Ident>,
    a1: TypeSystem,
    r1: usize,
    a2: TypeSystem,
    r2: usize,
)
    requires
        a0.wf(),
        md < a0.modules@.len(),
        p.len() > 0,
        type_created(a0, md, p, a1, r1),
        type_created(a1, md, p, a2, r2),
    ensures
        r2 == r1,
        a2 == a1,
{
}

/// Two structural (non-reference) type syntaxes resolved one after the other
/// get two distinct slots, even where the syntaxes are identical; each slot
/// still holds the expansion of its own syntax.
pub proof fn lemma_anonymous_types_distinct(
    a0: TypeSystem,
    tsys: usize,
    ty1: ItemTy,
    a1: TypeSystem,
    r1: usize,
    ty2: ItemTy,
    a2: TypeSystem,
    r2: usize,
)
    requires
        a0.wf(),
        tsys < a0.modules@.len(),
        !(ty1 is Referred),
        !(ty2 is Referred),
        type_resolved(a0, tsys, ty1, a1, r1),
        type_resolved(a1, tsys, ty2, a2, r2),
    ensures
        r1 != r2,
        slot_matches(a2, tsys, ty1, r1, a0.types@.len() as nat),
        slot_matches(a2, tsys, ty2, r2, a1.types@.len() as nat),
{
    crate::resolve::lemma_slot_matches_grows(a1, a2, tsys, ty1, r1, a0.types@.len() as nat, a0.types@.len() as nat);
}

proof fn lemma_flatten_singles(s: Seq<Imports>)
    requires
        forall|i: int| 0 <= i < s.len() ==> #[trigger] s[i] is Single,
    ensures
        flatten_imports(s) == s.map_values(|imp: Imports| imp->Single_0.path@),
    decreases s.len(),
{
    if s.len() > 0 {
        let init = s.drop_last();
        assert forall|i: int| 0 <= i < init.len() implies #[trigger] init[i] is Single by {
            assert(init[i] == s[i]);
        }
        lemma_flatten_singles(init);
        assert(s[s.len() - 1] is Single);
        let f = |imp: Imports| imp->Single_0.path@;
        assert(flatten_imports(s) == flatten_imports(init) + flatten_import(s.last()));
        assert(flatten_import(s.last()) == seq![s.last()->Single_0.path@]);
        assert forall|i: int| 0 <= i < init.len() implies #[trigger] init.map_values(f)[i] == s.map_values(f)[i] by {
            assert(init[i] == s[i]);
        }
        assert(flatten_imports(s) =~= s.map_values(f));
    }
}

/// A grouped import `offset::{p1, p2, ...}` imports exactly the paths that
/// the separate imports `offset::p1`, `offset::p2`, ... do, in the same
/// order; so both add the same import-table entries.
pub proof fn lemma_grouped_import_expansion(grouped: Imports, separate: Seq<Imports>)
    requires
        grouped matches Imports::Multiple(offset, nested) && nested@.len() == separate.len() && forall|i: int|
            0 <= i < separate.len() ==> ((#[trigger] nested@[i]) matches Imports::Single(p) && (separate[i] matches Imports::Single(
                q,
            ) && q.path@ == offset.path@ + p.path@)),
    ensures
        flatten_imports(seq![grouped]) == flatten_imports(separate),
        forall|a: TypeSystem, root: usize|
            #![trigger import_entries(a, root, flatten_imports(seq![grouped]))]
            import_entries(a, root, flatten_imports(seq![grouped])) == import_entries(a, root, flatten_imports(separate)),
{
    let offset = grouped->Multiple_0;
    let nested = grouped->Multiple_1@;
    assert forall|i: int| 0 <= i < nested.len() implies #[trigger] nested[i] is Single by {
        assert(separate[i] is Single);
    }
    assert forall|i: int| 0 <= i < separate.len() implies #[trigger] separate[i] is Single by {
        assert(nested[i] is Single);
    }
    lemma_flatten_singles(nested);
    lemma_flatten_singles(separate);
    let g = seq![grouped];
    assert(g.drop_last() =~= Seq::<Imports>::empty());
    assert(flatten_imports(g) == flatten_imports(g.drop_last()) + flatten_import(grouped));
    assert(flatten_imports(g) =~= flatten_imports(separate));
}

/// A reference to a name that the module does not know yet, followed by
/// the name's definition in the same module, ends on the slot that the
/// definition fills: no error is reported and the referenced slot holds the
/// definition.
pub proof fn lemma_forward_reference(
    a0: TypeSystem,
    tsys: usize,
    p: ExprPath,
    r: usize,
    a1: TypeSystem,
    e1: Seq<AnalyzerError>,
    name: Ident,
    ty: ItemTy,
    a2: TypeSystem,
    e2: Seq<AnalyzerError>,
)
    requires
        a0.wf(),
        tsys < a0.modules@.len(),
        p.root is None,
        p.path@ == seq![name],
        a0.modules@[tsys as int].imports.get(name.name) is None,
        a0.modules@[tsys as int].types.get(name.name) is None,
        type_resolved(a0, tsys, ItemTy::Referred(p), a1, r),
        type_defined(a1, e1, tsys, name, ty, a2, e2),
    ensures
        e2 == e1,
        a2.scoped_type(tsys, seq![name]) == Some(Origin::Local(r)),
        a2.types@[r as int].definition matches Some(info) && info.kind matches TypeKind::Named(b) && kind_matches(
            a2,
            tsys,
            ty,
            *b,
            a1.types@.len() as nat,
        ),
{
    let q = seq![name];
    assert(q.drop_last() =~= Seq::<Ident>::empty());
    assert(a0.scoped_type(tsys, q) is None);
    assert(a0.modules@[tsys as int].grows_to(&a1.modules@[tsys as int]));
    assert(a1.modules@[tsys as int].imports == a0.modules@[tsys as int].imports);
    a1.lemma_scoped_grows(&a2, tsys, q);
}


/// Defining a name twice in a module where it was neither known nor imported
/// before gives exactly one `MultipleDefinitions` error, on the second
/// definition, naming the first definition as the claim that stands; the
/// slot keeps the first definition.
pub proof fn lemma_duplicate_definition(
    a0: TypeSystem,
    e0: Seq<AnalyzerError>,
    tsys: usize,
    n1: Ident,
    ty1: ItemTy,
    a1: TypeSystem,
    e1: Seq<AnalyzerError>,
    n2: Ident,
    ty2: ItemTy,
    a2: TypeSystem,
    e2: Seq<AnalyzerError>,
)
    requires
        a0.wf(),
        tsys < a0.modules@.len(),
        n1.name == n2.name,
        a0.modules@[tsys as int].imports.get(n1.name) is None,
        a0.modules@[tsys as int].types.get(n1.name) is None,
        type_defined(a0, e0, tsys, n1, ty1, a1, e1),
        type_defined(a1, e1, tsys, n2, ty2, a2, e2),
    ensures
        e1 == e0,
        e2 == e0.push(
            AnalyzerError::MultipleDefinitions(
                MultipleDefinitionsError { loc: n2, first: n1, kind: DefinitionKind::Type },
            ),
        ),
        a2.scoped_type(tsys, seq![n2]) matches Some(Origin::Local(t)) && a2.types@[t as int].definition
            == a1.types@[t as int].definition,
        a2.types@[a2.scoped_type(tsys, seq![n2])->0.inner() as int].definition matches Some(info)
            && info.kind matches TypeKind::Named(b) && kind_matches(a1, tsys, ty1, *b, a0.types@.len() as nat),
{
    let q1 = seq![n1];
    let q2 = seq![n2];
    assert(q1.drop_last() =~= Seq::<Ident>::empty());
    assert(q2.drop_last() =~= Seq::<Ident>::empty());
    assert(a0.scoped_type(tsys, q1) is None);
    assert(a0.modules@[tsys as int].grows_to(&a1.modules@[tsys as int]));
    assert(a1.modules@[tsys as int].imports == a0.modules@[tsys as int].imports);
    assert(a1.scoped_type(tsys, q2) == a1.scoped_type(tsys, q1));
    a1.lemma_scoped_named(tsys, n1);
    let o = a1.scoped_type(tsys, q1)->0;
    assert(a1.modules@[tsys as int].imports.get(n1.name) is None);
    assert(o is Local);
    let t = o.inner();
    assert(t >= a0.types@.len());
    assert(a1.types@[t as int].definition is Some);
    assert(a2.scoped_type(tsys, q2) == Some(o));
    assert(a1.types@[t as int].loc->0.name == n1);
}


/// Defining a name that the module imports is refused: one
/// `MultipleDefinitions` error names the slot of the imported name in the
/// module it is imported from, and no slot changes.
pub proof fn lemma_import_clash(
    a1: TypeSystem,
    e1: Seq<AnalyzerError>,
    tsys: usize,
    name: Ident,
    ty: ItemTy,
    a2: TypeSystem,
    e2: Seq<AnalyzerError>,
)
    requires
        a1.wf(),
        tsys < a1.modules@.len(),
        a1.modules@[tsys as int].imports.get(name.name) is Some,
        type_defined(a1, e1, tsys, name, ty, a2, e2),
    ensures
        ({
            let im = a1.modules@[tsys as int].imports.get(name.name)->0;
            &&& a2.modules@[im as int].types.get(name.name) matches Some(t)
            &&& a2.types@[t as int].loc matches Some(l)
            &&& l.home == im
            &&& e2 == e1.push(
                AnalyzerError::MultipleDefinitions(
                    MultipleDefinitionsError { loc: name, first: l.name, kind: DefinitionKind::Import },
                ),
            )
        }),
        slots_kept(a1, a2),
{
    let q = seq![name];
    assert(q.drop_last() =~= Seq::<Ident>::empty());
    let im = a1.modules@[tsys as int].imports.get(name.name)->0;
    assert(a1.modules@[tsys as int].grows_to(&a2.modules@[tsys as int]));
    assert(a2.modules@[tsys as int].imports == a1.modules@[tsys as int].imports);
    assert(a1.module_wf(tsys as int));
    crate::table::lemma_seq_get_bounded(a1.modules@[tsys as int].imports.entries@, name.name, a1.modules@.len());
    a2.lemma_bound_slot_named(im, name.name);
}


/// How many of `errs` are unresolved-type errors for the name `k`.
pub open spec fn unresolved_count(errs: Seq<AnalyzerError>, k: u64) -> nat
    decreases errs.len(),
{
    if errs.len() == 0 {
        0
    } else {
        unresolved_count(errs.drop_last(), k) + if errs.last() matches AnalyzerError::UnresolvedType(e) && e.0.name == k {
            1nat
        } else {
            0nat
        }
    }
}

proof fn lemma_unresolved_count_entries(a: TypeSystem, m: int, es: Seq<(u64, usize)>, k: u64)
    requires
        seq_unique(es),
        forall|i: int| 0 <= i < es.len() ==> a.slot_named(#[trigger] es[i].1, m, es[i].0),
    ensures
        unresolved_count(unresolved_errors(a, es), k) == if seq_get(es, k) matches Some(t) && a.types@[t as int].definition is None {
            1nat
        } else {
            0nat
        },
    decreases es.len(),
{
    if es.len() > 0 {
        let init = es.drop_last();
        assert forall|i: int, j: int| 0 <= i < j < init.len() implies #[trigger] init[i].0 != #[trigger] init[j].0 by {
            assert(init[i] == es[i] && init[j] == es[j]);
        }
        assert forall|i: int| 0 <= i < init.len() implies a.slot_named(#[trigger] init[i].1, m, init[i].0) by {
            assert(init[i] == es[i]);
        }
        lemma_unresolved_count_entries(a, m, init, k);
        assert(a.slot_named(es[es.len() - 1].1, m, es[es.len() - 1].0));
        let u = unresolved_errors(a, es);
        let t = es.last().1;
        if a.types@[t as int].definition is None {
            assert(u.drop_last() == unresolved_errors(a, init));
        } else {
            assert(u == unresolved_errors(a, init));
        }
        if es.last().0 == k && seq_get(init, k) is Some {
            lemma_seq_get_found(init, k);
            let i = choose|i: int| 0 <= i < init.len() && init[i].0 == k && init[i].1 == seq_get(init, k)->0;
            assert(es[i] == init[i]);
        }
    }
}

/// The sweep reports a type slot of the module's own table that is still
/// undefined exactly once, under its name, and a defined one never.
pub proof fn lemma_unresolved_reported_once(a: TypeSystem, tsys: usize, k: u64)
    requires
        a.wf(),
        tsys < a.modules@.len(),
    ensures
        unresolved_count(unresolved_errors(a, a.modules@[tsys as int].types.entries@), k) == if a.modules@[
            tsys as int].types.get(k) matches Some(t) && a.types@[t as int].definition is None {
            1nat
        } else {
            0nat
        },
{
    assert(a.module_wf(tsys as int));
    lemma_unresolved_count_entries(a, tsys as int, a.modules@[tsys as int].types.entries@, k);
}


/// The definition pass of `run_pass1` over two type definitions of one name,
/// unknown and not imported before: exactly one `MultipleDefinitions` error,
/// on the second, naming the first; the first definition stands.
pub proof fn lemma_pass_duplicate_definition(
    a0: TypeSystem,
    e0: Seq<AnalyzerError>,
    tsys: usize,
    items: Seq<Item>,
    a2: TypeSystem,
    e2: Seq<AnalyzerError>,
)
    requires
        a0.wf(),
        tsys < a0.modules@.len(),
        items.len() == 2,
        items[0] matches Item::Definer(d1) && d1.kind is Type,
        items[1] matches Item::Definer(d2) && d2.kind is Type,
        items[0]->Definer_0.name.name == items[1]->Definer_0.name.name,
        a0.modules@[tsys as int].imports.get(items[0]->Definer_0.name.name) is None,
        a0.modules@[tsys as int].types.get(items[0]->Definer_0.name.name) is None,
        definers_applied(a0, e0, tsys, items, a2, e2),
    ensures
        e2 == e0.push(
            AnalyzerError::MultipleDefinitions(
                MultipleDefinitionsError {
                    loc: items[1]->Definer_0.name,
                    first: items[0]->Definer_0.name,
                    kind: DefinitionKind::Type,
                },
            ),
        ),
        a2.scoped_type(tsys, seq![items[0]->Definer_0.name]) matches Some(Origin::Local(t)) && (
        a2.types@[t as int].definition matches Some(info) && info.kind matches TypeKind::Named(b) && kind_matches(
            a2,
            tsys,
            items[0]->Definer_0.kind->Type_0.ty,
            *b,
            a0.types@.len() as nat,
        )),
{
    let d1 = items[0]->Definer_0;
    let d2 = items[1]->Definer_0;
    let (a1, e1) = choose|a1: TypeSystem, e1: Seq<AnalyzerError>|
        definers_applied(a0, e0, tsys, items.drop_last(), a1, e1) && #[trigger] definer_step(
            a1,
            e1,
            tsys,
            items.last(),
            a2,
            e2,
        );
    let one = items.drop_last();
    assert(one.len() == 1 && one[0] == items[0]);
    let (m, me) = choose|m: TypeSystem, me: Seq<AnalyzerError>|
        definers_applied(a0, e0, tsys, one.drop_last(), m, me) && #[trigger] definer_step(m, me, tsys, one.last(), a1, e1);
    assert(one.drop_last().len() == 0);
    assert(m == a0 && me == e0);
    assert(type_defined(a0, e0, tsys, d1.name, d1.kind->Type_0.ty, a1, e1));
    assert(type_defined(a1, e1, tsys, d2.name, d2.kind->Type_0.ty, a2, e2));
    lemma_duplicate_definition(a0, e0, tsys, d1.name, d1.kind->Type_0.ty, a1, e1, d2.name, d2.kind->Type_0.ty, a2, e2);
    let q1 = seq![d1.name];
    let q2 = seq![d2.name];
    assert(q1.drop_last() =~= Seq::<Ident>::empty());
    assert(q2.drop_last() =~= Seq::<Ident>::empty());
    assert(a2.scoped_type(tsys, q1) == a2.scoped_type(tsys, q2));
    let t = a2.scoped_type(tsys, q2)->0.inner();
    let b = a1.types@[t as int].definition->0.kind->Named_0;
    crate::resolve::lemma_kind_matches_grows(
        a1,
        a2,
        tsys,
        d1.kind->Type_0.ty,
        *b,
        a0.types@.len() as nat,
        a0.types@.len() as nat,
    );
}


/// The definition pass of `run_pass1` over `A :: struct { f: B }` followed by
/// `B :: ...`, where neither name was known or imported before: no error is
/// reported, `B`'s slot holds `B`'s definition, and the field of `A` is that
/// very slot.
pub proof fn lemma_pass_forward_reference(
    a0: TypeSystem,
    e0: Seq<AnalyzerError>,
    tsys: usize,
    items: Seq<Item>,
    a2: TypeSystem,
    e2: Seq<AnalyzerError>,
)
    requires
        a0.wf(),
        tsys < a0.modules@.len(),
        items.len() == 2,
        items[0] matches Item::Definer(d1) && d1.kind is Type,
        items[1] matches Item::Definer(d2) && d2.kind is Type,
        items[0]->Definer_0.kind->Type_0.ty is Struct,
        items[0]->Definer_0.kind->Type_0.ty->Struct_0.fields@.len() == 1,
        items[0]->Definer_0.kind->Type_0.ty->Struct_0.fields@[0].ty is Referred,
        items[0]->Definer_0.kind->Type_0.ty->Struct_0.fields@[0].ty->Referred_0.root is None,
        items[0]->Definer_0.kind->Type_0.ty->Struct_0.fields@[0].ty->Referred_0.path@ == seq![items[1]->Definer_0.name],
        items[0]->Definer_0.name.name != items[1]->Definer_0.name.name,
        a0.modules@[tsys as int].imports.get(items[0]->Definer_0.name.name) is None,
        a0.modules@[tsys as int].types.get(items[0]->Definer_0.name.name) is None,
        a0.modules@[tsys as int].imports.get(items[1]->Definer_0.name.name) is None,
        a0.modules@[tsys as int].types.get(items[1]->Definer_0.name.name) is None,
        forall|t: usize| !a0.slot_named(t, tsys as int, items[1]->Definer_0.name.name),
        definers_applied(a0, e0, tsys, items, a2, e2),
    ensures
        e2 == e0,
        a2.scoped_type(tsys, seq![items[0]->Definer_0.name]) matches Some(o) && o is Local,
        a2.scoped_type(tsys, seq![items[1]->Definer_0.name]) matches Some(o) && o is Local,
        ({
            let ta = a2.scoped_type(tsys, seq![items[0]->Definer_0.name])->0.inner();
            let tb = a2.scoped_type(tsys, seq![items[1]->Definer_0.name])->0.inner();
            &&& a2.types@[ta as int].definition matches Some(ia)
            &&& ia.kind matches TypeKind::Named(ka)
            &&& *ka matches TypeKind::Struct(ks)
            &&& ks.fields@.len() == 1
            &&& ks.fields@[0].1 == tb
            &&& a2.types@[tb as int].definition matches Some(ib)
            &&& ib.kind matches TypeKind::Named(kb)
            &&& kind_matches(a2, tsys, items[1]->Definer_0.kind->Type_0.ty, *kb, a0.types@.len() as nat)
        }),
{
    let d1 = items[0]->Definer_0;
    let d2 = items[1]->Definer_0;
    let ty1 = d1.kind->Type_0.ty;
    let ty2 = d2.kind->Type_0.ty;
    let (a1, e1) = choose|a1: TypeSystem, e1: Seq<AnalyzerError>|
        definers_applied(a0, e0, tsys, items.drop_last(), a1, e1) && #[trigger] definer_step(a1, e1, tsys, items.last(), a2, e2);
    let one = items.drop_last();
    assert(one.len() == 1 && one[0] == items[0]);
    let (m, me) = choose|m: TypeSystem, me: Seq<AnalyzerError>|
        definers_applied(a0, e0, tsys, one.drop_last(), m, me) && #[trigger] definer_step(m, me, tsys, one.last(), a1, e1);
    assert(one.drop_last().len() == 0);
    assert(m == a0 && me == e0);
    assert(type_defined(a0, e0, tsys, d1.name, ty1, a1, e1));
    assert(type_defined(a1, e1, tsys, d2.name, ty2, a2, e2));
    let q1 = seq![d1.name];
    let q2 = seq![d2.name];
    assert(q1.drop_last() =~= Seq::<Ident>::empty());
    assert(q2.drop_last() =~= Seq::<Ident>::empty());
    // First step: A is new, so it is defined as its own expansion.
    assert(a0.scoped_type(tsys, q1) is None);
    assert(a0.modules@[tsys as int].grows_to(&a1.modules@[tsys as int]));
    assert(a1.modules@[tsys as int].imports == a0.modules@[tsys as int].imports);
    let ta = a1.scoped_type(tsys, q1)->0.inner();
    assert(a1.scoped_type(tsys, q1) == Some(Origin::Local(ta)));
    assert(e1 == e0);
    let ka = a1.types@[ta as int].definition->0.kind->Named_0;
    let ks = ka->Struct_0;
    let st = ty1->Struct_0;
    let p = st.fields@[0].ty->Referred_0;
    assert(crate::resolve::slot_matches(a1, tsys, st.fields@[0].ty, ks.fields@[0].1, a0.types@.len() as nat));
    let tb = ks.fields@[0].1;
    assert(ref_slot(a1, tsys, p) == Some(tb));
    assert(a1.scoped_type(tsys, q2) == Some(Origin::Local(tb)));
    a1.lemma_bound_slot_named(tsys, d2.name.name);
    assert(a1.slot_named(tb, tsys as int, d2.name.name));
    assert(tb != ta) by {
        a1.lemma_bound_slot_named(tsys, d1.name.name);
    }
    if (tb as int) < a0.types@.len() {
        assert(a1.types@[tb as int] == a0.types@[tb as int]);
        assert(a0.slot_named(tb, tsys as int, d2.name.name));
    }
    assert(a1.types@[tb as int].definition is None);
    // Second step: B's slot is the one A's field refers to, still undefined.
    assert(a1.modules@[tsys as int].grows_to(&a2.modules@[tsys as int]));
    a1.lemma_scoped_grows(&a2, tsys, q2);
    a1.lemma_scoped_grows(&a2, tsys, q1);
    assert(e2 == e1);
    a1.lemma_scoped_named(tsys, d1.name);
    assert(a2.types@[ta as int] == a1.types@[ta as int]);
    let kb = a2.types@[tb as int].definition->0.kind->Named_0;
    crate::resolve::lemma_kind_matches_grows(a2, a2, tsys, ty2, *kb, a1.types@.len() as nat, a0.types@.len() as nat);
}

} // verus!
