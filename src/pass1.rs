use vstd::prelude::*;
use crate::errors::{AnalyzerError, DefinitionKind, ErrorCollector, MultipleDefinitionsError, UnresolvedTypeError};
use crate::graph::{TypeInfo, TypeKind, TypeSystem, lemma_extends_trans, lemma_grows_trans, lemma_kind_bounded_mono};
use crate::ident::Ident;
use crate::origin::Origin;
use crate::resolve::{build_type, conv_path, conv_root, kind_matches, lemma_kind_matches_grows, slots_kept, ty_paths_ok};
use crate::syntax::{Imports, Item, ItemImports, ItemNamed, ItemNamedType, ItemTy, NamedKind, ParsedModule};
use crate::table::{lemma_seq_get_found};

verus! {

/// Every path named in an import list, with group offsets prefixed, in order.
pub open spec fn flatten_imports(imps: Seq<Imports>) -> Seq<Seq<Ident>>
    decreases imps,
{
    if imps.len() == 0 {
        Seq::empty()
    } else {
        flatten_imports(imps.drop_last()) + flatten_import(imps.last())
    }
}

pub open spec fn flatten_import(imp: Imports) -> Seq<Seq<Ident>>
    decreases imp,
{
    match imp {
        Imports::Single(p) => seq![p.path@],
        Imports::Multiple(off, nested) => flatten_imports(nested@).map_values(|q: Seq<Ident>| off.path@ + q),
    }
}

/// Every single import names at least one segment.
pub open spec fn imports_ok(imps: Seq<Imports>) -> bool
    decreases imps,
{
    forall|i: int| 0 <= i < imps.len() ==> import_ok(#[trigger] imps[i])
}

pub open spec fn import_ok(imp: Imports) -> bool
    decreases imp,
{
    match imp {
        Imports::Single(p) => p.path@.len() > 0,
        Imports::Multiple(_, nested) => imports_ok(nested@),
    }
}

/// The import-table entries that importing the paths `ps` relative to module
/// `root` adds: each binds the last name to the module its prefix reaches.
pub open spec fn import_entries(a: TypeSystem, root: usize, ps: Seq<Seq<Ident>>) -> Seq<(u64, usize)> {
    ps.map_values(|q: Seq<Ident>| (q.last().name, a.descend(root, q.drop_last())->0))
}

/// Every path of `ps` but its last name leads to a module from `root`.
pub open spec fn imports_reach(a: TypeSystem, root: usize, ps: Seq<Seq<Ident>>) -> bool {
    forall|i: int| 0 <= i < ps.len() ==> (#[trigger] a.descend(root, ps[i].drop_last())) is Some
}

pub proof fn lemma_flatten_nonempty(imps: Seq<Imports>)
    requires
        imports_ok(imps),
    ensures
        forall|i: int| 0 <= i < flatten_imports(imps).len() ==> (#[trigger] flatten_imports(imps)[i]).len() > 0,
    decreases imps,
{
    if imps.len() > 0 {
        let init = imps.drop_last();
        assert(imports_ok(init)) by {
            assert forall|i: int| 0 <= i < init.len() implies import_ok(#[trigger] init[i]) by {
                assert(init[i] == imps[i]);
            }
        }
        lemma_flatten_nonempty(init);
        assert(import_ok(imps[imps.len() - 1]));
        let a = flatten_imports(init);
        let b = flatten_import(imps.last());
        if let Imports::Multiple(off, nested) = imps.last() {
            lemma_flatten_nonempty(nested@);
            assert forall|j: int| 0 <= j < b.len() implies (#[trigger] b[j]).len() > 0 by {
                assert(b[j] == off.path@ + flatten_imports(nested@)[j]);
            }
        }
        assert forall|i: int| 0 <= i < (a + b).len() implies (#[trigger] (a + b)[i]).len() > 0 by {
            if i < a.len() {
                assert((a + b)[i] == a[i]);
            } else {
                assert((a + b)[i] == b[i - a.len()]);
            }
        }
    }
}

impl TypeSystem {
    /// Following `p` and then `q` is following `p + q`.
    pub proof fn lemma_descend_concat(&self, md: usize, p: Seq<Ident>, q: Seq<Ident>)
        requires
            self.descend(md, p) is Some,
        ensures
            self.descend(md, p + q) == self.descend(self.descend(md, p)->0, q),
        decreases q.len(),
    {
        if q.len() == 0 {
            assert(p + q =~= p);
        } else {
            assert((p + q).drop_last() =~= p + q.drop_last());
            assert((p + q).last() == q.last());
            self.lemma_descend_concat(md, p, q.drop_last());
        }
    }
}

pub proof fn lemma_import_entries_grows(a: TypeSystem, b: TypeSystem, root: usize, ps: Seq<Seq<Ident>>)
    requires
        a.wf(),
        a.grows_to(&b),
        root < a.modules@.len(),
        imports_reach(a, root, ps),
    ensures
        import_entries(b, root, ps) == import_entries(a, root, ps),
        imports_reach(b, root, ps),
{
    assert forall|i: int| 0 <= i < ps.len() implies b.descend(root, ps[i].drop_last()) == a.descend(
        root,
        ps[i].drop_last(),
    ) by {
        assert(a.descend(root, ps[i].drop_last()) is Some);
        a.lemma_descend_grows(&b, root, ps[i].drop_last());
    }
    assert(import_entries(b, root, ps) =~= import_entries(a, root, ps));
}

/// Records each import of `imps`, relative to module `root`, in the import
/// table of `tsys`, creating missing modules on the way.
pub fn resolve_imports(ts: &mut TypeSystem, imps: &Vec<Imports>, root: usize, tsys: usize)
    requires
        old(ts).wf(),
        root < old(ts).modules@.len(),
        tsys < old(ts).modules@.len(),
        imports_ok(imps@),
    ensures
        final(ts).wf(),
        old(ts).grows_to(final(ts)),
        final(ts).types@ == old(ts).types@,
        forall|m: int|
            0 <= m < old(ts).modules@.len() && m != tsys ==> (#[trigger] final(ts).modules@[m]).imports
                == old(ts).modules@[m].imports,
        final(ts).modules@[tsys as int].imports.entries@ == old(ts).modules@[tsys as int].imports.entries@
            + import_entries(*final(ts), root, flatten_imports(imps@)),
        imports_reach(*final(ts), root, flatten_imports(imps@)),
        forall|m: int| 0 <= m < old(ts).modules@.len() ==> (#[trigger] final(ts).modules@[m]).types == old(ts).modules@[m].types,
    decreases imps@,
{
    let ghost s0 = *ts;
    let ghost base = s0.modules@[tsys as int].imports.entries@;
    let mut i: usize = 0;
    proof {
        assert(imps@.take(0) =~= Seq::<Imports>::empty());
        assert(import_entries(*ts, root, flatten_imports(imps@.take(0))) =~= Seq::<(u64, usize)>::empty());
        assert(base + Seq::<(u64, usize)>::empty() =~= base);
    }
    while i < imps.len()
        invariant
            ts.wf(),
            s0 == *old(ts),
            s0.grows_to(ts),
            ts.types@ == s0.types@,
            root < s0.modules@.len(),
            tsys < s0.modules@.len(),
            imports_ok(imps@),
            i <= imps@.len(),
            base == s0.modules@[tsys as int].imports.entries@,
            forall|m: int|
                0 <= m < s0.modules@.len() && m != tsys ==> (#[trigger] ts.modules@[m]).imports == s0.modules@[m].imports,
            ts.modules@[tsys as int].imports.entries@ == base + import_entries(*ts, root, flatten_imports(imps@.take(i as int))),
            imports_reach(*ts, root, flatten_imports(imps@.take(i as int))),
            forall|m: int| 0 <= m < s0.modules@.len() ==> (#[trigger] ts.modules@[m]).types == s0.modules@[m].types,
        decreases imps@.len() - i,
    {
        let ghost done = flatten_imports(imps@.take(i as int));
        let ghost prev = *ts;
        proof {
            assert(imps@.take(i + 1).drop_last() =~= imps@.take(i as int));
            assert(imps@.take(i + 1).last() == imps@[i as int]);
            assert(import_ok(imps@[i as int]));
        }
        match &imps[i] {
            Imports::Single(single) => {
                let n = single.path.len() - 1;
                assert(single.path@.take(n as int) =~= single.path@.drop_last());
                let md = ts.create_prefix(root, &single.path, n);
                let name = single.path[n];
                let ghost mid = *ts;
                proof {
                    assert(mid.module_wf(tsys as int));
                }
                ts.modules[tsys].imports.insert(name.name, md);
                proof {
                    let e0 = mid.modules@[tsys as int].imports.entries@;
                    assert forall|m2: int| 0 <= m2 < mid.modules@.len() implies #[trigger] mid.modules@[m2].grows_to(
                        &ts.modules@[m2]) by {
                        if m2 != tsys {
                            assert(ts.modules@[m2] == mid.modules@[m2]);
                        }
                    }
                    assert(mid.grows_to(ts));
                    assert forall|m2: int| 0 <= m2 < ts.modules@.len() implies #[trigger] ts.module_wf(m2) by {
                        assert(mid.module_wf(m2));
                        if m2 == tsys as int {
                            let e = ts.modules@[m2].imports.entries@;
                            assert forall|j: int| 0 <= j < e.len() implies #[trigger] e[j].1 < ts.modules@.len() by {
                                if j < e.len() - 1 {
                                    assert(e[j] == e0[j]);
                                }
                            }
                        }
                    }
                    crate::graph::lemma_slots_carry(mid, *ts);
                    lemma_grows_trans(s0, prev, mid);
                    lemma_grows_trans(s0, mid, *ts);
                    lemma_grows_trans(prev, mid, *ts);
                    lemma_import_entries_grows(prev, *ts, root, done);
                    let ps = flatten_imports(imps@.take(i + 1));
                    let t1 = imps@.take(i + 1);
                    assert(t1.drop_last() =~= imps@.take(i as int));
                    assert(t1.last() == imps@[i as int]);
                    assert(flatten_import(imps@[i as int]) == seq![single.path@]);
                    assert(ps == flatten_imports(t1.drop_last()) + flatten_import(t1.last()));
                    assert(ps == done + seq![single.path@]);
                    mid.lemma_descend_grows(ts, root, single.path@.drop_last());
                    assert(import_entries(*ts, root, ps) =~= import_entries(*ts, root, done) + seq![
                        (name.name, md),
                    ]);
                    assert(imports_reach(*ts, root, ps)) by {
                        assert forall|j: int| 0 <= j < ps.len() implies (#[trigger] ts.descend(root, ps[j].drop_last())) is Some by {
                            if j < done.len() {
                                assert(ps[j] == done[j]);
                            }
                        }
                    }
                }
            },
            Imports::Multiple(offset, nested) => {
                let rel = ts.access_or_create_module(root, &offset.path);
                let ghost mid = *ts;
                proof {
                    assert(imports_ok(nested@));
                    assert(decreases_to!(imps@ => imps@[i as int]));
                }
                resolve_imports(ts, nested, rel, tsys);
                proof {
                    lemma_grows_trans(s0, prev, mid);
                    lemma_grows_trans(s0, mid, *ts);
                    lemma_grows_trans(prev, mid, *ts);
                    lemma_import_entries_grows(prev, *ts, root, done);
                    let inner = flatten_imports(nested@);
                    let outer = inner.map_values(|q: Seq<Ident>| offset.path@ + q);
                    let ps = flatten_imports(imps@.take(i + 1));
                    let t1 = imps@.take(i + 1);
                    assert(t1.drop_last() =~= imps@.take(i as int));
                    assert(t1.last() == imps@[i as int]);
                    assert(flatten_import(imps@[i as int]) == outer);
                    assert(ps == flatten_imports(t1.drop_last()) + flatten_import(t1.last()));
                    assert(ps == done + outer);
                    lemma_flatten_nonempty(nested@);
                    mid.lemma_descend_grows(ts, root, offset.path@);
                    assert forall|j: int| 0 <= j < outer.len() implies ts.descend(root, (#[trigger] outer[j]).drop_last())
                        == ts.descend(rel, inner[j].drop_last()) by {
                        assert(outer[j].drop_last() =~= offset.path@ + inner[j].drop_last());
                        ts.lemma_descend_concat(root, offset.path@, inner[j].drop_last());
                    }
                    assert forall|j: int| 0 <= j < outer.len() implies (#[trigger] outer[j]).last() == inner[j].last() by {}
                    assert(import_entries(*ts, rel, inner) =~= import_entries(*ts, root, outer));
                    assert(import_entries(*ts, root, ps) =~= import_entries(*ts, root, done) + import_entries(
                        *ts,
                        root,
                        outer,
                    ));
                    assert(imports_reach(*ts, root, ps)) by {
                        assert forall|j: int| 0 <= j < ps.len() implies (#[trigger] ts.descend(root, ps[j].drop_last())) is Some by {
                            if j < done.len() {
                                assert(ps[j] == done[j]);
                            } else {
                                assert(ps[j] == outer[j - done.len()]);
                                assert(ts.descend(rel, inner[j - done.len()].drop_last()) is Some);
                            }
                        }
                    }
                }
            },
        }
        i = i + 1;
    }
    proof {
        assert(imps@.take(i as int) =~= imps@);
    }
}


impl TypeSystem {
    /// A slot bound in a module's type table is recorded under that name and module.
    pub proof fn lemma_bound_slot_named(&self, m: usize, k: u64)
        requires
            self.wf(),
            m < self.modules@.len(),
            self.modules@[m as int].types.get(k) is Some,
        ensures
            self.slot_named(self.modules@[m as int].types.get(k)->0, m as int, k),
    {
        assert(self.module_wf(m as int));
        lemma_seq_get_found(self.modules@[m as int].types.entries@, k);
    }

    /// The slot that `seq![name]` resolves to from `tsys` is recorded under `name`.
    pub proof fn lemma_scoped_named(&self, tsys: usize, name: Ident)
        requires
            self.wf(),
            tsys < self.modules@.len(),
            self.scoped_type(tsys, seq![name]) is Some,
        ensures
            self.scoped_type(tsys, seq![name])->0.inner() < self.types@.len(),
            self.types@[self.scoped_type(tsys, seq![name])->0.inner() as int].loc matches Some(l) && l.name.name == name.name,
    {
        let p = seq![name];
        assert(p.drop_last() =~= Seq::<Ident>::empty());
        assert(self.module_wf(tsys as int));
        if let Some(im) = self.modules@[tsys as int].imports.get(name.name) {
            crate::table::lemma_seq_get_bounded(self.modules@[tsys as int].imports.entries@, name.name, self.modules@.len());
            self.lemma_bound_slot_named(im, name.name);
        } else {
            self.lemma_bound_slot_named(tsys, name.name);
        }
    }
}

/// The name `name` is claimed in `tsys`: it resolves to a slot, and a slot of
/// the module's own is defined.
pub open spec fn defined_in(a: TypeSystem, tsys: usize, name: Ident) -> bool {
    &&& a.scoped_type(tsys, seq![name]) matches Some(o)
    &&& (o matches Origin::Local(t) ==> a.types@[t as int].definition is Some)
}

/// What `define_type(name, ty)` leaves. The name is looked up in `tsys`
/// (through its imports). Where it is imported, or its slot is already
/// defined, one `MultipleDefinitions` error names the claim that stands and
/// nothing changes but, for an imported name, the undefined slot that the
/// lookup creates in the module imported from; else the slot now holds
/// `Named` of the expansion of `ty`, and every other slot added is anonymous
/// or undefined.
pub open spec fn type_defined(
    old: TypeSystem,
    old_errs: Seq<AnalyzerError>,
    tsys: usize,
    name: Ident,
    ty: ItemTy,
    new: TypeSystem,
    errs: Seq<AnalyzerError>,
) -> bool {
    &&& new.wf()
    &&& old.extends_to(&new)
    &&& new.scoped_type(tsys, seq![name]) matches Some(o)
    &&& match o {
        Origin::Import(t) => {
            &&& errs == old_errs.push(
                AnalyzerError::MultipleDefinitions(
                    MultipleDefinitionsError { loc: name, first: new.types@[t as int].loc->0.name, kind: DefinitionKind::Import },
                ),
            )
            &&& slots_kept(old, new)
            &&& (old.scoped_type(tsys, seq![name]) is Some ==> new == old)
            &&& new.types@.len() <= old.types@.len() + 1
            &&& new.modules@.len() == old.modules@.len()
            &&& forall|m: int|
                0 <= m < old.modules@.len() && m != old.modules@[tsys as int].imports.get(name.name)->0 ==> #[trigger] new.modules@[m]
                    == old.modules@[m]
        },
        Origin::Local(t) => if t < old.types@.len() && old.types@[t as int].definition is Some {
            &&& errs == old_errs.push(
                AnalyzerError::MultipleDefinitions(
                    MultipleDefinitionsError { loc: name, first: old.types@[t as int].loc->0.name, kind: DefinitionKind::Type },
                ),
            )
            &&& new == old
        } else {
            &&& errs == old_errs
            &&& new.types@[t as int].definition matches Some(info)
            &&& info.kind matches TypeKind::Named(b)
            &&& kind_matches(new, tsys, ty, *b, old.types@.len() as nat)
            &&& forall|u: int| 0 <= u < old.types@.len() && u != t ==> #[trigger] new.types@[u] == old.types@[u]
            &&& forall|u: int|
                old.types@.len() <= u < new.types@.len() && u != t ==> (#[trigger] new.types@[u]).loc is None
                    || new.types@[u].definition is None
        },
    }
    &&& (old.scoped_type(tsys, seq![name]) is Some ==> new.scoped_type(tsys, seq![name]) == old.scoped_type(tsys, seq![name]))
    &&& (old.scoped_type(tsys, seq![name]) is None ==> {
        let t = new.scoped_type(tsys, seq![name])->0.inner();
        &&& t >= old.types@.len()
        &&& new.types@[t as int].loc matches Some(l)
        &&& l.name == name
    })
}

/// Claims the name `name` in module `tsys` for the type syntax `ty`.
pub fn define_type(ts: &mut TypeSystem, tsys: usize, name: Ident, ty: ItemTy, errs: &mut ErrorCollector)
    requires
        old(ts).wf(),
        tsys < old(ts).modules@.len(),
        ty_paths_ok(ty),
    ensures
        type_defined(*old(ts), old(errs).errors@, tsys, name, ty, *final(ts), final(errs).errors@),
{
    let mut path: Vec<Ident> = Vec::new();
    path.push(name);
    assert(path@ =~= seq![name]);
    let o = ts.access_or_create_scoped_type(tsys, &path);
    let ghost s_found = *ts;
    proof {
        ts.lemma_scoped_named(tsys, name);
    }
    match o {
        Origin::Import(t) => {
            let first = ts.types[t].loc.unwrap().name;
            errs.add_error(
                AnalyzerError::MultipleDefinitions(
                    MultipleDefinitionsError { loc: name, first, kind: DefinitionKind::Import },
                ),
            );
        },
        Origin::Local(t) => {
            if ts.types[t].definition.is_some() {
                let first = ts.types[t].loc.unwrap().name;
                errs.add_error(
                    AnalyzerError::MultipleDefinitions(
                        MultipleDefinitionsError { loc: name, first, kind: DefinitionKind::Type },
                    ),
                );
            } else {
                let ghost s1 = *ts;
                let kind = build_type(ts, tsys, ty);
                let ghost s2 = *ts;
                proof {
                    lemma_extends_trans(*old(ts), s1, s2);
                    s1.lemma_scoped_grows(&s2, tsys, seq![name]);
                }
                ts.types[t].definition = Some(TypeInfo { kind: TypeKind::Named(Box::new(kind)) });
                proof {
                    assert forall|m: int| 0 <= m < s2.modules@.len() implies #[trigger] s2.modules@[m].grows_to(&ts.modules@[m]) by {}
                    assert forall|u: int| 0 <= u < ts.types@.len() implies #[trigger] ts.slot_wf(u) by {
                        assert(s2.slot_wf(u));
                    }
                    assert forall|m: int| 0 <= m < ts.modules@.len() implies #[trigger] ts.module_wf(m) by {
                        assert(s2.module_wf(m));
                        let e = ts.modules@[m].types.entries@;
                        assert forall|j: int| 0 <= j < e.len() implies ts.slot_named(#[trigger] e[j].1, m, e[j].0) by {
                            assert(s2.slot_named(e[j].1, m, e[j].0));
                        }
                    }
                    assert(s2.extends_to(ts));
                    lemma_extends_trans(*old(ts), s2, *ts);
                    s2.lemma_scoped_grows(ts, tsys, seq![name]);
                    lemma_kind_matches_grows(s2, *ts, tsys, ty, kind, s1.types@.len() as nat, old(ts).types@.len() as nat);
                    assert(ts.types@[t as int].loc == s_found.types@[t as int].loc);
                }
            }
        },
    }
}

/// The unresolved-type errors for the entries `es` of a type table: one for
/// each slot without a definition, in table order, naming the slot.
pub open spec fn unresolved_errors(a: TypeSystem, es: Seq<(u64, usize)>) -> Seq<AnalyzerError>
    decreases es.len(),
{
    if es.len() == 0 {
        Seq::empty()
    } else {
        let rest = unresolved_errors(a, es.drop_last());
        let t = es.last().1 as int;
        if a.types@[t].definition is None {
            rest.push(AnalyzerError::UnresolvedType(UnresolvedTypeError(a.types@[t].loc->0.name)))
        } else {
            rest
        }
    }
}

/// Reports every type slot of `tsys`'s own table that has no definition.
pub fn sweep_unresolved(ts: &TypeSystem, tsys: usize, errs: &mut ErrorCollector)
    requires
        ts.wf(),
        tsys < ts.modules@.len(),
    ensures
        final(errs).errors@ == old(errs).errors@ + unresolved_errors(*ts, ts.modules@[tsys as int].types.entries@),
{
    let ghost es = ts.modules@[tsys as int].types.entries@;
    let n = ts.modules[tsys].types.entries.len();
    let mut i: usize = 0;
    proof {
        assert(ts.module_wf(tsys as int));
        assert(es.take(0) =~= Seq::<(u64, usize)>::empty());
        assert(old(errs).errors@ + Seq::<AnalyzerError>::empty() =~= old(errs).errors@);
    }
    while i < n
        invariant
            ts.wf(),
            tsys < ts.modules@.len(),
            es == ts.modules@[tsys as int].types.entries@,
            n == es.len(),
            i <= n,
            ts.module_wf(tsys as int),
            errs.errors@ == old(errs).errors@ + unresolved_errors(*ts, es.take(i as int)),
        decreases n - i,
    {
        let (k, t) = ts.modules[tsys].types.entries[i];
        proof {
            assert(es.take(i + 1).drop_last() =~= es.take(i as int));
            assert(es.take(i + 1).last() == es[i as int]);
            assert(ts.slot_named(es[i as int].1, tsys as int, es[i as int].0));
        }
        if ts.types[t].definition.is_none() {
            let name = ts.types[t].loc.unwrap().name;
            errs.add_error(AnalyzerError::UnresolvedType(UnresolvedTypeError(name)));
        }
        i = i + 1;
    }
    proof {
        assert(es.take(n as int) =~= es);
    }
}


/// The module an import item imports from, as seen from `tsys`.
pub open spec fn import_root(a: TypeSystem, tsys: usize, d: ItemImports) -> Option<usize> {
    a.descend(conv_root(a, tsys, d.from), d.from.path@)
}

/// The import-table entries that the import items among `items` add to `tsys`, in order.
pub open spec fn items_import_entries(a: TypeSystem, tsys: usize, items: Seq<Item>) -> Seq<(u64, usize)>
    decreases items.len(),
{
    if items.len() == 0 {
        Seq::empty()
    } else {
        items_import_entries(a, tsys, items.drop_last()) + match items.last() {
            Item::Import(d) => import_entries(a, import_root(a, tsys, d)->0, flatten_imports(d.imports@)),
            Item::Definer(_) => Seq::empty(),
        }
    }
}

/// Every import item of `items` leads, from `tsys`, to existing modules.
pub open spec fn items_reach(a: TypeSystem, tsys: usize, items: Seq<Item>) -> bool {
    forall|j: int|
        0 <= j < items.len() ==> ((#[trigger] items[j]) matches Item::Import(d) ==> import_root(a, tsys, d) matches Some(r)
            && r < a.modules@.len() && imports_reach(a, r, flatten_imports(d.imports@)))
}

/// The parsed items can be resolved: no import or type reference has an empty path.
pub open spec fn items_ok(items: Seq<Item>) -> bool {
    forall|j: int|
        0 <= j < items.len() ==> match #[trigger] items[j] {
            Item::Import(d) => imports_ok(d.imports@),
            Item::Definer(d) => (d.kind matches NamedKind::Type(nt) ==> ty_paths_ok(nt.ty)),
        }
}

pub proof fn lemma_items_entries_grows(a: TypeSystem, b: TypeSystem, tsys: usize, items: Seq<Item>)
    requires
        a.wf(),
        a.grows_to(&b),
        tsys < a.modules@.len(),
        items_reach(a, tsys, items),
    ensures
        items_import_entries(b, tsys, items) == items_import_entries(a, tsys, items),
        items_reach(b, tsys, items),
    decreases items.len(),
{
    a.lemma_root_grows(&b, tsys);
    a.lemma_root_bounded(tsys);
    assert forall|j: int| 0 <= j < items.len() implies ((#[trigger] items[j]) matches Item::Import(d) ==> import_root(
        b,
        tsys,
        d,
    ) matches Some(r) && r < b.modules@.len() && imports_reach(b, r, flatten_imports(d.imports@))) by {
        if let Item::Import(d) = items[j] {
            a.lemma_descend_grows(&b, conv_root(a, tsys, d.from), d.from.path@);
            lemma_import_entries_grows(a, b, import_root(a, tsys, d)->0, flatten_imports(d.imports@));
        }
    }
    if items.len() > 0 {
        let init = items.drop_last();
        assert(items_reach(a, tsys, init)) by {
            assert forall|j: int| 0 <= j < init.len() implies ((#[trigger] init[j]) matches Item::Import(d) ==> import_root(
                a,
                tsys,
                d,
            ) matches Some(r) && r < a.modules@.len() && imports_reach(a, r, flatten_imports(d.imports@))) by {
                assert(init[j] == items[j]);
            }
        }
        lemma_items_entries_grows(a, b, tsys, init);
        assert(items[items.len() - 1] == items.last());
        if let Item::Import(d) = items.last() {
            a.lemma_descend_grows(&b, conv_root(a, tsys, d.from), d.from.path@);
            lemma_import_entries_grows(a, b, import_root(a, tsys, d)->0, flatten_imports(d.imports@));
        }
    }
}

/// What the import items of `items` leave, from `old`: only modules were
/// added and import entries of `tsys` appended, as `items_import_entries`
/// gives them; no slot, type table or other import table changed.
pub open spec fn imports_applied(old: TypeSystem, tsys: usize, items: Seq<Item>, new: TypeSystem) -> bool {
    &&& new.wf()
    &&& old.grows_to(&new)
    &&& new.types@ == old.types@
    &&& forall|m: int| 0 <= m < old.modules@.len() ==> (#[trigger] new.modules@[m]).types == old.modules@[m].types
    &&& forall|m: int|
        0 <= m < old.modules@.len() && m != tsys ==> (#[trigger] new.modules@[m]).imports == old.modules@[m].imports
    &&& new.modules@[tsys as int].imports.entries@ == old.modules@[tsys as int].imports.entries@
        + items_import_entries(new, tsys, items)
}

/// One item of the definition pass: a type definer is claimed as
/// `type_defined` says; any other item changes nothing.
pub open spec fn definer_step(
    old: TypeSystem,
    old_errs: Seq<AnalyzerError>,
    tsys: usize,
    item: Item,
    new: TypeSystem,
    errs: Seq<AnalyzerError>,
) -> bool {
    match item {
        Item::Definer(d) => match d.kind {
            NamedKind::Type(nt) => type_defined(old, old_errs, tsys, d.name, nt.ty, new, errs),
            NamedKind::Func(_) => new == old && errs == old_errs,
        },
        Item::Import(_) => new == old && errs == old_errs,
    }
}

/// The definition pass over `items`, in order: `definer_step` applied to
/// each item in turn, from `old` and `old_errs` to `new` and `errs`.
pub open spec fn definers_applied(
    old: TypeSystem,
    old_errs: Seq<AnalyzerError>,
    tsys: usize,
    items: Seq<Item>,
    new: TypeSystem,
    errs: Seq<AnalyzerError>,
) -> bool
    decreases items.len(),
{
    if items.len() == 0 {
        new == old && errs == old_errs
    } else {
        exists|mid: TypeSystem, mid_errs: Seq<AnalyzerError>|
            definers_applied(old, old_errs, tsys, items.drop_last(), mid, mid_errs) && #[trigger] definer_step(
                mid,
                mid_errs,
                tsys,
                items.last(),
                new,
                errs,
            )
    }
}

proof fn lemma_definers_step(
    a: TypeSystem,
    e: Seq<AnalyzerError>,
    tsys: usize,
    items: Seq<Item>,
    mid: TypeSystem,
    mid_errs: Seq<AnalyzerError>,
    new: TypeSystem,
    errs: Seq<AnalyzerError>,
)
    requires
        items.len() > 0,
        definers_applied(a, e, tsys, items.drop_last(), mid, mid_errs),
        definer_step(mid, mid_errs, tsys, items.last(), new, errs),
    ensures
        definers_applied(a, e, tsys, items, new, errs),
{
}

/// Resolves one parsed module into module `tsys`: first every import item,
/// then every type definition, in order; function items are left alone.
/// Finally every type slot of `tsys`'s own table still without a definition
/// is reported, in table order.
pub fn run_pass1(module: ParsedModule, ts: &mut TypeSystem, tsys: usize, errs: &mut ErrorCollector)
    requires
        old(ts).wf(),
        tsys < old(ts).modules@.len(),
        items_ok(module.items@),
    ensures
        final(ts).wf(),
        old(ts).grows_to(final(ts)),
        final(ts).modules@[tsys as int].imports.entries@ == old(ts).modules@[tsys as int].imports.entries@
            + items_import_entries(*final(ts), tsys, module.items@),
        forall|j: int|
            0 <= j < module.items@.len() ==> ((#[trigger] module.items@[j]) matches Item::Definer(d) ==> (
            d.kind is Type ==> defined_in(*final(ts), tsys, d.name))),
        ({
            let sw = unresolved_errors(*final(ts), final(ts).modules@[tsys as int].types.entries@);
            let n0 = old(errs).errors@.len();
            let n1 = final(errs).errors@.len();
            &&& n0 + sw.len() <= n1
            &&& final(errs).errors@.subrange(0, n0 as int) == old(errs).errors@
            &&& final(errs).errors@.subrange(n1 - sw.len(), n1 as int) == sw
            &&& forall|i: int| n0 <= i < n1 - sw.len() ==> (#[trigger] final(errs).errors@[i]) is MultipleDefinitions
        }),
        exists|a1: TypeSystem, e1: Seq<AnalyzerError>|
            #[trigger] definers_applied(a1, old(errs).errors@, tsys, module.items@, *final(ts), e1) && imports_applied(
                *old(ts),
                tsys,
                module.items@,
                a1,
            ) && final(errs).errors@ == e1 + unresolved_errors(*final(ts), final(ts).modules@[tsys as int].types.entries@),
{
    let ghost all = module.items@;
    let ghost s0 = *ts;
    let ghost base = s0.modules@[tsys as int].imports.entries@;
    let ghost e0 = errs.errors@;
    let n = module.items.len();
    let mut i: usize = 0;
    proof {
        assert(all.take(0) =~= Seq::<Item>::empty());
        assert(base + Seq::<(u64, usize)>::empty() =~= base);
    }
    while i < n
        invariant
            ts.wf(),
            s0 == *old(ts),
            s0.grows_to(ts),
            tsys < s0.modules@.len(),
            all == module.items@,
            n == all.len(),
            i <= n,
            items_ok(all),
            base == s0.modules@[tsys as int].imports.entries@,
            ts.modules@[tsys as int].imports.entries@ == base + items_import_entries(*ts, tsys, all.take(i as int)),
            items_reach(*ts, tsys, all.take(i as int)),
            ts.types@ == s0.types@,
            forall|m: int| 0 <= m < s0.modules@.len() ==> (#[trigger] ts.modules@[m]).types == s0.modules@[m].types,
            forall|m: int|
                0 <= m < s0.modules@.len() && m != tsys ==> (#[trigger] ts.modules@[m]).imports == s0.modules@[m].imports,
        decreases n - i,
    {
        let ghost prev = *ts;
        let ghost done = all.take(i as int);
        proof {
            assert(all.take(i + 1).drop_last() =~= done);
            assert(all.take(i + 1).last() == all[i as int]);
        }
        match &module.items[i] {
            Item::Import(d) => {
                let md = conv_path(ts, tsys, &d.from);
                let root = ts.access_or_create_module(md, &d.from.path);
                let ghost mid = *ts;
                proof {
                    assert(imports_ok(d.imports@));
                }
                resolve_imports(ts, &d.imports, root, tsys);
                proof {
                    lemma_grows_trans(prev, mid, *ts);
                    lemma_grows_trans(s0, prev, *ts);
                    lemma_items_entries_grows(prev, *ts, tsys, done);
                    prev.lemma_root_grows(ts, tsys);
                    mid.lemma_descend_grows(ts, md, d.from.path@);
                    let t1 = all.take(i + 1);
                    assert(import_root(*ts, tsys, *d) == Some(root));
                    assert(items_import_entries(*ts, tsys, t1) == items_import_entries(*ts, tsys, done) + import_entries(
                        *ts,
                        root,
                        flatten_imports(d.imports@),
                    ));
                    assert(ts.modules@[tsys as int].imports.entries@ =~= base + items_import_entries(*ts, tsys, t1));
                    assert forall|j: int| 0 <= j < t1.len() implies ((#[trigger] t1[j]) matches Item::Import(d2) ==> import_root(
                        *ts,
                        tsys,
                        d2,
                    ) matches Some(r) && r < ts.modules@.len() && imports_reach(*ts, r, flatten_imports(d2.imports@))) by {
                        if j < done.len() {
                            assert(t1[j] == done[j]);
                        }
                    }
                }
            },
            Item::Definer(_) => {
                proof {
                    let t1 = all.take(i + 1);
                    assert(items_import_entries(*ts, tsys, t1) =~= items_import_entries(*ts, tsys, done));
                    assert forall|j: int| 0 <= j < t1.len() implies ((#[trigger] t1[j]) matches Item::Import(d2) ==> import_root(
                        *ts,
                        tsys,
                        d2,
                    ) matches Some(r) && r < ts.modules@.len() && imports_reach(*ts, r, flatten_imports(d2.imports@))) by {
                        if j < done.len() {
                            assert(t1[j] == done[j]);
                        }
                    }
                }
            },
        }
        i = i + 1;
    }
    proof {
        assert(all.take(n as int) =~= all);
    }
    let ghost s1 = *ts;
    proof {
        assert(ts.modules@[tsys as int].imports.entries@ =~= base + items_import_entries(*ts, tsys, all));
        assert(imports_applied(s0, tsys, all, s1));
        assert(all.take(0) =~= Seq::<Item>::empty());
    }
    let mut rest = module.items;
    let mut k: usize = 0;
    while rest.len() > 0
        invariant
            imports_applied(s0, tsys, all, s1),
            ts.wf(),
            s1.wf(),
            s0 == *old(ts),
            s0.grows_to(&s1),
            s1.extends_to(ts),
            tsys < s1.modules@.len(),
            items_ok(all),
            k + rest@.len() == all.len(),
            n == all.len(),
            rest@ == all.subrange(k as int, all.len() as int),
            e0 == old(errs).errors@,
            e0.len() <= errs.errors@.len(),
            errs.errors@.subrange(0, e0.len() as int) == e0,
            forall|i: int| e0.len() <= i < errs.errors@.len() ==> (#[trigger] errs.errors@[i]) is MultipleDefinitions,
            forall|j: int|
                0 <= j < k ==> ((#[trigger] all[j]) matches Item::Definer(d) ==> (d.kind is Type ==> defined_in(*ts, tsys, d.name))),
            definers_applied(s1, e0, tsys, all.take(k as int), *ts, errs.errors@),
        decreases rest@.len(),
    {
        let ghost j0 = k as int;
        let item = rest.remove(0);
        assert(item == all[j0]);
        let ghost prev = *ts;
        let ghost pe = errs.errors@;
        match item {
            Item::Definer(d) => {
                let ItemNamed { name, kind } = d;
                match kind {
                    NamedKind::Type(nt) => {
                        define_type(ts, tsys, name, nt.ty, errs);
                        proof {
                            lemma_extends_trans(s1, prev, *ts);
                            assert forall|j: int|
                                0 <= j < k implies ((#[trigger] all[j]) matches Item::Definer(d2) ==> (d2.kind is Type ==> defined_in(
                                *ts,
                                tsys,
                                d2.name,
                            ))) by {
                                if let Item::Definer(d2) = all[j] {
                                    if d2.kind is Type {
                                        prev.lemma_scoped_grows(ts, tsys, seq![d2.name]);
                                        prev.lemma_scoped_named(tsys, d2.name);
                                    }
                                }
                            }
                            assert forall|i: int| e0.len() <= i < errs.errors@.len() implies (#[trigger] errs.errors@[i]) is MultipleDefinitions by {
                                if i < pe.len() {
                                    assert(errs.errors@[i] == pe[i]);
                                }
                            }
                            assert(errs.errors@.subrange(0, e0.len() as int) =~= pe.subrange(0, e0.len() as int));
                        }
                    },
                    NamedKind::Func(_) => {},
                }
            },
            Item::Import(_) => {},
        }
        proof {
            let t1 = all.take(j0 + 1);
            assert(t1.drop_last() =~= all.take(j0));
            assert(t1.last() == all[j0]);
            assert(definer_step(prev, pe, tsys, all[j0], *ts, errs.errors@));
            assert(t1.len() > 0);
            assert(definers_applied(s1, e0, tsys, t1.drop_last(), prev, pe));
            assert(definer_step(prev, pe, tsys, t1.last(), *ts, errs.errors@));
            lemma_definers_step(s1, e0, tsys, t1, prev, pe, *ts, errs.errors@);
        }
        k = k + 1;
        proof {
            assert(rest@ =~= all.subrange(k as int, all.len() as int));
        }
    }
    let ghost s2 = *ts;
    let ghost pe = errs.errors@;
    sweep_unresolved(ts, tsys, errs);
    proof {
        assert(all.take(k as int) =~= all);
        assert(definers_applied(s1, e0, tsys, all, *ts, pe));
        lemma_grows_trans(s0, s1, s2);
        lemma_items_entries_grows(s1, s2, tsys, all);
        assert(s2.modules@[tsys as int].imports == s1.modules@[tsys as int].imports);
        let sw = unresolved_errors(s2, s2.modules@[tsys as int].types.entries@);
        assert(errs.errors@.subrange(0, e0.len() as int) =~= pe.subrange(0, e0.len() as int));
        assert(errs.errors@.subrange(errs.errors@.len() - sw.len(), errs.errors@.len() as int) =~= sw);
        assert forall|i: int| e0.len() <= i < errs.errors@.len() - sw.len() implies (#[trigger] errs.errors@[i]) is MultipleDefinitions by {
            assert(errs.errors@[i] == pe[i]);
        }
    }
}

} // verus!
