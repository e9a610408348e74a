use vstd::prelude::*;
use crate::ident::{Ident, Span, names};
use crate::origin::Origin;
use crate::syntax::Expr;
use crate::table::{Table, seq_get, seq_bounded, seq_unique, lemma_get_push, lemma_seq_get_bounded};

verus! {

/// A named place: the identifier that first named it and the module it lives in.
#[derive(Clone, Copy, Debug, PartialEq, Eq, Structural)]
pub struct Location {
    pub name: Ident,
    pub home: usize,
}

/// What a module stands for: a source file, or an inline location.
#[derive(Clone, Copy, Debug, PartialEq, Eq, Structural)]
pub enum ModuleOwner {
    File(u64),
    Inline(Location),
}

/// A node of the module tree. Handles in its tables index the arena's
/// `modules` and `types`.
#[derive(Debug)]
pub struct Module {
    pub types: Table,
    pub modules: Table,
    /// Each entry binds a name to the module it is to be resolved in.
    pub imports: Table,
    pub previous: Option<usize>,
    pub path: Vec<Ident>,
    pub name: Option<Ident>,
    pub owner: Option<ModuleOwner>,
}

/// A type slot: where it was named (if it was) and, once known, its definition.
#[derive(Debug)]
pub struct TypeRef {
    pub loc: Option<Location>,
    pub definition: Option<TypeInfo>,
}

#[derive(Debug)]
pub struct TypeInfo {
    pub kind: TypeKind,
}

#[derive(Debug)]
pub enum TypeKind {
    Named(Box<TypeKind>),
    Referred(usize),
    Struct(TypeStruct),
    Enum(TypeEnum),
    Tuple(TypeTuple),
    Func(TypeFunc),
    Array(TypeArray),
    Ptr(TypePtr),
    Never(TypeNever),
}

#[derive(Debug)]
pub struct TypeStruct {
    pub def: Span,
    pub fields: Vec<(Ident, usize)>,
}

#[derive(Debug)]
pub struct TypeEnum {
    pub def: Span,
    pub variants: Vec<(Ident, Option<TypeTuple>)>,
}

#[derive(Debug)]
pub struct TypeTuple {
    pub def: Span,
    pub fields: Vec<usize>,
}

#[derive(Debug)]
pub struct TypeFunc {
    pub def: Span,
    pub args: Vec<usize>,
    pub ret: usize,
}

#[derive(Debug)]
pub struct TypeArray {
    pub def: Span,
    pub ty: usize,
    pub len: Expr,
}

#[derive(Debug)]
pub struct TypePtr {
    pub def: Span,
    pub ty: usize,
}

#[derive(Debug)]
pub struct TypeNever(pub Span);

/// The arena that owns every module and every type slot. Module 0 is the root.
#[derive(Debug)]
pub struct TypeSystem {
    pub modules: Vec<Module>,
    pub types: Vec<TypeRef>,
}

pub open spec fn tuple_bounded(t: TypeTuple, n: nat) -> bool {
    forall|i: int| 0 <= i < t.fields@.len() ==> #[trigger] t.fields@[i] < n
}

/// Every slot handle that the kind holds is below `n`.
pub open spec fn kind_bounded(k: TypeKind, n: nat) -> bool
    decreases k,
{
    match k {
        TypeKind::Named(b) => kind_bounded(*b, n),
        TypeKind::Referred(t) => t < n,
        TypeKind::Struct(s) => forall|i: int| 0 <= i < s.fields@.len() ==> #[trigger] s.fields@[i].1 < n,
        TypeKind::Enum(e) => forall|i: int|
            0 <= i < e.variants@.len() ==> ((#[trigger] e.variants@[i]).1 matches Some(tp) ==> tuple_bounded(tp, n)),
        TypeKind::Tuple(tp) => tuple_bounded(tp, n),
        TypeKind::Func(f) => f.ret < n && forall|i: int| 0 <= i < f.args@.len() ==> #[trigger] f.args@[i] < n,
        TypeKind::Array(a) => a.ty < n,
        TypeKind::Ptr(p) => p.ty < n,
        TypeKind::Never(_) => true,
    }
}

pub proof fn lemma_kind_bounded_mono(k: TypeKind, n: nat, m: nat)
    requires
        kind_bounded(k, n),
        n <= m,
    ensures
        kind_bounded(k, m),
    decreases k,
{
    if let TypeKind::Named(b) = k {
        lemma_kind_bounded_mono(*b, n, m);
    }
}

impl Module {
    /// A fresh module with empty tables, named by the last segment of `path`.
    pub fn new(path: Vec<Ident>, owner: Option<ModuleOwner>) -> (r: Module)
        requires
            path@.len() > 0,
        ensures
            r.fresh(),
            r.path@ == path@,
            r.name == Some(path@.last()),
            r.owner == owner,
    {
        let name = path[path.len() - 1];
        Module {
            types: Table::new(),
            modules: Table::new(),
            imports: Table::new(),
            previous: None,
            path,
            name: Some(name),
            owner,
        }
    }

    pub fn new_root() -> (r: Module)
        ensures
            r.fresh(),
            r.path@.len() == 0,
            r.name is None,
            r.owner is None,
    {
        Module {
            types: Table::new(),
            modules: Table::new(),
            imports: Table::new(),
            previous: None,
            path: Vec::new(),
            name: None,
            owner: None,
        }
    }

    /// No types, submodules or imports yet, and no parent link.
    pub open spec fn fresh(&self) -> bool {
        &&& self.types.entries@.len() == 0
        &&& self.modules.entries@.len() == 0
        &&& self.imports.entries@.len() == 0
        &&& self.previous is None
    }

    /// No types or imports, no parent link and no owner.
    pub open spec fn unpopulated(&self) -> bool {
        &&& self.types.entries@.len() == 0
        &&& self.imports.entries@.len() == 0
        &&& self.previous is None
        &&& self.owner is None
    }

    /// `self` may have gained type and submodule entries in `o`, and its
    /// imports may differ; nothing else does.
    pub open spec fn grows_to(&self, o: &Module) -> bool {
        &&& self.types.grows_to(&o.types)
        &&& self.modules.grows_to(&o.modules)
        &&& o.previous == self.previous
        &&& o.path == self.path
        &&& o.name == self.name
        &&& o.owner == self.owner
    }
}

/// `path` followed by `seg`.
fn join(path: &Vec<Ident>, seg: Ident) -> (r: Vec<Ident>)
    ensures
        r@ == path@.push(seg),
{
    let mut r: Vec<Ident> = Vec::new();
    let mut i: usize = 0;
    while i < path.len()
        invariant
            i <= path@.len(),
            r@ == path@.subrange(0, i as int),
        decreases path@.len() - i,
    {
        r.push(path[i]);
        i = i + 1;
    }
    assert(r@ =~= path@);
    r.push(seg);
    r
}

/// The length of the longest prefix of `p` that leads from `md` to an
/// existing module.
pub open spec fn known_prefix(a: TypeSystem, md: usize, p: Seq<Ident>) -> nat
    decreases p.len(),
{
    if p.len() == 0 {
        0
    } else if a.descend(md, p) is Some {
        p.len()
    } else {
        known_prefix(a, md, p.drop_last())
    }
}

/// What `access_or_create_module(md, p)` leaves: `new` is `old` with the
/// missing modules along `p` added, one for each segment past the longest
/// existing prefix, in path order, each holding only the next of them; `r` is the module that `p` reaches.
/// Where `p` already reached a module, nothing changes.
pub open spec fn module_created(old: TypeSystem, md: usize, p: Seq<Ident>, new: TypeSystem, r: usize) -> bool {
    &&& new.wf()
    &&& old.extends_to(&new)
    &&& new.types@ == old.types@
    &&& new.descend(md, p) == Some(r)
    &&& r < new.modules@.len()
    &&& (old.descend(md, p) is Some ==> new == old && old.descend(md, p) == Some(r))
    &&& (old.descend(md, p) is None ==> r >= old.modules@.len())
    &&& new.modules@.len() == old.modules@.len() + p.len() - known_prefix(old, md, p)
    &&& forall|i: int|
        known_prefix(old, md, p) < i <= p.len() ==> #[trigger] new.descend(md, p.take(i)) == Some(
            (old.modules@.len() + i - known_prefix(old, md, p) - 1) as usize,
        )
    &&& forall|i: int|
        known_prefix(old, md, p) < i <= p.len() ==> (#[trigger] new.modules@[old.modules@.len() + i - known_prefix(old, md, p)
            - 1]).modules.entries@ == if i < p.len() {
            seq![(p[i].name, (old.modules@.len() + i - known_prefix(old, md, p)) as usize)]
        } else {
            Seq::<(u64, usize)>::empty()
        }
    &&& forall|m: int| 0 <= m < old.modules@.len() ==> (#[trigger] new.modules@[m]).types == old.modules@[m].types
    &&& (old.tree_linked() ==> new.tree_linked() && names(new.modules@[r as int].path@) == names(
        new.modules@[md as int].path@,
    ) + names(p))
    &&& forall|m: int|
        old.modules@.len() <= m < new.modules@.len() ==> (#[trigger] new.modules@[m]).unpopulated() && new.placed(m)
}

/// What `access_or_create_type(md, p)` leaves: `r` is the slot that `p`
/// names in the module that its prefix reaches, created empty if missing.
/// Where that slot already existed, nothing changes.
pub open spec fn type_created(old: TypeSystem, md: usize, p: Seq<Ident>, new: TypeSystem, r: usize) -> bool {
    &&& new.wf()
    &&& old.extends_to(&new)
    &&& new.type_at(md, p) == Some(r)
    &&& r < new.types@.len()
    &&& (old.type_at(md, p) is Some ==> new == old && old.type_at(md, p) == Some(r))
    &&& (old.type_at(md, p) is None ==> r == old.types@.len() && new.types@.len() == old.types@.len() + 1
        && new.types@[r as int].definition is None)
    &&& new.types@.len() <= old.types@.len() + 1
}

pub proof fn lemma_extends_trans(a: TypeSystem, b: TypeSystem, c: TypeSystem)
    requires
        a.extends_to(&b),
        b.extends_to(&c),
    ensures
        a.extends_to(&c),
{
    lemma_grows_trans(a, b, c);
}

pub proof fn lemma_grows_trans(a: TypeSystem, b: TypeSystem, c: TypeSystem)
    requires
        a.grows_to(&b),
        b.grows_to(&c),
    ensures
        a.grows_to(&c),
{
    assert forall|m: int| 0 <= m < a.modules@.len() implies #[trigger] a.modules@[m].grows_to(&c.modules@[m]) by {
        let (x, y, z) = (a.modules@[m], b.modules@[m], c.modules@[m]);
        assert(x.grows_to(&y) && y.grows_to(&z));
        assert forall|k: u64| #[trigger] x.types.get(k) is Some implies z.types.get(k) == x.types.get(k) by {
            assert(y.types.get(k) is Some);
        }
        assert forall|k: u64| #[trigger] x.modules.get(k) is Some implies z.modules.get(k) == x.modules.get(k) by {
            assert(y.modules.get(k) is Some);
        }
    }
    assert forall|t: int| 0 <= t < a.types@.len() implies {
        &&& (#[trigger] c.types@[t]).loc == a.types@[t].loc
        &&& (a.types@[t].definition is Some ==> c.types@[t].definition == a.types@[t].definition)
    } by {
        assert(b.types@[t].loc == a.types@[t].loc);
    }
}

/// The slots of `a` stay valid in `b`, and keep the names recorded in
/// them, where `b` holds them unchanged and has no fewer modules or slots.
pub proof fn lemma_slots_carry(a: TypeSystem, b: TypeSystem)
    requires
        a.wf(),
        a.modules@.len() <= b.modules@.len(),
        a.types@.len() <= b.types@.len(),
        forall|t: int| 0 <= t < a.types@.len() ==> #[trigger] b.types@[t] == a.types@[t],
    ensures
        forall|t: int| 0 <= t < a.types@.len() ==> #[trigger] b.slot_wf(t),
        forall|t: usize, m: int, k: u64| #[trigger] a.slot_named(t, m, k) ==> b.slot_named(t, m, k),
{
    assert forall|t: int| 0 <= t < a.types@.len() implies #[trigger] b.slot_wf(t) by {
        assert(a.slot_wf(t));
        if let Some(info) = b.types@[t].definition {
            lemma_kind_bounded_mono(info.kind, a.types@.len() as nat, b.types@.len() as nat);
        }
    }
    assert forall|t: usize, m: int, k: u64| #[trigger] a.slot_named(t, m, k) implies b.slot_named(t, m, k) by {
        assert(b.types@[t as int] == a.types@[t as int]);
    }
}

/// Binding a new module `idx` under `seg` in module `cur`, with `cur`'s path
/// followed by `seg` and no submodules, keeps the tree linked.
proof fn lemma_link_child(s0: TypeSystem, s: TypeSystem, cur: usize, seg: Ident, idx: usize)
    requires
        s0.wf(),
        s0.tree_linked(),
        cur < s0.modules@.len(),
        idx == s0.modules@.len(),
        s.modules@.len() == idx + 1,
        forall|m: int| 0 <= m < s0.modules@.len() && m != cur ==> #[trigger] s.modules@[m] == s0.modules@[m],
        s.modules@[cur as int].path == s0.modules@[cur as int].path,
        s.modules@[cur as int].name == s0.modules@[cur as int].name,
        s.modules@[cur as int].modules.entries@ == s0.modules@[cur as int].modules.entries@.push((seg.name, idx)),
        s.modules@[idx as int].modules.entries@.len() == 0,
        s.modules@[idx as int].name == Some(seg),
        s.modules@[idx as int].path@ == s0.modules@[cur as int].path@.push(seg),
    ensures
        s.tree_linked(),
{
    assert forall|m2: int| 0 <= m2 < s.modules@.len() implies #[trigger] s.children_linked(m2) by {
        if m2 < s0.modules@.len() {
            assert(s0.children_linked(m2));
            assert(s0.module_wf(m2));
            let es = s0.modules@[m2].modules.entries@;
            let en = s.modules@[m2].modules.entries@;
            assert forall|k: int| 0 <= k < en.len() implies {
                let (kk, c) = #[trigger] en[k];
                &&& s.modules@[c as int].name matches Some(x)
                &&& x.name == kk
                &&& s.modules@[c as int].path@ == s.modules@[m2].path@.push(x)
            } by {
                if k < es.len() {
                    assert(en[k] == es[k]);
                    let c = es[k].1;
                    assert(c < s0.modules@.len());
                    if c != cur {
                        assert(s.modules@[c as int] == s0.modules@[c as int]);
                    }
                    if m2 != cur {
                        assert(s.modules@[m2] == s0.modules@[m2]);
                    }
                } else {
                    assert(m2 == cur);
                    assert(en[k] == (seg.name, idx));
                }
            }
        }
    }
}

impl TypeSystem {
    /// Every submodule bound in module `m` is named by its key and has `m`'s
    /// path followed by that name.
    pub open spec fn children_linked(&self, m: int) -> bool {
        forall|i: int|
            0 <= i < self.modules@[m].modules.entries@.len() ==> {
                let (k, c) = #[trigger] self.modules@[m].modules.entries@[i];
                &&& self.modules@[c as int].name matches Some(x)
                &&& x.name == k
                &&& self.modules@[c as int].path@ == self.modules@[m].path@.push(x)
            }
    }

    /// Every module's path names the way to it through the module tree.
    pub open spec fn tree_linked(&self) -> bool {
        forall|m: int| 0 <= m < self.modules@.len() ==> #[trigger] self.children_linked(m)
    }

    /// Module `m` is named, bound under its name in an older module `q`,
    /// and its path is `q`'s path followed by its name.
    pub open spec fn placed(&self, m: int) -> bool {
        &&& self.modules@[m].name is Some
        &&& exists|q: int|
            0 <= q < m && #[trigger] self.modules@[q].modules.get(self.modules@[m].name->0.name) == Some(m as usize)
                && self.modules@[m].path@ == self.modules@[q].path@.push(self.modules@[m].name->0)
    }

    pub open spec fn slot_named(&self, t: usize, m: int, k: u64) -> bool {
        &&& t < self.types@.len()
        &&& self.types@[t as int].loc matches Some(l)
        &&& l.home == m
        &&& l.name.name == k
    }

    pub open spec fn module_wf(&self, m: int) -> bool {
        let md = self.modules@[m];
        &&& seq_bounded(md.types.entries@, self.types@.len())
        &&& seq_unique(md.types.entries@)
        &&& seq_bounded(md.modules.entries@, self.modules@.len())
        &&& seq_bounded(md.imports.entries@, self.modules@.len())
        &&& (md.previous matches Some(p) ==> p < m)
        &&& forall|i: int|
            0 <= i < md.types.entries@.len() ==> self.slot_named(
                #[trigger] md.types.entries@[i].1,
                m,
                md.types.entries@[i].0,
            )
    }

    pub open spec fn slot_wf(&self, t: int) -> bool {
        let s = self.types@[t];
        &&& (s.loc matches Some(l) ==> l.home < self.modules@.len())
        &&& (s.definition matches Some(info) ==> kind_bounded(info.kind, self.types@.len()))
    }

    /// Every handle points into the arena, the root exists, each named type
    /// is recorded under its own name and module, and parent links point to
    /// older modules.
    pub open spec fn wf(&self) -> bool {
        &&& self.modules@.len() > 0
        &&& forall|m: int| 0 <= m < self.modules@.len() ==> #[trigger] self.module_wf(m)
        &&& forall|t: int| 0 <= t < self.types@.len() ==> #[trigger] self.slot_wf(t)
    }

    /// `o` is `self` after growth: modules and slots were only added, tables
    /// only gained entries, and a slot's definition, once set, stays.
    pub open spec fn grows_to(&self, o: &TypeSystem) -> bool {
        &&& self.modules@.len() <= o.modules@.len()
        &&& self.types@.len() <= o.types@.len()
        &&& forall|m: int| 0 <= m < self.modules@.len() ==> #[trigger] self.modules@[m].grows_to(&o.modules@[m])
        &&& forall|t: int|
            0 <= t < self.types@.len() ==> {
                &&& (#[trigger] o.types@[t]).loc == self.types@[t].loc
                &&& (self.types@[t].definition is Some ==> o.types@[t].definition == self.types@[t].definition)
            }
    }

    /// As `grows_to`, and no import table changed.
    pub open spec fn extends_to(&self, o: &TypeSystem) -> bool {
        &&& self.grows_to(o)
        &&& forall|m: int| 0 <= m < self.modules@.len() ==> (#[trigger] o.modules@[m]).imports == self.modules@[m].imports
    }

    /// The module reached from `md` by following the submodule tables along `p`.
    pub open spec fn descend(&self, md: usize, p: Seq<Ident>) -> Option<usize>
        decreases p.len(),
    {
        if p.len() == 0 {
            Some(md)
        } else {
            match self.descend(md, p.drop_last()) {
                Some(x) => self.modules@[x as int].modules.get(p.last().name),
                None => None,
            }
        }
    }

    /// The slot named by `p` relative to `md`, in the module's own table.
    pub open spec fn type_at(&self, md: usize, p: Seq<Ident>) -> Option<usize> {
        if p.len() == 0 {
            None
        } else {
            match self.descend(md, p.drop_last()) {
                Some(m) => self.modules@[m as int].types.get(p.last().name),
                None => None,
            }
        }
    }

    /// The slot that `p` names from `md` once imports are taken into account:
    /// a name imported into the module reached by the prefix is looked up in
    /// the module it was imported from.
    pub open spec fn scoped_type(&self, md: usize, p: Seq<Ident>) -> Option<Origin<usize>> {
        if p.len() == 0 {
            None
        } else {
            match self.descend(md, p.drop_last()) {
                Some(m) => match self.modules@[m as int].imports.get(p.last().name) {
                    Some(im) => match self.modules@[im as int].types.get(p.last().name) {
                        Some(t) => Some(Origin::Import(t)),
                        None => None,
                    },
                    None => match self.modules@[m as int].types.get(p.last().name) {
                        Some(t) => Some(Origin::Local(t)),
                        None => None,
                    },
                },
                None => None,
            }
        }
    }

    /// The module reached from `md` by parent links.
    pub open spec fn root_of(&self, md: usize) -> usize
        decreases md,
    {
        match self.modules@[md as int].previous {
            Some(p) => if p < md {
                self.root_of(p)
            } else {
                md
            },
            None => md,
        }
    }

    pub proof fn lemma_descend_bounded(&self, md: usize, p: Seq<Ident>)
        requires
            self.wf(),
            md < self.modules@.len(),
        ensures
            self.descend(md, p) matches Some(x) ==> x < self.modules@.len(),
        decreases p.len(),
    {
        if p.len() > 0 {
            self.lemma_descend_bounded(md, p.drop_last());
            if let Some(x) = self.descend(md, p.drop_last()) {
                assert(self.module_wf(x as int));
                lemma_seq_get_bounded(self.modules@[x as int].modules.entries@, p.last().name, self.modules@.len());
            }
        }
    }

    pub proof fn lemma_descend_grows(&self, o: &TypeSystem, md: usize, p: Seq<Ident>)
        requires
            self.wf(),
            self.grows_to(o),
            md < self.modules@.len(),
            self.descend(md, p) is Some,
        ensures
            o.descend(md, p) == self.descend(md, p),
        decreases p.len(),
    {
        if p.len() > 0 {
            self.lemma_descend_grows(o, md, p.drop_last());
            self.lemma_descend_bounded(md, p.drop_last());
            let x = self.descend(md, p.drop_last())->0;
            assert(self.modules@[x as int].grows_to(&o.modules@[x as int]));
            assert(self.modules@[x as int].modules.get(p.last().name) is Some);
        }
    }

    pub proof fn lemma_root_grows(&self, o: &TypeSystem, md: usize)
        requires
            self.grows_to(o),
            md < self.modules@.len(),
        ensures
            o.root_of(md) == self.root_of(md),
        decreases md,
    {
        assert(self.modules@[md as int].grows_to(&o.modules@[md as int]));
        if let Some(p) = self.modules@[md as int].previous {
            if p < md {
                self.lemma_root_grows(o, p);
            }
        }
    }

    pub proof fn lemma_root_bounded(&self, md: usize)
        requires
            self.wf(),
            md < self.modules@.len(),
        ensures
            self.root_of(md) < self.modules@.len(),
        decreases md,
    {
        if let Some(p) = self.modules@[md as int].previous {
            if p < md {
                self.lemma_root_bounded(p);
            }
        }
    }

    pub proof fn lemma_scoped_grows(&self, o: &TypeSystem, md: usize, p: Seq<Ident>)
        requires
            self.wf(),
            self.extends_to(o),
            md < self.modules@.len(),
            self.scoped_type(md, p) is Some,
        ensures
            o.scoped_type(md, p) == self.scoped_type(md, p),
    {
        self.lemma_descend_grows(o, md, p.drop_last());
        self.lemma_descend_bounded(md, p.drop_last());
        let m = self.descend(md, p.drop_last())->0;
        let k = p.last().name;
        assert(self.module_wf(m as int));
        assert(self.modules@[m as int].grows_to(&o.modules@[m as int]));
        assert(o.modules@[m as int].imports == self.modules@[m as int].imports);
        if let Some(im) = self.modules@[m as int].imports.get(k) {
            lemma_seq_get_bounded(self.modules@[m as int].imports.entries@, k, self.modules@.len());
            assert(self.modules@[im as int].grows_to(&o.modules@[im as int]));
            assert(self.modules@[im as int].types.get(k) is Some);
        } else {
            assert(self.modules@[m as int].types.get(k) is Some);
        }
    }

    /// An arena holding only the root module.
    pub fn new() -> (r: TypeSystem)
        ensures
            r.wf(),
            r.modules@.len() == 1,
            r.types@.len() == 0,
            r.modules@[0].fresh(),
            r.modules@[0].name is None,
            r.tree_linked(),
    {
        let mut modules: Vec<Module> = Vec::new();
        modules.push(Module::new_root());
        let r = TypeSystem { modules, types: Vec::new() };
        assert(r.module_wf(0));
        assert(r.children_linked(0));
        r
    }

    pub fn previous(&self, md: usize) -> (r: Option<usize>)
        requires
            md < self.modules@.len(),
        ensures
            r == self.modules@[md as int].previous,
    {
        self.modules[md].previous
    }

    /// The module at the top of `md`'s chain of parents.
    pub fn root(&self, md: usize) -> (r: usize)
        requires
            self.wf(),
            md < self.modules@.len(),
        ensures
            r == self.root_of(md),
            r < self.modules@.len(),
        decreases md,
    {
        assert(self.module_wf(md as int));
        match self.modules[md].previous {
            Some(p) => if p < md {
                self.root(p)
            } else {
                md
            },
            None => md,
        }
    }

    /// Follows `path[..n]` from `md`, creating each missing module on the way.
    #[verifier::rlimit(60)]
    pub(crate) fn create_prefix(&mut self, md: usize, path: &Vec<Ident>, n: usize) -> (r: usize)
        requires
            old(self).wf(),
            md < old(self).modules@.len(),
            n <= path@.len(),
        ensures
            module_created(*old(self), md, path@.take(n as int), *final(self), r),
    {
        let ghost p = path@.take(n as int);
        let mut cur = md;
        let mut i: usize = 0;
        let ghost unchanged = true;
        let ghost e: int = 0;
        assert(path@.take(0).len() == 0);
        assert(names(path@.take(0)) =~= Seq::<u64>::empty());
        assert(names(self.modules@[md as int].path@) + names(path@.take(0)) =~= names(self.modules@[md as int].path@));
        while i < n
            invariant
                self.wf(),
                old(self).extends_to(self),
                self.types@ == old(self).types@,
                md < old(self).modules@.len(),
                i <= n,
                n <= path@.len(),
                cur < self.modules@.len(),
                self.descend(md, path@.take(i as int)) == Some(cur),
                unchanged ==> *self == *old(self) && old(self).descend(md, path@.take(i as int)) == Some(cur),
                !unchanged ==> old(self).descend(md, path@.take(i as int)) is None,
                !unchanged ==> cur >= old(self).modules@.len() && self.modules@[cur as int].modules.entries@.len() == 0,
                old(self).tree_linked() ==> self.tree_linked() && names(self.modules@[cur as int].path@) == names(
                    self.modules@[md as int].path@,
                ) + names(path@.take(i as int)),
                0 <= e <= i,
                unchanged <==> e == i,
                known_prefix(*old(self), md, path@.take(i as int)) == e,
                self.modules@.len() == old(self).modules@.len() + i - e,
                forall|j: int|
                    e < j <= i ==> #[trigger] self.descend(md, path@.take(j)) == Some((old(self).modules@.len() + j - e - 1) as usize),
                forall|j: int|
                    e < j <= i ==> (#[trigger] self.modules@[old(self).modules@.len() + j - e - 1]).modules.entries@ == if j < i {
                        seq![(path@[j].name, (old(self).modules@.len() + j - e) as usize)]
                    } else {
                        Seq::<(u64, usize)>::empty()
                    },
                forall|m: int| 0 <= m < old(self).modules@.len() ==> (#[trigger] self.modules@[m]).types == old(self).modules@[m].types,
                forall|m: int|
                    old(self).modules@.len() <= m < self.modules@.len() ==> (#[trigger] self.modules@[m]).unpopulated() && self.placed(m),
            decreases n - i,
        {
            let seg = path[i];
            let ghost q = path@.take(i + 1);
            assert(q.drop_last() =~= path@.take(i as int));
            assert(q.last() == seg);
            assert(names(q) =~= names(path@.take(i as int)).push(seg.name));
            match self.modules[cur].modules.lookup(seg.name) {
                Some(c) => {
                    proof {
                        assert(self.module_wf(cur as int));
                        lemma_seq_get_bounded(self.modules@[cur as int].modules.entries@, seg.name, self.modules@.len());
                        if old(self).tree_linked() {
                            crate::table::lemma_seq_get_found(self.modules@[cur as int].modules.entries@, seg.name);
                            assert(self.children_linked(cur as int));
                            let x = self.modules@[c as int].name->0;
                            assert(names(self.modules@[cur as int].path@.push(x)) =~= names(self.modules@[cur as int].path@).push(
                                x.name,
                            ));
                            assert(names(self.modules@[md as int].path@) + names(q) =~= (names(self.modules@[md as int].path@)
                                + names(path@.take(i as int))).push(seg.name));
                        }
                    }
                    cur = c;
                    proof {
                        e = e + 1;
                        assert(old(self).descend(md, q) is Some);
                    }
                },
                None => {
                    let ghost s0 = *self;
                    let p2 = join(&self.modules[cur].path, seg);
                    let m = Module::new(p2, None);
                    let idx = self.modules.len();
                    self.modules.push(m);
                    self.modules[cur].modules.insert(seg.name, idx);
                    proof {
                        lemma_get_push(s0.modules@[cur as int].modules.entries@, (seg.name, idx), seg.name);
                        assert forall|k: u64| #[trigger] s0.modules@[cur as int].modules.get(k) is Some implies
                            self.modules@[cur as int].modules.get(k) == s0.modules@[cur as int].modules.get(k) by {
                            lemma_get_push(s0.modules@[cur as int].modules.entries@, (seg.name, idx), k);
                        }
                        assert forall|m2: int| 0 <= m2 < s0.modules@.len() implies #[trigger] s0.modules@[m2].grows_to(
                            &self.modules@[m2]) by {
                            if m2 != cur {
                                assert(self.modules@[m2] == s0.modules@[m2]);
                            }
                        }
                        assert(s0.grows_to(self));
                        assert forall|m2: int| 0 <= m2 < self.modules@.len() implies #[trigger] self.module_wf(m2) by {
                            if m2 < s0.modules@.len() {
                                assert(s0.module_wf(m2));
                                if m2 == cur {
                                    let e = self.modules@[m2].modules.entries@;
                                    assert forall|j: int| 0 <= j < e.len() implies #[trigger] e[j].1 < self.modules@.len() by {
                                        if j < e.len() - 1 {
                                            assert(e[j] == s0.modules@[m2].modules.entries@[j]);
                                        }
                                    }
                                }
                            }
                        }
                        lemma_slots_carry(s0, *self);
                        assert(self.wf());
                        s0.lemma_descend_grows(self, md, path@.take(i as int));
                        assert(old(self).descend(md, q) is None);
                        assert(known_prefix(*old(self), md, q) == known_prefix(*old(self), md, path@.take(i as int)));
                        if old(self).tree_linked() {
                            assert forall|m2: int| 0 <= m2 < s0.modules@.len() && m2 != cur implies #[trigger] self.modules@[m2]
                                == s0.modules@[m2] by {}
                            lemma_link_child(s0, *self, cur, seg, idx);
                            assert(names(self.modules@[cur as int].path@.push(seg)) =~= names(self.modules@[cur as int].path@).push(
                                seg.name,
                            ));
                            assert(names(self.modules@[md as int].path@) + names(q) =~= (names(self.modules@[md as int].path@)
                                + names(path@.take(i as int))).push(seg.name));
                        }
                        assert forall|j: int| e < j <= i + 1 implies #[trigger] self.descend(md, path@.take(j)) == Some(
                            (old(self).modules@.len() + j - e - 1) as usize,
                        ) by {
                            if j <= i {
                                s0.lemma_descend_grows(self, md, path@.take(j));
                            }
                        }
                        assert forall|j: int| e < j <= i + 1 implies (#[trigger] self.modules@[old(self).modules@.len() + j - e - 1]).modules.entries@
                            == if j < i + 1 {
                            seq![(path@[j].name, (old(self).modules@.len() + j - e) as usize)]
                        } else {
                            Seq::<(u64, usize)>::empty()
                        } by {
                            let x = old(self).modules@.len() + j - e - 1;
                            if j < i {
                                assert(x != cur);
                                assert(self.modules@[x] == s0.modules@[x]);
                            } else if j == i {
                                assert(x == cur);
                                assert(s0.modules@[x].modules.entries@ == Seq::<(u64, usize)>::empty());
                                assert(self.modules@[x].modules.entries@ =~= seq![(seg.name, idx)]);
                            }
                        }
                        assert forall|m2: int| old(self).modules@.len() <= m2 < self.modules@.len() implies (#[trigger] self.modules@[m2]).unpopulated() && self.placed(m2) by {
                            if m2 == idx {
                                assert(self.modules@[cur as int].modules.get(seg.name) == Some(idx));
                                assert(self.modules@[m2].path@ == self.modules@[cur as int].path@.push(seg));
                            } else {
                                assert(s0.placed(m2));
                                let q = choose|q: int|
                                    0 <= q < m2 && #[trigger] s0.modules@[q].modules.get(s0.modules@[m2].name->0.name) == Some(m2 as usize)
                                        && s0.modules@[m2].path@ == s0.modules@[q].path@.push(s0.modules@[m2].name->0);
                                assert(s0.modules@[q].grows_to(&self.modules@[q]));
                                assert(self.modules@[q].modules.get(self.modules@[m2].name->0.name) == Some(m2 as usize));
                            }
                        }
                        unchanged = false;
                    }
                    cur = idx;
                },
            }
            i = i + 1;
        }
        proof {
            assert(path@.take(i as int) == p);
            assert forall|j: int| e < j <= p.len() implies #[trigger] self.descend(md, p.take(j)) == Some(
                (old(self).modules@.len() + j - e - 1) as usize,
            ) by {
                assert(p.take(j) =~= path@.take(j));
            }
            assert forall|j: int| e < j <= p.len() implies (#[trigger] self.modules@[old(self).modules@.len() + j - e - 1]).modules.entries@
                == if j < p.len() {
                seq![(p[j].name, (old(self).modules@.len() + j - e) as usize)]
            } else {
                Seq::<(u64, usize)>::empty()
            } by {
                if j < p.len() {
                    assert(p[j] == path@[j]);
                }
            }
        }
        cur
    }

    /// The module that `path` names relative to `md`, created (with every
    /// missing module on the way) if needed. An empty path names `md`.
    pub fn access_or_create_module(&mut self, md: usize, path: &Vec<Ident>) -> (r: usize)
        requires
            old(self).wf(),
            md < old(self).modules@.len(),
        ensures
            module_created(*old(self), md, path@, *final(self), r),
    {
        assert(path@.take(path@.len() as int) =~= path@);
        self.create_prefix(md, path, path.len())
    }

    /// The slot named `name` in module `m`, created empty if missing.
    fn type_in(&mut self, m: usize, name: Ident) -> (r: usize)
        requires
            old(self).wf(),
            m < old(self).modules@.len(),
        ensures
            final(self).wf(),
            old(self).extends_to(final(self)),
            final(self).modules@.len() == old(self).modules@.len(),
            final(self).modules@[m as int].types.get(name.name) == Some(r),
            r < final(self).types@.len(),
            old(self).modules@[m as int].types.get(name.name) is Some ==> *final(self) == *old(self)
                && old(self).modules@[m as int].types.get(name.name) == Some(r),
            old(self).modules@[m as int].types.get(name.name) is None ==> r == old(self).types@.len()
                && final(self).types@.len() == old(self).types@.len() + 1
                && final(self).types@[r as int].definition is None
                && final(self).types@[r as int].loc == Some(Location { name, home: m }),
            final(self).types@.len() <= old(self).types@.len() + 1,
            forall|t: int| 0 <= t < old(self).types@.len() ==> #[trigger] final(self).types@[t] == old(self).types@[t],
            forall|m2: int| 0 <= m2 < old(self).modules@.len() && m2 != m ==> #[trigger] final(self).modules@[m2] == old(self).modules@[m2],
    {
        match self.modules[m].types.lookup(name.name) {
            Some(t) => {
                proof {
                    assert(self.module_wf(m as int));
                    lemma_seq_get_bounded(self.modules@[m as int].types.entries@, name.name, self.types@.len());
                }
                t
            },
            None => {
                let ghost s0 = *self;
                let idx = self.types.len();
                self.types.push(TypeRef { loc: Some(Location { name, home: m }), definition: None });
                self.modules[m].types.insert(name.name, idx);
                proof {
                    let e0 = s0.modules@[m as int].types.entries@;
                    lemma_get_push(e0, (name.name, idx), name.name);
                    assert forall|k: u64| #[trigger] s0.modules@[m as int].types.get(k) is Some implies
                        self.modules@[m as int].types.get(k) == s0.modules@[m as int].types.get(k) by {
                        lemma_get_push(e0, (name.name, idx), k);
                    }
                    assert forall|m2: int| 0 <= m2 < s0.modules@.len() implies #[trigger] s0.modules@[m2].grows_to(
                        &self.modules@[m2]) by {
                        if m2 != m {
                            assert(self.modules@[m2] == s0.modules@[m2]);
                        }
                    }
                    assert forall|t: int| 0 <= t < s0.types@.len() implies #[trigger] self.types@[t] == s0.types@[t] by {}
                    assert(s0.grows_to(self));
                    lemma_slots_carry(s0, *self);
                    assert forall|m2: int| 0 <= m2 < self.modules@.len() implies #[trigger] self.module_wf(m2) by {
                        assert(s0.module_wf(m2));
                        let e = self.modules@[m2].types.entries@;
                        let es = s0.modules@[m2].types.entries@;
                        if m2 == m {
                            assert forall|j: int| 0 <= j < e.len() implies #[trigger] e[j].1 < self.types@.len() by {
                                if j < e.len() - 1 {
                                    assert(e[j] == es[j]);
                                }
                            }
                            assert forall|a: int, b: int| 0 <= a < b < e.len() implies #[trigger] e[a].0 != #[trigger] e[b].0 by {
                                if b == e.len() - 1 {
                                    crate::table::lemma_seq_get_absent(es, name.name, a);
                                    assert(e[a] == es[a]);
                                } else {
                                    assert(e[a] == es[a] && e[b] == es[b]);
                                }
                            }
                            assert forall|j: int| 0 <= j < e.len() implies self.slot_named(#[trigger] e[j].1, m2, e[j].0) by {
                                if j < e.len() - 1 {
                                    assert(e[j] == es[j]);
                                }
                            }
                        } else {
                            assert(self.modules@[m2] == s0.modules@[m2]);
                        }
                    }
                    assert(self.slot_wf(idx as int));
                }
                idx
            },
        }
    }

    /// The slot that `path` names relative to `md`: its last segment names a
    /// type of the module that the rest reaches. Modules and the slot are
    /// created if missing.
    pub fn access_or_create_type(&mut self, md: usize, path: &Vec<Ident>) -> (r: usize)
        requires
            old(self).wf(),
            md < old(self).modules@.len(),
            path@.len() > 0,
        ensures
            type_created(*old(self), md, path@, *final(self), r),
    {
        let n = path.len() - 1;
        assert(path@.take(n as int) =~= path@.drop_last());
        let m = self.create_prefix(md, path, n);
        let ghost s1 = *self;
        let r = self.type_in(m, path[n]);
        proof {
            s1.lemma_descend_grows(self, md, path@.drop_last());
            lemma_extends_trans(*old(self), s1, *self);
            if old(self).descend(md, path@.drop_last()) is Some {
                assert(s1 == *old(self));
            } else {
                assert(s1.modules@[m as int].unpopulated());
            }
        }
        r
    }

    /// The slot that `path` names from `md`, looked up through an import where
    /// the module reached by the prefix imports the last name, and tagged
    /// with where it was found. Missing modules and the slot are created.
    pub fn access_or_create_scoped_type(&mut self, md: usize, path: &Vec<Ident>) -> (r: Origin<usize>)
        requires
            old(self).wf(),
            md < old(self).modules@.len(),
            path@.len() > 0,
        ensures
            final(self).wf(),
            old(self).extends_to(final(self)),
            final(self).scoped_type(md, path@) == Some(r),
            r.inner() < final(self).types@.len(),
            forall|t: int| 0 <= t < old(self).types@.len() ==> #[trigger] final(self).types@[t] == old(self).types@[t],
            forall|t: int|
                old(self).types@.len() <= t < final(self).types@.len() ==> (#[trigger] final(self).types@[t]).definition is None,
            old(self).scoped_type(md, path@) is Some ==> *final(self) == *old(self) && old(self).scoped_type(md, path@) == Some(r),
            final(self).types@.len() <= old(self).types@.len() + 1,
            path@.len() == 1 ==> final(self).modules@.len() == old(self).modules@.len() && forall|m: int|
                0 <= m < old(self).modules@.len() && m != (match old(self).modules@[md as int].imports.get(path@[0].name) {
                    Some(im) => im,
                    None => md,
                }) ==> #[trigger] final(self).modules@[m] == old(self).modules@[m],
            old(self).scoped_type(md, path@) is None ==> r.inner() == old(self).types@.len()
                && (final(self).types@[r.inner() as int].loc matches Some(l) && l.name == path@.last()),
    {
        let n = path.len() - 1;
        assert(path@.take(n as int) =~= path@.drop_last());
        let m = self.create_prefix(md, path, n);
        let name = path[n];
        let ghost s1 = *self;
        proof {
            assert(self.module_wf(m as int));
            if path@.len() == 1 {
                assert(path@.drop_last() =~= Seq::<Ident>::empty());
                assert(s1 == *old(self));
            }
        }
        match self.modules[m].imports.lookup(name.name) {
            Some(im) => {
                proof {
                    lemma_seq_get_bounded(self.modules@[m as int].imports.entries@, name.name, self.modules@.len());
                }
                let t = self.type_in(im, name);
                proof {
                    s1.lemma_descend_grows(self, md, path@.drop_last());
                    lemma_extends_trans(*old(self), s1, *self);
                    assert(s1.modules@[m as int].grows_to(&self.modules@[m as int]));
                    if old(self).scoped_type(md, path@) is Some {
                        assert(s1 == *old(self));
                    } else if old(self).descend(md, path@.drop_last()) is None {
                        assert(s1.modules@[m as int].unpopulated());
                    }
                }
                Origin::Import(t)
            },
            None => {
                let t = self.type_in(m, name);
                proof {
                    s1.lemma_descend_grows(self, md, path@.drop_last());
                    lemma_extends_trans(*old(self), s1, *self);
                    if old(self).scoped_type(md, path@) is Some {
                        assert(s1 == *old(self));
                    } else if old(self).descend(md, path@.drop_last()) is None {
                        assert(s1.modules@[m as int].unpopulated());
                    }
                }
                Origin::Local(t)
            },
        }
    }
}

} // verus!
