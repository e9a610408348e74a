use w_analyze::errors::{AnalyzerError, DefinitionKind, ErrKind, ErrorCollector, MultipleDefinitionsError, UnresolvedTypeError};
use w_analyze::graph::{TypeKind, TypeSystem};
use w_analyze::ident::{Ident, Span};
use w_analyze::origin::Origin;
use w_analyze::pass1::{define_type, resolve_imports, run_pass1};
use w_analyze::resolve::resolve_type;
use w_analyze::syntax::{
    ExprPath, Imports, Item, ItemImports, ItemNamed, ItemNamedType, ItemTy, NameTyPair, NamedKind,
    ParsedModule, TyFunc, TyNever, TyPtr, TyStruct, TyTuple,
};

const A: u64 = 1;
const B: u64 = 2;
const T: u64 = 3;
const Z: u64 = 4;
const PKG: u64 = 5;
const F: u64 = 6;
const C: u64 = 7;
const SUB: u64 = 8;

fn ident(name: u64, at: usize) -> Ident {
    Ident { name, span: Span { start: at, end: at + 1 } }
}

fn path(names: &[(u64, usize)]) -> ExprPath {
    ExprPath { root: None, path: names.iter().map(|&(n, at)| ident(n, at)).collect() }
}

fn referred(names: &[(u64, usize)]) -> ItemTy {
    ItemTy::Referred(path(names))
}

fn ptr(ty: ItemTy, at: usize) -> ItemTy {
    ItemTy::Pointer(TyPtr { span_ptr: Span { start: at, end: at + 1 }, ty: Box::new(ty) })
}

fn structure(fields: Vec<(u64, usize, ItemTy)>, at: usize) -> ItemTy {
    ItemTy::Struct(TyStruct {
        span_struct: Span { start: at, end: at + 6 },
        fields: fields.into_iter().map(|(n, a, ty)| NameTyPair { name: ident(n, a), ty }).collect(),
    })
}

fn tuple(types: Vec<ItemTy>, at: usize) -> ItemTy {
    ItemTy::Tuple(TyTuple { span: Span { start: at, end: at + 2 }, types })
}

fn never(at: usize) -> ItemTy {
    ItemTy::Never(TyNever(Span { start: at, end: at + 1 }))
}

fn def(name: u64, at: usize, ty: ItemTy) -> Item {
    Item::Definer(ItemNamed { name: ident(name, at), kind: NamedKind::Type(ItemNamedType { ty, terminated: None }) })
}

fn slot(ts: &TypeSystem, md: usize, name: u64) -> Option<usize> {
    ts.modules[md].types.lookup(name)
}

fn run(items: Vec<Item>) -> (TypeSystem, ErrorCollector) {
    let mut ts = TypeSystem::new();
    let mut errs = ErrorCollector::new();
    run_pass1(ParsedModule { items }, &mut ts, 0, &mut errs);
    (ts, errs)
}

fn named_kind(ts: &TypeSystem, t: usize) -> &TypeKind {
    match &ts.types[t].definition {
        Some(info) => match &info.kind {
            TypeKind::Named(k) => k,
            _ => panic!("not a named definition"),
        },
        None => panic!("undefined"),
    }
}

#[test]
fn forward_reference_resolves() {
    let (ts, errs) = run(vec![
        def(A, 0, structure(vec![(F, 10, referred(&[(B, 11)]))], 5)),
        def(B, 20, tuple(vec![], 25)),
    ]);
    assert!(errs.errors.is_empty());
    let a = slot(&ts, 0, A).unwrap();
    let b = slot(&ts, 0, B).unwrap();
    match named_kind(&ts, a) {
        TypeKind::Struct(s) => {
            assert_eq!(s.fields.len(), 1);
            assert_eq!(s.fields[0].0, ident(F, 10));
            assert_eq!(s.fields[0].1, b);
        }
        _ => panic!("A is not a struct"),
    }
    assert!(ts.types[b].definition.is_some());
}

#[test]
fn mutual_recursion_through_pointers() {
    for flip in [false, true] {
        let a = def(A, 0, structure(vec![(F, 1, ptr(referred(&[(B, 3)]), 2))], 0));
        let b = def(B, 10, structure(vec![(F, 11, ptr(referred(&[(A, 13)]), 12))], 10));
        let items = if flip { vec![b, a] } else { vec![a, b] };
        let (ts, errs) = run(items);
        assert!(errs.errors.is_empty());
        let sa = slot(&ts, 0, A).unwrap();
        let sb = slot(&ts, 0, B).unwrap();
        for (from, to) in [(sa, sb), (sb, sa)] {
            match named_kind(&ts, from) {
                TypeKind::Struct(s) => match &ts.types[s.fields[0].1].definition {
                    Some(info) => match &info.kind {
                        TypeKind::Ptr(p) => assert_eq!(p.ty, to),
                        _ => panic!("field is not a pointer"),
                    },
                    None => panic!("pointer slot undefined"),
                },
                _ => panic!("not a struct"),
            }
        }
    }
}

#[test]
fn duplicate_local_definition() {
    let (ts, errs) = run(vec![def(T, 0, tuple(vec![], 3)), def(T, 20, never(23))]);
    assert_eq!(
        errs.errors,
        vec![AnalyzerError::MultipleDefinitions(MultipleDefinitionsError {
            loc: ident(T, 20),
            first: ident(T, 0),
            kind: DefinitionKind::Type,
        })]
    );
    let t = slot(&ts, 0, T).unwrap();
    assert!(matches!(named_kind(&ts, t), TypeKind::Tuple(_)));
}

#[test]
fn import_definition_clash() {
    let import = Item::Import(ItemImports {
        from: path(&[(PKG, 0)]),
        imports: vec![Imports::Single(path(&[(T, 2)]))],
    });
    let (ts, errs) = run(vec![import, def(T, 10, never(13))]);
    assert_eq!(
        errs.errors,
        vec![AnalyzerError::MultipleDefinitions(MultipleDefinitionsError {
            loc: ident(T, 10),
            first: ident(T, 10),
            kind: DefinitionKind::Import,
        })]
    );
    let pkg = ts.modules[0].modules.lookup(PKG).unwrap();
    let target = slot(&ts, pkg, T).unwrap();
    assert_eq!(ts.types[target].loc.unwrap().home, pkg);
    assert!(ts.types[target].definition.is_none());
    assert_eq!(slot(&ts, 0, T), None);
}

#[test]
fn unresolved_reference_is_reported_once() {
    let (ts, errs) = run(vec![
        def(A, 0, structure(vec![(F, 1, referred(&[(Z, 2)])), (C, 3, referred(&[(Z, 4)]))], 0)),
    ]);
    assert_eq!(errs.errors, vec![AnalyzerError::UnresolvedType(UnresolvedTypeError(ident(Z, 2)))]);
    assert!(ts.types[slot(&ts, 0, Z).unwrap()].definition.is_none());
}

#[test]
fn sweep_runs_after_duplicate_errors() {
    let (_, errs) = run(vec![
        def(T, 0, referred(&[(Z, 1)])),
        def(T, 5, never(6)),
    ]);
    assert_eq!(errs.errors.len(), 2);
    assert!(matches!(errs.errors[0], AnalyzerError::MultipleDefinitions(_)));
    assert_eq!(errs.errors[1], AnalyzerError::UnresolvedType(UnresolvedTypeError(ident(Z, 1))));
}

#[test]
fn grouped_import_matches_separate_imports() {
    let mut grouped_ts = TypeSystem::new();
    let grouped = vec![Imports::Multiple(
        path(&[(PKG, 0)]),
        vec![Imports::Single(path(&[(A, 1)])), Imports::Single(path(&[(B, 2), (C, 3)]))],
    )];
    resolve_imports(&mut grouped_ts, &grouped, 0, 0);

    let mut separate_ts = TypeSystem::new();
    let separate = vec![
        Imports::Single(path(&[(PKG, 0), (A, 1)])),
        Imports::Single(path(&[(PKG, 0), (B, 2), (C, 3)])),
    ];
    resolve_imports(&mut separate_ts, &separate, 0, 0);

    assert_eq!(grouped_ts.modules[0].imports.entries, separate_ts.modules[0].imports.entries);
    let pkg = grouped_ts.modules[0].modules.lookup(PKG).unwrap();
    let b = grouped_ts.modules[pkg].modules.lookup(B).unwrap();
    assert_eq!(grouped_ts.modules[0].imports.lookup(A), Some(pkg));
    assert_eq!(grouped_ts.modules[0].imports.lookup(C), Some(b));
}

#[test]
fn identical_inline_tuples_get_distinct_slots() {
    let mut ts = TypeSystem::new();
    let sig = |at: usize| {
        ItemTy::Func(TyFunc {
            span_func: Span { start: at, end: at + 4 },
            args: vec![tuple(vec![referred(&[(A, at + 5)])], at + 5)],
            ret_ty: Box::new(never(at + 9)),
        })
    };
    let first = resolve_type(&mut ts, 0, sig(0));
    let second = resolve_type(&mut ts, 0, sig(0));
    assert_ne!(first, second);
    let arg = |t: usize| match &ts.types[t].definition.as_ref().unwrap().kind {
        TypeKind::Func(f) => f.args[0],
        _ => panic!("not a function"),
    };
    assert_ne!(arg(first), arg(second));
    assert_eq!(ts.types[arg(first)].loc, None);
}

#[test]
fn module_access_is_idempotent() {
    let mut ts = TypeSystem::new();
    let p = vec![ident(PKG, 0), ident(SUB, 1)];
    let m1 = ts.access_or_create_module(0, &p);
    let count = ts.modules.len();
    let m2 = ts.access_or_create_module(0, &p);
    assert_eq!(m1, m2);
    assert_eq!(ts.modules.len(), count);
    assert_eq!(count, 3);
    assert_eq!(ts.modules[m1].path, p);
    assert_eq!(ts.modules[m1].name, Some(ident(SUB, 1)));
    assert_eq!(ts.access_or_create_module(0, &vec![]), 0);
}

#[test]
fn type_access_is_idempotent() {
    let mut ts = TypeSystem::new();
    let p = vec![ident(PKG, 0), ident(T, 1)];
    let t1 = ts.access_or_create_type(0, &p);
    let t2 = ts.access_or_create_type(0, &vec![ident(PKG, 7), ident(T, 8)]);
    assert_eq!(t1, t2);
    assert_eq!(ts.types.len(), 1);
    let loc = ts.types[t1].loc.unwrap();
    assert_eq!(loc.name, ident(T, 1));
    assert_eq!(loc.home, ts.modules[0].modules.lookup(PKG).unwrap());
}

#[test]
fn reference_through_import_uses_target_module() {
    let import = Item::Import(ItemImports {
        from: path(&[(PKG, 0)]),
        imports: vec![Imports::Single(path(&[(T, 1)]))],
    });
    let (ts, errs) = run(vec![import, def(A, 5, referred(&[(T, 6)]))]);
    let pkg = ts.modules[0].modules.lookup(PKG).unwrap();
    let target = slot(&ts, pkg, T).unwrap();
    assert!(matches!(named_kind(&ts, slot(&ts, 0, A).unwrap()), TypeKind::Referred(t) if *t == target));
    assert!(errs.errors.is_empty());
}

#[test]
fn created_module_is_its_own_root() {
    // Created modules have no parent link, so a rooted path written in one
    // resolves from that module itself.
    let mut ts = TypeSystem::new();
    let sub = ts.access_or_create_module(0, &vec![ident(SUB, 0)]);
    assert_eq!(ts.root(sub), sub);
    assert_eq!(ts.root(0), 0);
    assert_eq!(ts.previous(sub), None);
    assert_eq!(ts.modules[sub].owner, None);
    let rooted = ItemTy::Referred(ExprPath { root: Some(Span { start: 0, end: 1 }), path: vec![ident(T, 2)] });
    let t = resolve_type(&mut ts, sub, rooted);
    assert_eq!(slot(&ts, sub, T), Some(t));
    assert_eq!(slot(&ts, 0, T), None);
}

#[test]
fn define_type_defines_once() {
    let mut ts = TypeSystem::new();
    let mut errs = ErrorCollector::new();
    define_type(&mut ts, 0, ident(A, 0), never(1), &mut errs);
    assert!(errs.errors.is_empty());
    let a = slot(&ts, 0, A).unwrap();
    assert!(matches!(named_kind(&ts, a), TypeKind::Never(n) if n.0 == Span { start: 1, end: 2 }));
}

#[test]
fn origin_unwraps_either_way() {
    let local: Origin<usize> = Origin::Local(3);
    let import: Origin<usize> = Origin::Import(4);
    assert_eq!(local.unwrap(), 3);
    assert_eq!(*import.unwrap_ref(), 4);
    assert_eq!(*local.unwrap_ref(), 3);
    assert_eq!(import.unwrap(), 4);
}

#[test]
fn diagnostics_report_kind_and_location() {
    let e = UnresolvedTypeError(ident(Z, 9));
    assert_eq!(e.kind(), ErrKind::Error);
    assert_eq!(e.location(), Span { start: 9, end: 10 });
    let m = AnalyzerError::MultipleDefinitions(MultipleDefinitionsError {
        loc: ident(T, 4),
        first: ident(T, 1),
        kind: DefinitionKind::Type,
    });
    assert_eq!(m.kind(), ErrKind::Error);
    assert_eq!(m.location(), Span { start: 4, end: 5 });
}

#[test]
fn reference_allocates_only_for_unknown_names() {
    let mut ts = TypeSystem::new();
    let first = resolve_type(&mut ts, 0, referred(&[(B, 0)]));
    assert_eq!(first, 0);
    assert_eq!(ts.types.len(), 1);
    assert!(ts.types[first].definition.is_none());
    let again = resolve_type(&mut ts, 0, referred(&[(B, 5)]));
    assert_eq!(again, first);
    assert_eq!(ts.types.len(), 1);
    assert_eq!(ts.types[first].loc.unwrap().name, ident(B, 0));
}

#[test]
fn created_modules_follow_the_path() {
    let mut ts = TypeSystem::new();
    let a = ts.access_or_create_module(0, &vec![ident(PKG, 0)]);
    let c = ts.access_or_create_module(0, &vec![ident(PKG, 3), ident(SUB, 4), ident(C, 5)]);
    assert_eq!(a, 1);
    assert_eq!(c, 3);
    let sub = ts.modules[a].modules.lookup(SUB).unwrap();
    assert_eq!(sub, 2);
    assert_eq!(ts.modules[sub].path, vec![ident(PKG, 0), ident(SUB, 4)]);
    assert_eq!(ts.modules[c].path, vec![ident(PKG, 0), ident(SUB, 4), ident(C, 5)]);
    assert_eq!(ts.modules[c].name, Some(ident(C, 5)));
    assert!(ts.modules[0].types.entries.is_empty());
}

#[test]
fn refused_definitions_add_nothing() {
    let mut ts = TypeSystem::new();
    let mut errs = ErrorCollector::new();
    define_type(&mut ts, 0, ident(T, 0), tuple(vec![], 1), &mut errs);
    let slots = ts.types.len();
    define_type(&mut ts, 0, ident(T, 5), tuple(vec![tuple(vec![], 7)], 6), &mut errs);
    assert_eq!(ts.types.len(), slots);
    assert_eq!(errs.errors.len(), 1);

    let mut ts = TypeSystem::new();
    let mut errs = ErrorCollector::new();
    let import = vec![Imports::Single(path(&[(PKG, 0), (T, 1)]))];
    resolve_imports(&mut ts, &import, 0, 0);
    let modules = ts.modules.len();
    define_type(&mut ts, 0, ident(T, 4), structure(vec![(F, 5, never(6))], 4), &mut errs);
    assert_eq!(ts.modules.len(), modules);
    assert_eq!(ts.types.len(), 1);
    assert!(ts.types[0].definition.is_none());
    assert!(ts.modules[0].types.entries.is_empty());
    assert!(matches!(errs.errors[0], AnalyzerError::MultipleDefinitions(MultipleDefinitionsError { kind: DefinitionKind::Import, .. })));
}
