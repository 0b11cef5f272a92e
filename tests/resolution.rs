use ra_hir::defs::{Enum, EnumVariant, ImportId, Module, ModuleDef, Name};
use ra_hir::input::{CrateData, Db, Dependency, EnumData, ImportData, LoweredModule, Path, PathKind};
use ra_hir::module_tree::{ModuleData, ModuleTree};
use ra_hir::path_resolution::ReachedFixedPoint;
use ra_hir::per_ns::PerNs;
use ra_hir::resolver::ResolveError;
use ra_hir::scope::{ItemMap, Resolution};

fn name(s: &str) -> Name {
    Name::new(s)
}

fn path(kind: PathKind, segs: &[&str]) -> Path {
    Path { kind, segments: segs.iter().map(|s| name(s)).collect() }
}

fn use_path(kind: PathKind, segs: &[&str]) -> ImportData {
    ImportData { path: path(kind, segs), alias: None, is_glob: false, is_extern_crate: false }
}

fn use_glob(kind: PathKind, segs: &[&str]) -> ImportData {
    ImportData { path: path(kind, segs), alias: None, is_glob: true, is_extern_crate: false }
}

fn lowered(decls: Vec<(&str, PerNs<ModuleDef>)>, imports: Vec<ImportData>) -> LoweredModule {
    LoweredModule {
        declarations: decls.into_iter().map(|(n, d)| (name(n), d)).collect(),
        imports,
    }
}

/// A crate whose root (module 0) has the given children, each a leaf with
/// index 1, 2, ...; `modules[0]` is the root's own content.
fn flat_crate(children: &[&str], modules: Vec<LoweredModule>) -> CrateData {
    let mut tree = vec![ModuleData {
        parent: None,
        name: None,
        children: children.iter().enumerate().map(|(i, c)| (name(c), i + 1)).collect(),
    }];
    for c in children {
        tree.push(ModuleData { parent: Some(0), name: Some(name(c)), children: Vec::new() });
    }
    assert_eq!(tree.len(), modules.len());
    CrateData {
        module_tree: ModuleTree { modules: tree },
        lowered: modules,
        enums: Vec::new(),
        dependencies: Vec::new(),
    }
}

fn single_crate_db(krate: CrateData) -> Db {
    Db { crates: vec![krate], item_maps: vec![None] }
}

fn run(db: &Db, krate: usize) -> ItemMap {
    ItemMap::item_map_query(db, krate, &|| false).unwrap()
}

fn entry(map: &ItemMap, m: usize, n: &str) -> Option<Resolution> {
    map.index(m).get(&name(n)).copied()
}

fn strukt(i: usize) -> ModuleDef {
    ModuleDef::Struct(i)
}

fn module(krate: usize, module_id: usize) -> ModuleDef {
    ModuleDef::Module(Module { krate, module_id })
}

#[test]
fn use_of_declared_struct_is_types_only() {
    let krate = flat_crate(
        &["a", "b"],
        vec![
            lowered(vec![], vec![]),
            lowered(vec![("S", PerNs::types(strukt(7)))], vec![]),
            lowered(vec![], vec![use_path(PathKind::Crate, &["a", "S"])]),
        ],
    );
    let db = single_crate_db(krate);
    let map = run(&db, 0);
    let s = entry(&map, 2, "S").unwrap();
    assert_eq!(s.def, PerNs::types(strukt(7)));
    assert_eq!(s.import, Some(ImportId { index: 0 }));
}

#[test]
fn enum_glob_imports_every_variant() {
    let e = Enum { krate: 0, id: 0 };
    let mut krate = flat_crate(
        &["a", "b"],
        vec![
            lowered(vec![], vec![]),
            lowered(vec![("E", PerNs::types(ModuleDef::Enum(e)))], vec![]),
            lowered(vec![], vec![use_glob(PathKind::Crate, &["a", "E"])]),
        ],
    );
    krate.enums.push(EnumData { variants: vec![name("X"), name("Y")] });
    let db = single_crate_db(krate);
    let map = run(&db, 0);
    for (i, v) in ["X", "Y"].iter().enumerate() {
        let r = entry(&map, 2, v).unwrap();
        assert_eq!(
            r.def,
            PerNs::both(ModuleDef::EnumVariant(EnumVariant { parent: e, index: i }), ModuleDef::Enum(e))
        );
        assert_eq!(r.import, Some(ImportId { index: 0 }));
    }
}

#[test]
fn glob_import_sees_later_additions() {
    // `a` glob-imports `b`; `b` gets `Z` only by its own import of `c::Z`,
    // resolved after `a`'s glob was processed.
    let krate = flat_crate(
        &["a", "b", "c"],
        vec![
            lowered(vec![], vec![]),
            lowered(vec![], vec![use_glob(PathKind::Crate, &["b"])]),
            lowered(vec![], vec![use_path(PathKind::Crate, &["c", "Z"])]),
            lowered(vec![("Z", PerNs::types(strukt(3)))], vec![]),
        ],
    );
    let db = single_crate_db(krate);
    let map = run(&db, 0);
    let z = entry(&map, 1, "Z").unwrap();
    assert_eq!(z.def, PerNs::types(strukt(3)));
    assert_eq!(z.import, Some(ImportId { index: 0 }));
    assert_eq!(entry(&map, 2, "Z").unwrap().def, PerNs::types(strukt(3)));
}

#[test]
fn mutual_globs_without_items_converge_empty() {
    let krate = flat_crate(
        &["a", "b"],
        vec![
            lowered(vec![], vec![]),
            lowered(vec![], vec![use_glob(PathKind::Crate, &["b"])]),
            lowered(vec![], vec![use_glob(PathKind::Crate, &["a"])]),
        ],
    );
    let db = single_crate_db(krate);
    let map = run(&db, 0);
    for m in 1..3 {
        assert!(map.index(m).entries().iter().all(|(_, r)| r.def.is_none()));
    }
}

#[test]
fn unresolved_import_leaves_name_unbound() {
    let krate = flat_crate(&[], vec![lowered(vec![], vec![use_path(PathKind::Plain, &["bad", "Thing"])])]);
    let db = single_crate_db(krate);
    let map = run(&db, 0);
    let root = Module { krate: 0, module_id: 0 };
    assert!(map.resolve_name_in_module(root, &name("Thing")).is_none());
    assert!(entry(&map, 0, "Thing").map_or(true, |r| r.def.is_none()));
}

#[test]
fn declared_item_is_not_overwritten_by_import() {
    let krate = flat_crate(
        &["a"],
        vec![
            lowered(vec![("S", PerNs::types(strukt(1)))], vec![use_path(PathKind::Crate, &["a", "S"])]),
            lowered(vec![("S", PerNs::types(strukt(2)))], vec![]),
        ],
    );
    let db = single_crate_db(krate);
    let map = run(&db, 0);
    let s = entry(&map, 0, "S").unwrap();
    assert_eq!(s.def, PerNs::types(strukt(1)));
    assert_eq!(s.import, None);
}

#[test]
fn import_fills_only_the_empty_namespace() {
    // `S` is a value locally; the import brings the type of the same name.
    let krate = flat_crate(
        &["a"],
        vec![
            lowered(vec![], vec![use_path(PathKind::Crate, &["a", "S"])]),
            lowered(vec![("S", PerNs::both(strukt(4), ModuleDef::Function(9)))], vec![]),
        ],
    );
    let db = single_crate_db(krate);
    let map = run(&db, 0);
    let s = entry(&map, 0, "S").unwrap();
    assert_eq!(s.def, PerNs::both(strukt(4), ModuleDef::Function(9)));
    assert!(s.def.is_both());
}

#[test]
fn two_runs_give_identical_maps() {
    let build = || {
        flat_crate(
            &["a", "b", "c"],
            vec![
                lowered(vec![], vec![use_glob(PathKind::Crate, &["a"])]),
                lowered(vec![("T", PerNs::types(strukt(1)))], vec![use_glob(PathKind::Crate, &["b"])]),
                lowered(vec![("U", PerNs::values(ModuleDef::Const(2)))], vec![use_path(PathKind::Crate, &["c", "V"])]),
                lowered(vec![("V", PerNs::types(ModuleDef::Trait(3)))], vec![]),
            ],
        )
    };
    let db = single_crate_db(build());
    let first = run(&db, 0);
    let second = run(&db, 0);
    assert_eq!(first, second);
    assert_eq!(entry(&first, 0, "V").unwrap().def, PerNs::types(ModuleDef::Trait(3)));
    assert_eq!(entry(&first, 0, "U").unwrap().def, PerNs::values(ModuleDef::Const(2)));
}

#[test]
fn import_order_does_not_change_meanings() {
    let imports = |rev: bool| {
        let mut v = vec![
            use_path(PathKind::Crate, &["a", "P"]),
            use_path(PathKind::Crate, &["b", "Q"]),
            use_glob(PathKind::Crate, &["c"]),
        ];
        if rev {
            v.reverse();
        }
        v
    };
    let build = |rev: bool| {
        flat_crate(
            &["a", "b", "c"],
            vec![
                lowered(vec![], imports(rev)),
                lowered(vec![("P", PerNs::types(strukt(1)))], vec![]),
                lowered(vec![], vec![use_path(PathKind::Crate, &["a", "P"])]),
                lowered(vec![("R", PerNs::values(ModuleDef::Static(5)))], vec![use_path(PathKind::Super, &["b", "P"])]),
            ],
        )
    };
    let fwd = run(&single_crate_db(build(false)), 0);
    let bwd = run(&single_crate_db(build(true)), 0);
    for n in ["P", "R"] {
        let root = Module { krate: 0, module_id: 0 };
        assert_eq!(fwd.resolve_name_in_module(root, &name(n)), bwd.resolve_name_in_module(root, &name(n)));
        assert!(!fwd.resolve_name_in_module(root, &name(n)).is_none());
    }
    // `b::Q` does not exist: `b` only re-exports `P`
    let root = Module { krate: 0, module_id: 0 };
    assert!(fwd.resolve_name_in_module(root, &name("Q")).is_none());
}

#[test]
fn chain_of_reexports_converges() {
    // module i re-exports `T` from module i + 1; the last declares it.
    let n = 40;
    let children: Vec<String> = (1..=n).map(|i| format!("m{}", i)).collect();
    let child_refs: Vec<&str> = children.iter().map(|s| s.as_str()).collect();
    let mut modules = vec![lowered(vec![], vec![use_path(PathKind::Crate, &["m1", "T"])])];
    for i in 1..=n {
        if i < n {
            let next = format!("m{}", i + 1);
            modules.push(lowered(vec![], vec![use_path(PathKind::Crate, &[next.as_str(), "T"])]));
        } else {
            modules.push(lowered(vec![("T", PerNs::types(strukt(42)))], vec![]));
        }
    }
    let db = single_crate_db(flat_crate(&child_refs, modules));
    let map = run(&db, 0);
    for m in 0..n {
        assert_eq!(entry(&map, m, "T").unwrap().def, PerNs::types(strukt(42)));
    }
}

#[test]
fn deep_glob_propagation_hits_the_limit() {
    // m1 globs m2, ..., m102 globs m103; m103 gets `Z` from m104 by a
    // later import, and the change travels up more than 100 globs.
    let n = 104;
    let children: Vec<String> = (1..=n).map(|i| format!("m{}", i)).collect();
    let child_refs: Vec<&str> = children.iter().map(|s| s.as_str()).collect();
    let mut modules = vec![lowered(vec![], vec![])];
    for i in 1..=n {
        if i <= 102 {
            let next = format!("m{}", i + 1);
            modules.push(lowered(vec![], vec![use_glob(PathKind::Crate, &[next.as_str()])]));
        } else if i == 103 {
            modules.push(lowered(vec![], vec![use_path(PathKind::Crate, &["m104", "Z"])]));
        } else {
            modules.push(lowered(vec![("Z", PerNs::types(strukt(1)))], vec![]));
        }
    }
    let db = single_crate_db(flat_crate(&child_refs, modules));
    let r = ItemMap::item_map_query(&db, 0, &|| false);
    assert_eq!(r.err(), Some(ResolveError::LimitExceeded));
}

#[test]
fn cancellation_stops_the_run() {
    let krate = flat_crate(&["a"], vec![lowered(vec![], vec![]), lowered(vec![], vec![])]);
    let db = single_crate_db(krate);
    let r = ItemMap::item_map_query(&db, 0, &|| true);
    assert_eq!(r.err(), Some(ResolveError::Cancelled));
}

fn two_crate_db(user_root: LoweredModule, user_children: &[&str], user_modules: Vec<LoweredModule>) -> Db {
    // crate 0: root with child `m` declaring `T` and enum `E { A }`
    let e = Enum { krate: 0, id: 0 };
    let mut lib = flat_crate(
        &["m"],
        vec![
            lowered(vec![], vec![]),
            lowered(vec![("T", PerNs::types(strukt(10))), ("E", PerNs::types(ModuleDef::Enum(e)))], vec![]),
        ],
    );
    lib.enums.push(EnumData { variants: vec![name("A")] });
    let mut mods = vec![user_root];
    mods.extend(user_modules);
    let mut user = flat_crate(user_children, mods);
    user.dependencies.push(Dependency { name: name("dep"), krate: 0 });
    let mut db = Db { crates: vec![lib, user], item_maps: vec![None, None] };
    let lib_map = run(&db, 0);
    db.item_maps[0] = Some(lib_map);
    db
}

#[test]
fn dependency_is_in_the_extern_prelude() {
    let db = two_crate_db(lowered(vec![], vec![use_path(PathKind::Plain, &["dep", "m", "T"])]), &[], vec![]);
    let map = run(&db, 1);
    assert_eq!(map.prelude_get(&name("dep")), Some(module(0, 0)));
    assert_eq!(entry(&map, 0, "T").unwrap().def, PerNs::types(strukt(10)));
}

#[test]
fn glob_across_crates_copies_the_scope() {
    let db = two_crate_db(lowered(vec![], vec![use_glob(PathKind::Abs, &["dep", "m"])]), &[], vec![]);
    let map = run(&db, 1);
    assert_eq!(entry(&map, 0, "T").unwrap().def, PerNs::types(strukt(10)));
    assert_eq!(entry(&map, 0, "E").unwrap().import, Some(ImportId { index: 0 }));
}

#[test]
fn enum_variant_path_across_crates() {
    let db = two_crate_db(lowered(vec![], vec![use_path(PathKind::Plain, &["dep", "m", "E", "A"])]), &[], vec![]);
    let map = run(&db, 1);
    let e = Enum { krate: 0, id: 0 };
    assert_eq!(
        entry(&map, 0, "A").unwrap().def,
        PerNs::both(ModuleDef::EnumVariant(EnumVariant { parent: e, index: 0 }), ModuleDef::Enum(e))
    );
}

#[test]
fn local_name_shadows_extern_prelude() {
    let db = two_crate_db(lowered(vec![("dep", PerNs::types(strukt(77)))], vec![]), &[], vec![]);
    let map = run(&db, 1);
    let root = Module { krate: 1, module_id: 0 };
    assert_eq!(map.resolve_name_in_module(root, &name("dep")), PerNs::types(strukt(77)));
    let other = ItemMap { extern_prelude: map.extern_prelude.iter().map(|(n, d)| (n.duplicate(), *d)).collect(), per_module: vec![] };
    assert_eq!(other.prelude_get(&name("dep")), Some(module(0, 0)));
}

#[test]
fn prelude_fills_slot_left_empty_locally() {
    // a local value named `dep` leaves the type namespace to the prelude
    let db = two_crate_db(lowered(vec![("dep", PerNs::values(ModuleDef::Function(1)))], vec![]), &[], vec![]);
    let map = run(&db, 1);
    let root = Module { krate: 1, module_id: 0 };
    assert_eq!(map.resolve_name_in_module(root, &name("dep")), PerNs::both(module(0, 0), ModuleDef::Function(1)));
}

#[test]
fn extern_crate_in_root_extends_the_prelude() {
    let extern_crate = ImportData {
        path: path(PathKind::Plain, &["dep"]),
        alias: Some(name("other")),
        is_glob: false,
        is_extern_crate: true,
    };
    let db = two_crate_db(
        lowered(vec![], vec![extern_crate]),
        &["sub"],
        vec![lowered(vec![], vec![use_path(PathKind::Abs, &["other", "m", "T"])])],
    );
    let map = run(&db, 1);
    assert_eq!(map.prelude_get(&name("other")), Some(module(0, 0)));
    assert_eq!(entry(&map, 1, "T").unwrap().def, PerNs::types(strukt(10)));
}

#[test]
fn path_kinds_resolve_from_their_start() {
    let krate = flat_crate(
        &["a", "b"],
        vec![
            lowered(vec![("R", PerNs::types(strukt(1)))], vec![]),
            lowered(vec![("S", PerNs::values(ModuleDef::Function(2)))], vec![]),
            lowered(vec![], vec![]),
        ],
    );
    let db = single_crate_db(krate);
    let map = run(&db, 0);
    let b = Module { krate: 0, module_id: 2 };
    let root = Module { krate: 0, module_id: 0 };
    let fp = |p: Path, from: Module| map.resolve_path_fp(&db, from, &p);
    assert_eq!(fp(path(PathKind::Super, &["R"]), b), (PerNs::types(strukt(1)), ReachedFixedPoint::Yes));
    assert_eq!(fp(path(PathKind::Crate, &["a", "S"]), b), (PerNs::values(ModuleDef::Function(2)), ReachedFixedPoint::Yes));
    assert_eq!(fp(path(PathKind::Self_, &[]), b), (PerNs::types(module(0, 2)), ReachedFixedPoint::Yes));
    assert_eq!(fp(path(PathKind::Super, &["R"]), root), (PerNs::none(), ReachedFixedPoint::Yes));
    assert_eq!(fp(path(PathKind::Abs, &["nothing"]), root), (PerNs::none(), ReachedFixedPoint::No));
    assert_eq!(fp(path(PathKind::Plain, &["a", "missing"]), root), (PerNs::none(), ReachedFixedPoint::No));
    assert_eq!(fp(path(PathKind::Plain, &["R", "x"]), root), (PerNs::none(), ReachedFixedPoint::Yes));
    assert_eq!(fp(path(PathKind::Plain, &[]), root), (PerNs::none(), ReachedFixedPoint::Yes));
    assert_eq!(map.resolve_path(&db, root, &path(PathKind::Plain, &["a", "S"])), PerNs::values(ModuleDef::Function(2)));
}
