use vstd::prelude::*;
use crate::defs::{Enum, EnumVariant, ImportId, Module, ModuleDef, Name};
use crate::input::{Db, Dependency, ImportData};
use crate::path_resolution::{spec_resolve_path, ReachedFixedPoint};
use crate::per_ns::PerNs;
use crate::scope::{
    insert, lookup, modules_view, scope_of, ItemMap, ItemMapModel, ModuleScope,
    Resolution,
};

verus! {

pub type Scope = Seq<(Seq<char>, Resolution)>;

pub type GlobIndex = Seq<Seq<(usize, ImportId)>>;

pub open spec fn batch_view(batch: Seq<(Name, Resolution)>) -> Scope {
    batch.map_values(|e: (Name, Resolution)| (e.0@, e.1))
}

pub open spec fn glob_view(globs: Seq<Vec<(usize, ImportId)>>) -> GlobIndex {
    globs.map_values(|v: Vec<(usize, ImportId)>| v@)
}

/// The entry that results from merging `res` into the current entry `cur`
/// of a name: each empty slot takes the incoming value, tagged with `import`
/// (or, failing that, the incoming entry's own import); occupied slots never
/// change. Also says whether a slot was filled.
pub open spec fn merged_value(cur: Option<Resolution>, res: Resolution, import: Option<ImportId>) -> (Resolution, bool) {
    let e = match cur {
        Some(r) => r,
        None => Resolution::empty(),
    };
    let imp = if import is Some {
        import
    } else {
        res.import
    };
    let fill_types = e.def.types is None && res.def.types is Some;
    let e1 = if fill_types {
        Resolution { def: PerNs { types: res.def.types, values: e.def.values }, import: imp }
    } else {
        e
    };
    let fill_values = e1.def.values is None && res.def.values is Some;
    let e2 = if fill_values {
        Resolution { def: PerNs { types: e1.def.types, values: res.def.values }, import: imp }
    } else {
        e1
    };
    (e2, fill_types || fill_values)
}

/// Merges one entry into a scope; see [`merged_value`]. Returns the new
/// scope and whether a slot was filled.
pub open spec fn merge_entry(scope: Scope, name: Seq<char>, res: Resolution, import: Option<ImportId>) -> (Scope, bool) {
    let (e2, changed) = merged_value(lookup(scope, name), res, import);
    (insert(scope, name, e2), changed)
}

/// Merges the first `j` entries of `batch`, in order.
pub open spec fn merge(scope: Scope, batch: Scope, import: Option<ImportId>, j: int) -> (Scope, bool)
    decreases j,
{
    if j <= 0 {
        (scope, false)
    } else {
        let (s1, c1) = merge(scope, batch, import, j - 1);
        let (s2, c2) = merge_entry(s1, batch[j - 1].0, batch[j - 1].1, import);
        (s2, c1 || c2)
    }
}

/// The glob imports of module `m`'s scope: `(importing module, import)`.
pub open spec fn globs_of(globs: GlobIndex, m: int) -> Seq<(usize, ImportId)> {
    if 0 <= m < globs.len() {
        globs[m]
    } else {
        Seq::empty()
    }
}

/// Merges `batch` into module `m` and, where a slot was filled, into every
/// module that glob-imports `m`, recursively, the propagated entries tagged
/// with the glob import. `None` when the nesting passes 100.
pub open spec fn update_rec(
    globs: GlobIndex,
    modules: Seq<Scope>,
    m: int,
    import: Option<ImportId>,
    batch: Scope,
    depth: int,
) -> Option<Seq<Scope>>
    decreases 101 - depth, 0int, 0int,
{
    if depth > 100 {
        None
    } else if !(0 <= m < modules.len()) {
        Some(modules)
    } else {
        let (s, changed) = merge(modules[m], batch, import, batch.len() as int);
        let ms = modules.update(m, s);
        if !changed {
            Some(ms)
        } else {
            propagate(globs, ms, globs_of(globs, m), 0, batch, depth + 1)
        }
    }
}

/// Applies `update_rec` for the glob importers `list[k..]`, in order.
pub open spec fn propagate(
    globs: GlobIndex,
    modules: Seq<Scope>,
    list: Seq<(usize, ImportId)>,
    k: int,
    batch: Scope,
    depth: int,
) -> Option<Seq<Scope>>
    decreases 101 - depth, 1int, list.len() - k,
{
    if k >= list.len() || depth > 101 {
        Some(modules)
    } else {
        match update_rec(globs, modules, list[k].0 as int, Some(list[k].1), batch, depth) {
            Some(ms) => propagate(globs, ms, list, k + 1, batch, depth),
            None => None,
        }
    }
}

/// Merges `batch` into `scope`; see [`merge`].
pub fn merge_into(scope: &mut ModuleScope, batch: &Vec<(Name, Resolution)>, import: Option<ImportId>) -> (changed: bool)
    ensures
        (final(scope)@, changed) == merge(old(scope)@, batch_view(batch@), import, batch@.len() as int),
{
    let ghost bv = batch_view(batch@);
    let mut changed = false;
    let mut j: usize = 0;
    while j < batch.len()
        invariant
            bv == batch_view(batch@),
            j <= batch@.len(),
            (scope@, changed) == merge(old(scope)@, bv, import, j as int),
        decreases batch.len() - j,
    {
        let name = &batch[j].0;
        let res = batch[j].1;
        assert(bv[j as int] == (name@, res));
        let e = match scope.get(name) {
            Some(r) => *r,
            None => Resolution::default(),
        };
        let imp = match import {
            Some(i) => Some(i),
            None => res.import,
        };
        let mut e2 = e;
        if e2.def.types.is_none() && res.def.types.is_some() {
            e2 = Resolution { def: PerNs { types: res.def.types, values: e2.def.values }, import: imp };
            changed = true;
        }
        if e2.def.values.is_none() && res.def.values.is_some() {
            e2 = Resolution { def: PerNs { types: e2.def.types, values: res.def.values }, import: imp };
            changed = true;
        }
        scope.insert(name.duplicate(), e2);
        j = j + 1;
    }
    changed
}

/// Merges `batch` into module `m` and propagates along glob imports; see
/// [`update_rec`]. Returns `false` when the nesting limit is passed.
pub fn update_recursive(
    modules: &mut Vec<ModuleScope>,
    globs: &Vec<Vec<(usize, ImportId)>>,
    m: usize,
    import: Option<ImportId>,
    batch: &Vec<(Name, Resolution)>,
    depth: usize,
) -> (ok: bool)
    requires
        depth <= 101,
    ensures
        final(modules)@.len() == old(modules)@.len(),
        depth > 100 ==> !ok && final(modules)@ == old(modules)@,
        match update_rec(glob_view(globs@), modules_view(old(modules)@), m as int, import, batch_view(batch@), depth as int) {
            Some(ms) => ok && modules_view(final(modules)@) == ms,
            None => !ok,
        },
    decreases 101 - depth, 0int, 0int,
{
    if depth > 100 {
        return false;
    }
    if m >= modules.len() {
        return true;
    }
    let ghost gv = glob_view(globs@);
    let ghost bv = batch_view(batch@);
    let ghost goal = update_rec(gv, modules_view(modules@), m as int, import, bv, depth as int);
    let mut scope = ModuleScope::new();
    modules.set_and_swap(m, &mut scope);
    let changed = merge_into(&mut scope, batch, import);
    modules.set_and_swap(m, &mut scope);
    assert(modules_view(modules@) =~= modules_view(old(modules)@).update(
        m as int,
        merge(modules_view(old(modules)@)[m as int], bv, import, bv.len() as int).0,
    ));
    if !changed {
        return true;
    }
    if m >= globs.len() {
        return true;
    }
    let list = &globs[m];
    assert(list@ == globs_of(gv, m as int));
    let mut k: usize = 0;
    while k < list.len()
        invariant
            depth <= 100,
            gv == glob_view(globs@),
            bv == batch_view(batch@),
            list@ == globs_of(gv, m as int),
            k <= list@.len(),
            modules@.len() == old(modules)@.len(),
            goal == update_rec(gv, modules_view(old(modules)@), m as int, import, bv, depth as int),
            goal == propagate(gv, modules_view(modules@), list@, k as int, bv, depth + 1),
        decreases list.len() - k,
    {
        let (t, imp) = list[k];
        if !update_recursive(modules, globs, t, Some(imp), batch, depth + 1) {
            return false;
        }
        k = k + 1;
    }
    true
}

/// The working state of a resolution run, as values.
pub struct ResolverState {
    pub map: ItemMapModel,
    pub globs: GlobIndex,
    pub processed: Seq<Seq<bool>>,
}

pub open spec fn n_modules(db: Db, krate: usize) -> int {
    db.crates@[krate as int].module_tree.modules@.len() as int
}

pub open spec fn imports_of(db: Db, krate: usize, m: int) -> Seq<ImportData> {
    db.crates@[krate as int].lowered@[m].imports@
}

/// The scope of `t`, a module of another crate, as that crate's finished map
/// has it.
pub open spec fn foreign_batch(db: Db, t: Module) -> Scope {
    match db.item_map_of(t.krate) {
        Some(fm) => scope_of(fm@.modules, t.module_id as int),
        None => Seq::empty(),
    }
}

/// Every variant of `e`, each visible as the variant in both namespaces'
/// sense: the variant as a type-namespace entry and the enum beside it.
pub open spec fn variant_batch(db: Db, e: Enum, id: ImportId) -> Scope {
    let names = db.variant_names(e.krate, e.id);
    Seq::new(
        names.len(),
        |k: int|
            (
                names[k],
                Resolution {
                    def: PerNs {
                        types: Some(ModuleDef::EnumVariant(EnumVariant { parent: e, index: k as usize })),
                        values: Some(ModuleDef::Enum(e)),
                    },
                    import: Some(id),
                },
            ),
    )
}

/// Records that module `importer` glob-imports module `t`.
pub open spec fn add_glob(globs: GlobIndex, t: int, entry: (usize, ImportId)) -> GlobIndex {
    if 0 <= t < globs.len() {
        globs.update(t, globs[t].push(entry))
    } else {
        globs
    }
}

pub open spec fn with_modules(st: ResolverState, ms: Seq<Scope>) -> ResolverState {
    ResolverState {
        map: ItemMapModel { extern_prelude: st.map.extern_prelude, modules: ms },
        globs: st.globs,
        processed: st.processed,
    }
}

/// One attempt at import `j` of module `m`: the new state and whether the
/// import reached its final answer; `None` when glob propagation passes its
/// nesting limit.
pub open spec fn spec_resolve_import(db: Db, krate: usize, st: ResolverState, m: int, j: int) -> Option<(ResolverState, bool)> {
    let imp = imports_of(db, krate, m)[j];
    let id = ImportId { index: j as usize };
    let (def, fp) = spec_resolve_path(
        db,
        st.map,
        Module { krate, module_id: m as usize },
        imp.path.kind,
        imp.path.segments_view(),
    );
    if !fp {
        Some((st, false))
    } else if imp.is_glob {
        match def.types {
            Some(ModuleDef::Module(t)) => if t.krate != krate {
                match update_rec(st.globs, st.map.modules, m, Some(id), foreign_batch(db, t), 0) {
                    Some(ms) => Some((with_modules(st, ms), true)),
                    None => None,
                }
            } else {
                match update_rec(st.globs, st.map.modules, m, Some(id), scope_of(st.map.modules, t.module_id as int), 0) {
                    Some(ms) => Some(
                        (
                            ResolverState {
                                map: ItemMapModel { extern_prelude: st.map.extern_prelude, modules: ms },
                                globs: add_glob(st.globs, t.module_id as int, (m as usize, id)),
                                processed: st.processed,
                            },
                            true,
                        ),
                    ),
                    None => None,
                }
            },
            Some(ModuleDef::Enum(e)) => match update_rec(st.globs, st.map.modules, m, Some(id), variant_batch(db, e, id), 0) {
                Some(ms) => Some((with_modules(st, ms), true)),
                None => None,
            },
            _ => Some((st, true)),
        }
    } else {
        match imp.visible_name() {
            None => Some((st, true)),
            Some(name) => {
                let prelude = if imp.is_extern_crate && m == 0 && def.types is Some {
                    insert(st.map.extern_prelude, name, def.types->0)
                } else {
                    st.map.extern_prelude
                };
                match update_rec(st.globs, st.map.modules, m, None, seq![(name, Resolution { def, import: Some(id) })], 0) {
                    Some(ms) => Some(
                        (
                            ResolverState {
                                map: ItemMapModel { extern_prelude: prelude, modules: ms },
                                globs: st.globs,
                                processed: st.processed,
                            },
                            true,
                        ),
                    ),
                    None => None,
                }
            },
        }
    }
}

pub open spec fn is_processed(st: ResolverState, m: int, j: int) -> bool {
    0 <= m < st.processed.len() && 0 <= j < st.processed[m].len() && st.processed[m][j]
}

pub open spec fn mark(st: ResolverState, m: int, j: int) -> ResolverState {
    ResolverState {
        map: st.map,
        globs: st.globs,
        processed: st.processed.update(m, st.processed[m].update(j, true)),
    }
}

/// Attempts the first `j` imports of module `m` that are not yet final, in
/// order; also says whether one of them became final.
pub open spec fn spec_resolve_imports(db: Db, krate: usize, st: ResolverState, m: int, j: int) -> Option<(ResolverState, bool)>
    decreases j,
{
    if j <= 0 {
        Some((st, false))
    } else {
        match spec_resolve_imports(db, krate, st, m, j - 1) {
            None => None,
            Some((s1, p1)) => if is_processed(s1, m, j - 1) {
                Some((s1, p1))
            } else {
                match spec_resolve_import(db, krate, s1, m, j - 1) {
                    None => None,
                    Some((s2, fp)) => if fp {
                        Some((mark(s2, m, j - 1), true))
                    } else {
                        Some((s2, p1))
                    },
                }
            },
        }
    }
}

/// One sweep over the first `k` modules.
pub open spec fn spec_sweep(db: Db, krate: usize, st: ResolverState, k: int) -> Option<(ResolverState, bool)>
    decreases k,
{
    if k <= 0 {
        Some((st, false))
    } else {
        match spec_sweep(db, krate, st, k - 1) {
            None => None,
            Some((s1, p1)) => match spec_resolve_imports(db, krate, s1, k - 1, imports_of(db, krate, k - 1).len() as int) {
                None => None,
                Some((s2, p2)) => Some((s2, p1 || p2)),
            },
        }
    }
}

/// Sweeps until one makes no import final; `None` when that takes more than
/// 1000 sweeps in all (`done` have been made) or propagation passes its limit.
pub open spec fn spec_run(db: Db, krate: usize, st: ResolverState, done: int) -> Option<ResolverState>
    decreases 1000 - done,
{
    if done >= 1000 {
        None
    } else {
        match spec_sweep(db, krate, st, n_modules(db, krate)) {
            None => None,
            Some((s2, progress)) => if !progress {
                Some(s2)
            } else {
                spec_run(db, krate, s2, done + 1)
            },
        }
    }
}

/// The extern prelude seeded from the first `k` dependencies.
pub open spec fn seed_prelude(db: Db, deps: Seq<Dependency>, k: int) -> Seq<(Seq<char>, ModuleDef)>
    decreases k,
{
    if k <= 0 {
        Seq::empty()
    } else {
        let p = seed_prelude(db, deps, k - 1);
        let d = deps[k - 1];
        if db.has_root(d.krate) {
            insert(p, d.name@, ModuleDef::Module(Module { krate: d.krate, module_id: 0 }))
        } else {
            p
        }
    }
}

/// Placeholders for the first `j` imports: each non-glob import makes its
/// visible name known, still unresolved.
pub open spec fn seed_imports(imports: Seq<ImportData>, j: int) -> Scope
    decreases j,
{
    if j <= 0 {
        Seq::empty()
    } else {
        let s = seed_imports(imports, j - 1);
        let imp = imports[j - 1];
        if imp.path.segments@.len() > 0 && !imp.is_glob {
            insert(
                s,
                imp.visible_name()->0,
                Resolution {
                    def: PerNs { types: None, values: None },
                    import: Some(ImportId { index: (j - 1) as usize }),
                },
            )
        } else {
            s
        }
    }
}

/// `s` with the first `j` declarations bound.
pub open spec fn seed_decls(s: Scope, decls: Seq<(Name, PerNs<ModuleDef>)>, j: int) -> Scope
    decreases j,
{
    if j <= 0 {
        s
    } else {
        insert(seed_decls(s, decls, j - 1), decls[j - 1].0@, Resolution { def: decls[j - 1].1, import: None })
    }
}

/// `s` with the first `j` child modules bound in the type namespace.
pub open spec fn seed_children(s: Scope, krate: usize, children: Seq<(Name, usize)>, j: int) -> Scope
    decreases j,
{
    if j <= 0 {
        s
    } else {
        insert(
            seed_children(s, krate, children, j - 1),
            children[j - 1].0@,
            Resolution {
                def: PerNs {
                    types: Some(ModuleDef::Module(Module { krate, module_id: children[j - 1].1 })),
                    values: None,
                },
                import: None,
            },
        )
    }
}

/// The scope of module `m` before any import is resolved.
pub open spec fn seed_scope(db: Db, krate: usize, m: int) -> Scope {
    let lowered = db.crates@[krate as int].lowered@[m];
    let children = db.crates@[krate as int].module_tree.modules@[m].children@;
    seed_children(
        seed_decls(
            seed_imports(lowered.imports@, lowered.imports@.len() as int),
            lowered.declarations@,
            lowered.declarations@.len() as int,
        ),
        krate,
        children,
        children.len() as int,
    )
}

/// The state in which a run starts.
pub open spec fn spec_initial(db: Db, krate: usize) -> ResolverState {
    let n = n_modules(db, krate);
    let deps = db.crates@[krate as int].dependencies@;
    ResolverState {
        map: ItemMapModel {
            extern_prelude: seed_prelude(db, deps, deps.len() as int),
            modules: Seq::new(n as nat, |m: int| seed_scope(db, krate, m)),
        },
        globs: Seq::new(n as nat, |m: int| Seq::<(usize, ImportId)>::empty()),
        processed: Seq::new(n as nat, |m: int| Seq::new(imports_of(db, krate, m).len(), |j: int| false)),
    }
}

/// The item map of crate `krate`; `None` when a run aborts on one of its
/// limits.
pub open spec fn spec_item_map(db: Db, krate: usize) -> Option<ItemMapModel> {
    run_map(spec_run(db, krate, spec_initial(db, krate), 0))
}

/// Once an attempt in a module aborts, the whole module's pass aborts.
proof fn lemma_imports_abort(db: Db, krate: usize, st: ResolverState, m: int, j: int, j2: int)
    requires
        0 <= j <= j2,
        spec_resolve_imports(db, krate, st, m, j) is None,
    ensures
        spec_resolve_imports(db, krate, st, m, j2) is None,
    decreases j2 - j,
{
    if j < j2 {
        lemma_imports_abort(db, krate, st, m, j, j2 - 1);
    }
}

/// Once a module's pass aborts, the whole sweep aborts.
proof fn lemma_sweep_abort(db: Db, krate: usize, st: ResolverState, k: int, k2: int)
    requires
        0 <= k <= k2,
        spec_sweep(db, krate, st, k) is None,
    ensures
        spec_sweep(db, krate, st, k2) is None,
    decreases k2 - k,
{
    if k < k2 {
        lemma_sweep_abort(db, krate, st, k, k2 - 1);
    }
}

/// A copy of the entries of `scope`.
fn copy_entries(scope: &ModuleScope) -> (r: Vec<(Name, Resolution)>)
    ensures
        batch_view(r@) == scope@,
{
    let mut r: Vec<(Name, Resolution)> = Vec::new();
    let mut i: usize = 0;
    while i < scope.items.len()
        invariant
            i <= scope.items@.len(),
            r@.len() == i,
            forall|k: int| 0 <= k < i ==> (#[trigger] r@[k]).0@ == scope.items@[k].0@ && r@[k].1 == scope.items@[k].1,
        decreases scope.items.len() - i,
    {
        r.push((scope.items[i].0.duplicate(), scope.items[i].1));
        i = i + 1;
    }
    assert(batch_view(r@) =~= scope@);
    r
}

/// The entries of `t`, a module of another crate; see [`foreign_batch`].
fn foreign_entries(db: &Db, t: Module) -> (r: Vec<(Name, Resolution)>)
    ensures
        batch_view(r@) == foreign_batch(*db, t),
{
    if t.krate < db.item_maps.len() {
        match &db.item_maps[t.krate] {
            Some(fm) => {
                if t.module_id < fm.per_module.len() {
                    return copy_entries(&fm.per_module[t.module_id]);
                }
            },
            None => {},
        }
    }
    let r: Vec<(Name, Resolution)> = Vec::new();
    assert(batch_view(r@) =~= foreign_batch(*db, t));
    r
}

/// The variants of `e` as imported entries; see [`variant_batch`].
fn variant_entries(db: &Db, e: Enum, id: ImportId) -> (r: Vec<(Name, Resolution)>)
    ensures
        batch_view(r@) == variant_batch(*db, e, id),
{
    let mut r: Vec<(Name, Resolution)> = Vec::new();
    if e.krate >= db.crates.len() || e.id >= db.crates[e.krate].enums.len() {
        assert(batch_view(r@) =~= variant_batch(*db, e, id));
        return r;
    }
    let variants = &db.crates[e.krate].enums[e.id].variants;
    let ghost goal = variant_batch(*db, e, id);
    let mut k: usize = 0;
    while k < variants.len()
        invariant
            variants@ == db.crates@[e.krate as int].enums@[e.id as int].variants@,
            goal == variant_batch(*db, e, id),
            goal.len() == variants@.len(),
            k <= variants@.len(),
            r@.len() == k,
            forall|i: int| 0 <= i < k ==> (#[trigger] r@[i]).0@ == goal[i].0 && r@[i].1 == goal[i].1,
        decreases variants.len() - k,
    {
        let res = Resolution {
            def: PerNs::both(ModuleDef::EnumVariant(EnumVariant { parent: e, index: k }), ModuleDef::Enum(e)),
            import: Some(id),
        };
        r.push((variants[k].duplicate(), res));
        k = k + 1;
    }
    assert(batch_view(r@) =~= goal);
    r
}

/// The scope of module `m` before any import is resolved; see [`seed_scope`].
fn populate_module(db: &Db, krate: usize, m: usize) -> (r: ModuleScope)
    requires
        krate < db.crates@.len(),
        db.crates@[krate as int].wf(),
        m < n_modules(*db, krate),
    ensures
        r@ == seed_scope(*db, krate, m as int),
{
    let lowered = &db.crates[krate].lowered[m];
    let imports = &lowered.imports;
    let mut scope = ModuleScope::new();
    let mut j: usize = 0;
    while j < imports.len()
        invariant
            j <= imports@.len(),
            scope@ == seed_imports(imports@, j as int),
        decreases imports.len() - j,
    {
        let imp = &imports[j];
        let n = imp.path.segments.len();
        if n > 0 && !imp.is_glob {
            let name = match &imp.alias {
                Some(a) => a.duplicate(),
                None => imp.path.segments[n - 1].duplicate(),
            };
            scope.insert(name, Resolution { def: PerNs::none(), import: Some(ImportId { index: j }) });
        }
        j = j + 1;
    }
    let decls = &lowered.declarations;
    let ghost base = scope@;
    let mut j: usize = 0;
    while j < decls.len()
        invariant
            j <= decls@.len(),
            scope@ == seed_decls(base, decls@, j as int),
        decreases decls.len() - j,
    {
        scope.insert(decls[j].0.duplicate(), Resolution { def: decls[j].1, import: None });
        j = j + 1;
    }
    let children = &db.crates[krate].module_tree.modules[m].children;
    let ghost base = scope@;
    let mut j: usize = 0;
    while j < children.len()
        invariant
            j <= children@.len(),
            scope@ == seed_children(base, krate, children@, j as int),
        decreases children.len() - j,
    {
        let def = PerNs::types(ModuleDef::Module(Module { krate, module_id: children[j].1 }));
        scope.insert(children[j].0.duplicate(), Resolution { def, import: None });
        j = j + 1;
    }
    scope
}

/// The extern prelude: each dependency with a root module, by its name.
fn populate_extern_prelude(db: &Db, krate: usize, map: &mut ItemMap)
    requires
        krate < db.crates@.len(),
        old(map)@.extern_prelude == Seq::<(Seq<char>, ModuleDef)>::empty(),
    ensures
        final(map)@.extern_prelude == seed_prelude(*db, db.crates@[krate as int].dependencies@, db.crates@[krate as int].dependencies@.len() as int),
        final(map).per_module == old(map).per_module,
{
    let deps = &db.crates[krate].dependencies;
    let mut k: usize = 0;
    while k < deps.len()
        invariant
            deps@ == db.crates@[krate as int].dependencies@,
            k <= deps@.len(),
            map@.extern_prelude == seed_prelude(*db, deps@, k as int),
            map.per_module == old(map).per_module,
        decreases deps.len() - k,
    {
        let dep = &deps[k];
        if dep.krate < db.crates.len() && db.crates[dep.krate].module_tree.modules.len() > 0 {
            map.prelude_insert(dep.name.duplicate(), ModuleDef::Module(Module { krate: dep.krate, module_id: 0 }));
        }
        k = k + 1;
    }
}

/// Why a run ended without an item map.
#[derive(Clone, Copy, Debug, PartialEq, Eq, Structural)]
pub enum ResolveError {
    /// The cancellation signal was raised.
    Cancelled,
    /// A sweep or propagation limit was passed: the inputs broke an
    /// assumption of the algorithm.
    LimitExceeded,
}

/// The state of one resolution run for one crate.
struct Resolver<'a> {
    db: &'a Db,
    krate: usize,
    /// For each module and import, whether the import has its final answer.
    processed: Vec<Vec<bool>>,
    /// If module `a` has `use b::*`, the entry of `b` holds `a` and the import.
    glob_imports: Vec<Vec<(usize, ImportId)>>,
    result: ItemMap,
}

impl<'a> Resolver<'a> {
    spec fn inv(&self) -> bool {
        let n = n_modules(*self.db, self.krate);
        &&& self.krate < self.db.crates@.len()
        &&& self.db.crates@[self.krate as int].wf()
        &&& self.result.per_module@.len() == n
        &&& self.glob_imports@.len() == n
        &&& self.processed@.len() == n
        &&& forall|m: int|
            0 <= m < n ==> #[trigger] self.processed@[m]@.len() == imports_of(*self.db, self.krate, m).len()
    }

    spec fn model(&self) -> ResolverState {
        ResolverState {
            map: self.result@,
            globs: glob_view(self.glob_imports@),
            processed: self.processed@.map_values(|v: Vec<bool>| v@),
        }
    }

    fn new(db: &'a Db, krate: usize) -> (r: Resolver<'a>)
        requires
            krate < db.crates@.len(),
            db.crates@[krate as int].wf(),
        ensures
            r.inv(),
            r.db == db,
            r.krate == krate,
            r.model() == spec_initial(*db, krate),
    {
        let n = db.crates[krate].module_tree.modules.len();
        let ghost goal = spec_initial(*db, krate);
        let mut per_module: Vec<ModuleScope> = Vec::new();
        let mut processed: Vec<Vec<bool>> = Vec::new();
        let mut globs: Vec<Vec<(usize, ImportId)>> = Vec::new();
        let mut m: usize = 0;
        while m < n
            invariant
                n == n_modules(*db, krate),
                krate < db.crates@.len(),
                db.crates@[krate as int].wf(),
                goal == spec_initial(*db, krate),
                m <= n,
                per_module@.len() == m,
                forall|i: int| 0 <= i < m ==> #[trigger] per_module@[i]@ == goal.map.modules[i],
                processed@.len() == m,
                forall|i: int| 0 <= i < m ==> #[trigger] processed@[i]@ == goal.processed[i],
                globs@.len() == m,
                forall|i: int| 0 <= i < m ==> #[trigger] globs@[i]@ == goal.globs[i],
            decreases n - m,
        {
            per_module.push(populate_module(db, krate, m));
            let count = db.crates[krate].lowered[m].imports.len();
            let mut row: Vec<bool> = Vec::new();
            let mut j: usize = 0;
            while j < count
                invariant
                    j <= count,
                    row@ == Seq::new(j as nat, |i: int| false),
                decreases count - j,
            {
                row.push(false);
                j = j + 1;
                assert(row@ =~= Seq::new(j as nat, |i: int| false));
            }
            assert(row@ =~= goal.processed[m as int]);
            processed.push(row);
            globs.push(Vec::new());
            m = m + 1;
        }
        assert(modules_view(per_module@) =~= goal.map.modules);
        assert(glob_view(globs@) =~= goal.globs);
        assert(processed@.map_values(|v: Vec<bool>| v@) =~= goal.processed);
        let mut result = ItemMap { extern_prelude: Vec::new(), per_module };
        assert(result@.extern_prelude =~= Seq::<(Seq<char>, ModuleDef)>::empty());
        populate_extern_prelude(db, krate, &mut result);
        Resolver { db, krate, processed, glob_imports: globs, result }
    }

    /// One attempt at import `j` of module `m`; see [`spec_resolve_import`].
    /// `None` when glob propagation passes its limit.
    fn resolve_import(&mut self, m: usize, j: usize) -> (r: Option<ReachedFixedPoint>)
        requires
            old(self).inv(),
            m < n_modules(*old(self).db, old(self).krate),
            j < imports_of(*old(self).db, old(self).krate, m as int).len(),
        ensures
            final(self).db == old(self).db,
            final(self).krate == old(self).krate,
            match spec_resolve_import(*old(self).db, old(self).krate, old(self).model(), m as int, j as int) {
                Some((st, fp)) => final(self).inv() && final(self).model() == st && r is Some && (r->0
                    == ReachedFixedPoint::Yes) == fp,
                None => r is None,
            },
    {
        let db = self.db;
        let krate = self.krate;
        let imp = &db.crates[krate].lowered[m].imports[j];
        let id = ImportId { index: j };
        let (def, fp) = self.result.resolve_path_fp(db, Module { krate, module_id: m }, &imp.path);
        if fp == ReachedFixedPoint::No {
            return Some(ReachedFixedPoint::No);
        }
        if imp.is_glob {
            match def.types {
                Some(ModuleDef::Module(t)) => {
                    if t.krate != krate {
                        let items = foreign_entries(db, t);
                        if !update_recursive(&mut self.result.per_module, &self.glob_imports, m, Some(id), &items, 0) {
                            return None;
                        }
                    } else {
                        let items = if t.module_id < self.result.per_module.len() {
                            copy_entries(&self.result.per_module[t.module_id])
                        } else {
                            let e: Vec<(Name, Resolution)> = Vec::new();
                            assert(batch_view(e@) =~= Seq::empty());
                            e
                        };
                        if !update_recursive(&mut self.result.per_module, &self.glob_imports, m, Some(id), &items, 0) {
                            return None;
                        }
                        if t.module_id < self.glob_imports.len() {
                            let mut row: Vec<(usize, ImportId)> = Vec::new();
                            self.glob_imports.set_and_swap(t.module_id, &mut row);
                            row.push((m, id));
                            self.glob_imports.set_and_swap(t.module_id, &mut row);
                        }
                        assert(glob_view(self.glob_imports@) =~= add_glob(
                            glob_view(old(self).glob_imports@),
                            t.module_id as int,
                            (m, id),
                        ));
                    }
                },
                Some(ModuleDef::Enum(e)) => {
                    let items = variant_entries(db, e, id);
                    if !update_recursive(&mut self.result.per_module, &self.glob_imports, m, Some(id), &items, 0) {
                        return None;
                    }
                },
                _ => {},
            }
        } else {
            let n = imp.path.segments.len();
            let name = match &imp.alias {
                Some(a) => a,
                None => {
                    if n == 0 {
                        return Some(ReachedFixedPoint::Yes);
                    }
                    &imp.path.segments[n - 1]
                },
            };
            if imp.is_extern_crate && m == 0 {
                match def.types {
                    Some(d) => {
                        self.result.prelude_insert(name.duplicate(), d);
                    },
                    None => {},
                }
            }
            let mut batch: Vec<(Name, Resolution)> = Vec::new();
            batch.push((name.duplicate(), Resolution { def, import: Some(id) }));
            assert(batch_view(batch@) =~= seq![(name@, Resolution { def, import: Some(id) })]);
            if !update_recursive(&mut self.result.per_module, &self.glob_imports, m, None, &batch, 0) {
                return None;
            }
        }
        Some(ReachedFixedPoint::Yes)
    }

    /// Records that import `j` of module `m` has its final answer.
    fn mark_processed(&mut self, m: usize, j: usize)
        requires
            old(self).inv(),
            m < n_modules(*old(self).db, old(self).krate),
            j < imports_of(*old(self).db, old(self).krate, m as int).len(),
        ensures
            final(self).inv(),
            final(self).db == old(self).db,
            final(self).krate == old(self).krate,
            final(self).model() == mark(old(self).model(), m as int, j as int),
    {
        let mut row: Vec<bool> = Vec::new();
        self.processed.set_and_swap(m, &mut row);
        row.set(j, true);
        self.processed.set_and_swap(m, &mut row);
        assert(self.processed@.map_values(|v: Vec<bool>| v@) =~= mark(old(self).model(), m as int, j as int).processed);
        assert forall|i: int| 0 <= i < n_modules(*self.db, self.krate) implies #[trigger] self.processed@[i]@.len()
            == imports_of(*self.db, self.krate, i).len() by {
            if i != m {
                assert(self.processed@[i] == old(self).processed@[i]);
            }
        }
    }

    /// Attempts every import of module `m` that is not yet final; see
    /// [`spec_resolve_imports`]. Says whether one became final.
    fn resolve_imports(&mut self, m: usize) -> (r: Option<bool>)
        requires
            old(self).inv(),
            m < n_modules(*old(self).db, old(self).krate),
        ensures
            final(self).db == old(self).db,
            final(self).krate == old(self).krate,
            match spec_resolve_imports(
                *old(self).db,
                old(self).krate,
                old(self).model(),
                m as int,
                imports_of(*old(self).db, old(self).krate, m as int).len() as int,
            ) {
                Some((st, p)) => final(self).inv() && final(self).model() == st && r == Some(p),
                None => r is None,
            },
    {
        let db = self.db;
        let count = db.crates[self.krate].lowered[m].imports.len();
        let ghost st0 = self.model();
        let mut progress = false;
        let mut j: usize = 0;
        while j < count
            invariant
                self.inv(),
                self.db == old(self).db,
                self.krate == old(self).krate,
                st0 == old(self).model(),
                m < n_modules(*self.db, self.krate),
                count == imports_of(*self.db, self.krate, m as int).len(),
                j <= count,
                spec_resolve_imports(*self.db, self.krate, st0, m as int, j as int) == Some((self.model(), progress)),
            decreases count - j,
        {
            assert(self.processed@[m as int]@.len() == count);
            let done = self.processed[m][j];
            assert(done == is_processed(self.model(), m as int, j as int));
            if !done {
                match self.resolve_import(m, j) {
                    None => {
                        proof {
                            lemma_imports_abort(*self.db, self.krate, st0, m as int, j + 1, count as int);
                        }
                        return None;
                    },
                    Some(fp) => {
                        if fp == ReachedFixedPoint::Yes {
                            self.mark_processed(m, j);
                            progress = true;
                        }
                    },
                }
            }
            j = j + 1;
        }
        Some(progress)
    }

    /// Sweeps over all modules until a sweep makes no import final; see
    /// [`spec_run`]. Polls `cancelled` before each module.
    fn resolve<F: Fn() -> bool>(self, cancelled: &F) -> (r: Result<ItemMap, ResolveError>)
        requires
            self.inv(),
            cancelled.requires(()),
        ensures
            match r {
                Ok(map) => run_map(spec_run(*self.db, self.krate, self.model(), 0)) == Some(map@),
                Err(ResolveError::LimitExceeded) => spec_run(*self.db, self.krate, self.model(), 0) is None,
                Err(ResolveError::Cancelled) => cancelled.ensures((), true),
            },
            always_raised(cancelled) && n_modules(*self.db, self.krate) > 0 ==> r == Err::<ItemMap, ResolveError>(
                ResolveError::Cancelled,
            ),
    {
        let mut this = self;
        let n = this.db.crates[this.krate].module_tree.modules.len();
        let ghost goal = spec_run(*self.db, self.krate, self.model(), 0);
        let mut iter: usize = 0;
        loop
            invariant
                this.inv(),
                this.db == self.db,
                this.krate == self.krate,
                n == n_modules(*this.db, this.krate),
                iter <= 1000,
                cancelled.requires(()),
                goal == spec_run(*self.db, self.krate, self.model(), 0),
                goal == spec_run(*this.db, this.krate, this.model(), iter as int),
                always_raised(cancelled) && n > 0 ==> iter == 0,
            decreases 1000 - iter,
        {
            if iter >= 1000 {
                return Err(ResolveError::LimitExceeded);
            }
            let ghost st0 = this.model();
            let mut progress = false;
            let mut m: usize = 0;
            while m < n
                invariant
                    this.inv(),
                    this.db == self.db,
                    this.krate == self.krate,
                    n == n_modules(*this.db, this.krate),
                    m <= n,
                    iter < 1000,
                    cancelled.requires(()),
                    goal == spec_run(*self.db, self.krate, self.model(), 0),
                    goal == spec_run(*this.db, this.krate, st0, iter as int),
                    always_raised(cancelled) ==> m == 0,
                    spec_sweep(*this.db, this.krate, st0, m as int) == Some((this.model(), progress)),
                decreases n - m,
            {
                if cancelled() {
                    return Err(ResolveError::Cancelled);
                }
                match this.resolve_imports(m) {
                    None => {
                        proof {
                            lemma_sweep_abort(*this.db, this.krate, st0, m + 1, n as int);
                        }
                        return Err(ResolveError::LimitExceeded);
                    },
                    Some(p) => {
                        progress = progress || p;
                    },
                }
                m = m + 1;
            }
            if !progress {
                return Ok(this.result);
            }
            iter = iter + 1;
        }
    }
}

/// Every answer that `cancelled` can give is `true`.
pub open spec fn always_raised<F: Fn() -> bool>(cancelled: &F) -> bool {
    forall|b: bool| cancelled.ensures((), b) ==> b
}

/// The map part of a finished run.
pub open spec fn run_map(run: Option<ResolverState>) -> Option<ItemMapModel> {
    match run {
        Some(st) => Some(st.map),
        None => None,
    }
}

impl ItemMap {
    /// Resolves the imports of crate `krate` to a fixed point. `cancelled`
    /// is polled before each module of each sweep; when it answers `true`
    /// the run stops with `Cancelled`. The maps of the crate's dependencies
    /// must be in `db`; a path into a crate whose map is missing resolves to
    /// nothing.
    pub fn item_map_query<F: Fn() -> bool>(db: &Db, krate: usize, cancelled: &F) -> (r: Result<ItemMap, ResolveError>)
        requires
            krate < db.crates@.len(),
            db.crates@[krate as int].wf(),
            db.deps_resolved(krate),
            cancelled.requires(()),
        ensures
            match r {
                Ok(map) => spec_item_map(*db, krate) == Some(map@),
                Err(ResolveError::LimitExceeded) => spec_item_map(*db, krate) is None,
                Err(ResolveError::Cancelled) => cancelled.ensures((), true),
            },
            always_raised(cancelled) && n_modules(*db, krate) > 0 ==> r == Err::<ItemMap, ResolveError>(
                ResolveError::Cancelled,
            ),
    {
        let resolver = Resolver::new(db, krate);
        resolver.resolve(cancelled)
    }
}

} // verus!
