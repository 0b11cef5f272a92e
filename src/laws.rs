use vstd::prelude::*;
use crate::defs::{ImportId, ModuleDef};
use crate::input::Db;
use crate::per_ns::Namespace;
use crate::resolver::{
    imports_of, is_processed, mark, merge, merge_entry, merged_value, n_modules, propagate, spec_initial,
    spec_item_map, spec_resolve_import, spec_resolve_imports, spec_run, spec_sweep, update_rec,
    GlobIndex, ResolverState, Scope,
};
use crate::scope::{insert, lemma_lookup_insert, lookup, scope_of, spec_resolve_name, ItemMapModel, Resolution};

verus! {

/// What `name` denotes in namespace `ns` in scope `s`.
pub open spec fn scope_slot(s: Scope, name: Seq<char>, ns: Namespace) -> Option<ModuleDef> {
    match lookup(s, name) {
        Some(r) => r.def.slot(ns),
        None => None,
    }
}

/// Every filled slot of `a` holds the same definition in `b`.
pub open spec fn scope_extends(a: Scope, b: Scope) -> bool {
    forall|name: Seq<char>, ns: Namespace|
        #![trigger scope_slot(a, name, ns)]
        scope_slot(a, name, ns) is Some ==> scope_slot(b, name, ns) == scope_slot(a, name, ns)
}

/// Module by module, `b` keeps every filled slot of `a`.
pub open spec fn modules_extend(a: Seq<Scope>, b: Seq<Scope>) -> bool {
    &&& a.len() == b.len()
    &&& forall|m: int| 0 <= m < a.len() ==> #[trigger] scope_extends(a[m], b[m])
}

proof fn lemma_scope_extends_trans(a: Scope, b: Scope, c: Scope)
    requires
        scope_extends(a, b),
        scope_extends(b, c),
    ensures
        scope_extends(a, c),
{
    assert forall|name: Seq<char>, ns: Namespace| scope_slot(a, name, ns) is Some implies scope_slot(c, name, ns)
        == scope_slot(a, name, ns) by {
        assert(scope_slot(b, name, ns) == scope_slot(a, name, ns));
    }
}

proof fn lemma_modules_extend_trans(a: Seq<Scope>, b: Seq<Scope>, c: Seq<Scope>)
    requires
        modules_extend(a, b),
        modules_extend(b, c),
    ensures
        modules_extend(a, c),
{
    assert forall|m: int| 0 <= m < a.len() implies #[trigger] scope_extends(a[m], c[m]) by {
        assert(scope_extends(a[m], b[m]));
        assert(scope_extends(b[m], c[m]));
        lemma_scope_extends_trans(a[m], b[m], c[m]);
    }
}

proof fn lemma_modules_extend_refl(a: Seq<Scope>)
    ensures
        modules_extend(a, a),
{
    assert forall|m: int| 0 <= m < a.len() implies #[trigger] scope_extends(a[m], a[m]) by {}
}

proof fn lemma_merge_entry_extends(scope: Scope, name: Seq<char>, res: Resolution, import: Option<ImportId>)
    ensures
        scope_extends(scope, merge_entry(scope, name, res, import).0),
{
    let s2 = merge_entry(scope, name, res, import).0;
    let e2 = merged_value(lookup(scope, name), res, import).0;
    assert forall|n2: Seq<char>, ns: Namespace| scope_slot(scope, n2, ns) is Some implies scope_slot(s2, n2, ns)
        == scope_slot(scope, n2, ns) by {
        lemma_lookup_insert(scope, name, e2, n2);
    }
}

proof fn lemma_merge_extends(scope: Scope, batch: Scope, import: Option<ImportId>, j: int)
    ensures
        scope_extends(scope, merge(scope, batch, import, j).0),
    decreases j,
{
    if j > 0 {
        let s1 = merge(scope, batch, import, j - 1).0;
        lemma_merge_extends(scope, batch, import, j - 1);
        lemma_merge_entry_extends(s1, batch[j - 1].0, batch[j - 1].1, import);
        lemma_scope_extends_trans(scope, s1, merge(scope, batch, import, j).0);
    }
}

proof fn lemma_update_extends(
    globs: GlobIndex,
    modules: Seq<Scope>,
    m: int,
    import: Option<ImportId>,
    batch: Scope,
    depth: int,
)
    ensures
        update_rec(globs, modules, m, import, batch, depth) matches Some(ms) ==> modules_extend(modules, ms),
    decreases 101 - depth, 0int, 0int,
{
    lemma_modules_extend_refl(modules);
    if depth <= 100 && 0 <= m < modules.len() {
        let s = merge(modules[m], batch, import, batch.len() as int).0;
        let ms = modules.update(m, s);
        lemma_merge_extends(modules[m], batch, import, batch.len() as int);
        assert forall|i: int| 0 <= i < modules.len() implies #[trigger] scope_extends(modules[i], ms[i]) by {}
        if merge(modules[m], batch, import, batch.len() as int).1 {
            lemma_propagate_extends(globs, ms, crate::resolver::globs_of(globs, m), 0, batch, depth + 1);
            if let Some(ms2) = update_rec(globs, modules, m, import, batch, depth) {
                lemma_modules_extend_trans(modules, ms, ms2);
            }
        }
    }
}

proof fn lemma_propagate_extends(
    globs: GlobIndex,
    modules: Seq<Scope>,
    list: Seq<(usize, ImportId)>,
    k: int,
    batch: Scope,
    depth: int,
)
    ensures
        propagate(globs, modules, list, k, batch, depth) matches Some(ms) ==> modules_extend(modules, ms),
    decreases 101 - depth, 1int, list.len() - k,
{
    lemma_modules_extend_refl(modules);
    if k < list.len() && depth <= 101 {
        lemma_update_extends(globs, modules, list[k].0 as int, Some(list[k].1), batch, depth);
        if let Some(ms) = update_rec(globs, modules, list[k].0 as int, Some(list[k].1), batch, depth) {
            lemma_propagate_extends(globs, ms, list, k + 1, batch, depth);
            if let Some(ms2) = propagate(globs, ms, list, k + 1, batch, depth) {
                lemma_modules_extend_trans(modules, ms, ms2);
            }
        }
    }
}

/// Resolving one import never changes or empties a filled slot: a slot of a
/// module scope is empty, or holds the definition it first received.
pub proof fn lemma_resolve_import_keeps_slots(db: Db, krate: usize, st: ResolverState, m: int, j: int)
    ensures
        spec_resolve_import(db, krate, st, m, j) matches Some((s2, fp)) ==> modules_extend(
            st.map.modules,
            s2.map.modules,
        ),
{
    lemma_modules_extend_refl(st.map.modules);
    let imp = crate::resolver::imports_of(db, krate, m)[j];
    let id = ImportId { index: j as usize };
    let (def, fp) = crate::path_resolution::spec_resolve_path(
        db,
        st.map,
        crate::defs::Module { krate, module_id: m as usize },
        imp.path.kind,
        imp.path.segments_view(),
    );
    if imp.is_glob {
        match def.types {
            Some(ModuleDef::Module(t)) => {
                lemma_update_extends(st.globs, st.map.modules, m, Some(id), crate::resolver::foreign_batch(db, t), 0);
                lemma_update_extends(st.globs, st.map.modules, m, Some(id), scope_of(st.map.modules, t.module_id as int), 0);
            },
            Some(ModuleDef::Enum(e)) => {
                lemma_update_extends(st.globs, st.map.modules, m, Some(id), crate::resolver::variant_batch(db, e, id), 0);
            },
            _ => {},
        }
    } else {
        if let Some(name) = imp.visible_name() {
            lemma_update_extends(
                st.globs,
                st.map.modules,
                m,
                None,
                seq![(name, Resolution { def, import: Some(id) })],
                0,
            );
        }
    }
}

proof fn lemma_resolve_imports_keeps_slots(db: Db, krate: usize, st: ResolverState, m: int, j: int)
    ensures
        spec_resolve_imports(db, krate, st, m, j) matches Some((s2, p)) ==> modules_extend(
            st.map.modules,
            s2.map.modules,
        ),
    decreases j,
{
    lemma_modules_extend_refl(st.map.modules);
    if j > 0 {
        lemma_resolve_imports_keeps_slots(db, krate, st, m, j - 1);
        if let Some((s1, p1)) = spec_resolve_imports(db, krate, st, m, j - 1) {
            lemma_resolve_import_keeps_slots(db, krate, s1, m, j - 1);
            if let Some((s2, p)) = spec_resolve_imports(db, krate, st, m, j) {
                lemma_modules_extend_trans(st.map.modules, s1.map.modules, s2.map.modules);
            }
        }
    }
}

/// One sweep keeps every filled slot of every module.
pub proof fn lemma_sweep_keeps_slots(db: Db, krate: usize, st: ResolverState, k: int)
    ensures
        spec_sweep(db, krate, st, k) matches Some((s2, p)) ==> modules_extend(st.map.modules, s2.map.modules),
    decreases k,
{
    lemma_modules_extend_refl(st.map.modules);
    if k > 0 {
        lemma_sweep_keeps_slots(db, krate, st, k - 1);
        if let Some((s1, p1)) = spec_sweep(db, krate, st, k - 1) {
            lemma_resolve_imports_keeps_slots(
                db,
                krate,
                s1,
                k - 1,
                crate::resolver::imports_of(db, krate, k - 1).len() as int,
            );
            if let Some((s2, p)) = spec_sweep(db, krate, st, k) {
                lemma_modules_extend_trans(st.map.modules, s1.map.modules, s2.map.modules);
            }
        }
    }
}

proof fn lemma_run_keeps_slots(db: Db, krate: usize, st: ResolverState, done: int)
    ensures
        spec_run(db, krate, st, done) matches Some(s2) ==> modules_extend(st.map.modules, s2.map.modules),
    decreases 1000 - done,
{
    if done < 1000 {
        let n = crate::resolver::n_modules(db, krate);
        lemma_sweep_keeps_slots(db, krate, st, n);
        if let Some((s1, progress)) = spec_sweep(db, krate, st, n) {
            if progress {
                lemma_run_keeps_slots(db, krate, s1, done + 1);
                if let Some(s2) = spec_run(db, krate, s1, done + 1) {
                    lemma_modules_extend_trans(st.map.modules, s1.map.modules, s2.map.modules);
                }
            }
        }
    }
}

/// Over a whole run, every slot that seeding filled (declared items, child
/// modules) holds the same definition in the finished item map, and the map
/// has one scope per module.
pub proof fn lemma_run_keeps_seeded_slots(db: Db, krate: usize)
    ensures
        spec_item_map(db, krate) matches Some(map) ==> modules_extend(
            spec_initial(db, krate).map.modules,
            map.modules,
        ),
{
    lemma_run_keeps_slots(db, krate, spec_initial(db, krate), 0);
}

/// Two runs on the same crate graph that both finish give the same item map.
pub proof fn lemma_runs_agree(db: Db, krate: usize, a: ItemMapModel, b: ItemMapModel)
    requires
        spec_item_map(db, krate) == Some(a),
        spec_item_map(db, krate) == Some(b),
    ensures
        a == b,
{
}

/// A filled slot of a module's own entry for `name` wins over the extern
/// prelude's entry for the same name.
pub proof fn lemma_local_shadows_prelude(map: ItemMapModel, m: int, name: Seq<char>, ns: Namespace)
    requires
        scope_slot(scope_of(map.modules, m), name, ns) is Some,
    ensures
        spec_resolve_name(map, m, name).slot(ns) == scope_slot(scope_of(map.modules, m), name, ns),
{
}

/// Imports of one module not yet final.
pub open spec fn row_pending(row: Seq<bool>) -> nat
    decreases row.len(),
{
    if row.len() == 0 {
        0
    } else {
        row_pending(row.drop_last()) + if row.last() {
            0nat
        } else {
            1nat
        }
    }
}

/// Imports of the crate not yet final.
pub open spec fn pending(processed: Seq<Seq<bool>>) -> nat
    decreases processed.len(),
{
    if processed.len() == 0 {
        0
    } else {
        pending(processed.drop_last()) + row_pending(processed.last())
    }
}

/// The run state has one flag per import of each module.
pub open spec fn shape_ok(db: Db, krate: usize, st: ResolverState) -> bool {
    &&& st.processed.len() == n_modules(db, krate)
    &&& forall|m: int|
        0 <= m < st.processed.len() ==> (#[trigger] st.processed[m]).len() == imports_of(db, krate, m).len()
}

proof fn lemma_row_mark(row: Seq<bool>, j: int)
    requires
        0 <= j < row.len(),
        !row[j],
    ensures
        row_pending(row.update(j, true)) + 1 == row_pending(row),
    decreases row.len(),
{
    let r2 = row.update(j, true);
    if j == row.len() - 1 {
        assert(r2.drop_last() =~= row.drop_last());
    } else {
        assert(r2.drop_last() =~= row.drop_last().update(j, true));
        lemma_row_mark(row.drop_last(), j);
    }
}

proof fn lemma_pending_update(p: Seq<Seq<bool>>, m: int, r: Seq<bool>)
    requires
        0 <= m < p.len(),
    ensures
        pending(p.update(m, r)) + row_pending(p[m]) == pending(p) + row_pending(r),
    decreases p.len(),
{
    let p2 = p.update(m, r);
    if m == p.len() - 1 {
        assert(p2.drop_last() =~= p.drop_last());
    } else {
        assert(p2.drop_last() =~= p.drop_last().update(m, r));
        lemma_pending_update(p.drop_last(), m, r);
    }
}

proof fn lemma_import_keeps_processed(db: Db, krate: usize, st: ResolverState, m: int, j: int)
    ensures
        spec_resolve_import(db, krate, st, m, j) matches Some((s2, fp)) ==> s2.processed == st.processed,
{
}

proof fn lemma_imports_pending(db: Db, krate: usize, st: ResolverState, m: int, j: int)
    requires
        shape_ok(db, krate, st),
        0 <= m < n_modules(db, krate),
        0 <= j <= imports_of(db, krate, m).len(),
    ensures
        spec_resolve_imports(db, krate, st, m, j) matches Some((s2, p)) ==> shape_ok(db, krate, s2) && pending(
            s2.processed,
        ) <= pending(st.processed) && (p ==> pending(s2.processed) < pending(st.processed)),
    decreases j,
{
    if j > 0 {
        lemma_imports_pending(db, krate, st, m, j - 1);
        if let Some((s1, p1)) = spec_resolve_imports(db, krate, st, m, j - 1) {
            if !is_processed(s1, m, j - 1) {
                lemma_import_keeps_processed(db, krate, s1, m, j - 1);
                if let Some((s2, fp)) = spec_resolve_import(db, krate, s1, m, j - 1) {
                    if fp {
                        let row = s2.processed[m];
                        lemma_row_mark(row, j - 1);
                        lemma_pending_update(s2.processed, m, row.update(j - 1, true));
                        let s3 = mark(s2, m, j - 1);
                        assert forall|q: int| 0 <= q < s3.processed.len() implies (#[trigger] s3.processed[q]).len()
                            == imports_of(db, krate, q).len() by {
                            if q != m {
                                assert(s3.processed[q] == s2.processed[q]);
                            }
                        }
                    }
                }
            }
        }
    }
}

proof fn lemma_sweep_pending(db: Db, krate: usize, st: ResolverState, k: int)
    requires
        shape_ok(db, krate, st),
        0 <= k <= n_modules(db, krate),
    ensures
        spec_sweep(db, krate, st, k) matches Some((s2, p)) ==> shape_ok(db, krate, s2) && pending(s2.processed)
            <= pending(st.processed) && (p ==> pending(s2.processed) < pending(st.processed)),
    decreases k,
{
    if k > 0 {
        lemma_sweep_pending(db, krate, st, k - 1);
        if let Some((s1, p1)) = spec_sweep(db, krate, st, k - 1) {
            lemma_imports_pending(db, krate, s1, k - 1, imports_of(db, krate, k - 1).len() as int);
        }
    }
}

/// Whether some sweep of the run from `st` (with `done` sweeps made) stops
/// on the propagation limit before the run ends.
pub open spec fn propagation_aborts(db: Db, krate: usize, st: ResolverState, done: int) -> bool
    decreases 1000 - done,
{
    if done >= 1000 {
        false
    } else {
        match spec_sweep(db, krate, st, n_modules(db, krate)) {
            None => true,
            Some((s2, progress)) => progress && propagation_aborts(db, krate, s2, done + 1),
        }
    }
}

proof fn lemma_run_sweeps(db: Db, krate: usize, st: ResolverState, done: int)
    requires
        shape_ok(db, krate, st),
        0 <= done,
        done + pending(st.processed) < 1000,
    ensures
        spec_run(db, krate, st, done) is None ==> propagation_aborts(db, krate, st, done),
    decreases pending(st.processed),
{
    lemma_sweep_pending(db, krate, st, n_modules(db, krate));
    if let Some((s2, progress)) = spec_sweep(db, krate, st, n_modules(db, krate)) {
        if progress {
            lemma_run_sweeps(db, krate, s2, done + 1);
        }
    }
}

/// Every sweep that does not end the run makes one more import final, so a
/// run on a crate with fewer than 1000 imports never reaches the sweep
/// limit: if it fails, glob propagation passed its depth limit.
pub proof fn lemma_sweep_limit_unreached(db: Db, krate: usize)
    requires
        pending(spec_initial(db, krate).processed) < 1000,
    ensures
        spec_item_map(db, krate) is None ==> propagation_aborts(db, krate, spec_initial(db, krate), 0),
{
    let st = spec_initial(db, krate);
    assert(shape_ok(db, krate, st));
    lemma_run_sweeps(db, krate, st, 0);
}

/// A sweep never brings back an import from final, and one that reports
/// progress makes at least one more import final.
pub proof fn lemma_sweep_progress(db: Db, krate: usize, st: ResolverState)
    requires
        shape_ok(db, krate, st),
    ensures
        spec_sweep(db, krate, st, n_modules(db, krate)) matches Some((s2, progress)) ==> pending(s2.processed)
            <= pending(st.processed) && (progress ==> pending(s2.processed) < pending(st.processed)),
{
    lemma_sweep_pending(db, krate, st, n_modules(db, krate));
}


/// Merging the entries for two different names gives the same scope, name
/// by name, in either order, and fills a slot in either order alike.
pub proof fn lemma_merge_entries_commute(
    s: Scope,
    n1: Seq<char>,
    r1: Resolution,
    n2: Seq<char>,
    r2: Resolution,
    import: Option<ImportId>,
)
    requires
        n1 != n2,
    ensures
        ({
            let (a1, c1) = merge_entry(s, n1, r1, import);
            let (a2, c2) = merge_entry(a1, n2, r2, import);
            let (b1, d1) = merge_entry(s, n2, r2, import);
            let (b2, d2) = merge_entry(b1, n1, r1, import);
            &&& forall|n: Seq<char>| #[trigger] lookup(a2, n) == lookup(b2, n)
            &&& (c1 || c2) == (d1 || d2)
        }),
{
    let (e1, c1) = merged_value(lookup(s, n1), r1, import);
    let (e2, c2) = merged_value(lookup(s, n2), r2, import);
    let a1 = insert(s, n1, e1);
    let b1 = insert(s, n2, e2);
    lemma_lookup_insert(s, n1, e1, n2);
    lemma_lookup_insert(s, n2, e2, n1);
    let a2 = insert(a1, n2, e2);
    let b2 = insert(b1, n1, e1);
    assert forall|n: Seq<char>| #[trigger] lookup(a2, n) == lookup(b2, n) by {
        lemma_lookup_insert(a1, n2, e2, n);
        lemma_lookup_insert(b1, n1, e1, n);
        lemma_lookup_insert(s, n1, e1, n);
        lemma_lookup_insert(s, n2, e2, n);
    }
}

} // verus!
