use vstd::prelude::*;
use crate::defs::{Enum, EnumVariant, Module, ModuleDef, Name};
use crate::input::{Db, Path, PathKind};
use crate::per_ns::PerNs;
use crate::scope::{lookup, scope_of, spec_resolve_name, ItemMap, ItemMapModel};

verus! {

/// Whether a path resolution is final: `Yes` when no later addition to the
/// map under construction can change it.
#[derive(Clone, Copy, Debug, PartialEq, Eq, Structural)]
pub enum ReachedFixedPoint {
    Yes,
    No,
}

/// Position of the first occurrence of `name` in `names`.
pub open spec fn position(names: Seq<Seq<char>>, name: Seq<char>) -> Option<int>
    decreases names.len(),
{
    if names.len() == 0 {
        None
    } else if names[0] == name {
        Some(0)
    } else {
        match position(names.drop_first(), name) {
            Some(i) => Some(i + 1),
            None => None,
        }
    }
}

pub open spec fn no_def() -> PerNs<ModuleDef> {
    PerNs { types: None, values: None }
}

/// Resolves `segs[i..]` starting from `curr`, the meaning of the segments
/// before `i`. `map` is the map of crate `krate`; `foreign` is set once the
/// walk has left the crate under resolution, whose answers are all final.
/// Returns the meaning and whether it is final.
pub open spec fn walk(
    db: Db,
    map: ItemMapModel,
    krate: usize,
    foreign: bool,
    segs: Seq<Seq<char>>,
    i: int,
    curr: PerNs<ModuleDef>,
) -> (PerNs<ModuleDef>, bool)
    decreases segs.len() - i,
{
    if i >= segs.len() {
        (curr, true)
    } else {
        match curr.types {
            None => (no_def(), foreign),
            Some(ModuleDef::Module(m)) => {
                if m.krate != krate && db.item_map_of(m.krate) is None {
                    (no_def(), true)
                } else {
                    let map2 = if m.krate != krate {
                        db.item_map_of(m.krate)->0@
                    } else {
                        map
                    };
                    let foreign2 = foreign || m.krate != krate;
                    match lookup(scope_of(map2.modules, m.module_id as int), segs[i]) {
                        Some(res) => if res.def.spec_is_none() {
                            (no_def(), foreign2)
                        } else {
                            walk(db, map2, m.krate, foreign2, segs, i + 1, res.def)
                        },
                        None => (no_def(), foreign2),
                    }
                }
            },
            Some(ModuleDef::Enum(e)) => match position(db.variant_names(e.krate, e.id), segs[i]) {
                Some(v) => walk(
                    db,
                    map,
                    krate,
                    foreign,
                    segs,
                    i + 1,
                    PerNs {
                        types: Some(ModuleDef::EnumVariant(EnumVariant { parent: e, index: v as usize })),
                        values: Some(ModuleDef::Enum(e)),
                    },
                ),
                None => (no_def(), true),
            },
            Some(_) => (no_def(), true),
        }
    }
}

/// Resolution of a path of kind `kind` with segments `segs`, seen from
/// `origin`, against `map`, the map of `origin`'s crate.
pub open spec fn spec_resolve_path(
    db: Db,
    map: ItemMapModel,
    origin: Module,
    kind: PathKind,
    segs: Seq<Seq<char>>,
) -> (PerNs<ModuleDef>, bool) {
    let k = origin.krate;
    let tree = db.crates@[k as int].module_tree;
    let types_of = |m: usize| PerNs { types: Some(ModuleDef::Module(Module { krate: k, module_id: m })), values: None };
    match kind {
        PathKind::Crate => walk(db, map, k, false, segs, 0, types_of(tree.root_of(origin.module_id as int) as usize)),
        PathKind::Self_ => walk(db, map, k, false, segs, 0, types_of(origin.module_id)),
        PathKind::Plain => if segs.len() == 0 {
            (no_def(), true)
        } else {
            walk(db, map, k, false, segs, 1, spec_resolve_name(map, origin.module_id as int, segs[0]))
        },
        PathKind::Super => match tree.spec_parent(origin.module_id as int) {
            Some(p) => walk(db, map, k, false, segs, 0, types_of(p)),
            None => (no_def(), true),
        },
        PathKind::Abs => if segs.len() == 0 {
            (no_def(), true)
        } else {
            match lookup(map.extern_prelude, segs[0]) {
                Some(d) => walk(db, map, k, false, segs, 1, PerNs { types: Some(d), values: None }),
                None => (no_def(), false),
            }
        },
    }
}

/// The position of `name` among the variants of `e`.
fn variant_index(db: &Db, e: Enum, name: &Name) -> (r: Option<usize>)
    ensures
        match r {
            Some(v) => position(db.variant_names(e.krate, e.id), name@) == Some(v as int),
            None => position(db.variant_names(e.krate, e.id), name@) is None,
        },
{
    if e.krate >= db.crates.len() || e.id >= db.crates[e.krate].enums.len() {
        return None;
    }
    let variants = &db.crates[e.krate].enums[e.id].variants;
    let ghost names = db.variant_names(e.krate, e.id);
    assert(names.subrange(0, names.len() as int) =~= names);
    let mut i: usize = 0;
    while i < variants.len()
        invariant
            names == db.variant_names(e.krate, e.id),
            names == variants@.map_values(|n: Name| n@),
            i <= variants@.len(),
            position(names, name@) == match position(names.subrange(i as int, names.len() as int), name@) {
                Some(k) => Some(k + i),
                None => None,
            },
        decreases variants.len() - i,
    {
        let ghost rest = names.subrange(i as int, names.len() as int);
        assert(rest.drop_first() =~= names.subrange(i + 1, names.len() as int));
        assert(rest.len() > 0 && rest[0] == variants@[i as int]@);
        if variants[i].same_as(name) {
            assert(position(rest, name@) == Some(0int));
            assert(position(names, name@) == Some(i as int));
            return Some(i);
        }
        i = i + 1;
    }
    assert(position(names.subrange(i as int, names.len() as int), name@) is None);
    None
}

fn no_def_exec() -> (r: PerNs<ModuleDef>)
    ensures
        r == no_def(),
{
    PerNs::none()
}

fn fixed_point(b: bool) -> (r: ReachedFixedPoint)
    ensures
        (r == ReachedFixedPoint::Yes) == b,
{
    if b {
        ReachedFixedPoint::Yes
    } else {
        ReachedFixedPoint::No
    }
}

impl ItemMap {
    /// Resolves `segments[start..]` from `curr`; see [`walk`].
    fn walk_segments<'a>(
        &'a self,
        db: &'a Db,
        krate: usize,
        segments: &Vec<Name>,
        start: usize,
        curr: PerNs<ModuleDef>,
    ) -> (r: (PerNs<ModuleDef>, ReachedFixedPoint))
        ensures
            ({
                let s = walk(*db, self@, krate, false, segments@.map_values(|n: Name| n@), start as int, curr);
                r.0 == s.0 && (r.1 == ReachedFixedPoint::Yes) == s.1
            }),
    {
        let ghost segs = segments@.map_values(|n: Name| n@);
        let ghost goal = walk(*db, self@, krate, false, segs, start as int, curr);
        let mut map: &'a ItemMap = self;
        let mut cur_krate = krate;
        let mut foreign = false;
        let mut cur = curr;
        let mut i = start;
        while i < segments.len()
            invariant
                segs == segments@.map_values(|n: Name| n@),
                goal == walk(*db, self@, krate, false, segs, start as int, curr),
                goal == walk(*db, map@, cur_krate, foreign, segs, i as int, cur),
            decreases segments.len() - i,
        {
            let seg = &segments[i];
            assert(segs[i as int] == seg@);
            assert(segs.len() == segments@.len());
            assert(goal == walk(*db, map@, cur_krate, foreign, segs, i as int, cur));
            match cur.types {
                None => {
                    return (no_def_exec(), fixed_point(foreign));
                },
                Some(ModuleDef::Module(m)) => {
                    if m.krate != cur_krate {
                        if m.krate >= db.item_maps.len() {
                            return (no_def_exec(), ReachedFixedPoint::Yes);
                        }
                        match &db.item_maps[m.krate] {
                            Some(fm) => {
                                map = fm;
                            },
                            None => {
                                return (no_def_exec(), ReachedFixedPoint::Yes);
                            },
                        }
                        cur_krate = m.krate;
                        foreign = true;
                    }
                    if m.module_id >= map.per_module.len() {
                        return (no_def_exec(), fixed_point(foreign));
                    }
                    match map.per_module[m.module_id].get(seg) {
                        Some(res) => {
                            if res.def.is_none() {
                                return (no_def_exec(), fixed_point(foreign));
                            }
                            cur = res.def;
                        },
                        None => {
                            return (no_def_exec(), fixed_point(foreign));
                        },
                    }
                },
                Some(ModuleDef::Enum(e)) => {
                    match variant_index(db, e, seg) {
                        Some(v) => {
                            cur =
                                PerNs::both(
                                    ModuleDef::EnumVariant(EnumVariant { parent: e, index: v }),
                                    ModuleDef::Enum(e),
                                );
                        },
                        None => {
                            return (no_def_exec(), ReachedFixedPoint::Yes);
                        },
                    }
                },
                Some(_) => {
                    return (no_def_exec(), ReachedFixedPoint::Yes);
                },
            }
            i = i + 1;
        }
        (cur, ReachedFixedPoint::Yes)
    }

    /// Resolves `path` as seen from `origin`, and says whether the answer
    /// is final.
    pub fn resolve_path_fp(&self, db: &Db, origin: Module, path: &Path) -> (r: (
        PerNs<ModuleDef>,
        ReachedFixedPoint,
    ))
        requires
            origin.krate < db.crates@.len(),
            db.crates@[origin.krate as int].wf(),
            origin.module_id < self@.modules.len(),
        ensures
            ({
                let s = spec_resolve_path(*db, self@, origin, path.kind, path.segments_view());
                r.0 == s.0 && (r.1 == ReachedFixedPoint::Yes) == s.1
            }),
    {
        let k = origin.krate;
        let tree = &db.crates[k].module_tree;
        let segments = &path.segments;
        match path.kind {
            PathKind::Crate => {
                let root = origin.crate_root_impl(tree);
                self.walk_segments(db, k, segments, 0, PerNs::types(ModuleDef::Module(root)))
            },
            PathKind::Self_ => self.walk_segments(db, k, segments, 0, PerNs::types(ModuleDef::Module(origin))),
            PathKind::Plain => {
                if segments.len() == 0 {
                    return (no_def_exec(), ReachedFixedPoint::Yes);
                }
                let first = self.resolve_name_in_module(origin, &segments[0]);
                self.walk_segments(db, k, segments, 1, first)
            },
            PathKind::Super => match origin.parent_impl(tree) {
                Some(p) => self.walk_segments(db, k, segments, 0, PerNs::types(ModuleDef::Module(p))),
                None => (no_def_exec(), ReachedFixedPoint::Yes),
            },
            PathKind::Abs => {
                if segments.len() == 0 {
                    return (no_def_exec(), ReachedFixedPoint::Yes);
                }
                match self.prelude_get(&segments[0]) {
                    Some(d) => self.walk_segments(db, k, segments, 1, PerNs::types(d)),
                    None => (no_def_exec(), ReachedFixedPoint::No),
                }
            },
        }
    }

    /// The meaning of `path` as seen from `origin`.
    pub fn resolve_path(&self, db: &Db, origin: Module, path: &Path) -> (r: PerNs<ModuleDef>)
        requires
            origin.krate < db.crates@.len(),
            db.crates@[origin.krate as int].wf(),
            origin.module_id < self@.modules.len(),
        ensures
            r == spec_resolve_path(*db, self@, origin, path.kind, path.segments_view()).0,
    {
        self.resolve_path_fp(db, origin, path).0
    }
}

} // verus!
