use vstd::prelude::*;
use crate::defs::{ModuleDef, Name};
use crate::module_tree::ModuleTree;
use crate::per_ns::PerNs;
use crate::scope::ItemMap;

verus! {

/// How the first segment of a path is found.
#[derive(Clone, Copy, Debug, PartialEq, Eq, Structural)]
pub enum PathKind {
    /// Looked up in the module's scope, then in the extern prelude.
    Plain,
    /// `self::`: the originating module.
    Self_,
    /// `super::`: the parent of the originating module.
    Super,
    /// `crate::`: the crate root.
    Crate,
    /// `::name`: looked up in the extern prelude only.
    Abs,
}

/// A qualified path.
pub struct Path {
    pub kind: PathKind,
    pub segments: Vec<Name>,
}

impl Path {
    pub open spec fn segments_view(self) -> Seq<Seq<char>> {
        self.segments@.map_values(|n: Name| n@)
    }
}

/// One `use` or `extern crate` declaration.
pub struct ImportData {
    pub path: Path,
    pub alias: Option<Name>,
    pub is_glob: bool,
    pub is_extern_crate: bool,
}

impl ImportData {
    /// The name under which a non-glob import is visible: its alias, or else
    /// the last segment of its path.
    pub open spec fn visible_name(self) -> Option<Seq<char>> {
        match self.alias {
            Some(a) => Some(a@),
            None => if self.path.segments@.len() > 0 {
                Some(self.path.segments@.last()@)
            } else {
                None
            },
        }
    }
}

/// What lowering found in one module: its declared items, and its imports,
/// each identified by its position.
pub struct LoweredModule {
    pub declarations: Vec<(Name, PerNs<ModuleDef>)>,
    pub imports: Vec<ImportData>,
}

/// The variant names of an enum, in declaration order.
pub struct EnumData {
    pub variants: Vec<Name>,
}

/// A crate that another crate depends on, and the name it is known by.
pub struct Dependency {
    pub name: Name,
    pub krate: usize,
}

/// Everything known about one crate before import resolution. Module 0 is
/// the crate root.
pub struct CrateData {
    pub module_tree: ModuleTree,
    pub lowered: Vec<LoweredModule>,
    pub enums: Vec<EnumData>,
    pub dependencies: Vec<Dependency>,
}

impl CrateData {
    pub open spec fn wf(self) -> bool {
        &&& self.module_tree.wf()
        &&& self.lowered@.len() == self.module_tree.modules@.len()
    }
}

/// The crate graph, with the item maps of the crates resolved so far.
pub struct Db {
    pub crates: Vec<CrateData>,
    pub item_maps: Vec<Option<ItemMap>>,
}

impl Db {
    /// Names of the variants of `e`; empty for an unknown enum.
    pub open spec fn variant_names(self, krate: usize, id: usize) -> Seq<Seq<char>> {
        if krate < self.crates@.len() && id < self.crates@[krate as int].enums@.len() {
            self.crates@[krate as int].enums@[id as int].variants@.map_values(|n: Name| n@)
        } else {
            Seq::empty()
        }
    }

    /// The finished item map of crate `krate`, if it is available.
    pub open spec fn item_map_of(self, krate: usize) -> Option<ItemMap> {
        if krate < self.item_maps@.len() {
            self.item_maps@[krate as int]
        } else {
            None
        }
    }

    /// The finished item map of every dependency of crate `krate` is
    /// available.
    pub open spec fn deps_resolved(self, krate: usize) -> bool {
        forall|k: int|
            0 <= k < self.crates@[krate as int].dependencies@.len() ==> self.item_map_of(
                #[trigger] self.crates@[krate as int].dependencies@[k].krate,
            ) is Some
    }

    /// Whether crate `krate` has a root module.
    pub open spec fn has_root(self, krate: usize) -> bool {
        krate < self.crates@.len() && self.crates@[krate as int].module_tree.modules@.len() > 0
    }
}

} // verus!
