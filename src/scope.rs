use vstd::prelude::*;
use crate::defs::{ImportId, Module, ModuleDef, Name};
use crate::per_ns::PerNs;

verus! {

/// Index of the last entry of `entries` keyed by `name`.
pub open spec fn last_index<V>(entries: Seq<(Seq<char>, V)>, name: Seq<char>) -> Option<int>
    decreases entries.len(),
{
    if entries.len() == 0 {
        None
    } else if entries.last().0 == name {
        Some(entries.len() - 1)
    } else {
        last_index(entries.drop_last(), name)
    }
}

/// The value stored under `name`, if any.
pub open spec fn lookup<V>(entries: Seq<(Seq<char>, V)>, name: Seq<char>) -> Option<V> {
    match last_index(entries, name) {
        Some(i) => Some(entries[i].1),
        None => None,
    }
}

/// `entries` with `name` bound to `v`: the entry for `name` is replaced, or
/// a new one is appended.
pub open spec fn insert<V>(entries: Seq<(Seq<char>, V)>, name: Seq<char>, v: V) -> Seq<(Seq<char>, V)> {
    match last_index(entries, name) {
        Some(i) => entries.update(i, (name, v)),
        None => entries.push((name, v)),
    }
}

/// What `last_index` returns, stated directly.
pub proof fn lemma_last_index<V>(entries: Seq<(Seq<char>, V)>, name: Seq<char>)
    ensures
        match last_index(entries, name) {
            Some(i) => 0 <= i < entries.len() && entries[i].0 == name && forall|j: int|
                i < j < entries.len() ==> #[trigger] entries[j].0 != name,
            None => forall|j: int| 0 <= j < entries.len() ==> #[trigger] entries[j].0 != name,
        },
    decreases entries.len(),
{
    if entries.len() > 0 && entries.last().0 != name {
        lemma_last_index(entries.drop_last(), name);
        assert forall|j: int| 0 <= j < entries.len() - 1 implies entries[j] == entries.drop_last()[j] by {}
    }
}

/// `last_index` is the only index holding `name` with no later one.
pub proof fn lemma_last_index_unique<V>(entries: Seq<(Seq<char>, V)>, name: Seq<char>, i: int)
    requires
        0 <= i < entries.len(),
        entries[i].0 == name,
        forall|j: int| i < j < entries.len() ==> #[trigger] entries[j].0 != name,
    ensures
        last_index(entries, name) == Some(i),
{
    lemma_last_index(entries, name);
}

/// Binding a name and reading it back gives the bound value; other names are
/// untouched.
pub proof fn lemma_lookup_insert<V>(entries: Seq<(Seq<char>, V)>, name: Seq<char>, v: V, other: Seq<char>)
    ensures
        lookup(insert(entries, name, v), name) == Some(v),
        other != name ==> lookup(insert(entries, name, v), other) == lookup(entries, other),
{
    let e2 = insert(entries, name, v);
    lemma_last_index(entries, name);
    lemma_last_index(entries, other);
    lemma_last_index(e2, name);
    lemma_last_index(e2, other);
    match last_index(entries, name) {
        Some(i) => {
            lemma_last_index_unique(e2, name, i);
            if other != name {
                match last_index(entries, other) {
                    Some(k) => {
                        lemma_last_index_unique(e2, other, k);
                    },
                    None => {
                        assert forall|j: int| 0 <= j < e2.len() implies #[trigger] e2[j].0 != other by {
                            if j != i {
                                assert(e2[j] == entries[j]);
                            }
                        }
                    },
                }
            }
        },
        None => {
            lemma_last_index_unique(e2, name, entries.len() as int);
            if other != name {
                match last_index(entries, other) {
                    Some(k) => {
                        assert(e2[k] == entries[k]);
                        lemma_last_index_unique(e2, other, k);
                    },
                    None => {
                        assert forall|j: int| 0 <= j < e2.len() implies #[trigger] e2[j].0 != other by {
                            if j < entries.len() {
                                assert(e2[j] == entries[j]);
                            }
                        }
                    },
                }
            }
        },
    }
}

/// What a name resolves to in one scope, and by which import it came in.
#[derive(Clone, Copy, Debug, PartialEq, Eq)]
pub struct Resolution {
    /// What the name denotes; both slots empty while unresolved.
    pub def: PerNs<ModuleDef>,
    /// The import that brought the name into the scope, if any.
    pub import: Option<ImportId>,
}

impl Resolution {
    pub open spec fn empty() -> Resolution {
        Resolution { def: PerNs { types: None, values: None }, import: None }
    }
}

impl Default for Resolution {
    fn default() -> (r: Resolution)
        ensures
            r == Resolution::empty(),
    {
        Resolution { def: PerNs::none(), import: None }
    }
}

/// The names visible in one module, each with its resolution; a name occurs
/// at most once.
#[derive(Debug, PartialEq, Eq)]
pub struct ModuleScope {
    pub items: Vec<(Name, Resolution)>,
}

impl View for ModuleScope {
    type V = Seq<(Seq<char>, Resolution)>;

    open spec fn view(&self) -> Seq<(Seq<char>, Resolution)> {
        self.items@.map_values(|e: (Name, Resolution)| (e.0@, e.1))
    }
}

impl ModuleScope {
    pub fn new() -> (r: ModuleScope)
        ensures
            r@ == Seq::<(Seq<char>, Resolution)>::empty(),
    {
        ModuleScope { items: Vec::new() }
    }

    /// All entries, in the order in which their names first came in.
    pub fn entries(&self) -> (r: &Vec<(Name, Resolution)>)
        ensures
            r@.map_values(|e: (Name, Resolution)| (e.0@, e.1)) == self@,
    {
        &self.items
    }

    /// Position of the entry for `name`.
    pub fn find(&self, name: &Name) -> (r: Option<usize>)
        ensures
            match r {
                Some(i) => i < self.items@.len() && last_index(self@, name@) == Some(i as int),
                None => last_index(self@, name@) is None,
            },
    {
        let ghost v = self@;
        proof {
            lemma_last_index(v, name@);
        }
        let mut i: usize = self.items.len();
        while i > 0
            invariant
                v == self@,
                i <= v.len(),
                forall|j: int| i <= j < v.len() ==> #[trigger] v[j].0 != name@,
            decreases i,
        {
            assert(v[i - 1].0 == self.items@[i - 1].0@);
            if self.items[i - 1].0.same_as(name) {
                proof {
                    lemma_last_index_unique(v, name@, i - 1);
                }
                return Some(i - 1);
            }
            i = i - 1;
        }
        None
    }

    pub fn get(&self, name: &Name) -> (r: Option<&Resolution>)
        ensures
            r is Some <==> lookup(self@, name@) is Some,
            r is Some ==> *(r->0) == lookup(self@, name@)->0,
    {
        match self.find(name) {
            Some(i) => Some(&self.items[i].1),
            None => None,
        }
    }

    /// Binds `name` to `res`, replacing an existing entry for it.
    pub fn insert(&mut self, name: Name, res: Resolution)
        ensures
            final(self)@ == insert(old(self)@, name@, res),
    {
        match self.find(&name) {
            Some(i) => {
                self.items.set(i, (name, res));
                assert(final(self)@ =~= insert(old(self)@, name@, res));
            },
            None => {
                self.items.push((name, res));
                assert(final(self)@ =~= insert(old(self)@, name@, res));
            },
        }
    }
}

/// The spec-level content of an item map.
pub struct ItemMapModel {
    pub extern_prelude: Seq<(Seq<char>, ModuleDef)>,
    pub modules: Seq<Seq<(Seq<char>, Resolution)>>,
}

/// The scope of module `m`; a module outside the map has an empty scope.
pub open spec fn scope_of(modules: Seq<Seq<(Seq<char>, Resolution)>>, m: int) -> Seq<(Seq<char>, Resolution)> {
    if 0 <= m < modules.len() {
        modules[m]
    } else {
        Seq::empty()
    }
}

/// Name lookup in one module: the module's own scope first, then the extern
/// prelude, slot by slot.
pub open spec fn spec_resolve_name(map: ItemMapModel, m: int, name: Seq<char>) -> PerNs<ModuleDef> {
    let from_scope = match lookup(scope_of(map.modules, m), name) {
        Some(res) => res.def,
        None => PerNs { types: None, values: None },
    };
    let from_prelude = match lookup(map.extern_prelude, name) {
        Some(d) => PerNs { types: Some(d), values: None },
        None => PerNs { types: None, values: None },
    };
    from_scope.spec_or(from_prelude)
}

/// The result of import resolution for one crate: the names visible in each
/// of its modules, and the crates visible everywhere by name.
#[derive(Debug, PartialEq, Eq)]
pub struct ItemMap {
    pub extern_prelude: Vec<(Name, ModuleDef)>,
    pub per_module: Vec<ModuleScope>,
}

pub open spec fn modules_view(v: Seq<ModuleScope>) -> Seq<Seq<(Seq<char>, Resolution)>> {
    v.map_values(|s: ModuleScope| s@)
}

pub open spec fn prelude_view(v: Seq<(Name, ModuleDef)>) -> Seq<(Seq<char>, ModuleDef)> {
    v.map_values(|e: (Name, ModuleDef)| (e.0@, e.1))
}

impl View for ItemMap {
    type V = ItemMapModel;

    open spec fn view(&self) -> ItemMapModel {
        ItemMapModel {
            extern_prelude: prelude_view(self.extern_prelude@),
            modules: modules_view(self.per_module@),
        }
    }
}

impl ItemMap {
    /// The scope of a module of this map's crate.
    pub fn index(&self, module_id: usize) -> (r: &ModuleScope)
        requires
            module_id < self.per_module@.len(),
        ensures
            r@ == self@.modules[module_id as int],
    {
        &self.per_module[module_id]
    }

    /// Position of the extern prelude entry for `name`.
    fn prelude_find(&self, name: &Name) -> (r: Option<usize>)
        ensures
            match r {
                Some(i) => i < self.extern_prelude@.len() && last_index(self@.extern_prelude, name@) == Some(i as int),
                None => last_index(self@.extern_prelude, name@) is None,
            },
    {
        let ghost v = self@.extern_prelude;
        proof {
            lemma_last_index(v, name@);
        }
        let mut i: usize = self.extern_prelude.len();
        while i > 0
            invariant
                v == self@.extern_prelude,
                i <= v.len(),
                forall|j: int| i <= j < v.len() ==> #[trigger] v[j].0 != name@,
            decreases i,
        {
            assert(v[i - 1].0 == self.extern_prelude@[i - 1].0@);
            if self.extern_prelude[i - 1].0.same_as(name) {
                proof {
                    lemma_last_index_unique(v, name@, i - 1);
                }
                return Some(i - 1);
            }
            i = i - 1;
        }
        None
    }

    /// The crate bound to `name` in the extern prelude.
    pub fn prelude_get(&self, name: &Name) -> (r: Option<ModuleDef>)
        ensures
            r == lookup(self@.extern_prelude, name@),
    {
        match self.prelude_find(name) {
            Some(i) => Some(self.extern_prelude[i].1),
            None => None,
        }
    }

    /// Binds `name` to `def` in the extern prelude, replacing an existing
    /// entry for it.
    pub fn prelude_insert(&mut self, name: Name, def: ModuleDef)
        ensures
            final(self)@.extern_prelude == insert(old(self)@.extern_prelude, name@, def),
            final(self).per_module == old(self).per_module,
    {
        match self.prelude_find(&name) {
            Some(i) => {
                self.extern_prelude.set(i, (name, def));
            },
            None => {
                self.extern_prelude.push((name, def));
            },
        }
        assert(final(self)@.extern_prelude =~= insert(old(self)@.extern_prelude, name@, def));
    }

    /// Local scope lookup, falling back to the extern prelude; a local entry
    /// wins over a prelude entry of the same name, slot by slot. An entry
    /// whose import is still pending has both slots empty and hides nothing,
    /// so that `extern crate foo;`, whose placeholder is `foo`, can itself
    /// resolve through the prelude.
    pub fn resolve_name_in_module(&self, module: Module, name: &Name) -> (r: PerNs<ModuleDef>)
        requires
            module.module_id < self@.modules.len(),
        ensures
            r == spec_resolve_name(self@, module.module_id as int, name@),
    {
        let from_scope = match self.per_module[module.module_id].get(name) {
            Some(res) => res.def,
            None => PerNs::none(),
        };
        let from_extern_prelude = match self.prelude_get(name) {
            Some(d) => PerNs::types(d),
            None => PerNs::none(),
        };
        from_scope.or(from_extern_prelude)
    }
}

} // verus!
