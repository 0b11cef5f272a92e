use vstd::prelude::*;
use crate::defs::{Module, Name};

verus! {

/// One module of a crate: its link to the parent and its direct children.
pub struct ModuleData {
    /// The parent module; `None` for the crate root.
    pub parent: Option<usize>,
    /// The name under which the parent declares this module.
    pub name: Option<Name>,
    /// The directly declared child modules, in declaration order.
    pub children: Vec<(Name, usize)>,
}

impl ModuleData {
    pub open spec fn children_view(self) -> Seq<(Seq<char>, usize)> {
        self.children@.map_values(|c: (Name, usize)| (c.0@, c.1))
    }
}

/// The module hierarchy of one crate; modules are numbered densely.
pub struct ModuleTree {
    pub modules: Vec<ModuleData>,
}

/// Index of the first entry of `entries` keyed by `name`.
pub open spec fn first_index<V>(entries: Seq<(Seq<char>, V)>, name: Seq<char>) -> Option<int>
    decreases entries.len(),
{
    if entries.len() == 0 {
        None
    } else if entries[0].0 == name {
        Some(0)
    } else {
        match first_index(entries.drop_first(), name) {
            Some(i) => Some(i + 1),
            None => None,
        }
    }
}

impl ModuleTree {
    /// Module 0 is the only one without a parent, parents precede their
    /// children, and every child index names a module.
    pub open spec fn wf(self) -> bool {
        forall|m: int|
            #![trigger self.modules@[m]]
            0 <= m < self.modules@.len() ==> {
                &&& (m > 0 ==> self.modules@[m].parent is Some)
                &&& (self.modules@[m].parent matches Some(p) ==> p < m)
                &&& forall|j: int|
                    0 <= j < self.modules@[m].children@.len()
                        ==> #[trigger] self.modules@[m].children@[j].1 < self.modules@.len()
            }
    }

    pub open spec fn spec_parent(self, m: int) -> Option<usize> {
        if 0 <= m < self.modules@.len() {
            self.modules@[m].parent
        } else {
            None
        }
    }

    /// The module reached from `m` by following parent links to the top.
    pub open spec fn root_of(self, m: int) -> int
        decreases m,
    {
        if 0 <= m < self.modules@.len() {
            match self.modules@[m].parent {
                Some(p) => if p < m {
                    self.root_of(p as int)
                } else {
                    m
                },
                None => m,
            }
        } else {
            m
        }
    }
}

impl Module {
    pub fn with_module_id(&self, module_id: usize) -> (r: Module)
        ensures
            r == (Module { krate: self.krate, module_id }),
    {
        Module { module_id, krate: self.krate }
    }

    /// The name under which the parent declares this module.
    pub fn name_impl(&self, tree: &ModuleTree) -> (r: Option<Name>)
        requires
            self.module_id < tree.modules@.len(),
        ensures
            r is Some <==> tree.modules@[self.module_id as int].name is Some,
            r is Some ==> r->0@ == tree.modules@[self.module_id as int].name->0@,
    {
        match &tree.modules[self.module_id].name {
            Some(n) => Some(n.duplicate()),
            None => None,
        }
    }

    /// The root module of this module's crate.
    pub fn crate_root_impl(&self, tree: &ModuleTree) -> (r: Module)
        requires
            tree.wf(),
        ensures
            r == (Module { krate: self.krate, module_id: tree.root_of(self.module_id as int) as usize }),
    {
        let mut cur: usize = self.module_id;
        loop
            invariant
                tree.wf(),
                tree.root_of(cur as int) == tree.root_of(self.module_id as int),
            ensures
                tree.root_of(cur as int) == cur,
            decreases cur,
        {
            if cur >= tree.modules.len() {
                break;
            }
            match tree.modules[cur].parent {
                Some(p) => {
                    cur = p;
                },
                None => {
                    break;
                },
            }
        }
        self.with_module_id(cur)
    }

    /// Finds a child module with the given name.
    pub fn child_impl(&self, tree: &ModuleTree, name: &Name) -> (r: Option<Module>)
        requires
            self.module_id < tree.modules@.len(),
        ensures
            r == (match first_index(tree.modules@[self.module_id as int].children_view(), name@) {
                Some(i) => Some(
                    Module {
                        krate: self.krate,
                        module_id: tree.modules@[self.module_id as int].children@[i].1,
                    },
                ),
                None => None,
            }),
    {
        let children = &tree.modules[self.module_id].children;
        let ghost cv = tree.modules@[self.module_id as int].children_view();
        let mut i: usize = 0;
        assert(cv.subrange(0, cv.len() as int) =~= cv);
        while i < children.len()
            invariant
                children@ == tree.modules@[self.module_id as int].children@,
                cv == children@.map_values(|c: (Name, usize)| (c.0@, c.1)),
                i <= children@.len(),
                first_index(cv, name@) == match first_index(cv.subrange(i as int, cv.len() as int), name@) {
                    Some(k) => Some(k + i),
                    None => None,
                },
            decreases children.len() - i,
        {
            let ghost rest = cv.subrange(i as int, cv.len() as int);
            assert(rest.drop_first() =~= cv.subrange(i + 1, cv.len() as int));
            assert(rest[0] == cv[i as int]);
            assert(rest.len() > 0);
            if children[i].0.same_as(name) {
                assert(first_index(rest, name@) == Some(0int));
                assert(first_index(cv, name@) == Some(i as int));
                return Some(self.with_module_id(children[i].1));
            }
            i = i + 1;
        }
        assert(cv.subrange(i as int, cv.len() as int).len() == 0);
        assert(first_index(cv.subrange(i as int, cv.len() as int), name@) is None);
        assert(first_index(cv, name@) is None);
        None
    }

    /// All direct child modules, in declaration order.
    pub fn children_impl(&self, tree: &ModuleTree) -> (r: Vec<Module>)
        requires
            self.module_id < tree.modules@.len(),
        ensures
            r@.len() == tree.modules@[self.module_id as int].children@.len(),
            forall|i: int|
                0 <= i < r@.len() ==> #[trigger] r@[i] == (Module {
                    krate: self.krate,
                    module_id: tree.modules@[self.module_id as int].children@[i].1,
                }),
    {
        let children = &tree.modules[self.module_id].children;
        let mut r: Vec<Module> = Vec::new();
        let mut i: usize = 0;
        while i < children.len()
            invariant
                i <= children@.len(),
                r@.len() == i,
                forall|k: int|
                    0 <= k < i ==> #[trigger] r@[k] == (Module {
                        krate: self.krate,
                        module_id: children@[k].1,
                    }),
            decreases children.len() - i,
        {
            r.push(self.with_module_id(children[i].1));
            i = i + 1;
        }
        r
    }

    /// The parent module, if this is not the crate root.
    pub fn parent_impl(&self, tree: &ModuleTree) -> (r: Option<Module>)
        ensures
            r == (match tree.spec_parent(self.module_id as int) {
                Some(p) => Some(Module { krate: self.krate, module_id: p }),
                None => None,
            }),
    {
        if self.module_id < tree.modules.len() {
            match tree.modules[self.module_id].parent {
                Some(p) => Some(self.with_module_id(p)),
                None => None,
            }
        } else {
            None
        }
    }
}

} // verus!
