use ra_hir::defs::{Module, Name};
use ra_hir::docs::Documentation;
use ra_hir::module_tree::{ModuleData, ModuleTree};
use ra_hir::per_ns::{Namespace, PerNs};

#[test]
fn per_ns_constructors() {
    assert_eq!(PerNs::<u32>::none(), PerNs { types: None, values: None });
    assert_eq!(PerNs::types(1u32), PerNs { types: Some(1), values: None });
    assert_eq!(PerNs::values(2u32), PerNs { types: None, values: Some(2) });
    assert_eq!(PerNs::both(1u32, 2), PerNs { types: Some(1), values: Some(2) });
    assert_eq!(PerNs::<u32>::default(), PerNs::none());
}

#[test]
fn per_ns_queries() {
    assert!(PerNs::<u32>::none().is_none());
    assert!(!PerNs::types(1u32).is_none());
    assert!(PerNs::both(1u32, 2).is_both());
    assert!(!PerNs::values(1u32).is_both());
    let p = PerNs::both(1u32, 2);
    assert_eq!(p.take(Namespace::Types), Some(1));
    assert_eq!(p.take(Namespace::Values), Some(2));
    assert_eq!(p.take_types(), Some(1));
    assert_eq!(p.take_values(), Some(2));
    assert_eq!(p.get(Namespace::Values), Some(&2));
    assert_eq!(PerNs::types(5u32).get(Namespace::Values), None);
    assert_eq!(p.as_ref(), PerNs { types: Some(&1), values: Some(&2) });
}

#[test]
fn per_ns_or_keeps_existing_slots() {
    let a = PerNs::types(1u32);
    let b = PerNs::both(3u32, 4);
    assert_eq!(a.or(b), PerNs::both(1, 4));
    assert_eq!(PerNs::none().or(b), b);
    assert_eq!(b.or(PerNs::none()), b);
}

#[test]
fn per_ns_map_and_and_then_are_slot_wise() {
    let p = PerNs::both(3u32, 4);
    assert_eq!(p.map(|x| x * 10), PerNs::both(30, 40));
    assert_eq!(PerNs::values(4u32).map(|x| x + 1), PerNs::values(5));
    assert_eq!(p.and_then(|x| if x % 2 == 0 { Some(x / 2) } else { None }), PerNs::values(2));
    assert_eq!(PerNs::<u32>::none().and_then(|x| Some(x)), PerNs::none());
}

#[test]
fn documentation_keeps_its_text() {
    let d = Documentation::new("Holds things.");
    assert_eq!(d.contents(), "Holds things.");
    assert_eq!(Documentation::new("").contents(), "");
}

#[test]
fn names_compare_by_text() {
    let a = Name::new("foo");
    assert!(a.same_as(&Name::new("foo")));
    assert!(!a.same_as(&Name::new("bar")));
    assert_eq!(a.duplicate().as_str(), "foo");
}

fn tree() -> ModuleTree {
    // 0 { a (1) { c (3) }, b (2) }
    ModuleTree {
        modules: vec![
            ModuleData { parent: None, name: None, children: vec![(Name::new("a"), 1), (Name::new("b"), 2)] },
            ModuleData { parent: Some(0), name: Some(Name::new("a")), children: vec![(Name::new("c"), 3)] },
            ModuleData { parent: Some(0), name: Some(Name::new("b")), children: vec![] },
            ModuleData { parent: Some(1), name: Some(Name::new("c")), children: vec![] },
        ],
    }
}

#[test]
fn module_tree_navigation() {
    let t = tree();
    let c = Module { krate: 4, module_id: 3 };
    assert_eq!(c.crate_root_impl(&t), Module { krate: 4, module_id: 0 });
    assert_eq!(c.parent_impl(&t), Some(Module { krate: 4, module_id: 1 }));
    assert_eq!(c.with_module_id(2), Module { krate: 4, module_id: 2 });
    let root = Module { krate: 4, module_id: 0 };
    assert_eq!(root.parent_impl(&t), None);
    assert_eq!(root.children_impl(&t), vec![Module { krate: 4, module_id: 1 }, Module { krate: 4, module_id: 2 }]);
    assert_eq!(root.child_impl(&t, &Name::new("b")), Some(Module { krate: 4, module_id: 2 }));
    assert_eq!(root.child_impl(&t, &Name::new("c")), None);
    assert_eq!(c.name_impl(&t).map(|n| n.as_str().to_string()), Some("c".to_string()));
    assert!(root.name_impl(&t).is_none());
}

#[test]
fn documentation_converts_into_its_text() {
    let s: String = Documentation::new("Short.").into();
    assert_eq!(s, "Short.");
}
