//! The Layout Manager: emission order and field indices.

use bucc::ast::{BlockNode, ClassNode, FieldNode, Location, Type, TypeNode};
use bucc::errors::CodegenError;
use bucc::layout::{dependency_order, ClassInfo, SizeManager};

fn loc() -> Location {
    Location::anonymous()
}

fn field(name: &str, typ: Type) -> FieldNode {
    FieldNode {
        location: loc(),
        name: name.to_string(),
        type_def: TypeNode { location: loc(), typ },
    }
}

fn class(name: &str, fields: Vec<FieldNode>) -> ClassNode {
    ClassNode {
        location: loc(),
        name: name.to_string(),
        fields,
        methods: Vec::new(),
        features: Vec::new(),
        has_constructor: false,
    }
}

fn block() -> BlockNode {
    BlockNode { location: loc(), statements: Vec::new() }
}

#[test]
fn chain_orders_contained_first() {
    // A contains B by value, B contains C: emission order must place C
    // before B before A.
    let classes = vec![
        class("A", vec![field("b", Type::Struct("B".to_string()))]),
        class("B", vec![field("c", Type::Struct("C".to_string()))]),
        class("C", vec![field("x", Type::I32)]),
    ];
    let order = dependency_order(&classes).unwrap();
    let pos = |i: usize| order.iter().position(|&v| v == i).unwrap();
    assert!(pos(2) < pos(1), "C before B");
    assert!(pos(1) < pos(0), "B before A");
    let _ = block();
}

#[test]
fn diamond_orders_every_dependency_first() {
    // D at the bottom, B and C contain D, A contains B and C.
    let classes = vec![
        class(
            "A",
            vec![
                field("b", Type::Struct("B".to_string())),
                field("c", Type::Struct("C".to_string())),
            ],
        ),
        class("B", vec![field("d", Type::Struct("D".to_string()))]),
        class("C", vec![field("d", Type::Struct("D".to_string()))]),
        class("D", vec![field("x", Type::I64)]),
    ];
    let order = dependency_order(&classes).unwrap();
    assert_eq!(order.len(), 4);
    let pos = |i: usize| order.iter().position(|&v| v == i).unwrap();
    assert!(pos(3) < pos(1) && pos(3) < pos(2));
    assert!(pos(1) < pos(0) && pos(2) < pos(0));
}

#[test]
fn cycle_fails_registration() {
    let classes = vec![
        class("A", vec![field("b", Type::Struct("B".to_string()))]),
        class("B", vec![field("a", Type::Struct("A".to_string()))]),
    ];
    match dependency_order(&classes) {
        Err(e) => assert!(e == CodegenError::CyclicDependency),
        Ok(_) => panic!("a cyclic containment graph must fail"),
    }
}

#[test]
fn self_containment_fails_registration() {
    let classes = vec![class("A", vec![field("a", Type::Struct("A".to_string()))])];
    match dependency_order(&classes) {
        Err(e) => assert!(e == CodegenError::CyclicDependency),
        Ok(_) => panic!("self containment is a cycle"),
    }
}

#[test]
fn field_indices_distinct_and_stable() {
    let mut ci = ClassInfo::new();
    ci.add_field("x", &Type::I32);
    ci.add_field("y", &Type::I32);
    ci.add_field("z", &Type::Bool);
    // Distinct indices covering the whole range, in declaration order.
    assert_eq!(ci.get_field_index("x"), 0);
    assert_eq!(ci.get_field_index("y"), 1);
    assert_eq!(ci.get_field_index("z"), 2);
    // Stable across repeated calls within one compilation.
    assert_eq!(ci.get_field_index("y"), 1);
    assert_eq!(ci.get_field_index("x"), 0);
}

#[test]
fn size_manager_keeps_layouts_apart() {
    let mut sm = SizeManager::new();
    sm.add_struct("P");
    sm.add_struct("Q");
    sm.add_field("P", "x", &Type::I32);
    sm.add_field("Q", "a", &Type::I64);
    sm.add_field("P", "y", &Type::Bool);
    let p = sm.get_struct_info("P");
    assert_eq!(p.get_field_index("x"), 0);
    assert_eq!(p.get_field_index("y"), 1);
    let q = sm.get_struct_info("Q");
    assert_eq!(q.get_field_index("a"), 0);
}
