//! Symbol registration of the type-checking phase: redeclarations, the
//! implicit receiver, and field-type validation.

use bucc::ast::{
    BlockNode, ClassNode, FeatureNode, FieldNode, FileNode, FunctionNode, Location, Type,
    TypeNode,
};
use bucc::checker::{Class, Method, Parameter, TypeChecker, Variable};

fn loc() -> Location {
    Location::anonymous()
}

fn tn(typ: Type) -> TypeNode {
    TypeNode { location: loc(), typ }
}

fn field(name: &str, typ: Type) -> FieldNode {
    FieldNode { location: loc(), name: name.to_string(), type_def: tn(typ) }
}

fn empty_block() -> BlockNode {
    BlockNode { location: loc(), statements: Vec::new() }
}

fn class_node(name: &str, fields: Vec<FieldNode>) -> ClassNode {
    ClassNode {
        location: loc(),
        name: name.to_string(),
        fields,
        methods: vec![],
        features: vec![],
        has_constructor: false,
    }
}

fn func_node(name: &str) -> FunctionNode {
    FunctionNode {
        location: loc(),
        name: name.to_string(),
        return_type: tn(Type::Void),
        parameters: vec![],
        block: empty_block(),
        stack_size: 0,
    }
}

fn file(classes: Vec<ClassNode>, functions: Vec<FunctionNode>) -> FileNode {
    FileNode {
        location: loc(),
        filepath: "test.bu".to_string(),
        functions,
        classes,
        externs: Vec::new(),
    }
}

#[test]
fn valid_file_checks_and_registers_everything() {
    let f = file(
        vec![class_node("P", vec![field("x", Type::I32)])],
        vec![func_node("main"), func_node("helper")],
    );
    let mut tc = TypeChecker::new();
    let r = tc.type_check_file(&f);
    assert!(r.is_ok());
    assert!(matches!(r.unwrap(), Type::Void));
    assert!(tc.knows_class("P"));
    assert!(!tc.knows_class("Q"));
}

#[test]
fn duplicate_class_is_rejected() {
    let f = file(vec![class_node("P", vec![]), class_node("P", vec![])], vec![]);
    let mut tc = TypeChecker::new();
    assert!(tc.type_check_file(&f).is_err());
}

#[test]
fn duplicate_field_is_rejected() {
    let f = file(
        vec![class_node("P", vec![field("x", Type::I32), field("x", Type::I64)])],
        vec![],
    );
    let mut tc = TypeChecker::new();
    assert!(tc.type_check_file(&f).is_err());
}

#[test]
fn duplicate_function_is_rejected() {
    let f = file(vec![], vec![func_node("twice"), func_node("twice")]);
    let mut tc = TypeChecker::new();
    assert!(tc.type_check_file(&f).is_err());
}

#[test]
fn unknown_field_type_is_rejected() {
    let f = file(
        vec![class_node("P", vec![field("q", Type::Struct("Missing".to_string()))])],
        vec![],
    );
    let mut tc = TypeChecker::new();
    assert!(tc.type_check_file(&f).is_err());
}

#[test]
fn field_type_naming_a_declared_class_is_accepted() {
    let f = file(
        vec![
            class_node("Q", vec![field("x", Type::I32)]),
            class_node("P", vec![field("q", Type::Struct("Q".to_string()))]),
        ],
        vec![],
    );
    let mut tc = TypeChecker::new();
    assert!(tc.type_check_file(&f).is_ok());
}

#[test]
fn implicit_this_is_inserted_first() {
    let mut m = Method {
        name: "move_by".to_string(),
        location: loc(),
        return_type: Type::Void,
        parameters: vec![Parameter {
            name: "delta".to_string(),
            location: loc(),
            typ: Type::I32,
        }],
    };
    let ct = Type::Struct("P".to_string());
    assert!(m.add_this_param(&ct).is_ok());
    assert_eq!(m.parameters.len(), 2);
    assert_eq!(m.parameters[0].name, "this");
    assert_eq!(m.parameters[1].name, "delta");
}

#[test]
fn misplaced_this_is_rejected() {
    let mut m = Method {
        name: "move_by".to_string(),
        location: loc(),
        return_type: Type::Void,
        parameters: vec![
            Parameter { name: "delta".to_string(), location: loc(), typ: Type::I32 },
            Parameter {
                name: "this".to_string(),
                location: loc(),
                typ: Type::Struct("P".to_string()),
            },
        ],
    };
    let ct = Type::Struct("P".to_string());
    assert!(m.add_this_param(&ct).is_err());
}

#[test]
fn wrongly_typed_declared_this_is_rejected() {
    let mut m = Method {
        name: "move_by".to_string(),
        location: loc(),
        return_type: Type::Void,
        parameters: vec![Parameter {
            name: "this".to_string(),
            location: loc(),
            typ: Type::I32,
        }],
    };
    let ct = Type::Struct("P".to_string());
    assert!(m.add_this_param(&ct).is_err());
}

#[test]
fn unknown_feature_is_rejected() {
    let mut class = Class::new("P".to_string());
    let feature = FeatureNode {
        location: loc(),
        class_name: "P".to_string(),
        name: "teleport".to_string(),
        return_type: tn(Type::Void),
        parameters: vec![],
        block: empty_block(),
        stack_size: 0,
        is_constructor: false,
    };
    assert!(class.add_feature(&feature).is_err());
    let new_feature = FeatureNode {
        location: loc(),
        class_name: "P".to_string(),
        name: "new".to_string(),
        return_type: tn(Type::Void),
        parameters: vec![],
        block: empty_block(),
        stack_size: 0,
        is_constructor: true,
    };
    assert!(class.add_feature(&new_feature).is_ok());
}

#[test]
fn variable_scopes_shadow_innermost_first() {
    let mut tc = TypeChecker::new();
    tc.add_scope();
    tc.known_variables[0].push((
        "x".to_string(),
        Variable::new("x".to_string(), loc(), Type::I32),
    ));
    tc.add_scope();
    tc.known_variables[1].push((
        "x".to_string(),
        Variable::new("x".to_string(), loc(), Type::Bool),
    ));
    let v = tc.get_variable(&"x".to_string()).expect("bound");
    assert!(matches!(v.typ, Type::Bool), "innermost binding wins");
    tc.remove_scope();
    let v2 = tc.get_variable(&"x".to_string()).expect("still bound");
    assert!(matches!(v2.typ, Type::I32), "outer binding is visible again");
    tc.remove_scope();
    assert!(tc.get_variable(&"x".to_string()).is_none());
}
