//! The bundled pipeline: configuration and one compilation front to back.

use bucc::ast::{
    BinaryNode, BlockNode, Expression, ExpressionNode, FileNode, FunctionNode, Location,
    NameNode, Operation, ParameterNode, ReturnNode, Statement, Type, TypeNode,
};
use bucc::compiler::Compiler;

fn loc() -> Location {
    Location::anonymous()
}

#[test]
fn pipeline_checks_and_lowers_a_file() {
    let body = BlockNode {
        location: loc(),
        statements: vec![Statement::Return(ReturnNode {
            location: loc(),
            return_value: Some(ExpressionNode {
                location: loc(),
                expression: Expression::Binary(BinaryNode {
                    location: loc(),
                    operation: Operation::Add,
                    lhs: Box::new(Expression::Name(NameNode {
                        location: loc(),
                        name: "a".to_string(),
                        typ: Type::I32,
                    })),
                    rhs: Box::new(Expression::Name(NameNode {
                        location: loc(),
                        name: "b".to_string(),
                        typ: Type::I32,
                    })),
                    typ: Type::I32,
                }),
            }),
            typ: Type::Unknown,
            function: String::new(),
            class: None,
        })],
    };
    let add = FunctionNode {
        location: loc(),
        name: "add".to_string(),
        return_type: TypeNode { location: loc(), typ: Type::I32 },
        parameters: vec![
            ParameterNode {
                location: loc(),
                name: "a".to_string(),
                typ: TypeNode { location: loc(), typ: Type::I32 },
            },
            ParameterNode {
                location: loc(),
                name: "b".to_string(),
                typ: TypeNode { location: loc(), typ: Type::I32 },
            },
        ],
        block: body,
        stack_size: 0,
    };
    let file = FileNode {
        location: loc(),
        filepath: "prog.bu".to_string(),
        functions: vec![add],
        classes: vec![],
        externs: vec![],
    };
    let mut pipeline = Compiler::new(&"prog.bu".to_string(), false, false).unwrap();
    assert_eq!(pipeline.assembler.path, "prog.bu");
    let module = pipeline.compile_file(&file).expect("the sample must compile");
    assert_eq!(module.functions.len(), 1);
    assert_eq!(module.functions[0].name, "add");
}

#[test]
fn output_names_strip_directory_and_swap_extension() {
    let (obj, exe) = bucc::compiler::output_names(&"dir/sub/prog.bu".to_string());
    assert_eq!(obj, "out/prog.obj");
    assert_eq!(exe, "out/prog.exe");
    let (obj2, exe2) = bucc::compiler::output_names(&"plain".to_string());
    assert_eq!(obj2, "out/plain.obj");
    assert_eq!(exe2, "out/plain.exe");
}

#[test]
fn host_line_is_extracted_from_a_version_report() {
    let report = "rustc 1.0\nbinary: rustc\nhost: x86_64-unknown-linux-gnu\nrelease: 1.0\n";
    assert_eq!(
        bucc::compiler::parse_host_line(report),
        Some("x86_64-unknown-linux-gnu".to_string())
    );
    assert_eq!(bucc::compiler::parse_host_line("no such line\n"), None);
}
