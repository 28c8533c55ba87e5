//! Control-flow and expression lowering: forward references, terminator
//! discipline, literals, and the internal-invariant failures.

use bucc::ast::{
    ArgumentNode, AssignNode, BinaryNode, BlockNode, BreakNode, CallNode, ClassNode,
    ComparisonNode, Expression, ExpressionNode, FieldNode, FileNode, FunctionNode,
    IdentifierNode, IfNode, LetNode, LiteralNode, Location, MethodNode, NameNode, Operation,
    ParameterNode, ReturnNode, Statement, StructLiteralNode, Type, TypeNode, WhileNode,
};
use bucc::codegen::Codegen;
use bucc::errors::CodegenError;
use bucc::ir::{Instruction, Terminator};

fn loc() -> Location {
    Location::anonymous()
}

fn tn(typ: Type) -> TypeNode {
    TypeNode { location: loc(), typ }
}

fn name_expr(name: &str, typ: Type) -> Expression {
    Expression::Name(NameNode { location: loc(), name: name.to_string(), typ })
}

fn lit_expr(text: &str, typ: Type) -> Expression {
    Expression::Literal(LiteralNode { location: loc(), value: text.to_string(), typ })
}

fn call_expr(callee: &str, args: Vec<Expression>, typ: Type) -> Expression {
    let arguments = args
        .into_iter()
        .map(|e| ArgumentNode {
            location: loc(),
            expression: ExpressionNode { location: loc(), expression: e },
            typ: Type::Unknown,
        })
        .collect();
    Expression::FunctionCall(CallNode {
        location: loc(),
        function_name: callee.to_string(),
        arguments,
        typ,
        is_constructor: false,
    })
}

fn ret_stmt(value: Option<Expression>) -> Statement {
    Statement::Return(ReturnNode {
        location: loc(),
        return_value: value.map(|e| ExpressionNode { location: loc(), expression: e }),
        typ: Type::Unknown,
        function: String::new(),
        class: None,
    })
}

fn block(statements: Vec<Statement>) -> BlockNode {
    BlockNode { location: loc(), statements }
}

fn func(name: &str, params: Vec<(&str, Type)>, ret: Type, body: BlockNode) -> FunctionNode {
    FunctionNode {
        location: loc(),
        name: name.to_string(),
        return_type: tn(ret),
        parameters: params
            .into_iter()
            .map(|(n, t)| ParameterNode { location: loc(), name: n.to_string(), typ: tn(t) })
            .collect(),
        block: body,
        stack_size: 0,
    }
}

fn file(classes: Vec<ClassNode>, functions: Vec<FunctionNode>) -> FileNode {
    FileNode {
        location: loc(),
        filepath: "test.bu".to_string(),
        functions,
        classes,
        externs: Vec::new(),
    }
}

fn cmp(op: Operation, lhs: Expression, rhs: Expression) -> ComparisonNode {
    ComparisonNode {
        location: loc(),
        operation: op,
        lhs: Box::new(lhs),
        rhs: Box::new(rhs),
        typ: Type::Bool,
    }
}

#[test]
fn forward_and_mutual_references_succeed() {
    // `ping` is declared before `pong` yet calls it, and `pong` calls
    // `ping` back: both resolve because every signature is registered
    // before any body is lowered.
    let ping = func(
        "ping",
        vec![],
        Type::I32,
        block(vec![ret_stmt(Some(call_expr("pong", vec![], Type::I32)))]),
    );
    let pong = func(
        "pong",
        vec![],
        Type::I32,
        block(vec![ret_stmt(Some(call_expr("ping", vec![], Type::I32)))]),
    );
    let f = file(vec![], vec![ping, pong]);
    let mut cg = Codegen::new();
    let module = cg.generate_code(&f).expect("mutual references must lower");
    assert_eq!(module.functions.len(), 2);
}

#[test]
fn both_terminating_branches_add_no_continuation() {
    // if c { return 1; } else { return 2; }  — entry, then, else: three
    // blocks, no continuation block wired in.
    let body = block(vec![Statement::If(IfNode {
        location: loc(),
        condition: cmp(
            Operation::Equal,
            name_expr("c", Type::Bool),
            lit_expr("true", Type::Bool),
        ),
        if_branch: block(vec![ret_stmt(Some(lit_expr("1", Type::I32)))]),
        else_branch: Some(block(vec![ret_stmt(Some(lit_expr("2", Type::I32)))])),
    })]);
    let f = file(vec![], vec![func("pick", vec![("c", Type::Bool)], Type::I32, body)]);
    let mut cg = Codegen::new();
    let module = cg.generate_code(&f).expect("must lower");
    assert_eq!(module.functions[0].blocks.len(), 3);
}

#[test]
fn single_terminating_branch_gets_no_jump_and_open_one_does() {
    // if c { return 1; } else { } return 2;  — the then arm keeps its
    // return, exactly the else arm receives a synthesized jump to the
    // continuation block.
    let body = block(vec![
        Statement::If(IfNode {
            location: loc(),
            condition: cmp(
                Operation::Equal,
                name_expr("c", Type::Bool),
                lit_expr("true", Type::Bool),
            ),
            if_branch: block(vec![ret_stmt(Some(lit_expr("1", Type::I32)))]),
            else_branch: Some(block(vec![])),
        }),
        ret_stmt(Some(lit_expr("2", Type::I32))),
    ]);
    let f = file(vec![], vec![func("pick", vec![("c", Type::Bool)], Type::I32, body)]);
    let mut cg = Codegen::new();
    let module = cg.generate_code(&f).expect("must lower");
    let blocks = &module.functions[0].blocks;
    // entry, then, else, continuation
    assert_eq!(blocks.len(), 4);
    match &blocks[1].terminator {
        Some(Terminator::Return { value }) => assert!(value.is_some()),
        other => panic!("then arm must keep its return, got {:?}", other.is_some()),
    }
    match &blocks[2].terminator {
        Some(Terminator::Branch { target }) => assert_eq!(*target, 3),
        _ => panic!("else arm must jump to the continuation block"),
    }
}

#[test]
fn while_shape_has_cond_body_after_blocks() {
    // i = 0; while (i < 5) { i = i + 1; }  inside a void function.
    let assign = Statement::Assign(AssignNode {
        location: loc(),
        name: IdentifierNode {
            location: loc(),
            expression: Box::new(name_expr("i", Type::I32)),
            typ: Type::I32,
        },
        expression: ExpressionNode {
            location: loc(),
            expression: Expression::Binary(BinaryNode {
                location: loc(),
                operation: Operation::Add,
                lhs: Box::new(name_expr("i", Type::I32)),
                rhs: Box::new(lit_expr("1", Type::I32)),
                typ: Type::I32,
            }),
        },
    });
    let body = block(vec![
        Statement::Let(LetNode {
            location: loc(),
            name: "i".to_string(),
            typ: tn(Type::I32),
            expression: ExpressionNode { location: loc(), expression: lit_expr("0", Type::I32) },
        }),
        Statement::While(WhileNode {
            location: loc(),
            condition: cmp(
                Operation::LessThan,
                name_expr("i", Type::I32),
                lit_expr("5", Type::I32),
            ),
            block: block(vec![assign]),
        }),
    ]);
    let f = file(vec![], vec![func("spin", vec![], Type::Void, body)]);
    let mut cg = Codegen::new();
    let module = cg.generate_code(&f).expect("must lower");
    let blocks = &module.functions[0].blocks;
    assert_eq!(blocks.len(), 4);
    match &blocks[0].terminator {
        Some(Terminator::Branch { target }) => assert_eq!(*target, 1),
        _ => panic!("entry must jump to the condition block"),
    }
    match &blocks[1].terminator {
        Some(Terminator::CondBranch { then_target, else_target, .. }) => {
            assert_eq!(*then_target, 2);
            assert_eq!(*else_target, 3);
        },
        _ => panic!("condition block must branch to body or after"),
    }
    match &blocks[2].terminator {
        Some(Terminator::Branch { target }) => assert_eq!(*target, 1),
        _ => panic!("open body must take the back edge"),
    }
    match &blocks[3].terminator {
        Some(Terminator::Return { value }) => assert!(value.is_none()),
        _ => panic!("after block ends the void function"),
    }
}

#[test]
fn literal_lowering_is_exact() {
    let body = block(vec![ret_stmt(Some(lit_expr("42", Type::I32)))]);
    let f = file(vec![], vec![func("answer", vec![], Type::I32, body)]);
    let mut cg = Codegen::new();
    let module = cg.generate_code(&f).expect("must lower");
    let found = module.functions[0].blocks[0].instructions.iter().any(|i| match i {
        Instruction::ConstInt { ty: Type::I32, bits, .. } => *bits == 42,
        _ => false,
    });
    assert!(found, "the constant 42 must appear");
}

#[test]
fn oversized_literal_is_rejected() {
    let body = block(vec![ret_stmt(Some(lit_expr("2147483648", Type::I32)))]);
    let f = file(vec![], vec![func("big", vec![], Type::I32, body)]);
    let mut cg = Codegen::new();
    match cg.generate_code(&f) {
        Err(e) => assert!(e == CodegenError::InvalidLiteral),
        Ok(_) => panic!("2147483648 does not fit a 32-bit signed literal"),
    }
}

#[test]
fn boundary_literal_is_accepted() {
    let body = block(vec![ret_stmt(Some(lit_expr("2147483647", Type::I32)))]);
    let f = file(vec![], vec![func("edge", vec![], Type::I32, body)]);
    let mut cg = Codegen::new();
    assert!(cg.generate_code(&f).is_ok());
}

#[test]
fn unknown_callee_is_an_internal_failure() {
    let body = block(vec![ret_stmt(Some(call_expr("ghost", vec![], Type::I32)))]);
    let f = file(vec![], vec![func("caller", vec![], Type::I32, body)]);
    let mut cg = Codegen::new();
    match cg.generate_code(&f) {
        Err(e) => assert!(e == CodegenError::UnknownSymbol),
        Ok(_) => panic!("a call to an unregistered callable must fail"),
    }
}

#[test]
fn cyclic_struct_graph_fails_whole_generation() {
    let a = ClassNode {
        location: loc(),
        name: "A".to_string(),
        fields: vec![FieldNode {
            location: loc(),
            name: "b".to_string(),
            type_def: tn(Type::Struct("B".to_string())),
        }],
        methods: vec![],
        features: vec![],
        has_constructor: false,
    };
    let b = ClassNode {
        location: loc(),
        name: "B".to_string(),
        fields: vec![FieldNode {
            location: loc(),
            name: "a".to_string(),
            type_def: tn(Type::Struct("A".to_string())),
        }],
        methods: vec![],
        features: vec![],
        has_constructor: false,
    };
    let f = file(vec![a, b], vec![]);
    let mut cg = Codegen::new();
    match cg.generate_code(&f) {
        Err(e) => assert!(e == CodegenError::CyclicDependency),
        Ok(_) => panic!("cyclic by-value containment must fail registration"),
    }
}

#[test]
fn value_function_without_return_is_rejected() {
    let f = file(vec![], vec![func("nothing", vec![], Type::I32, block(vec![]))]);
    let mut cg = Codegen::new();
    match cg.generate_code(&f) {
        Err(e) => assert!(e == CodegenError::MissingReturn),
        Ok(_) => panic!("a value-producing body cannot fall off its end"),
    }
}

#[test]
fn statement_after_return_is_rejected() {
    let body = block(vec![
        ret_stmt(Some(lit_expr("1", Type::I32))),
        ret_stmt(Some(lit_expr("2", Type::I32))),
    ]);
    let f = file(vec![], vec![func("dead", vec![], Type::I32, body)]);
    let mut cg = Codegen::new();
    match cg.generate_code(&f) {
        Err(e) => assert!(e == CodegenError::ClosedBlock),
        Ok(_) => panic!("unreachable statements would write into a closed block"),
    }
}

#[test]
fn break_outside_loop_is_rejected() {
    let body = block(vec![Statement::Break(BreakNode { location: loc() })]);
    let f = file(vec![], vec![func("stray", vec![], Type::Void, body)]);
    let mut cg = Codegen::new();
    match cg.generate_code(&f) {
        Err(e) => assert!(e == CodegenError::LoopControlOutsideLoop),
        Ok(_) => panic!("break needs an enclosing loop"),
    }
}

#[test]
fn void_function_gets_implicit_return() {
    let f = file(vec![], vec![func("quiet", vec![], Type::Void, block(vec![]))]);
    let mut cg = Codegen::new();
    let module = cg.generate_code(&f).expect("must lower");
    match &module.functions[0].blocks[0].terminator {
        Some(Terminator::Return { value }) => assert!(value.is_none()),
        _ => panic!("a void body gets a value-less return"),
    }
}
