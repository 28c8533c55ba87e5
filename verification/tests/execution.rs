//! End-to-end scenarios: lowered programs run under a small reference
//! interpreter for the backend IR, standing in for object emission, linking
//! and native execution.

use bucc::ast::{
    ArgumentNode, AssignNode, BinaryNode, BlockNode, BreakNode, CallNode, ClassNode,
    ComparisonNode, Expression, ExpressionNode, FieldNode, FileNode, FunctionNode,
    IdentifierNode, IfNode, LetNode, LiteralNode, Location, MethodNode, NameNode, Operation,
    ParameterNode, ReturnNode, Statement, StructLiteralNode, Type, TypeNode, WhileNode,
};
use bucc::codegen::Codegen;
use bucc::ir::{Instruction, IrFunction, IrModule, Terminator};
use bucc::layout::SizeManager;

fn loc() -> Location {
    Location::anonymous()
}

fn tn(typ: Type) -> TypeNode {
    TypeNode { location: loc(), typ }
}

fn name_expr(name: &str, typ: Type) -> Expression {
    Expression::Name(NameNode { location: loc(), name: name.to_string(), typ })
}

fn lit_expr(text: &str, typ: Type) -> Expression {
    Expression::Literal(LiteralNode { location: loc(), value: text.to_string(), typ })
}

fn dot(lhs: Expression, rhs: Expression, typ: Type) -> Expression {
    Expression::Binary(BinaryNode {
        location: loc(),
        operation: Operation::Dot,
        lhs: Box::new(lhs),
        rhs: Box::new(rhs),
        typ,
    })
}

fn binary(op: Operation, lhs: Expression, rhs: Expression, typ: Type) -> Expression {
    Expression::Binary(BinaryNode {
        location: loc(),
        operation: op,
        lhs: Box::new(lhs),
        rhs: Box::new(rhs),
        typ,
    })
}

fn ret_stmt(value: Option<Expression>) -> Statement {
    Statement::Return(ReturnNode {
        location: loc(),
        return_value: value.map(|e| ExpressionNode { location: loc(), expression: e }),
        typ: Type::Unknown,
        function: String::new(),
        class: None,
    })
}

fn let_stmt(name: &str, typ: Type, init: Expression) -> Statement {
    Statement::Let(LetNode {
        location: loc(),
        name: name.to_string(),
        typ: tn(typ),
        expression: ExpressionNode { location: loc(), expression: init },
    })
}

fn assign_stmt(target: Expression, typ: Type, value: Expression) -> Statement {
    Statement::Assign(AssignNode {
        location: loc(),
        name: IdentifierNode { location: loc(), expression: Box::new(target), typ },
        expression: ExpressionNode { location: loc(), expression: value },
    })
}

fn block(statements: Vec<Statement>) -> BlockNode {
    BlockNode { location: loc(), statements }
}

fn func(name: &str, params: Vec<(&str, Type)>, ret: Type, body: BlockNode) -> FunctionNode {
    FunctionNode {
        location: loc(),
        name: name.to_string(),
        return_type: tn(ret),
        parameters: params
            .into_iter()
            .map(|(n, t)| ParameterNode { location: loc(), name: n.to_string(), typ: tn(t) })
            .collect(),
        block: body,
        stack_size: 0,
    }
}

fn file(classes: Vec<ClassNode>, functions: Vec<FunctionNode>) -> FileNode {
    FileNode {
        location: loc(),
        filepath: "test.bu".to_string(),
        functions,
        classes,
        externs: Vec::new(),
    }
}

// ---------------------------------------------------------------------------
// A reference interpreter for the lowered IR.
// ---------------------------------------------------------------------------

#[derive(Clone, Debug)]
enum Val {
    Int(i64),
    Ptr(usize),
    Agg(Vec<i64>),
}

struct Machine<'a> {
    module: &'a IrModule,
    sm: &'a SizeManager,
    mem: Vec<i64>,
}

impl<'a> Machine<'a> {
    fn size_of(&self, ty: &Type) -> usize {
        match ty {
            Type::Struct(name) => {
                let info = self
                    .sm
                    .structs
                    .iter()
                    .find(|(n, _)| n == name)
                    .map(|(_, i)| i)
                    .expect("layout registered");
                info.fields.iter().map(|(_, t)| self.size_of(t)).sum()
            },
            _ => 1,
        }
    }

    fn field_offset(&self, struct_name: &str, index: usize) -> usize {
        let info = self
            .sm
            .structs
            .iter()
            .find(|(n, _)| n == struct_name)
            .map(|(_, i)| i)
            .expect("layout registered");
        info.fields[..index].iter().map(|(_, t)| self.size_of(t)).sum()
    }

    fn find(&self, name: &str) -> &'a IrFunction {
        self.module.functions.iter().find(|f| f.name == name).expect("function lowered")
    }

    fn as_int(v: &Val) -> i64 {
        match v {
            Val::Int(i) => *i,
            Val::Ptr(p) => *p as i64,
            Val::Agg(_) => panic!("aggregate used as scalar"),
        }
    }

    /// Runs one function; returns its result and how often each block ran.
    fn run(&mut self, name: &str, args: Vec<Val>) -> (Option<Val>, Vec<usize>) {
        let f = self.find(name);
        let mut vals: Vec<Option<Val>> = vec![None; f.value_is_ptr.len().max(args.len())];
        for (i, a) in args.into_iter().enumerate() {
            vals[i] = Some(a);
        }
        let mut visits = vec![0usize; f.blocks.len()];
        let mut b = 0usize;
        loop {
            visits[b] += 1;
            let set = |vals: &mut Vec<Option<Val>>, d: usize, v: Val| {
                if d >= vals.len() {
                    vals.resize(d + 1, None);
                }
                vals[d] = Some(v);
            };
            let blk = &f.blocks[b];
            for instr in &blk.instructions {
                match instr {
                    Instruction::Alloca { dst, ty } => {
                        let sz = self.size_of(ty);
                        let addr = self.mem.len();
                        self.mem.resize(addr + sz, 0);
                        set(&mut vals, *dst, Val::Ptr(addr));
                    },
                    Instruction::Load { dst, ty, ptr } => {
                        let p = match vals[*ptr].as_ref().expect("defined") {
                            Val::Ptr(p) => *p,
                            _ => panic!("load needs an address"),
                        };
                        let sz = self.size_of(ty);
                        let v = if sz == 1 {
                            Val::Int(self.mem[p])
                        } else {
                            Val::Agg(self.mem[p..p + sz].to_vec())
                        };
                        set(&mut vals, *dst, v);
                    },
                    Instruction::Store { ptr, value } => {
                        let p = match vals[*ptr].as_ref().expect("defined") {
                            Val::Ptr(p) => *p,
                            _ => panic!("store needs an address"),
                        };
                        match vals[*value].as_ref().expect("defined") {
                            Val::Agg(cells) => {
                                for (k, c) in cells.iter().enumerate() {
                                    self.mem[p + k] = *c;
                                }
                            },
                            v => self.mem[p] = Self::as_int(v),
                        }
                    },
                    Instruction::ConstInt { dst, bits, .. } => {
                        set(&mut vals, *dst, Val::Int(*bits as i64));
                    },
                    Instruction::Binary { dst, op, lhs, rhs } => {
                        let a = Self::as_int(vals[*lhs].as_ref().expect("defined"));
                        let c = Self::as_int(vals[*rhs].as_ref().expect("defined"));
                        let v = match op {
                            Operation::Add => a + c,
                            Operation::Sub => a - c,
                            Operation::Mul => a * c,
                            Operation::Div => a / c,
                            Operation::Modulo => a % c,
                            Operation::BitwiseAnd => a & c,
                            Operation::BitwiseOr => a | c,
                            Operation::BitwiseXor => a ^ c,
                            _ => panic!("not an arithmetic operation"),
                        };
                        set(&mut vals, *dst, Val::Int(v));
                    },
                    Instruction::Compare { dst, op, lhs, rhs } => {
                        let a = Self::as_int(vals[*lhs].as_ref().expect("defined"));
                        let c = Self::as_int(vals[*rhs].as_ref().expect("defined"));
                        let v = match op {
                            Operation::LessThan => a < c,
                            Operation::GreaterThan => a > c,
                            Operation::LessThanOrEqual => a <= c,
                            Operation::GreaterThanOrEqual => a >= c,
                            Operation::Equal => a == c,
                            Operation::NotEqual => a != c,
                            _ => panic!("not a comparison"),
                        };
                        set(&mut vals, *dst, Val::Int(if v { 1 } else { 0 }));
                    },
                    Instruction::Negate { dst, src } => {
                        let a = Self::as_int(vals[*src].as_ref().expect("defined"));
                        set(&mut vals, *dst, Val::Int(-a));
                    },
                    Instruction::FieldPtr { dst, struct_name, index, base } => {
                        let p = match vals[*base].as_ref().expect("defined") {
                            Val::Ptr(p) => *p,
                            _ => panic!("field address needs a base address"),
                        };
                        let off = self.field_offset(struct_name, *index);
                        set(&mut vals, *dst, Val::Ptr(p + off));
                    },
                    Instruction::Call { dst, callee, args, has_result } => {
                        let avs: Vec<Val> = args
                            .iter()
                            .map(|a| vals[*a].as_ref().expect("defined").clone())
                            .collect();
                        let (res, _) = self.run(callee, avs);
                        if *has_result {
                            set(&mut vals, *dst, res.expect("value-producing callee"));
                        }
                    },
                }
            }
            match blk.terminator.as_ref().expect("finished function") {
                Terminator::Branch { target } => b = *target,
                Terminator::CondBranch { cond, then_target, else_target } => {
                    let c = Self::as_int(vals[*cond].as_ref().expect("defined"));
                    b = if c != 0 { *then_target } else { *else_target };
                },
                Terminator::Return { value } => {
                    let r = (*value).map(|v| vals[v].as_ref().expect("defined").clone());
                    return (r, visits);
                },
            }
        }
    }
}

fn point_class() -> ClassNode {
    ClassNode {
        location: loc(),
        name: "Point".to_string(),
        fields: vec![
            FieldNode {
                location: loc(),
                name: "x".to_string(),
                type_def: tn(Type::I32),
            },
            FieldNode {
                location: loc(),
                name: "y".to_string(),
                type_def: tn(Type::I32),
            },
        ],
        methods: vec![],
        features: vec![],
        has_constructor: false,
    }
}

#[test]
fn add_two_and_three_returns_five() {
    // fn add(a: I32, b: I32) -> I32 { return a + b; } run with 2 and 3.
    let body = block(vec![ret_stmt(Some(binary(
        Operation::Add,
        name_expr("a", Type::I32),
        name_expr("b", Type::I32),
        Type::I32,
    )))]);
    let f = file(vec![], vec![func(
        "add",
        vec![("a", Type::I32), ("b", Type::I32)],
        Type::I32,
        body,
    )]);
    let mut cg = Codegen::new();
    let module = cg.generate_code(&f).expect("must lower");
    let mut m = Machine { module: &module, sm: &cg.sm, mem: Vec::new() };
    let (r, _) = m.run("add", vec![Val::Int(2), Val::Int(3)]);
    match r {
        Some(Val::Int(v)) => assert_eq!(v, 5),
        other => panic!("expected 5, got {:?}", other),
    }
}

#[test]
fn struct_field_write_and_read() {
    // let p: Point = Point { x: 1, y: 2 }; p.x = 10; p.x is 10, p.y stays 2.
    let make_body = |result_field: &str| {
        block(vec![
            let_stmt(
                "p",
                Type::Struct("Point".to_string()),
                Expression::StructLiteral(StructLiteralNode {
                    location: loc(),
                    struct_name: "Point".to_string(),
                    fields: vec![
                        ("x".to_string(), lit_expr("1", Type::I32)),
                        ("y".to_string(), lit_expr("2", Type::I32)),
                    ],
                    typ: Type::Struct("Point".to_string()),
                }),
            ),
            assign_stmt(
                dot(
                    name_expr("p", Type::Struct("Point".to_string())),
                    name_expr("x", Type::I32),
                    Type::I32,
                ),
                Type::I32,
                lit_expr("10", Type::I32),
            ),
            ret_stmt(Some(dot(
                name_expr("p", Type::Struct("Point".to_string())),
                name_expr(result_field, Type::I32),
                Type::I32,
            ))),
        ])
    };
    let f = file(
        vec![point_class()],
        vec![
            func("readx", vec![], Type::I32, make_body("x")),
            func("ready", vec![], Type::I32, make_body("y")),
        ],
    );
    let mut cg = Codegen::new();
    let module = cg.generate_code(&f).expect("must lower");
    let mut m = Machine { module: &module, sm: &cg.sm, mem: Vec::new() };
    let (rx, _) = m.run("readx", vec![]);
    match rx {
        Some(Val::Int(v)) => assert_eq!(v, 10),
        other => panic!("expected 10, got {:?}", other),
    }
    let mut m2 = Machine { module: &module, sm: &cg.sm, mem: Vec::new() };
    let (ry, _) = m2.run("ready", vec![]);
    match ry {
        Some(Val::Int(v)) => assert_eq!(v, 2),
        other => panic!("expected 2, got {:?}", other),
    }
}

#[test]
fn while_loop_runs_exactly_five_times() {
    // i = 0; while (i < 5) { i = i + 1; } return i;
    let body = block(vec![
        let_stmt("i", Type::I32, lit_expr("0", Type::I32)),
        Statement::While(WhileNode {
            location: loc(),
            condition: ComparisonNode {
                location: loc(),
                operation: Operation::LessThan,
                lhs: Box::new(name_expr("i", Type::I32)),
                rhs: Box::new(lit_expr("5", Type::I32)),
                typ: Type::Bool,
            },
            block: block(vec![assign_stmt(
                name_expr("i", Type::I32),
                Type::I32,
                binary(
                    Operation::Add,
                    name_expr("i", Type::I32),
                    lit_expr("1", Type::I32),
                    Type::I32,
                ),
            )]),
        }),
        ret_stmt(Some(name_expr("i", Type::I32))),
    ]);
    let f = file(vec![], vec![func("count", vec![], Type::I32, body)]);
    let mut cg = Codegen::new();
    let module = cg.generate_code(&f).expect("must lower");
    let mut m = Machine { module: &module, sm: &cg.sm, mem: Vec::new() };
    let (r, visits) = m.run("count", vec![]);
    match r {
        Some(Val::Int(v)) => assert_eq!(v, 5),
        other => panic!("expected 5, got {:?}", other),
    }
    // The body block is the then target of the condition block's branch.
    let blocks = &module.functions[0].blocks;
    let cond = match blocks[0].terminator.as_ref().unwrap() {
        Terminator::Branch { target } => *target,
        _ => panic!("entry jumps to the condition"),
    };
    let body_block = match blocks[cond].terminator.as_ref().unwrap() {
        Terminator::CondBranch { then_target, .. } => *then_target,
        _ => panic!("condition block branches"),
    };
    assert_eq!(visits[body_block], 5, "exactly five iterations");
    assert_eq!(visits[cond], 6, "five true tests and one false one");
}

#[test]
fn chained_access_resolves_through_layouts() {
    // struct B { v: I32 } with method c; struct A { b: B };
    // a.b.c() resolves b from A's layout and c from B's method table.
    let b_class = ClassNode {
        location: loc(),
        name: "B".to_string(),
        fields: vec![FieldNode {
            location: loc(),
            name: "v".to_string(),
            type_def: tn(Type::I32),
        }],
        methods: vec![MethodNode {
            location: loc(),
            class_name: "B".to_string(),
            name: "c".to_string(),
            return_type: tn(Type::I32),
            parameters: vec![ParameterNode {
                location: loc(),
                name: "this".to_string(),
                typ: tn(Type::Struct("B".to_string())),
            }],
            block: block(vec![ret_stmt(Some(dot(
                name_expr("this", Type::Struct("B".to_string())),
                name_expr("v", Type::I32),
                Type::I32,
            )))]),
            stack_size: 0,
        }],
        features: vec![],
        has_constructor: false,
    };
    let a_class = ClassNode {
        location: loc(),
        name: "A".to_string(),
        fields: vec![FieldNode {
            location: loc(),
            name: "b".to_string(),
            type_def: tn(Type::Struct("B".to_string())),
        }],
        methods: vec![],
        features: vec![],
        has_constructor: false,
    };
    let inner_dot = dot(
        name_expr("a", Type::Struct("A".to_string())),
        name_expr("b", Type::Struct("B".to_string())),
        Type::Struct("B".to_string()),
    );
    let call = Expression::FunctionCall(CallNode {
        location: loc(),
        function_name: "c".to_string(),
        arguments: vec![],
        typ: Type::I32,
        is_constructor: false,
    });
    let body = block(vec![
        let_stmt(
            "b",
            Type::Struct("B".to_string()),
            Expression::StructLiteral(StructLiteralNode {
                location: loc(),
                struct_name: "B".to_string(),
                fields: vec![("v".to_string(), lit_expr("7", Type::I32))],
                typ: Type::Struct("B".to_string()),
            }),
        ),
        let_stmt(
            "a",
            Type::Struct("A".to_string()),
            Expression::StructLiteral(StructLiteralNode {
                location: loc(),
                struct_name: "A".to_string(),
                fields: vec![(
                    "b".to_string(),
                    name_expr("b", Type::Struct("B".to_string())),
                )],
                typ: Type::Struct("A".to_string()),
            }),
        ),
        ret_stmt(Some(dot(inner_dot, call, Type::I32))),
    ]);
    let f = file(vec![b_class, a_class], vec![func("deep", vec![], Type::I32, body)]);
    let mut cg = Codegen::new();
    let module = cg.generate_code(&f).expect("chained access must lower");
    // The method call goes through the composite key.
    let lowered_call = module
        .functions
        .iter()
        .flat_map(|fun| fun.blocks.iter())
        .flat_map(|b| b.instructions.iter())
        .any(|i| matches!(i, Instruction::Call { callee, .. } if callee == "B_c"));
    assert!(lowered_call, "the chained call resolves to B_c");
    let mut m = Machine { module: &module, sm: &cg.sm, mem: Vec::new() };
    let (r, _) = m.run("deep", vec![]);
    match r {
        Some(Val::Int(v)) => assert_eq!(v, 7),
        other => panic!("expected 7, got {:?}", other),
    }
}

#[test]
fn three_level_chain_resolves_like_two_level() {
    // struct C2 { a: A }; x.a.b.c() walks two layouts before the method
    // table: depth does not matter.
    let b_class = ClassNode {
        location: loc(),
        name: "B".to_string(),
        fields: vec![FieldNode {
            location: loc(),
            name: "v".to_string(),
            type_def: tn(Type::I32),
        }],
        methods: vec![MethodNode {
            location: loc(),
            class_name: "B".to_string(),
            name: "c".to_string(),
            return_type: tn(Type::I32),
            parameters: vec![ParameterNode {
                location: loc(),
                name: "this".to_string(),
                typ: tn(Type::Struct("B".to_string())),
            }],
            block: block(vec![ret_stmt(Some(dot(
                name_expr("this", Type::Struct("B".to_string())),
                name_expr("v", Type::I32),
                Type::I32,
            )))]),
            stack_size: 0,
        }],
        features: vec![],
        has_constructor: false,
    };
    let a_class = ClassNode {
        location: loc(),
        name: "A".to_string(),
        fields: vec![FieldNode {
            location: loc(),
            name: "b".to_string(),
            type_def: tn(Type::Struct("B".to_string())),
        }],
        methods: vec![],
        features: vec![],
        has_constructor: false,
    };
    let c2_class = ClassNode {
        location: loc(),
        name: "C2".to_string(),
        fields: vec![FieldNode {
            location: loc(),
            name: "a".to_string(),
            type_def: tn(Type::Struct("A".to_string())),
        }],
        methods: vec![],
        features: vec![],
        has_constructor: false,
    };
    let chain = dot(
        dot(
            dot(
                name_expr("x", Type::Struct("C2".to_string())),
                name_expr("a", Type::Struct("A".to_string())),
                Type::Struct("A".to_string()),
            ),
            name_expr("b", Type::Struct("B".to_string())),
            Type::Struct("B".to_string()),
        ),
        Expression::FunctionCall(CallNode {
            location: loc(),
            function_name: "c".to_string(),
            arguments: vec![],
            typ: Type::I32,
            is_constructor: false,
        }),
        Type::I32,
    );
    let body = block(vec![
        let_stmt(
            "b",
            Type::Struct("B".to_string()),
            Expression::StructLiteral(StructLiteralNode {
                location: loc(),
                struct_name: "B".to_string(),
                fields: vec![("v".to_string(), lit_expr("9", Type::I32))],
                typ: Type::Struct("B".to_string()),
            }),
        ),
        let_stmt(
            "a",
            Type::Struct("A".to_string()),
            Expression::StructLiteral(StructLiteralNode {
                location: loc(),
                struct_name: "A".to_string(),
                fields: vec![("b".to_string(), name_expr("b", Type::Struct("B".to_string())))],
                typ: Type::Struct("A".to_string()),
            }),
        ),
        let_stmt(
            "x",
            Type::Struct("C2".to_string()),
            Expression::StructLiteral(StructLiteralNode {
                location: loc(),
                struct_name: "C2".to_string(),
                fields: vec![("a".to_string(), name_expr("a", Type::Struct("A".to_string())))],
                typ: Type::Struct("C2".to_string()),
            }),
        ),
        ret_stmt(Some(chain)),
    ]);
    let f = file(
        vec![b_class, a_class, c2_class],
        vec![func("deeper", vec![], Type::I32, body)],
    );
    let mut cg = Codegen::new();
    let module = cg.generate_code(&f).expect("three-level chain must lower");
    let mut m = Machine { module: &module, sm: &cg.sm, mem: Vec::new() };
    let (r, _) = m.run("deeper", vec![]);
    match r {
        Some(Val::Int(v)) => assert_eq!(v, 9),
        other => panic!("expected 9, got {:?}", other),
    }
}
