//! Typed syntax tree handed to the code generator.
//!
//! Every node already carries a resolved type, and every name reference has
//! been validated by the type checker; the code generator performs no further
//! inference or name resolution.

use vstd::prelude::*;

verus! {

/// A source position: file, row and column.
pub struct Location {
    pub file: String,
    pub row: usize,
    pub col: usize,
}

impl Location {
    /// A placeholder position for nodes that have no source of their own.
    pub fn anonymous() -> (r: Location)
        ensures
            r.file@ == Seq::<char>::empty(),
            r.row == 0,
            r.col == 0,
    {
        Location { file: String::new(), row: 0, col: 0 }
    }
}

impl Location {
    /// The position as `file:row:col` for diagnostics.
    pub fn render(&self) -> (r: String)
        ensures
            r@ == self.file@ + ":"@ + crate::text::dec_digits_of(self.row as int) + ":"@
                + crate::text::dec_digits_of(self.col as int),
    {
        let mut out = self.file.clone();
        out.append(":");
        let row = crate::text::usize_to_string(self.row);
        out.append(row.as_str());
        out.append(":");
        let col = crate::text::usize_to_string(self.col);
        out.append(col.as_str());
        out
    }
}

impl Clone for Location {
    fn clone(&self) -> (r: Self)
        ensures
            r == *self,
    {
        Location { file: self.file.clone(), row: self.row, col: self.col }
    }
}

/// Operators appearing in binary, comparison and unary expressions.
#[derive(Clone, Copy, PartialEq, Eq, Structural)]
pub enum Operation {
    Add,
    Sub,
    Mul,
    Div,
    Modulo,
    Negate,
    LessThan,
    GreaterThan,
    LessThanOrEqual,
    GreaterThanOrEqual,
    Equal,
    NotEqual,
    BitwiseAnd,
    BitwiseOr,
    BitwiseXor,
    Assign,
    Dot,
}

/// A resolved type as produced by the type checker.
///
/// `Void` is the explicit no-value marker for void routines; `Unknown` only
/// occurs while inference is still pending and never reaches the code
/// generator.
pub enum Type {
    Void,
    Unknown,
    Bool,
    I32,
    I64,
    U32,
    U64,
    Usize,
    Struct(String),
    Arr(Box<Type>, Vec<usize>),
}

impl Type {
    /// Structural equality of resolved types, with names compared by content.
    pub open spec fn matches(self, other: Type) -> bool
        decreases self,
    {
        match (self, other) {
            (Type::Void, Type::Void) => true,
            (Type::Unknown, Type::Unknown) => true,
            (Type::Bool, Type::Bool) => true,
            (Type::I32, Type::I32) => true,
            (Type::I64, Type::I64) => true,
            (Type::U32, Type::U32) => true,
            (Type::U64, Type::U64) => true,
            (Type::Usize, Type::Usize) => true,
            (Type::Struct(a), Type::Struct(b)) => a@ == b@,
            (Type::Arr(a, d1), Type::Arr(b, d2)) => (*a).matches(*b) && d1@ == d2@,
            _ => false,
        }
    }

    /// Whether this is one of the integer types the arithmetic lowering
    /// accepts.
    pub open spec fn spec_is_int(&self) -> bool {
        self is I32 || self is I64 || self is U32 || self is U64 || self is Usize
    }

    /// Integer-family test used by the defensive assertions of the expression
    /// lowering.
    #[verifier::when_used_as_spec(spec_is_int)]
    pub fn is_int(&self) -> (r: bool)
        ensures
            r == self.spec_is_int(),
    {
        match self {
            Type::I32 | Type::I64 | Type::U32 | Type::U64 | Type::Usize => true,
            _ => false,
        }
    }

    /// Whether this is a named aggregate type.
    pub open spec fn spec_is_struct(&self) -> bool {
        self is Struct
    }

    #[verifier::when_used_as_spec(spec_is_struct)]
    pub fn is_struct(&self) -> (r: bool)
        ensures
            r == self.spec_is_struct(),
    {
        match self {
            Type::Struct(_) => true,
            _ => false,
        }
    }

    /// The name of a named aggregate type.
    pub open spec fn spec_struct_name(self) -> Seq<char>
        recommends
            self is Struct,
    {
        self->Struct_0@
    }

    /// Returns the aggregate's name; only aggregates have one.
    pub fn get_struct_name(&self) -> (r: &String)
        requires
            self.spec_is_struct(),
        ensures
            r@ == self.spec_struct_name(),
    {
        match self {
            Type::Struct(name) => name,
            _ => unreached(),
        }
    }
}

/// `matches` is reflexive: every type matches itself.
pub proof fn lemma_matches_reflexive(t: Type)
    ensures
        t.matches(t),
    decreases t,
{
    match t {
        Type::Arr(elem, dims) => {
            lemma_matches_reflexive(*elem);
        },
        _ => {},
    }
}

impl Clone for Type {
    fn clone(&self) -> (r: Self)
        ensures
            r.matches(*self),
            !(*self is Arr) ==> r == *self,
        decreases *self,
    {
        match self {
            Type::Void => Type::Void,
            Type::Unknown => Type::Unknown,
            Type::Bool => Type::Bool,
            Type::I32 => Type::I32,
            Type::I64 => Type::I64,
            Type::U32 => Type::U32,
            Type::U64 => Type::U64,
            Type::Usize => Type::Usize,
            Type::Struct(name) => {
                let n = name.clone();
                let r = Type::Struct(n);
                proof {
                    assert(r == *self);
                }
                r
            },
            Type::Arr(elem, dims) => {
                let e: &Type = &*elem;
                let c = e.clone();
                let d = clone_dims(dims);
                let r = Type::Arr(Box::new(c), d);
                proof {
                    lemma_matches_reflexive(**elem);
                    assert(r.matches(*self));
                }
                r
            },
        }
    }
}

/// Copies an array type's dimension list element by element.
fn clone_dims(dims: &Vec<usize>) -> (r: Vec<usize>)
    ensures
        r@ == dims@,
{
    let mut out: Vec<usize> = Vec::new();
    let mut i: usize = 0;
    while i < dims.len()
        invariant
            i <= dims.len(),
            out@ == dims@.subrange(0, i as int),
        decreases dims.len() - i,
    {
        out.push(dims[i]);
        i = i + 1;
    }
    proof {
        assert(out@ =~= dims@);
    }
    out
}

/// A type annotation together with where it was written.
pub struct TypeNode {
    pub location: Location,
    pub typ: Type,
}

impl TypeNode {
    /// An annotation for routines that produce no value.
    pub fn none(location: Location) -> (r: Self)
        ensures
            r.location == location,
            r.typ is Void,
    {
        TypeNode { location, typ: Type::Void }
    }
}

/// One whole translation unit: every declaration of the program.
pub struct FileNode {
    pub location: Location,
    pub filepath: String,
    pub functions: Vec<FunctionNode>,
    pub classes: Vec<ClassNode>,
    pub externs: Vec<ExternNode>,
}

/// A named aggregate: ordered fields, bound methods and built-in features.
pub struct ClassNode {
    pub location: Location,
    pub name: String,
    pub fields: Vec<FieldNode>,
    pub methods: Vec<MethodNode>,
    pub features: Vec<FeatureNode>,
    pub has_constructor: bool,
}

/// A single named, typed field of an aggregate.
pub struct FieldNode {
    pub location: Location,
    pub name: String,
    pub type_def: TypeNode,
}

/// A built-in feature of an aggregate, such as its constructor.
pub struct FeatureNode {
    pub location: Location,
    pub class_name: String,
    pub name: String,
    pub return_type: TypeNode,
    pub parameters: Vec<ParameterNode>,
    pub block: BlockNode,
    pub stack_size: usize,
    pub is_constructor: bool,
}

/// A free function.
pub struct FunctionNode {
    pub location: Location,
    pub name: String,
    pub return_type: TypeNode,
    pub parameters: Vec<ParameterNode>,
    pub block: BlockNode,
    pub stack_size: usize,
}

/// A struct-bound method; callables are keyed by owning class and name.
pub struct MethodNode {
    pub location: Location,
    pub class_name: String,
    pub name: String,
    pub return_type: TypeNode,
    pub parameters: Vec<ParameterNode>,
    pub block: BlockNode,
    pub stack_size: usize,
}

/// An external declaration: a callable with a signature but no body here.
pub struct ExternNode {
    pub location: Location,
    pub name: String,
    pub return_type: TypeNode,
    pub parameters: Vec<ParameterNode>,
}

/// One declared parameter of a callable.
pub struct ParameterNode {
    pub location: Location,
    pub name: String,
    pub typ: TypeNode,
}

impl ParameterNode {
    /// The implicit receiver parameter of a method.
    pub fn this(location: Location, typ: Type) -> (r: Self)
        ensures
            r.location == location,
            r.name@ == "this"@,
            r.typ.location == location,
            r.typ.typ == typ,
    {
        ParameterNode {
            location: location.clone(),
            name: String::from_str("this"),
            typ: TypeNode { location, typ },
        }
    }
}

/// A braced sequence of statements; entering one opens a scope.
pub struct BlockNode {
    pub location: Location,
    pub statements: Vec<Statement>,
}

/// The statement forms of the language.
pub enum Statement {
    Expression(ExpressionNode),
    Let(LetNode),
    Assign(AssignNode),
    If(IfNode),
    Return(ReturnNode),
    While(WhileNode),
    Break(BreakNode),
    Continue(ContinueNode),
}

impl Statement {
    /// Where the statement was written.
    pub fn get_loc(&self) -> (r: Location)
        ensures
            r == self.spec_loc(),
    {
        match self {
            Statement::Expression(e) => e.location.clone(),
            Statement::Let(e) => e.location.clone(),
            Statement::Assign(e) => e.location.clone(),
            Statement::If(e) => e.location.clone(),
            Statement::Return(e) => e.location.clone(),
            Statement::While(e) => e.location.clone(),
            Statement::Break(e) => e.location.clone(),
            Statement::Continue(e) => e.location.clone(),
        }
    }

    /// The statement's source position.
    pub open spec fn spec_loc(self) -> Location {
        match self {
            Statement::Expression(e) => e.location,
            Statement::Let(e) => e.location,
            Statement::Assign(e) => e.location,
            Statement::If(e) => e.location,
            Statement::Return(e) => e.location,
            Statement::While(e) => e.location,
            Statement::Break(e) => e.location,
            Statement::Continue(e) => e.location,
        }
    }
}

/// An expression used in statement position.
pub struct ExpressionNode {
    pub location: Location,
    pub expression: Expression,
}

/// A variable declaration with initializer.
pub struct LetNode {
    pub location: Location,
    pub name: String,
    pub typ: TypeNode,
    pub expression: ExpressionNode,
}

/// An assignment to an already-declared location.
pub struct AssignNode {
    pub location: Location,
    pub name: IdentifierNode,
    pub expression: ExpressionNode,
}

/// A resolved reference to a storage location.
pub struct IdentifierNode {
    pub location: Location,
    pub expression: Box<Expression>,
    pub typ: Type,
}

/// A two-way branch on a boolean condition.
pub struct IfNode {
    pub location: Location,
    pub condition: ComparisonNode,
    pub if_branch: BlockNode,
    pub else_branch: Option<BlockNode>,
}

/// A return, optionally carrying a value.
pub struct ReturnNode {
    pub location: Location,
    pub return_value: Option<ExpressionNode>,
    pub typ: Type,
    pub function: String,
    pub class: Option<String>,
}

/// A pre-tested loop.
pub struct WhileNode {
    pub location: Location,
    pub condition: ComparisonNode,
    pub block: BlockNode,
}

/// An early exit from the innermost loop.
pub struct BreakNode {
    pub location: Location,
}

/// A jump back to the innermost loop's condition.
pub struct ContinueNode {
    pub location: Location,
}

/// An argument at a call site.
pub struct ArgumentNode {
    pub location: Location,
    pub expression: ExpressionNode,
    pub typ: Type,
}

/// The expression forms of the language.
pub enum Expression {
    Name(NameNode),
    Identifier(IdentifierNode),
    ArrayLiteral(ArrayLiteralNode),
    ArrayAccess(ArrayAccessNode),
    Literal(LiteralNode),
    Binary(BinaryNode),
    Comparison(ComparisonNode),
    FieldAccess(FieldAccessNode),
    FunctionCall(CallNode),
    BuiltIn(BuiltInNode),
    Unary(UnaryNode),
    StructLiteral(StructLiteralNode),
}

impl Expression {
    /// Where the expression was written.
    pub fn get_loc(&self) -> (r: Location)
        ensures
            r == self.spec_loc(),
    {
        match self {
            Expression::Name(e) => e.location.clone(),
            Expression::Identifier(e) => e.location.clone(),
            Expression::ArrayLiteral(e) => e.location.clone(),
            Expression::ArrayAccess(e) => e.location.clone(),
            Expression::Literal(e) => e.location.clone(),
            Expression::Binary(e) => e.location.clone(),
            Expression::Comparison(e) => e.location.clone(),
            Expression::FieldAccess(e) => e.location.clone(),
            Expression::FunctionCall(e) => e.location.clone(),
            Expression::BuiltIn(e) => e.location.clone(),
            Expression::Unary(e) => e.location.clone(),
            Expression::StructLiteral(e) => e.location.clone(),
        }
    }

    /// The expression's source position.
    pub open spec fn spec_loc(self) -> Location {
        match self {
            Expression::Name(e) => e.location,
            Expression::Identifier(e) => e.location,
            Expression::ArrayLiteral(e) => e.location,
            Expression::ArrayAccess(e) => e.location,
            Expression::Literal(e) => e.location,
            Expression::Binary(e) => e.location,
            Expression::Comparison(e) => e.location,
            Expression::FieldAccess(e) => e.location,
            Expression::FunctionCall(e) => e.location,
            Expression::BuiltIn(e) => e.location,
            Expression::Unary(e) => e.location,
            Expression::StructLiteral(e) => e.location,
        }
    }

    /// The resolved type the checker attached to the node.
    pub fn get_type(&self) -> (r: Type)
        ensures
            r.matches(self.spec_type()),
            !(self.spec_type() is Arr) ==> r == self.spec_type(),
    {
        match self {
            Expression::Name(e) => e.typ.clone(),
            Expression::Identifier(e) => e.typ.clone(),
            Expression::ArrayLiteral(e) => e.typ.clone(),
            Expression::ArrayAccess(e) => e.typ.clone(),
            Expression::Literal(e) => e.typ.clone(),
            Expression::Binary(e) => e.typ.clone(),
            Expression::Comparison(e) => e.typ.clone(),
            Expression::FieldAccess(e) => e.typ.clone(),
            Expression::FunctionCall(e) => e.typ.clone(),
            Expression::BuiltIn(e) => e.typ.clone(),
            Expression::Unary(e) => e.typ.clone(),
            Expression::StructLiteral(e) => e.typ.clone(),
        }
    }

    /// The node's resolved type.
    pub open spec fn spec_type(self) -> Type {
        match self {
            Expression::Name(e) => e.typ,
            Expression::Identifier(e) => e.typ,
            Expression::ArrayLiteral(e) => e.typ,
            Expression::ArrayAccess(e) => e.typ,
            Expression::Literal(e) => e.typ,
            Expression::Binary(e) => e.typ,
            Expression::Comparison(e) => e.typ,
            Expression::FieldAccess(e) => e.typ,
            Expression::FunctionCall(e) => e.typ,
            Expression::BuiltIn(e) => e.typ,
            Expression::Unary(e) => e.typ,
            Expression::StructLiteral(e) => e.typ,
        }
    }
}

/// A bracketed list of element expressions.
pub struct ArrayLiteralNode {
    pub location: Location,
    pub elements: Vec<Expression>,
    pub typ: Type,
}

/// An indexed read of an array variable.
pub struct ArrayAccessNode {
    pub location: Location,
    pub array_name: String,
    pub indices: ArrayLiteralNode,
    pub typ: Type,
}

/// A primitive constant: its source text plus its resolved type.
pub struct LiteralNode {
    pub location: Location,
    pub value: String,
    pub typ: Type,
}

/// An arithmetic, bitwise, assignment or member-access expression.
pub struct BinaryNode {
    pub location: Location,
    pub operation: Operation,
    pub lhs: Box<Expression>,
    pub rhs: Box<Expression>,
    pub typ: Type,
}

/// An ordered or equality comparison.
pub struct ComparisonNode {
    pub location: Location,
    pub operation: Operation,
    pub lhs: Box<Expression>,
    pub rhs: Box<Expression>,
    pub typ: Type,
}

/// A call to a free function.
pub struct CallNode {
    pub location: Location,
    pub function_name: String,
    pub arguments: Vec<ArgumentNode>,
    pub typ: Type,
    pub is_constructor: bool,
}

/// A read or write through a named field of a class instance.
pub struct FieldAccessNode {
    pub location: Location,
    pub name: String,
    pub field: IdentifierNode,
    pub typ: Type,
}

/// A plain name reference, resolved to a variable.
pub struct NameNode {
    pub location: Location,
    pub name: String,
    pub typ: Type,
}

/// A call to one of the compiler's built-in routines.
pub struct BuiltInNode {
    pub location: Location,
    pub function_name: String,
    pub arguments: Vec<ArgumentNode>,
    pub typ: Type,
}

/// A prefix operator applied to one operand.
pub struct UnaryNode {
    pub location: Location,
    pub operation: Operation,
    pub expression: Box<Expression>,
    pub typ: Type,
}

/// A braced aggregate construction listing field initializers in source
/// order.
pub struct StructLiteralNode {
    pub location: Location,
    pub struct_name: String,
    pub fields: Vec<(String, Expression)>,
    pub typ: Type,
}

} // verus!
