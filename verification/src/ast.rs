use vstd::prelude::*;

use crate::span::Span;

verus! {

/// A reference to a type: a (possibly dotted) name with type arguments and
/// associated-type bindings, or a function type.
#[derive(Debug)]
pub struct TypeRef {
    pub name: String,
    pub args: Vec<TypeRef>,
    pub bindings: Vec<AssociatedTypeBinding>,
    pub function: Option<FunctionTypeRef>,
    pub span: Span,
}

#[derive(Debug)]
pub struct FunctionTypeRef {
    pub params: Vec<FunctionTypeParam>,
    pub return_type: Box<TypeRef>,
}

#[derive(Debug)]
pub struct FunctionTypeParam {
    pub mutable: bool,
    pub type_ref: TypeRef,
}

#[derive(Debug)]
pub struct AssociatedTypeBinding {
    pub name: String,
    pub type_ref: TypeRef,
    pub span: Span,
}

#[derive(Debug)]
pub struct TypeParamBound {
    pub param: String,
    pub trait_ref: TypeRef,
    pub span: Span,
}

#[derive(Debug)]
pub struct ImportName {
    pub name: String,
    pub alias: Option<String>,
    pub span: Span,
}

#[derive(Debug)]
pub struct ImportNamespace {
    pub name: String,
    pub span: Span,
}

#[derive(Debug)]
pub struct ImportDecl {
    pub path: String,
    pub names: Vec<ImportName>,
    pub namespace: Option<ImportNamespace>,
    pub span: Span,
}

#[derive(Debug)]
pub struct EnumVariant {
    pub name: String,
    pub payload: Option<TypeRef>,
    pub span: Span,
}

#[derive(Debug)]
pub struct EnumDecl {
    pub name: String,
    pub exported: bool,
    pub type_params: Vec<String>,
    pub type_param_bounds: Vec<TypeParamBound>,
    pub variants: Vec<EnumVariant>,
    pub members: Vec<StructMember>,
    pub span: Span,
}

#[derive(Debug)]
pub struct FieldDecl {
    pub name: String,
    pub internal: bool,
    pub type_ref: TypeRef,
    pub span: Span,
}

#[derive(Debug)]
pub enum StructMember {
    Field(FieldDecl),
    Method(FunctionDecl),
    StaticMethod(FunctionDecl),
}

#[derive(Debug)]
pub struct StructDecl {
    pub name: String,
    pub exported: bool,
    pub type_params: Vec<String>,
    pub type_param_bounds: Vec<TypeParamBound>,
    pub members: Vec<StructMember>,
    pub span: Span,
}

#[derive(Debug)]
pub struct AssociatedTypeDecl {
    pub name: String,
    pub type_params: Vec<String>,
    pub type_param_bounds: Vec<TypeParamBound>,
    pub bounds: Vec<TypeRef>,
    pub default: Option<TypeRef>,
    pub span: Span,
}

#[derive(Debug)]
pub struct TraitMethodDecl {
    pub name: String,
    pub static_: bool,
    pub type_params: Vec<String>,
    pub type_param_bounds: Vec<TypeParamBound>,
    pub params: Vec<Param>,
    pub return_type: Option<TypeRef>,
    pub body: Option<FunctionBody>,
    pub span: Span,
}

#[derive(Debug)]
pub struct TraitDecl {
    pub name: String,
    pub exported: bool,
    pub type_params: Vec<String>,
    pub type_param_bounds: Vec<TypeParamBound>,
    pub associated_types: Vec<AssociatedTypeDecl>,
    pub methods: Vec<TraitMethodDecl>,
    pub span: Span,
}

#[derive(Debug)]
pub struct AssociatedTypeDef {
    pub name: String,
    pub type_params: Vec<String>,
    pub type_param_bounds: Vec<TypeParamBound>,
    pub type_ref: TypeRef,
    pub span: Span,
}

#[derive(Debug)]
pub struct ImplMember {
    pub function: FunctionDecl,
    pub static_: bool,
    pub span: Span,
}

#[derive(Debug)]
pub struct ImplDecl {
    pub type_params: Vec<String>,
    pub type_param_bounds: Vec<TypeParamBound>,
    pub trait_ref: TypeRef,
    pub type_ref: TypeRef,
    pub associated_types: Vec<AssociatedTypeDef>,
    pub methods: Vec<ImplMember>,
    pub span: Span,
}

#[derive(Debug)]
pub struct ExtensionDecl {
    pub type_ref: TypeRef,
    pub exported: bool,
    pub type_params: Vec<String>,
    pub type_param_bounds: Vec<TypeParamBound>,
    pub function: FunctionDecl,
    pub static_: bool,
    pub span: Span,
}

#[derive(Debug)]
pub struct Param {
    pub name: String,
    pub mutable: bool,
    pub type_ref: Option<TypeRef>,
    pub span: Span,
}

#[derive(Debug)]
pub enum FunctionBody {
    Block(Block),
    Expr(Box<Expr>),
}

#[derive(Debug)]
pub struct FunctionDecl {
    pub name: Option<String>,
    pub exported: bool,
    pub type_params: Vec<String>,
    pub type_param_bounds: Vec<TypeParamBound>,
    pub params: Vec<Param>,
    pub return_type: Option<TypeRef>,
    pub body: FunctionBody,
    pub span: Span,
}

#[derive(Debug)]
pub enum Item {
    Import(ImportDecl),
    Enum(EnumDecl),
    Struct(StructDecl),
    Trait(TraitDecl),
    Impl(ImplDecl),
    Extension(ExtensionDecl),
    Function(FunctionDecl),
}

#[derive(Debug)]
pub struct Program {
    pub items: Vec<Item>,
}

#[derive(Debug)]
pub struct Block {
    pub statements: Vec<Stmt>,
    pub span: Span,
}

#[derive(Debug)]
pub struct Stmt {
    pub kind: StmtKind,
    pub span: Span,
}

#[derive(Debug)]
pub enum StmtKind {
    Let { name: String, mutable: bool, type_annotation: Option<TypeRef>, value: Option<Expr> },
    Assign { target: Expr, op: Option<BinaryOp>, value: Expr },
    Return { value: Option<Expr> },
    If { condition: Expr, then_branch: Block, else_branch: Option<ElseBranch> },
    While { condition: Expr, body: Block },
    For { name: String, iterable: Expr, body: Block },
    Break,
    Continue,
    Expr(Expr),
}

#[derive(Debug)]
pub enum ElseBranch {
    Block(Block),
    If(Box<Stmt>),
}

#[derive(Clone, Copy, PartialEq, Eq, Structural, Debug)]
pub enum BinaryOp {
    Add,
    Subtract,
    Multiply,
    Divide,
    Remainder,
    BitwiseAnd,
    BitwiseOr,
    BitwiseXor,
    ShiftLeft,
    ShiftRight,
    LogicalAnd,
    LogicalOr,
    Equal,
    NotEqual,
    Less,
    LessEqual,
    Greater,
    GreaterEqual,
}

#[derive(Clone, Copy, PartialEq, Eq, Structural, Debug)]
pub enum UnaryOp {
    Not,
    Negate,
}

#[derive(Debug)]
pub struct Expr {
    pub kind: ExprKind,
    pub span: Span,
}

#[derive(Debug)]
pub struct StructInitField {
    pub name: String,
    pub value: Expr,
    pub span: Span,
}

#[derive(Debug)]
pub enum ExprKind {
    Identifier(String),
    Number(String),
    String(String),
    Char(u32),
    Bool(bool),
    Array(Vec<Expr>),
    CollectionLiteral { collection: TypeRef, items: Vec<Expr> },
    Call { callee: Box<Expr>, args: Vec<Expr> },
    Member { object: Box<Expr>, name: String },
    GenericMember { object: Box<Expr>, name: String, args: Vec<TypeRef> },
    GenericType { name: String, args: Vec<TypeRef> },
    StructInit { name: String, args: Vec<TypeRef>, fields: Vec<StructInitField> },
    Range { start: Box<Expr>, end: Box<Expr>, inclusive: bool },
    Binary { left: Box<Expr>, op: BinaryOp, right: Box<Expr> },
    Unary { op: UnaryOp, operand: Box<Expr> },
    PostfixIncrement(Box<Expr>),
    Match { value: Box<Expr>, branches: Vec<MatchBranch> },
    Lambda(FunctionDecl),
    Block(Block),
    Comptime(Box<Expr>),
    Missing,
}

#[derive(Debug)]
pub struct MatchBranch {
    pub pattern: Pattern,
    pub guard: Option<Expr>,
    pub body: MatchBranchBody,
    pub span: Span,
}

#[derive(Debug)]
pub enum MatchBranchBody {
    Expr(Box<Expr>),
    Block(Block),
}

#[derive(Debug)]
pub enum Pattern {
    Variant {
        enum_name: String,
        variant: String,
        binding: Option<String>,
        binding_mutable: bool,
        span: Span,
    },
    String { value: String, span: Span },
    Number { value: String, span: Span },
    Range { start: String, end: String, inclusive: bool, span: Span },
    Wildcard { span: Span },
}

/// Whether a number literal is a floating-point one: it has a decimal point,
/// or, outside hexadecimal literals, an exponent.
pub open spec fn spec_number_is_float(text: Seq<char>) -> bool {
    let hex = text.len() >= 2 && text[0] == '0' && (text[1] == 'x' || text[1] == 'X');
    text.contains('.') || (!hex && (text.contains('e') || text.contains('E')))
}

/// Whether the number literal `text` denotes a floating-point value.
pub fn number_literal_is_float(text: &str) -> (float: bool)
    ensures
        float == spec_number_is_float(text@),
{
    let n = text.unicode_len();
    let hex = n >= 2 && text.get_char(0) == '0' && (text.get_char(1) == 'x' || text.get_char(1) == 'X');
    let mut point = false;
    let mut exponent = false;
    let mut i: usize = 0;
    while i < n
        invariant
            n == text@.len(),
            i <= n,
            point == exists|j: int| 0 <= j < i && text@[j] == '.',
            exponent == exists|j: int| 0 <= j < i && (text@[j] == 'e' || text@[j] == 'E'),
        decreases n - i,
    {
        let c = text.get_char(i);
        if c == '.' {
            point = true;
        }
        if c == 'e' || c == 'E' {
            exponent = true;
        }
        i = i + 1;
    }
    proof {
        if point {
            let j = choose|j: int| 0 <= j < n && text@[j] == '.';
            assert(text@.contains('.'));
        }
        if text@.contains('.') {
            let j = choose|j: int| 0 <= j < text@.len() && text@[j] == '.';
            assert(point);
        }
        if text@.contains('e') {
            let j = choose|j: int| 0 <= j < text@.len() && text@[j] == 'e';
            assert(exponent);
        }
        if text@.contains('E') {
            let j = choose|j: int| 0 <= j < text@.len() && text@[j] == 'E';
            assert(exponent);
        }
        if exponent {
            let j = choose|j: int| 0 <= j < n && (text@[j] == 'e' || text@[j] == 'E');
            if text@[j] == 'e' {
                assert(text@.contains('e'));
            } else {
                assert(text@.contains('E'));
            }
        }
    }
    point || (!hex && exponent)
}

impl FunctionBody {
    pub open spec fn spec_span(&self) -> Span {
        match self {
            FunctionBody::Block(block) => block.span,
            FunctionBody::Expr(expr) => expr.span,
        }
    }

    #[verifier::when_used_as_spec(spec_span)]
    pub fn span(&self) -> (span: Span)
        ensures
            span == self.spec_span(),
    {
        match self {
            FunctionBody::Block(block) => block.span,
            FunctionBody::Expr(expr) => expr.span,
        }
    }
}

impl MatchBranchBody {
    pub open spec fn spec_span(&self) -> Span {
        match self {
            MatchBranchBody::Expr(expr) => expr.span,
            MatchBranchBody::Block(block) => block.span,
        }
    }

    #[verifier::when_used_as_spec(spec_span)]
    pub fn span(&self) -> (span: Span)
        ensures
            span == self.spec_span(),
    {
        match self {
            MatchBranchBody::Expr(expr) => expr.span,
            MatchBranchBody::Block(block) => block.span,
        }
    }
}

impl Pattern {
    pub open spec fn spec_span(&self) -> Span {
        match self {
            Pattern::Variant { span, .. } => *span,
            Pattern::String { span, .. } => *span,
            Pattern::Number { span, .. } => *span,
            Pattern::Range { span, .. } => *span,
            Pattern::Wildcard { span } => *span,
        }
    }

    #[verifier::when_used_as_spec(spec_span)]
    pub fn span(&self) -> (span: Span)
        ensures
            span == self.spec_span(),
    {
        match self {
            Pattern::Variant { span, .. } => *span,
            Pattern::String { span, .. } => *span,
            Pattern::Number { span, .. } => *span,
            Pattern::Range { span, .. } => *span,
            Pattern::Wildcard { span } => *span,
        }
    }
}

} // verus!
