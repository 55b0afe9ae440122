//! The parts of a parsed Garnet module that the semantic passes read:
//! functions with their parameters and bodies, impl blocks, statements,
//! expressions and patterns. Source spans are left out; no pass here
//! reports one.

use vstd::prelude::*;
use crate::coherence::TypeExpr;
use crate::diagnostics::FnMode;
use crate::span::Span;

verus! {

/// How a parameter takes its argument: by value (`own`), shared
/// (`borrow`), exclusive (`mut`) or as a plain reference (`ref`).
#[derive(Debug, Clone, Copy, PartialEq, Eq, Structural)]
pub enum Ownership {
    Own,
    Borrow,
    Mut,
    Ref,
}

/// A function parameter.
#[derive(Debug)]
pub struct Param {
    pub name: String,
    pub ty: Option<TypeExpr>,
    pub ownership: Option<Ownership>,
}

/// An annotation on a function.
#[derive(Debug)]
pub enum Annotation {
    /// `@caps(...)`: the capabilities the function declares.
    Caps(Vec<String>),
    /// `@bounded(N)`: an iteration budget.
    Bounded(i64),
    /// `@fan_out(K)`: a spawn budget.
    FanOut(i64),
    /// `@mailbox(N)`: a mailbox capacity.
    Mailbox(i64),
    /// `@max_depth(N)`: a recursion budget.
    MaxDepth(i64),
    /// `@nonsendable`.
    NonSendable,
    /// `@dynamic`.
    Dynamic,
}

/// A `fn` (safe) or `def` (managed) function.
#[derive(Debug)]
pub struct FnDef {
    pub name: String,
    pub mode: FnMode,
    pub annotations: Vec<Annotation>,
    pub params: Vec<Param>,
    /// The declared return type, if any.
    pub return_ty: Option<TypeExpr>,
    pub body: Block,
}

/// An `impl` block: `impl<type_params> trait_ty for target` (inherent when
/// `trait_ty` is `None`), its annotations and its methods.
#[derive(Debug)]
pub struct ImplBlock {
    pub annotations: Vec<Annotation>,
    pub trait_ty: Option<TypeExpr>,
    pub type_params: Vec<String>,
    pub target: TypeExpr,
    pub methods: Vec<FnDef>,
}

/// A `struct` item: its name and annotations.
#[derive(Debug)]
pub struct StructDef {
    pub name: String,
    pub annotations: Vec<Annotation>,
}

/// A `protocol` of an actor: its parameters and optional reply type.
#[derive(Debug)]
pub struct ProtocolDef {
    pub name: String,
    pub params: Vec<Param>,
    pub return_ty: Option<TypeExpr>,
}

/// An `on` handler of an actor and its parameters.
#[derive(Debug)]
pub struct HandlerDef {
    pub name: String,
    pub params: Vec<Param>,
}

/// An item of an actor's body.
#[derive(Debug)]
pub enum ActorMember {
    Protocol(ProtocolDef),
    Handler(HandlerDef),
    /// A `memory` declaration, by its kind's name.
    Memory(String),
    Let,
}

/// An `actor` item: its name and body items, in source order.
#[derive(Debug)]
pub struct ActorDef {
    pub name: String,
    pub items: Vec<ActorMember>,
}

/// An `enum` item: its name and the names of its variants.
#[derive(Debug)]
pub struct EnumDef {
    pub name: String,
    pub variants: Vec<String>,
}

/// A nested `module` item.
#[derive(Debug)]
pub struct ModuleDecl {
    pub name: String,
    /// Whether it is declared `@safe`.
    pub safe: bool,
    pub items: Vec<Item>,
}

/// An item.
#[derive(Debug)]
pub enum Item {
    Fn(FnDef),
    Impl(ImplBlock),
    Module(ModuleDecl),
    Enum(EnumDef),
    Struct(StructDef),
    /// A `trait`, by name.
    Trait(String),
    /// A top-level `protocol`, by name.
    Protocol(String),
    Actor(ActorDef),
    /// A `memory` declaration, by its kind's name.
    Memory(String),
    /// Any other item.
    Other,
}

/// A parsed module.
#[derive(Debug)]
pub struct Module {
    /// Whether the module is declared `@safe` as a whole.
    pub safe: bool,
    pub items: Vec<Item>,
}

/// A block: statements and an optional tail expression.
#[derive(Debug)]
pub struct Block {
    pub stmts: Vec<Stmt>,
    pub tail_expr: Option<Box<Expr>>,
}

/// A `let`, `var` or `const` declaration.
#[derive(Debug)]
pub struct LetDecl {
    pub name: String,
    pub ty: Option<TypeExpr>,
    pub value: Expr,
}

/// A statement.
#[derive(Debug)]
#[allow(inconsistent_fields)]
pub enum Stmt {
    Let(LetDecl),
    Var(LetDecl),
    Const(LetDecl),
    Assign { target: Expr, op: AssignOp, value: Expr },
    While { condition: Expr, body: Block, span: Span },
    For { var: String, iter: Expr, body: Block, span: Span },
    Loop { body: Block, span: Span },
    Break { value: Option<Expr> },
    Continue,
    Return { value: Option<Expr> },
    Yield { value: Option<Expr> },
    Next { value: Option<Expr> },
    Raise { value: Expr },
    Expr(Expr),
}

/// An assignment operator.
#[derive(Debug, Clone, Copy, PartialEq, Eq, Structural)]
pub enum AssignOp {
    /// `=`
    Eq,
    /// `+=`
    PlusEq,
    /// `-=`
    MinusEq,
    /// `*=`
    StarEq,
    /// `/=`
    SlashEq,
    /// `%=`
    PercentEq,
}

/// A binary operator.
#[derive(Debug, Clone, Copy, PartialEq, Eq, Structural)]
pub enum BinOp {
    Add,
    Sub,
    Mul,
    Div,
    Mod,
    Eq,
    NotEq,
    Lt,
    LtEq,
    Gt,
    GtEq,
    And,
    Or,
    /// `a..b`
    Range,
    /// `a..=b`
    RangeInclusive,
}

/// One arm of a `match`.
#[derive(Debug)]
pub struct MatchArm {
    pub pattern: Pattern,
    pub guard: Option<Expr>,
    pub body: Block,
}

/// One `rescue` clause of a `try`: the bound name, the rescued type, the
/// body.
#[derive(Debug)]
pub struct Rescue {
    pub name: Option<String>,
    pub ty: Option<TypeExpr>,
    pub body: Block,
    pub span: Span,
}

/// The body of a closure: a block or a single expression.
#[derive(Debug)]
pub enum ClosureBody {
    Block(Block),
    Expr(Box<Expr>),
}

/// An expression.
#[derive(Debug)]
#[allow(inconsistent_fields)]
pub enum Expr {
    Int(i64),
    /// A floating-point literal, as its value prints (`1.5`, `2`).
    Float(String),
    Bool(bool),
    Nil,
    /// A string literal's text, each interpolation written `#{...}`.
    Str(String),
    Symbol(String),
    Path(Vec<String>),
    Ident(String),
    Call { callee: Box<Expr>, args: Vec<Expr> },
    Method { receiver: Box<Expr>, method: String, args: Vec<Expr> },
    Field { receiver: Box<Expr>, field: String },
    Index { receiver: Box<Expr>, index: Box<Expr> },
    Cast { expr: Box<Expr>, ty: TypeExpr },
    Binary { op: BinOp, lhs: Box<Expr>, rhs: Box<Expr> },
    Unary { expr: Box<Expr> },
    If { condition: Box<Expr>, then_block: Block, elsif_clauses: Vec<(Expr, Block)>, else_block: Option<Block> },
    Match { subject: Box<Expr>, arms: Vec<MatchArm> },
    Try { body: Block, rescues: Vec<Rescue>, ensure: Option<Block> },
    Closure { params: Vec<Param>, body: Box<ClosureBody> },
    Spawn { expr: Box<Expr>, span: Span },
    Array { elements: Vec<Expr> },
    MapLit { entries: Vec<(Expr, Expr)> },
}

/// A pattern of a `match` arm.
#[derive(Debug)]
pub enum Pattern {
    Ident(String),
    Tuple(Vec<Pattern>),
    Enum(Vec<String>, Vec<Pattern>),
    Literal(Expr),
    Wildcard,
    Rest,
}

} // verus!
