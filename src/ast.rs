use vstd::prelude::*;

verus! {

/// A name with the name of its type, as in `a: i32`.
#[derive(Debug, Clone, PartialEq, Eq)]
pub struct TypedArg {
    pub name: String,
    pub tp: String,
}

impl TypedArg {
    pub fn new(name: String, tp: String) -> (r: TypedArg)
        ensures
            r.name == name,
            r.tp == tp,
    {
        TypedArg { name, tp }
    }
}

#[derive(Debug, Clone, Copy, PartialEq, Eq)]
pub enum Comparator {
    LE,
    GE,
    LT,
    GT,
    EQ,
    NE,
}

#[derive(Debug, Clone, Copy, PartialEq, Eq)]
pub enum OpType {
    Mul,
    Div,
    Add,
    Sub,
}

/// An integer literal.
#[derive(Debug, Clone, PartialEq, Eq)]
pub struct Int {
    pub val: u64,
}

/// A floating-point literal, kept as the digits it was written with.
#[derive(Debug, Clone, PartialEq, Eq)]
pub struct Float {
    pub text: String,
}

/// A variable, possibly followed by a path of fields: `a.b.c`.
#[derive(Debug, PartialEq, Eq)]
pub struct Variable {
    pub name: String,
    pub fields: Vec<String>,
}

#[derive(Debug, PartialEq, Eq)]
pub struct UnaryMinus {
    pub expr: Box<Expression>,
}

#[derive(Debug, PartialEq, Eq)]
pub struct Not {
    pub expr: Box<Expression>,
}

#[derive(Debug, PartialEq, Eq)]
pub struct Arithmetic {
    pub lhs: Box<Expression>,
    pub op: OpType,
    pub rhs: Box<Expression>,
}

#[derive(Debug, PartialEq, Eq)]
pub struct Compare {
    pub lhs: Box<Expression>,
    pub cmp: Comparator,
    pub rhs: Box<Expression>,
}

#[derive(Debug, PartialEq, Eq)]
pub struct FunctionCall {
    pub name: String,
    pub args: Vec<Expression>,
}

/// A zero-initialised value of a user type: `S {}`.
#[derive(Debug, Clone, PartialEq, Eq)]
pub struct StructCtor {
    pub name: String,
}

#[derive(Debug, PartialEq, Eq)]
pub enum Expression {
    Int(Int),
    Float(Float),
    Variable(Variable),
    UnaryMinus(UnaryMinus),
    Not(Not),
    Arithmetic(Arithmetic),
    Compare(Compare),
    FunctionCall(FunctionCall),
    StructCtor(StructCtor),
}

#[derive(Debug, PartialEq, Eq)]
pub struct ExprStatement {
    pub expr: Expression,
}

#[derive(Debug, PartialEq, Eq)]
pub struct Let {
    pub var: String,
    pub tp: Option<String>,
    pub expr: Expression,
}

#[derive(Debug, PartialEq, Eq)]
pub struct Assignment {
    pub var: Variable,
    pub expr: Expression,
}

#[derive(Debug, PartialEq, Eq)]
pub struct If {
    pub check: Expression,
    pub true_body: Vec<Statement>,
    pub else_body: Option<Vec<Statement>>,
}

#[derive(Debug, PartialEq, Eq)]
pub struct While {
    pub cond: Expression,
    pub body: Vec<Statement>,
}

#[derive(Debug, PartialEq, Eq)]
pub struct For {
    pub start: Box<Statement>,
    pub check: Expression,
    pub step: Box<Statement>,
    pub body: Vec<Statement>,
}

#[derive(Debug, PartialEq, Eq)]
pub struct Return {
    pub expr: Option<Expression>,
}

/// A function declaration without a body.
#[derive(Debug, PartialEq, Eq)]
pub struct FuncDef {
    pub name: String,
    pub args: Vec<TypedArg>,
    pub rettype: String,
}

#[derive(Debug, PartialEq, Eq)]
pub struct FuncImpl {
    pub name: String,
    pub args: Vec<TypedArg>,
    pub rettype: String,
    pub body: Vec<Statement>,
}

#[derive(Debug, PartialEq, Eq)]
pub struct StructDef {
    pub name: String,
    pub fields: Vec<TypedArg>,
}

#[derive(Debug, PartialEq, Eq)]
pub enum Statement {
    ExprStatement(ExprStatement),
    Let(Let),
    Assignment(Assignment),
    If(If),
    While(While),
    For(For),
    Return(Return),
    FuncDef(FuncDef),
    FuncImpl(FuncImpl),
    StructDef(StructDef),
}

/// A whole source file: its top-level blocks in order.
#[derive(Debug, PartialEq, Eq)]
pub struct Program {
    pub blocks: Vec<Statement>,
}

} // verus!
