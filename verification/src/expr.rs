//! Expression (AST) model: a closed, recursively owned tagged union with one
//! variant per syntactic construct. `SpecExpr` is its mathematical mirror.

use vstd::prelude::*;

verus! {

broadcast use vstd::std_specs::vec::axiom_vec_index_decreases;

/// The operator of a binary expression.
#[derive(Clone, Copy, Debug, PartialEq, Eq, Structural)]
pub enum BinaryOperator {
    Plus,
    Minus,
    Multiply,
    Divide,
    Modulo,
    Exponent,
}

/// A fully reduced syntax node. List-valued fields preserve source
/// left-to-right order; every child is owned by its parent.
/// A `Float` keeps the raw matched number text: the frontend never computes
/// with the value, and malformed text is rejected before the node is built.
#[derive(Debug, PartialEq)]
pub enum Expr {
    // Atoms
    Integer(i32),
    Float(Vec<u8>),
    Str(Vec<u8>),
    Ident(Vec<u8>),
    Wildcard,

    /// Name and type of one declared parameter.
    Parameter(Box<Expr>, Box<Expr>),
    QMark(Box<Expr>),
    QualifiedIdent(Box<Expr>, Box<Expr>),

    ParensExpr(Box<Expr>),
    BlockExpr(Vec<Expr>),

    /// Left operand, right operand, operator.
    BinaryExpr(Box<Expr>, Box<Expr>, BinaryOperator),

    PrintExpr(Box<Expr>),

    /// Name and field list of a class (struct) declaration.
    ClassExpr(Box<Expr>, Box<Expr>),
    /// Ordered `Parameter` list of a class declaration.
    ClassFields(Vec<Expr>),
    /// Name and ordered `FunctionExpr` list of a methods block.
    ClassMethods(Box<Expr>, Vec<Expr>),

    /// `from` package `import` symbols.
    ImportExpr(Box<Expr>, Box<Expr>),
    ImportArgs(Vec<Expr>),

    /// Name, parameters, optional return type, body.
    FunctionExpr(Box<Expr>, Box<Expr>, Option<Box<Expr>>, Box<Expr>),
    /// Name and argument list.
    FunctionCall(Box<Expr>, Box<Expr>),
    FunctionArgs(Vec<Expr>),
    ReturnExpr(Box<Expr>),
    FlagExpr(Box<Expr>),

    /// Name, optional type annotation, value.
    VariableExpr(Box<Expr>, Option<Box<Expr>>, Box<Expr>),
    ConstExpr(Box<Expr>, Option<Box<Expr>>, Box<Expr>),
    /// Mutation target and new value.
    MutateExpr(Box<Expr>, Box<Expr>),
}

/// Mathematical mirror of `Expr`: texts are byte sequences, lists are `Seq`.
pub enum SpecExpr {
    Integer(int),
    Float(Seq<u8>),
    Str(Seq<u8>),
    Ident(Seq<u8>),
    Wildcard,
    Parameter(Box<SpecExpr>, Box<SpecExpr>),
    QMark(Box<SpecExpr>),
    QualifiedIdent(Box<SpecExpr>, Box<SpecExpr>),
    ParensExpr(Box<SpecExpr>),
    BlockExpr(Seq<SpecExpr>),
    BinaryExpr(Box<SpecExpr>, Box<SpecExpr>, BinaryOperator),
    PrintExpr(Box<SpecExpr>),
    ClassExpr(Box<SpecExpr>, Box<SpecExpr>),
    ClassFields(Seq<SpecExpr>),
    ClassMethods(Box<SpecExpr>, Seq<SpecExpr>),
    ImportExpr(Box<SpecExpr>, Box<SpecExpr>),
    ImportArgs(Seq<SpecExpr>),
    FunctionExpr(Box<SpecExpr>, Box<SpecExpr>, Option<Box<SpecExpr>>, Box<SpecExpr>),
    FunctionCall(Box<SpecExpr>, Box<SpecExpr>),
    FunctionArgs(Seq<SpecExpr>),
    ReturnExpr(Box<SpecExpr>),
    FlagExpr(Box<SpecExpr>),
    VariableExpr(Box<SpecExpr>, Option<Box<SpecExpr>>, Box<SpecExpr>),
    ConstExpr(Box<SpecExpr>, Option<Box<SpecExpr>>, Box<SpecExpr>),
    MutateExpr(Box<SpecExpr>, Box<SpecExpr>),
}

/// The model of one node.
pub open spec fn expr_view(e: Expr) -> SpecExpr
    decreases e,
{
    {
        match e {
            Expr::Integer(v) => SpecExpr::Integer(v as int),
            Expr::Float(t) => SpecExpr::Float(t@),
            Expr::Str(t) => SpecExpr::Str(t@),
            Expr::Ident(t) => SpecExpr::Ident(t@),
            Expr::Wildcard => SpecExpr::Wildcard,
            Expr::Parameter(a, b) => SpecExpr::Parameter(
                Box::new(expr_view(*a)),
                Box::new(expr_view(*b)),
            ),
            Expr::QMark(a) => SpecExpr::QMark(Box::new(expr_view(*a))),
            Expr::QualifiedIdent(a, b) => SpecExpr::QualifiedIdent(
                Box::new(expr_view(*a)),
                Box::new(expr_view(*b)),
            ),
            Expr::ParensExpr(a) => SpecExpr::ParensExpr(Box::new(expr_view(*a))),
            Expr::BlockExpr(v) => SpecExpr::BlockExpr(
                Seq::new(v.len() as nat, |i: int| if 0 <= i < v.len() { expr_view(v[i]) } else { SpecExpr::Wildcard }),
            ),
            Expr::BinaryExpr(a, b, op) => SpecExpr::BinaryExpr(
                Box::new(expr_view(*a)),
                Box::new(expr_view(*b)),
                op,
            ),
            Expr::PrintExpr(a) => SpecExpr::PrintExpr(Box::new(expr_view(*a))),
            Expr::ClassExpr(a, b) => SpecExpr::ClassExpr(
                Box::new(expr_view(*a)),
                Box::new(expr_view(*b)),
            ),
            Expr::ClassFields(v) => SpecExpr::ClassFields(
                Seq::new(v.len() as nat, |i: int| if 0 <= i < v.len() { expr_view(v[i]) } else { SpecExpr::Wildcard }),
            ),
            Expr::ClassMethods(a, v) => SpecExpr::ClassMethods(
                Box::new(expr_view(*a)),
                Seq::new(v.len() as nat, |i: int| if 0 <= i < v.len() { expr_view(v[i]) } else { SpecExpr::Wildcard }),
            ),
            Expr::ImportExpr(a, b) => SpecExpr::ImportExpr(
                Box::new(expr_view(*a)),
                Box::new(expr_view(*b)),
            ),
            Expr::ImportArgs(v) => SpecExpr::ImportArgs(
                Seq::new(v.len() as nat, |i: int| if 0 <= i < v.len() { expr_view(v[i]) } else { SpecExpr::Wildcard }),
            ),
            Expr::FunctionExpr(a, b, c, d) => SpecExpr::FunctionExpr(
                Box::new(expr_view(*a)),
                Box::new(expr_view(*b)),
                match c {
                    Some(r) => Some(Box::new(expr_view(*r))),
                    None => None,
                },
                Box::new(expr_view(*d)),
            ),
            Expr::FunctionCall(a, b) => SpecExpr::FunctionCall(
                Box::new(expr_view(*a)),
                Box::new(expr_view(*b)),
            ),
            Expr::FunctionArgs(v) => SpecExpr::FunctionArgs(
                Seq::new(v.len() as nat, |i: int| if 0 <= i < v.len() { expr_view(v[i]) } else { SpecExpr::Wildcard }),
            ),
            Expr::ReturnExpr(a) => SpecExpr::ReturnExpr(Box::new(expr_view(*a))),
            Expr::FlagExpr(a) => SpecExpr::FlagExpr(Box::new(expr_view(*a))),
            Expr::VariableExpr(a, c, b) => SpecExpr::VariableExpr(
                Box::new(expr_view(*a)),
                match c {
                    Some(r) => Some(Box::new(expr_view(*r))),
                    None => None,
                },
                Box::new(expr_view(*b)),
            ),
            Expr::ConstExpr(a, c, b) => SpecExpr::ConstExpr(
                Box::new(expr_view(*a)),
                match c {
                    Some(r) => Some(Box::new(expr_view(*r))),
                    None => None,
                },
                Box::new(expr_view(*b)),
            ),
            Expr::MutateExpr(a, b) => SpecExpr::MutateExpr(
                Box::new(expr_view(*a)),
                Box::new(expr_view(*b)),
            ),
        }
    }
}

impl View for Expr {
    type V = SpecExpr;

    open spec fn view(&self) -> SpecExpr {
        expr_view(*self)
    }
}

/// The models of a sequence of nodes, in order.
pub open spec fn exprs_view(v: Seq<Expr>) -> Seq<SpecExpr> {
    v.map_values(|e: Expr| expr_view(e))
}

} // verus!
