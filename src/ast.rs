//! The shapes of parsed SQL statements that the engine reads. A construct the
//! engine has no use for is carried as `Other`, with a description of it.

use vstd::prelude::*;

verus! {

/// A constant token.
#[derive(Clone, Debug, PartialEq, Eq)]
pub enum Literal {
    /// A numeric literal, as written.
    Number(String),
    SingleQuotedString(String),
    Boolean(bool),
    Null,
    Other(String),
}

#[derive(Clone, Debug, PartialEq, Eq)]
pub enum BinaryOperator {
    Eq,
    NotEq,
    Lt,
    LtEq,
    Gt,
    GtEq,
    And,
    Or,
    Other(String),
}

#[derive(Debug, PartialEq, Eq)]
pub enum Expr {
    Identifier(String),
    Value(Literal),
    BinaryOp { left: Box<Expr>, op: BinaryOperator, right: Box<Expr> },
    Between { expr: Box<Expr>, negated: bool, low: Box<Expr>, high: Box<Expr> },
    InList { expr: Box<Expr>, list: Vec<Expr>, negated: bool },
    Other(String),
}

/// `column = value` in an `UPDATE`.
#[derive(Debug, PartialEq, Eq)]
pub struct Assignment {
    pub id: String,
    pub value: Expr,
}

#[derive(Debug, PartialEq, Eq)]
pub enum TableFactor {
    Table { name: String },
    Other(String),
}

/// One relation of a `FROM` clause and the number of relations joined to it.
#[derive(Debug, PartialEq, Eq)]
pub struct TableWithJoins {
    pub relation: TableFactor,
    pub joins: usize,
}

#[derive(Debug, PartialEq, Eq)]
pub struct Select {
    pub from: Vec<TableWithJoins>,
    pub selection: Option<Expr>,
}

#[derive(Debug, PartialEq, Eq)]
pub enum SetExpr {
    Select(Box<Select>),
    /// `VALUES (..), (..)`: rows of expressions.
    Values(Vec<Vec<Expr>>),
    Other(String),
}

#[derive(Debug, PartialEq, Eq)]
pub struct Query {
    pub body: SetExpr,
}

#[derive(Debug, PartialEq, Eq)]
pub enum Statement {
    CreateTable { name: String },
    Insert { table_name: String, source: Box<Query> },
    Update { table_name: String, assignments: Vec<Assignment>, selection: Option<Expr> },
    Delete { table_name: String, selection: Option<Expr> },
    Query(Box<Query>),
    Other(String),
}

} // verus!
