//! Scalar-level operations over a relation: the operator shapes a
//! query plan may hold.  The operator sets follow the literal
//! expression rules: integer arithmetic and unary minus.

use vstd::prelude::*;
use crate::types::SqlType;

verus! {

/// Type of one column of a relation.
#[derive(Clone, Copy, PartialEq, Eq, Structural, Debug)]
pub struct ColumnType {
    pub sql_type: SqlType,
}

/// Types of a relation's columns, in order.
pub type RelationType = Vec<ColumnType>;

/// One row of a relation: its cells in column order, as text.
pub type Row = Vec<String>;

/// A binary operator over scalars.
#[derive(Debug, Clone, Copy, PartialEq, Eq, Structural)]
pub enum BinaryOp {
    Plus,
    Minus,
    Multiply,
    Divide,
    Modulus,
}

/// A unary operator over scalars.
#[derive(Debug, Clone, Copy, PartialEq, Eq, Structural)]
pub enum UnaryOp {
    Minus,
}

/// Operation performed on the table.
#[derive(Debug, PartialEq, Eq)]
pub enum ScalarOp {
    /// column access
    Column(usize),
    /// literal value (owned) and expected type.
    Literal(Vec<Row>, RelationType),
    /// binary operator
    Binary(BinaryOp, Box<ScalarOp>, Box<ScalarOp>),
    /// unary operator
    Unary(UnaryOp, Box<ScalarOp>),
}

} // verus!
