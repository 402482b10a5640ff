//! The values a table holds, and their reading from literals.

use crate::ast::Literal;
use crate::bigint::{int_text_value, is_int_text, Int};
use vstd::prelude::*;

verus! {

/// A value of a column.
#[derive(Clone, Debug, PartialEq, Eq, Hash)]
pub enum Type {
    Int(Int),
}

impl View for Type {
    type V = int;

    open spec fn view(&self) -> int {
        match self {
            Type::Int(i) => i@,
        }
    }
}

impl Type {
    pub open spec fn wf(&self) -> bool {
        match self {
            Type::Int(i) => i.wf(),
        }
    }
}

#[derive(Clone, Debug, PartialEq, Eq)]
pub enum TypeError {
    /// The literal is of a kind no column can hold; the text names the kind.
    Unsupported(String),
}

pub open spec fn not_integer_message() -> Seq<char> {
    "number literal that is not an integer"@
}

pub open spec fn string_message() -> Seq<char> {
    "string literal"@
}

pub open spec fn boolean_message() -> Seq<char> {
    "boolean literal"@
}

pub open spec fn null_message() -> Seq<char> {
    "null literal"@
}

/// What a literal reads as: an integer, or the description of why it cannot be one.
pub open spec fn literal_value(lit: Literal) -> Result<int, Seq<char>> {
    match lit {
        Literal::Number(s) => if is_int_text(s@) {
            Ok(int_text_value(s@))
        } else {
            Err(not_integer_message())
        },
        Literal::SingleQuotedString(_) => Err(string_message()),
        Literal::Boolean(_) => Err(boolean_message()),
        Literal::Null => Err(null_message()),
        Literal::Other(d) => Err(d@),
    }
}

/// Reads a literal as a value; only integer literals are values.
pub fn from_literal(lit: &Literal) -> (r: Result<Type, TypeError>)
    ensures
        match literal_value(*lit) {
            Ok(v) => r matches Ok(t) && t.wf() && t@ == v,
            Err(m) => r matches Err(TypeError::Unsupported(d)) && d@ == m,
        },
{
    match lit {
        Literal::Number(s) => match Int::parse(s.as_str()) {
            Some(i) => Ok(Type::Int(i)),
            None => Err(TypeError::Unsupported("number literal that is not an integer".to_owned())),
        },
        Literal::SingleQuotedString(_) => Err(TypeError::Unsupported("string literal".to_owned())),
        Literal::Boolean(_) => Err(TypeError::Unsupported("boolean literal".to_owned())),
        Literal::Null => Err(TypeError::Unsupported("null literal".to_owned())),
        Literal::Other(d) => Err(TypeError::Unsupported(d.clone())),
    }
}

} // verus!
