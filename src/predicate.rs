//! Row filters, and their construction from `WHERE` clauses.

use crate::ast::{BinaryOperator, Expr};
use crate::bigint::Int;
use crate::types::{from_literal, literal_value, Type, TypeError};
use core::cmp::Ordering;
use vstd::prelude::*;

verus! {

/// A filter over the values of a column.
#[derive(Debug)]
pub enum Where {
    /// Every row.
    MatchAll,
    Equal(Type),
    /// Values in the closed interval from the first bound to the second.
    Between(Type, Type),
    /// Values equal to one of the list.
    In(Vec<Type>),
    /// Values the inner filter refuses.
    Negate(Box<Where>),
}

pub open spec fn values_of(ts: Seq<Type>) -> Seq<int> {
    ts.map_values(|t: Type| t@)
}

pub open spec fn all_wf(ts: Seq<Type>) -> bool {
    forall|i: int| 0 <= i < ts.len() ==> #[trigger] ts[i].wf()
}

impl Where {
    pub open spec fn wf(&self) -> bool
        decreases self,
    {
        match self {
            Where::MatchAll => true,
            Where::Equal(v) => v.wf(),
            Where::Between(low, high) => low.wf() && high.wf(),
            Where::In(vs) => all_wf(vs@),
            Where::Negate(w) => w.wf(),
        }
    }

    /// Whether the filter lets a value through.
    pub open spec fn holds(&self, x: int) -> bool
        decreases self,
    {
        match self {
            Where::MatchAll => true,
            Where::Equal(v) => x == v@,
            Where::Between(low, high) => low@ <= x && x <= high@,
            Where::In(vs) => values_of(vs@).contains(x),
            Where::Negate(w) => !w.holds(x),
        }
    }

    pub fn accepts(&self, x: &Int) -> (r: bool)
        requires
            self.wf(),
            x.wf(),
        ensures
            r == self.holds(x@),
        decreases self,
    {
        match self {
            Where::MatchAll => true,
            Where::Equal(Type::Int(v)) => matches!(x.compare(v), Ordering::Equal),
            Where::Between(Type::Int(low), Type::Int(high)) => {
                !matches!(low.compare(x), Ordering::Greater) && !matches!(x.compare(high), Ordering::Greater)
            },
            Where::In(vs) => {
                let mut i: usize = 0;
                while i < vs.len()
                    invariant
                        0 <= i <= vs.len(),
                        all_wf(vs@),
                        x.wf(),
                        self.holds(x@) == values_of(vs@).contains(x@),
                        forall|j: int| 0 <= j < i ==> vs@[j]@ != x@,
                    decreases vs.len() - i,
                {
                    let Type::Int(v) = &vs[i];
                    assert(vs@[i as int].wf());
                    if matches!(x.compare(v), Ordering::Equal) {
                        assert(values_of(vs@)[i as int] == x@);
                        assert(values_of(vs@).contains(x@));
                        return true;
                    }
                    i = i + 1;
                }
                assert(!values_of(vs@).contains(x@));
                false
            },
            Where::Negate(w) => !w.accepts(x),
        }
    }
}

pub open spec fn operand_message() -> Seq<char> {
    "right-hand side is not a literal"@
}

/// The diagnostic for a comparison other than equality; it names the operator.
pub open spec fn operator_message(op: BinaryOperator) -> Seq<char> {
    match op {
        BinaryOperator::Eq => "unsupported operator = in WHERE clause"@,
        BinaryOperator::NotEq => "unsupported operator <> in WHERE clause"@,
        BinaryOperator::Lt => "unsupported operator < in WHERE clause"@,
        BinaryOperator::LtEq => "unsupported operator <= in WHERE clause"@,
        BinaryOperator::Gt => "unsupported operator > in WHERE clause"@,
        BinaryOperator::GtEq => "unsupported operator >= in WHERE clause"@,
        BinaryOperator::And => "unsupported operator AND in WHERE clause"@,
        BinaryOperator::Or => "unsupported operator OR in WHERE clause"@,
        BinaryOperator::Other(d) => d@,
    }
}

/// The diagnostic for a `WHERE` clause of no supported shape.
pub open spec fn clause_message(e: Expr) -> Seq<char> {
    match e {
        Expr::Other(d) => d@,
        _ => "unsupported WHERE clause"@,
    }
}

/// The value of an operand, which must be a literal.
pub open spec fn operand_value(e: Expr) -> Result<int, Seq<char>> {
    match e {
        Expr::Value(lit) => literal_value(lit),
        _ => Err(operand_message()),
    }
}

/// The values of a list of operands, or the first failure among them.
pub open spec fn operand_values(es: Seq<Expr>) -> Result<Seq<int>, Seq<char>>
    decreases es.len(),
{
    if es.len() == 0 {
        Ok(Seq::empty())
    } else {
        match operand_values(es.drop_last()) {
            Ok(vs) => match operand_value(es.last()) {
                Ok(v) => Ok(vs.push(v)),
                Err(m) => Err(m),
            },
            Err(m) => Err(m),
        }
    }
}

/// The filter a `WHERE` clause asks for, as a property of values.
pub open spec fn selection_filter(selection: Option<Expr>) -> Result<spec_fn(int) -> bool, Seq<char>> {
    match selection {
        None => Ok(|x: int| true),
        Some(Expr::BinaryOp { op, right, .. }) => match op {
            BinaryOperator::Eq => match operand_value(*right) {
                Ok(v) => Ok(|x: int| x == v),
                Err(m) => Err(m),
            },
            _ => Err(operator_message(op)),
        },
        Some(Expr::Between { negated, low, high, .. }) => match operand_value(*low) {
            Ok(lo) => match operand_value(*high) {
                Ok(hi) => if negated {
                    Ok(|x: int| !(lo <= x && x <= hi))
                } else {
                    Ok(|x: int| lo <= x && x <= hi)
                },
                Err(m) => Err(m),
            },
            Err(m) => Err(m),
        },
        Some(Expr::InList { list, negated, .. }) => match operand_values(list@) {
            Ok(vs) => if negated {
                Ok(|x: int| !vs.contains(x))
            } else {
                Ok(|x: int| vs.contains(x))
            },
            Err(m) => Err(m),
        },
        Some(e) => Err(clause_message(e)),
    }
}

/// The rows an `UPDATE` or `DELETE` aims at: all of them, or those equal to a literal.
pub open spec fn key_filter(selection: Option<Expr>) -> Result<spec_fn(int) -> bool, Seq<char>> {
    match selection {
        None => Ok(|x: int| true),
        Some(Expr::BinaryOp { op, right, .. }) => match op {
            BinaryOperator::Eq => match operand_value(*right) {
                Ok(v) => Ok(|x: int| x == v),
                Err(m) => Err(m),
            },
            _ => Err(operator_message(op)),
        },
        Some(e) => Err(clause_message(e)),
    }
}

fn operator_description(op: &BinaryOperator) -> (r: String)
    ensures
        r@ == operator_message(*op),
{
    match op {
        BinaryOperator::Eq => "unsupported operator = in WHERE clause".to_owned(),
        BinaryOperator::NotEq => "unsupported operator <> in WHERE clause".to_owned(),
        BinaryOperator::Lt => "unsupported operator < in WHERE clause".to_owned(),
        BinaryOperator::LtEq => "unsupported operator <= in WHERE clause".to_owned(),
        BinaryOperator::Gt => "unsupported operator > in WHERE clause".to_owned(),
        BinaryOperator::GtEq => "unsupported operator >= in WHERE clause".to_owned(),
        BinaryOperator::And => "unsupported operator AND in WHERE clause".to_owned(),
        BinaryOperator::Or => "unsupported operator OR in WHERE clause".to_owned(),
        BinaryOperator::Other(d) => d.clone(),
    }
}

fn clause_description(e: &Expr) -> (r: String)
    ensures
        r@ == clause_message(*e),
{
    match e {
        Expr::Other(d) => d.clone(),
        _ => "unsupported WHERE clause".to_owned(),
    }
}

/// Reads an operand as a value.
pub fn operand(e: &Expr) -> (r: Result<Type, String>)
    ensures
        match operand_value(*e) {
            Ok(v) => r matches Ok(t) && t.wf() && t@ == v,
            Err(m) => r matches Err(d) && d@ == m,
        },
{
    match e {
        Expr::Value(lit) => match from_literal(lit) {
            Ok(t) => Ok(t),
            Err(TypeError::Unsupported(d)) => Err(d),
        },
        _ => Err("right-hand side is not a literal".to_owned()),
    }
}

proof fn lemma_operand_values_fail(es: Seq<Expr>, i: int)
    requires
        0 <= i <= es.len(),
        operand_values(es.subrange(0, i)) is Err,
    ensures
        operand_values(es) == operand_values(es.subrange(0, i)),
    decreases es.len() - i,
{
    if i < es.len() {
        assert(es.subrange(0, i + 1).drop_last() =~= es.subrange(0, i));
        lemma_operand_values_fail(es, i + 1);
    } else {
        assert(es.subrange(0, i) =~= es);
    }
}

/// Reads a list of operands as values, failing at the first that is not one.
pub fn operands(es: &Vec<Expr>) -> (r: Result<Vec<Type>, String>)
    ensures
        match operand_values(es@) {
            Ok(vs) => r matches Ok(ts) && all_wf(ts@) && values_of(ts@) == vs,
            Err(m) => r matches Err(d) && d@ == m,
        },
{
    let mut ts: Vec<Type> = Vec::new();
    let mut i: usize = 0;
    assert(es@.subrange(0, 0) =~= Seq::<Expr>::empty());
    assert(values_of(ts@) =~= Seq::<int>::empty());
    while i < es.len()
        invariant
            0 <= i <= es.len(),
            all_wf(ts@),
            operand_values(es@.subrange(0, i as int)) == Ok::<Seq<int>, Seq<char>>(values_of(ts@)),
        decreases es.len() - i,
    {
        let ghost before = ts@;
        assert(es@.subrange(0, i + 1).drop_last() =~= es@.subrange(0, i as int));
        assert(es@.subrange(0, i + 1).last() == es@[i as int]);
        match operand(&es[i]) {
            Ok(t) => {
                ts.push(t);
                assert(values_of(ts@) =~= values_of(before).push(t@));
            },
            Err(d) => {
                proof {
                    lemma_operand_values_fail(es@, i + 1);
                }
                return Err(d);
            },
        }
        i = i + 1;
    }
    assert(es@.subrange(0, es.len() as int) =~= es@);
    Ok(ts)
}

/// The filter of a `WHERE` clause, or why it cannot be had.
pub fn build_where(selection: &Option<Expr>) -> (r: Result<Where, String>)
    ensures
        match selection_filter(*selection) {
            Ok(p) => r matches Ok(w) && w.wf() && forall|x: int| w.holds(x) == p(x),
            Err(m) => r matches Err(d) && d@ == m,
        },
{
    proof {
        reveal_with_fuel(Where::holds, 2);
        reveal_with_fuel(Where::wf, 2);
    }
    match selection {
        None => Ok(Where::MatchAll),
        Some(Expr::BinaryOp { op, right, .. }) => match op {
            BinaryOperator::Eq => match operand(right) {
                Ok(v) => Ok(Where::Equal(v)),
                Err(m) => Err(m),
            },
            _ => Err(operator_description(op)),
        },
        Some(Expr::Between { negated, low, high, .. }) => match operand(low) {
            Ok(lo) => match operand(high) {
                Ok(hi) => if *negated {
                    Ok(Where::Negate(Box::new(Where::Between(lo, hi))))
                } else {
                    Ok(Where::Between(lo, hi))
                },
                Err(m) => Err(m),
            },
            Err(m) => Err(m),
        },
        Some(Expr::InList { list, negated, .. }) => match operands(list) {
            Ok(vs) => if *negated {
                Ok(Where::Negate(Box::new(Where::In(vs))))
            } else {
                Ok(Where::In(vs))
            },
            Err(m) => Err(m),
        },
        Some(e) => Err(clause_description(e)),
    }
}

/// The filter of an `UPDATE` or `DELETE` selection, or why it cannot be had.
pub fn build_key_filter(selection: &Option<Expr>) -> (r: Result<Where, String>)
    ensures
        match key_filter(*selection) {
            Ok(p) => r matches Ok(w) && w.wf() && forall|x: int| w.holds(x) == p(x),
            Err(m) => r matches Err(d) && d@ == m,
        },
{
    match selection {
        None => Ok(Where::MatchAll),
        Some(Expr::BinaryOp { op, right, .. }) => match op {
            BinaryOperator::Eq => match operand(right) {
                Ok(v) => Ok(Where::Equal(v)),
                Err(m) => Err(m),
            },
            _ => Err(operator_description(op)),
        },
        Some(e) => Err(clause_description(e)),
    }
}

} // verus!
