//! Properties of statement execution, stated over `execute_spec` and the row
//! operations that `Engine::execute` is specified by.

use crate::ast::{Assignment, BinaryOperator, Expr, Literal, Query, Statement};
use crate::bigint::{char_digit, digits_value, is_digit_char, is_digit_text, is_int_text, int_text_value, text_digits};
use crate::engine::{assigned_value, execute_spec, inserted_value, query_target, Db, Outcome};
use crate::predicate::{key_filter, operand_value, selection_filter};
use crate::storage::{delete_rows, select_rows, sorted_rows, update_rows};
use crate::types::literal_value;
use vstd::prelude::*;

verus! {

proof fn lemma_filter_none(rows: Seq<(int, int)>, p: spec_fn((int, int)) -> bool)
    requires
        forall|j: int| 0 <= j < rows.len() ==> !p(#[trigger] rows[j]),
    ensures
        rows.filter(p) == Seq::<(int, int)>::empty(),
    decreases rows.len(),
{
    reveal(Seq::filter);
    if rows.len() > 0 {
        let d = rows.drop_last();
        assert forall|j: int| 0 <= j < d.len() implies !p(#[trigger] d[j]) by {
            assert(d[j] == rows[j]);
        }
        lemma_filter_none(d, p);
        assert(!p(rows[rows.len() - 1]));
    }
}

proof fn lemma_filter_single(rows: Seq<(int, int)>, p: spec_fn((int, int)) -> bool, i: int)
    requires
        0 <= i < rows.len(),
        p(rows[i]),
        forall|j: int| 0 <= j < rows.len() && j != i ==> !p(#[trigger] rows[j]),
    ensures
        rows.filter(p) == seq![rows[i]],
    decreases rows.len(),
{
    reveal(Seq::filter);
    let d = rows.drop_last();
    if i == rows.len() - 1 {
        assert forall|j: int| 0 <= j < d.len() implies !p(#[trigger] d[j]) by {
            assert(d[j] == rows[j]);
        }
        lemma_filter_none(d, p);
        assert(Seq::<(int, int)>::empty().push(rows[i]) =~= seq![rows[i]]);
    } else {
        assert forall|j: int| 0 <= j < d.len() && j != i implies !p(#[trigger] d[j]) by {
            assert(d[j] == rows[j]);
        }
        assert(d[i] == rows[i]);
        lemma_filter_single(d, p, i);
        assert(!p(rows[rows.len() - 1]));
    }
}

/// The decimal digits of `n`, most significant first, without a leading zero
/// (zero is the single digit 0).
pub open spec fn decimal_digits(n: nat) -> Seq<u8>
    decreases n,
{
    if n < 10 {
        seq![n as u8]
    } else {
        decimal_digits(n / 10).push((n % 10) as u8)
    }
}

pub open spec fn digit_char(d: u8) -> char {
    if d == 0 { '0' } else if d == 1 { '1' } else if d == 2 { '2' } else if d == 3 { '3' } else if d
        == 4 { '4' } else if d == 5 { '5' } else if d == 6 { '6' } else if d == 7 { '7' } else if d
        == 8 { '8' } else { '9' }
}

/// How an integer is written: its decimal digits, after a minus sign if it is negative.
pub open spec fn decimal_text(n: int) -> Seq<char> {
    if n < 0 {
        seq!['-'] + decimal_digits((-n) as nat).map_values(|d: u8| digit_char(d))
    } else {
        decimal_digits(n as nat).map_values(|d: u8| digit_char(d))
    }
}

proof fn lemma_decimal_digits(n: nat)
    ensures
        decimal_digits(n).len() > 0,
        forall|i: int| 0 <= i < decimal_digits(n).len() ==> #[trigger] decimal_digits(n)[i] < 10,
        digits_value(decimal_digits(n)) == n,
    decreases n,
{
    if n >= 10 {
        lemma_decimal_digits(n / 10);
        let d = decimal_digits(n);
        assert(d.drop_last() =~= decimal_digits(n / 10));
        assert(n % 10 < 10);
        assert(d.last() as nat == n % 10);
        assert(digits_value(d) == digits_value(decimal_digits(n / 10)) * 10 + n % 10);
        assert((n / 10) * 10 + n % 10 == n) by (nonlinear_arith);
        assert forall|i: int| 0 <= i < d.len() implies #[trigger] d[i] < 10 by {
            if i < d.len() - 1 {
                assert(d[i] == decimal_digits(n / 10)[i]);
            }
        }
    } else {
        let d = decimal_digits(n);
        assert(d.drop_last() =~= Seq::<u8>::empty());
        assert(d.last() as nat == n);
        assert(digits_value(d) == digits_value(d.drop_last()) * 10 + d.last() as nat);
    }
}

proof fn lemma_digit_text(n: nat)
    ensures
        is_digit_text(decimal_digits(n).map_values(|d: u8| digit_char(d))),
        text_digits(decimal_digits(n).map_values(|d: u8| digit_char(d))) == decimal_digits(n),
{
    lemma_decimal_digits(n);
    let ds = decimal_digits(n);
    let cs = ds.map_values(|d: u8| digit_char(d));
    assert forall|i: int| 0 <= i < cs.len() implies #[trigger] is_digit_char(cs[i]) by {
        assert(ds[i] < 10);
    }
    assert forall|i: int| 0 <= i < cs.len() implies #[trigger] char_digit(cs[i]) == ds[i] by {
        assert(ds[i] < 10);
    }
    assert(text_digits(cs) =~= ds);
}

/// The text of an integer reads back, as a number literal, as that integer.
pub proof fn law_integer_text_reads_back(n: int, text: String)
    requires
        text@ == decimal_text(n),
    ensures
        literal_value(Literal::Number(text)) == Ok::<int, Seq<char>>(n),
{
    if n < 0 {
        let m = (-n) as nat;
        lemma_digit_text(m);
        lemma_decimal_digits(m);
        let cs = decimal_digits(m).map_values(|d: u8| digit_char(d));
        assert(text@.drop_first() =~= cs);
        assert(is_int_text(text@));
    } else {
        lemma_digit_text(n as nat);
        lemma_decimal_digits(n as nat);
        assert(is_int_text(text@));
        assert(text@.len() > 0 && text@[0] != '-') by {
            assert(is_digit_char(text@[0]));
        }
    }
    assert(int_text_value(text@) == n);
}

/// Creating a table under a name not yet taken succeeds with `TableCreated`;
/// creating it a second time fails with `TableAlreadyExists` for that name.
pub proof fn law_create_twice(db: Db, name: String)
    requires
        !db.contains_key(name@),
    ensures
        execute_spec(db, Statement::CreateTable { name }).1 == Outcome::TableCreated(name@),
        execute_spec(execute_spec(db, Statement::CreateTable { name }).0, Statement::CreateTable { name }).1
            == Outcome::TableAlreadyExists(name@),
{
}

/// Over rows in key order, a filter on one key selects the row of that key
/// if there is one, and nothing otherwise.
pub proof fn law_equality_select(rows: Seq<(int, int)>, v: int)
    requires
        sorted_rows(rows),
    ensures
        forall|i: int|
            0 <= i < rows.len() && rows[i].0 == v ==> select_rows(rows, |x: int| x == v) == seq![
                seq![rows[i].1],
            ],
        (forall|i: int| 0 <= i < rows.len() ==> rows[i].0 != v) ==> select_rows(rows, |x: int| x == v)
            == Seq::<Seq<int>>::empty(),
{
    let p = |r: (int, int)| (|x: int| x == v)(r.0);
    assert forall|i: int|
        0 <= i < rows.len() && rows[i].0 == v implies select_rows(rows, |x: int| x == v) == seq![
            seq![rows[i].1],
        ] by {
        assert forall|j: int| 0 <= j < rows.len() && j != i implies !p(#[trigger] rows[j]) by {
            if j < i {
                assert(rows[j].0 < rows[i].0);
            } else {
                assert(rows[i].0 < rows[j].0);
            }
        }
        lemma_filter_single(rows, p, i);
        assert(seq![rows[i]].map_values(|r: (int, int)| seq![r.1]) =~= seq![seq![rows[i].1]]);
    }
    if forall|i: int| 0 <= i < rows.len() ==> rows[i].0 != v {
        assert forall|j: int| 0 <= j < rows.len() implies !p(#[trigger] rows[j]) by {
            assert(rows[j].0 != v);
        }
        lemma_filter_none(rows, p);
        assert(Seq::<(int, int)>::empty().map_values(|r: (int, int)| seq![r.1]) =~= Seq::<
            Seq<int>,
        >::empty());
    }
}

/// `NOT BETWEEN` lets through exactly the values `BETWEEN` keeps out, and
/// `NOT IN` exactly the values `IN` keeps out.
pub proof fn law_negation_complements(
    expr: Box<Expr>,
    low: Box<Expr>,
    high: Box<Expr>,
    list: Vec<Expr>,
    x: int,
)
    ensures
        ({
            let kept = selection_filter(Some(Expr::Between { expr, negated: false, low, high }));
            let left = selection_filter(Some(Expr::Between { expr, negated: true, low, high }));
            kept is Ok <==> left is Ok
        }),
        ({
            let kept = selection_filter(Some(Expr::Between { expr, negated: false, low, high }));
            let left = selection_filter(Some(Expr::Between { expr, negated: true, low, high }));
            kept is Ok ==> (left->Ok_0)(x) == !(kept->Ok_0)(x)
        }),
        ({
            let kept = selection_filter(Some(Expr::InList { expr, list, negated: false }));
            let left = selection_filter(Some(Expr::InList { expr, list, negated: true }));
            kept is Ok <==> left is Ok
        }),
        ({
            let kept = selection_filter(Some(Expr::InList { expr, list, negated: false }));
            let left = selection_filter(Some(Expr::InList { expr, list, negated: true }));
            kept is Ok ==> (left->Ok_0)(x) == !(kept->Ok_0)(x)
        }),
{
}

/// Inserting into, updating, deleting from or selecting from a table that was
/// never created fails with `TableDoesNotExist` naming it, and changes nothing.
pub proof fn law_missing_table(
    db: Db,
    table_name: String,
    source: Box<Query>,
    assignments: Vec<Assignment>,
    selection: Option<Expr>,
    query: Box<Query>,
)
    requires
        !db.contains_key(table_name@),
    ensures
        inserted_value(*source) is Ok ==> execute_spec(db, Statement::Insert { table_name, source })
            == (db, Outcome::TableDoesNotExist(table_name@)),
        execute_spec(db, Statement::Update { table_name, assignments, selection }) == (
            db,
            Outcome::TableDoesNotExist(table_name@),
        ),
        execute_spec(db, Statement::Delete { table_name, selection }) == (
            db,
            Outcome::TableDoesNotExist(table_name@),
        ),
        query_target(*query) is Ok && (query_target(*query)->Ok_0).0 == table_name@ ==> execute_spec(
            db,
            Statement::Query(query),
        ) == (db, Outcome::TableDoesNotExist(table_name@)),
{
}

/// Without a selection an update sets the value of every row of the table,
/// keeping the keys, and a delete removes every row.
pub proof fn law_unselected_update_delete(db: Db, table_name: String, assignments: Vec<Assignment>)
    requires
        db.contains_key(table_name@),
        assigned_value(assignments@) is Ok,
    ensures
        ({
            let v = assigned_value(assignments@)->Ok_0;
            let after = execute_spec(
                db,
                Statement::Update { table_name, assignments, selection: None },
            ).0;
            after[table_name@].1 == db[table_name@].1.map_values(|r: (int, int)| (r.0, v))
        }),
        execute_spec(db, Statement::Delete { table_name, selection: None }).0[table_name@].1
            == Seq::<(int, int)>::empty(),
{
    let v = assigned_value(assignments@)->Ok_0;
    let rows = db[table_name@].1;
    let p = key_filter(None::<Expr>)->Ok_0;
    assert(update_rows(rows, p, v) =~= rows.map_values(|r: (int, int)| (r.0, v)));
    lemma_filter_none(rows, |r: (int, int)| !p(r.0));
}

/// With an equality selection an update sets the value of the row of that
/// key only, and a delete removes that row only.
pub proof fn law_selected_update_delete(
    db: Db,
    table_name: String,
    assignments: Vec<Assignment>,
    left: Box<Expr>,
    right: Box<Expr>,
)
    requires
        db.contains_key(table_name@),
        assigned_value(assignments@) is Ok,
        operand_value(*right) is Ok,
    ensures
        ({
            let v = assigned_value(assignments@)->Ok_0;
            let k = operand_value(*right)->Ok_0;
            let rows = db[table_name@].1;
            let selection = Some(Expr::BinaryOp { left, op: BinaryOperator::Eq, right });
            let after = execute_spec(db, Statement::Update { table_name, assignments, selection }).0;
            &&& after[table_name@].1.len() == rows.len()
            &&& forall|i: int|
                0 <= i < rows.len() ==> #[trigger] after[table_name@].1[i] == (if rows[i].0 == k {
                    (k, v)
                } else {
                    rows[i]
                })
        }),
        ({
            let k = operand_value(*right)->Ok_0;
            let rows = db[table_name@].1;
            let selection = Some(Expr::BinaryOp { left, op: BinaryOperator::Eq, right });
            let after = execute_spec(db, Statement::Delete { table_name, selection }).0;
            after[table_name@].1 == rows.filter(|r: (int, int)| r.0 != k)
        }),
{
    let k = operand_value(*right)->Ok_0;
    let selection = Some(Expr::BinaryOp { left, op: BinaryOperator::Eq, right });
    let p = key_filter(selection)->Ok_0;
    assert((|r: (int, int)| !p(r.0)) =~= (|r: (int, int)| r.0 != k));
}

} // verus!
