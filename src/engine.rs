//! The dispatcher: one parsed statement in, one storage operation and one
//! outcome out.

use crate::ast::{Assignment, Expr, Query, SetExpr, Statement, TableFactor};
use crate::predicate::{
    build_key_filter, build_where, key_filter, operand, operand_value, selection_filter, Where,
};
use crate::storage::{
    delete_rows, insert_row, result_rows, select_rows, sorted_rows, update_rows, InMemoryStorage,
    Storage, StorageError, TableState,
};
use crate::types::{from_literal, literal_value, Type, TypeError};
use vstd::prelude::*;

verus! {

#[derive(Debug, PartialEq)]
pub enum EngineEvent {
    TableCreated(String),
    RecordInserted,
    /// The selected rows, in key order, one value each.
    RecordsSelected(Vec<Vec<Type>>),
    RecordsUpdated,
    RecordsDeleted,
}

#[derive(Debug, PartialEq)]
pub enum ErrorEvent {
    TableAlreadyExists(String),
    /// A construct the engine does not handle, with a description of it.
    UnimplementedBranch(String),
    TableDoesNotExist(String),
}

pub type ExecutionResult = Result<EngineEvent, ErrorEvent>;

impl ErrorEvent {
    /// The table name or the description the error carries.
    pub fn to_string(&self) -> (r: String)
        ensures
            r@ == match self {
                ErrorEvent::TableAlreadyExists(s) => s@,
                ErrorEvent::UnimplementedBranch(s) => s@,
                ErrorEvent::TableDoesNotExist(s) => s@,
            },
    {
        match self {
            ErrorEvent::TableAlreadyExists(s) => s.clone(),
            ErrorEvent::UnimplementedBranch(s) => s.clone(),
            ErrorEvent::TableDoesNotExist(s) => s.clone(),
        }
    }
}

/// What a statement's execution comes to, over plain values.
pub enum Outcome {
    TableCreated(Seq<char>),
    RecordInserted,
    RecordsSelected(Seq<Seq<int>>),
    RecordsUpdated,
    RecordsDeleted,
    TableAlreadyExists(Seq<char>),
    UnimplementedBranch(Seq<char>),
    TableDoesNotExist(Seq<char>),
}

pub open spec fn outcome(r: ExecutionResult) -> Outcome {
    match r {
        Ok(EngineEvent::TableCreated(n)) => Outcome::TableCreated(n@),
        Ok(EngineEvent::RecordInserted) => Outcome::RecordInserted,
        Ok(EngineEvent::RecordsSelected(rows)) => Outcome::RecordsSelected(result_rows(rows@)),
        Ok(EngineEvent::RecordsUpdated) => Outcome::RecordsUpdated,
        Ok(EngineEvent::RecordsDeleted) => Outcome::RecordsDeleted,
        Err(ErrorEvent::TableAlreadyExists(n)) => Outcome::TableAlreadyExists(n@),
        Err(ErrorEvent::UnimplementedBranch(d)) => Outcome::UnimplementedBranch(d@),
        Err(ErrorEvent::TableDoesNotExist(n)) => Outcome::TableDoesNotExist(n@),
    }
}

/// The tables by name.
pub type Db = Map<Seq<char>, TableState>;

pub open spec fn insert_source_message() -> Seq<char> {
    "INSERT supports only a VALUES list"@
}

pub open spec fn insert_shape_message() -> Seq<char> {
    "INSERT supports exactly one row of one value"@
}

pub open spec fn insert_operand_message() -> Seq<char> {
    "INSERT supports only a literal value"@
}

pub open spec fn assignment_message() -> Seq<char> {
    "UPDATE without an assignment"@
}

pub open spec fn from_message() -> Seq<char> {
    "SELECT supports exactly one table without joins"@
}

pub open spec fn query_message() -> Seq<char> {
    "only SELECT ... FROM queries are supported"@
}

pub open spec fn no_records_message() -> Seq<char> {
    "no value has been inserted into the table"@
}

/// The value an `INSERT` adds: the single literal of its single row.
pub open spec fn inserted_value(source: Query) -> Result<int, Seq<char>> {
    match source.body {
        SetExpr::Values(rows) => if rows@.len() == 1 && rows@[0]@.len() == 1 {
            match rows@[0]@[0] {
                Expr::Value(lit) => literal_value(lit),
                _ => Err(insert_operand_message()),
            }
        } else {
            Err(insert_shape_message())
        },
        _ => Err(insert_source_message()),
    }
}

/// The value an `UPDATE` sets: that of its first assignment.
pub open spec fn assigned_value(assignments: Seq<Assignment>) -> Result<int, Seq<char>> {
    if assignments.len() == 0 {
        Err(assignment_message())
    } else {
        operand_value(assignments[0].value)
    }
}

/// The table a query reads and the filter it reads it with.
pub open spec fn query_target(q: Query) -> Result<(Seq<char>, spec_fn(int) -> bool), Seq<char>> {
    match q.body {
        SetExpr::Select(s) => if s.from@.len() != 1 || s.from@[0].joins != 0 {
            Err(from_message())
        } else {
            match s.from@[0].relation {
                TableFactor::Table { name } => match selection_filter(s.selection) {
                    Ok(p) => Ok((name@, p)),
                    Err(m) => Err(m),
                },
                TableFactor::Other(d) => Err(d@),
            }
        },
        _ => Err(query_message()),
    }
}

/// The tables after a statement, and its outcome.
pub open spec fn execute_spec(db: Db, statement: Statement) -> (Db, Outcome) {
    match statement {
        Statement::CreateTable { name } => if db.contains_key(name@) {
            (db, Outcome::TableAlreadyExists(name@))
        } else {
            (db.insert(name@, (false, Seq::empty())), Outcome::TableCreated(name@))
        },
        Statement::Insert { table_name, source } => match inserted_value(*source) {
            Err(m) => (db, Outcome::UnimplementedBranch(m)),
            Ok(v) => if db.contains_key(table_name@) {
                (
                    db.insert(table_name@, (true, insert_row(db[table_name@].1, v, v))),
                    Outcome::RecordInserted,
                )
            } else {
                (db, Outcome::TableDoesNotExist(table_name@))
            },
        },
        Statement::Update { table_name, assignments, selection } => if !db.contains_key(
            table_name@,
        ) {
            (db, Outcome::TableDoesNotExist(table_name@))
        } else {
            match key_filter(selection) {
                Err(m) => (db, Outcome::UnimplementedBranch(m)),
                Ok(p) => match assigned_value(assignments@) {
                    Err(m) => (db, Outcome::UnimplementedBranch(m)),
                    Ok(v) => (
                        db.insert(
                            table_name@,
                            (db[table_name@].0, update_rows(db[table_name@].1, p, v)),
                        ),
                        Outcome::RecordsUpdated,
                    ),
                },
            }
        },
        Statement::Delete { table_name, selection } => if !db.contains_key(table_name@) {
            (db, Outcome::TableDoesNotExist(table_name@))
        } else {
            match key_filter(selection) {
                Err(m) => (db, Outcome::UnimplementedBranch(m)),
                Ok(p) => (
                    db.insert(table_name@, (db[table_name@].0, delete_rows(db[table_name@].1, p))),
                    Outcome::RecordsDeleted,
                ),
            }
        },
        Statement::Query(q) => match query_target(*q) {
            Err(m) => (db, Outcome::UnimplementedBranch(m)),
            Ok((t, p)) => if !db.contains_key(t) {
                (db, Outcome::TableDoesNotExist(t))
            } else if !db[t].0 {
                (db, Outcome::UnimplementedBranch(no_records_message()))
            } else {
                (db, Outcome::RecordsSelected(select_rows(db[t].1, p)))
            },
        },
        Statement::Other(d) => (db, Outcome::UnimplementedBranch(d@)),
    }
}

fn insert_operand(source: &Query) -> (r: Result<Type, String>)
    ensures
        match inserted_value(*source) {
            Ok(v) => r matches Ok(t) && t.wf() && t@ == v,
            Err(m) => r matches Err(d) && d@ == m,
        },
{
    match &source.body {
        SetExpr::Values(rows) => {
            if rows.len() == 1 && rows[0].len() == 1 {
                match &rows[0][0] {
                    Expr::Value(lit) => match from_literal(lit) {
                        Ok(t) => Ok(t),
                        Err(TypeError::Unsupported(d)) => Err(d),
                    },
                    _ => Err("INSERT supports only a literal value".to_owned()),
                }
            } else {
                Err("INSERT supports exactly one row of one value".to_owned())
            }
        },
        _ => Err("INSERT supports only a VALUES list".to_owned()),
    }
}

fn assignment_operand(assignments: &Vec<Assignment>) -> (r: Result<Type, String>)
    ensures
        match assigned_value(assignments@) {
            Ok(v) => r matches Ok(t) && t.wf() && t@ == v,
            Err(m) => r matches Err(d) && d@ == m,
        },
{
    if assignments.len() == 0 {
        Err("UPDATE without an assignment".to_owned())
    } else {
        operand(&assignments[0].value)
    }
}

fn query_operands(q: &Query) -> (r: Result<(String, Where), String>)
    ensures
        match query_target(*q) {
            Ok((t, p)) => r matches Ok((n, w)) && n@ == t && w.wf() && forall|x: int| w.holds(x) == p(x),
            Err(m) => r matches Err(d) && d@ == m,
        },
{
    match &q.body {
        SetExpr::Select(s) => {
            if s.from.len() != 1 || s.from[0].joins != 0 {
                Err("SELECT supports exactly one table without joins".to_owned())
            } else {
                match &s.from[0].relation {
                    TableFactor::Table { name } => match build_where(&s.selection) {
                        Ok(w) => Ok((name.clone(), w)),
                        Err(m) => Err(m),
                    },
                    TableFactor::Other(d) => Err(d.clone()),
                }
            }
        },
        _ => Err("only SELECT ... FROM queries are supported".to_owned()),
    }
}

/// Executes parsed statements against the tables of a storage backend.
pub struct Engine<S = InMemoryStorage> {
    storage: S,
}

impl<S: Storage> View for Engine<S> {
    type V = Db;

    closed spec fn view(&self) -> Db {
        self.storage.tables()
    }
}

impl Engine<InMemoryStorage> {
    /// An engine with no table, over storage in memory.
    pub fn new() -> (r: Engine<InMemoryStorage>)
        ensures
            r.wf(),
            r@ == Db::empty(),
    {
        Engine { storage: InMemoryStorage::new() }
    }

    /// Every table keeps its rows in strictly increasing key order.
    pub proof fn lemma_rows_sorted(&self, name: Seq<char>)
        requires
            self.wf(),
            self@.contains_key(name),
        ensures
            sorted_rows(self@[name].1),
    {
        self.storage.lemma_rows_sorted(name);
    }
}

impl<S: Storage> Engine<S> {
    pub closed spec fn wf(&self) -> bool {
        self.storage.inv()
    }

    /// An engine over the tables `storage` already holds.
    pub fn with_storage(storage: S) -> (r: Engine<S>)
        requires
            storage.inv(),
        ensures
            r.wf(),
            r@ == storage.tables(),
    {
        Engine { storage }
    }

    /// Executes one statement.
    pub fn execute(&mut self, statement: Statement) -> (r: ExecutionResult)
        requires
            old(self).wf(),
        ensures
            final(self).wf(),
            final(self)@ == execute_spec(old(self)@, statement).0,
            outcome(r) == execute_spec(old(self)@, statement).1,
    {
        match statement {
            Statement::CreateTable { name } => match self.storage.create_table(&name) {
                Ok(()) => Ok(EngineEvent::TableCreated(name)),
                Err(_) => Err(ErrorEvent::TableAlreadyExists(name)),
            },
            Statement::Insert { table_name, source } => match insert_operand(&source) {
                Err(m) => Err(ErrorEvent::UnimplementedBranch(m)),
                Ok(v) => match self.storage.insert_into(&table_name, &v) {
                    Ok(()) => Ok(EngineEvent::RecordInserted),
                    Err(_) => Err(ErrorEvent::TableDoesNotExist(table_name)),
                },
            },
            Statement::Update { table_name, assignments, selection } => {
                if !self.storage.contains_table(&table_name) {
                    return Err(ErrorEvent::TableDoesNotExist(table_name));
                }
                let w = match build_key_filter(&selection) {
                    Ok(w) => w,
                    Err(m) => return Err(ErrorEvent::UnimplementedBranch(m)),
                };
                let v = match assignment_operand(&assignments) {
                    Ok(v) => v,
                    Err(m) => return Err(ErrorEvent::UnimplementedBranch(m)),
                };
                let ghost p = key_filter(selection)->Ok_0;
                assert((|x: int| w.holds(x)) =~= p);
                match self.storage.update_where(&table_name, &w, &v) {
                    Ok(()) => Ok(EngineEvent::RecordsUpdated),
                    Err(_) => Err(ErrorEvent::TableDoesNotExist(table_name)),
                }
            },
            Statement::Delete { table_name, selection } => {
                if !self.storage.contains_table(&table_name) {
                    return Err(ErrorEvent::TableDoesNotExist(table_name));
                }
                let w = match build_key_filter(&selection) {
                    Ok(w) => w,
                    Err(m) => return Err(ErrorEvent::UnimplementedBranch(m)),
                };
                let ghost p = key_filter(selection)->Ok_0;
                assert((|x: int| w.holds(x)) =~= p);
                match self.storage.delete_where(&table_name, &w) {
                    Ok(()) => Ok(EngineEvent::RecordsDeleted),
                    Err(_) => Err(ErrorEvent::TableDoesNotExist(table_name)),
                }
            },
            Statement::Query(q) => match query_operands(&q) {
                Err(m) => Err(ErrorEvent::UnimplementedBranch(m)),
                Ok((name, w)) => {
                    let ghost p = (query_target(*q)->Ok_0).1;
                    assert((|x: int| w.holds(x)) =~= p);
                    match self.storage.select(&name, &w) {
                        Ok(rows) => Ok(EngineEvent::RecordsSelected(rows)),
                        Err(StorageError::NoRecords) => Err(
                            ErrorEvent::UnimplementedBranch(
                                "no value has been inserted into the table".to_owned(),
                            ),
                        ),
                        Err(_) => Err(ErrorEvent::TableDoesNotExist(name)),
                    }
                },
            },
            Statement::Other(d) => Err(ErrorEvent::UnimplementedBranch(d)),
        }
    }
}

impl Default for Engine<InMemoryStorage> {
    fn default() -> (r: Engine<InMemoryStorage>)
        ensures
            r.wf(),
            r@ == Db::empty(),
    {
        Engine::new()
    }
}

} // verus!
