use sql_engine::ast::{
    Assignment, BinaryOperator, Expr, Literal, Query, Select, SetExpr, Statement, TableFactor,
    TableWithJoins,
};
use sql_engine::bigint::Int;
use sql_engine::engine::{Engine, EngineEvent, ErrorEvent, ExecutionResult};
use sql_engine::types::{from_literal, Type};

const TABLE_NAME: &str = "simple_table";
const COLUMN_NAME: &str = "int_column";

fn number<V: ToString>(value: V) -> Expr {
    Expr::Value(Literal::Number(value.to_string()))
}

fn column() -> Box<Expr> {
    Box::new(Expr::Identifier(COLUMN_NAME.to_owned()))
}

fn equals<V: ToString>(value: V) -> Expr {
    Expr::BinaryOp { left: column(), op: BinaryOperator::Eq, right: Box::new(number(value)) }
}

fn create_named(engine: &mut Engine, name: &str) -> ExecutionResult {
    engine.execute(Statement::CreateTable { name: name.to_owned() })
}

fn create_table(engine: &mut Engine) {
    let _ = create_named(engine, TABLE_NAME);
}

fn insert_value<V: ToString>(engine: &mut Engine, value: V) -> ExecutionResult {
    engine.execute(Statement::Insert {
        table_name: TABLE_NAME.to_owned(),
        source: Box::new(Query { body: SetExpr::Values(vec![vec![number(value)]]) }),
    })
}

fn select_where(engine: &mut Engine, selection: Option<Expr>) -> ExecutionResult {
    engine.execute(Statement::Query(Box::new(Query {
        body: SetExpr::Select(Box::new(Select {
            from: vec![TableWithJoins {
                relation: TableFactor::Table { name: TABLE_NAME.to_owned() },
                joins: 0,
            }],
            selection,
        })),
    })))
}

fn select_value<V: ToString>(engine: &mut Engine, value: V) -> ExecutionResult {
    select_where(engine, Some(equals(value)))
}

fn select_all(engine: &mut Engine) -> ExecutionResult {
    select_where(engine, None)
}

fn between<V: ToString>(from: V, to: V, negated: bool) -> Option<Expr> {
    Some(Expr::Between {
        expr: column(),
        negated,
        low: Box::new(number(from)),
        high: Box::new(number(to)),
    })
}

fn select_between<V: ToString>(engine: &mut Engine, from: V, to: V) -> ExecutionResult {
    select_where(engine, between(from, to, false))
}

fn select_not_between<V: ToString>(engine: &mut Engine, from: V, to: V) -> ExecutionResult {
    select_where(engine, between(from, to, true))
}

fn in_list<V: ToString>(one: V, two: V, three: V, negated: bool) -> Option<Expr> {
    Some(Expr::InList { expr: column(), list: vec![number(one), number(two), number(three)], negated })
}

fn select_in<V: ToString>(engine: &mut Engine, one: V, two: V, three: V) -> ExecutionResult {
    select_where(engine, in_list(one, two, three, false))
}

fn select_not_in<V: ToString>(engine: &mut Engine, one: V, two: V, three: V) -> ExecutionResult {
    select_where(engine, in_list(one, two, three, true))
}

fn update_where<V: ToString>(engine: &mut Engine, to: V, selection: Option<Expr>) -> ExecutionResult {
    engine.execute(Statement::Update {
        table_name: TABLE_NAME.to_owned(),
        assignments: vec![Assignment { id: COLUMN_NAME.to_owned(), value: number(to) }],
        selection,
    })
}

fn update_value<V: ToString>(engine: &mut Engine, from: V, to: V) -> ExecutionResult {
    update_where(engine, from, Some(equals(to)))
}

fn update_all(engine: &mut Engine) -> ExecutionResult {
    update_where(engine, 100, None)
}

fn delete_where(engine: &mut Engine, selection: Option<Expr>) -> ExecutionResult {
    engine.execute(Statement::Delete { table_name: TABLE_NAME.to_owned(), selection })
}

fn delete_value<V: ToString>(engine: &mut Engine, value: V) -> ExecutionResult {
    delete_where(engine, Some(equals(value)))
}

fn delete_all(engine: &mut Engine) -> ExecutionResult {
    delete_where(engine, None)
}

fn int_value(val: i32) -> Type {
    from_literal(&Literal::Number(val.to_string())).unwrap()
}

fn insert_one_to_five(engine: &mut Engine) {
    for v in 1..=5 {
        assert_eq!(insert_value(engine, v), Ok(EngineEvent::RecordInserted));
    }
}

fn unimplemented(description: &str) -> ExecutionResult {
    Err(ErrorEvent::UnimplementedBranch(description.to_owned()))
}

#[test]
fn create_two_tables() {
    let mut engine = Engine::default();

    assert_eq!(
        create_named(&mut engine, "simple_table"),
        Ok(EngineEvent::TableCreated("simple_table".to_owned()))
    );

    assert_eq!(
        create_named(&mut engine, "another_table"),
        Ok(EngineEvent::TableCreated("another_table".to_owned()))
    );
}

#[test]
fn error_when_trying_to_create_table_with_existing_name() {
    let mut engine = Engine::default();

    assert_eq!(
        create_named(&mut engine, "simple_table"),
        Ok(EngineEvent::TableCreated("simple_table".to_owned()))
    );

    assert_eq!(
        create_named(&mut engine, "simple_table"),
        Err(ErrorEvent::TableAlreadyExists("simple_table".to_owned()))
    );
}

#[test]
fn insert_into_not_existed_table() {
    let mut engine = Engine::default();

    assert_eq!(insert_value(&mut engine, 1), Err(ErrorEvent::TableDoesNotExist(TABLE_NAME.to_owned())))
}

#[test]
fn select_from_not_existed_table() {
    let mut engine = Engine::default();

    assert_eq!(select_all(&mut engine), Err(ErrorEvent::TableDoesNotExist(TABLE_NAME.to_owned())))
}

#[test]
fn update_from_not_existed_table() {
    let mut engine = Engine::default();

    assert_eq!(update_all(&mut engine), Err(ErrorEvent::TableDoesNotExist(TABLE_NAME.to_owned())))
}

#[test]
fn delete_from_not_existed_table() {
    let mut engine = Engine::default();

    assert_eq!(delete_all(&mut engine), Err(ErrorEvent::TableDoesNotExist(TABLE_NAME.to_owned())))
}

#[test]
fn insert_select_single_record() {
    let mut engine = Engine::default();
    create_table(&mut engine);

    assert_eq!(insert_value(&mut engine, 1), Ok(EngineEvent::RecordInserted));

    assert_eq!(select_value(&mut engine, 1), Ok(EngineEvent::RecordsSelected(vec![vec![int_value(1)]])));
}

#[test]
fn insert_many_select_single_record() {
    let mut engine = Engine::default();
    create_table(&mut engine);

    assert_eq!(insert_value(&mut engine, 1), Ok(EngineEvent::RecordInserted));
    assert_eq!(insert_value(&mut engine, 2), Ok(EngineEvent::RecordInserted));
    assert_eq!(insert_value(&mut engine, 3), Ok(EngineEvent::RecordInserted));

    assert_eq!(select_value(&mut engine, 2), Ok(EngineEvent::RecordsSelected(vec![vec![int_value(2)]])));
}

#[test]
fn insert_many_select_all_records() {
    let mut engine = Engine::default();
    create_table(&mut engine);

    assert_eq!(insert_value(&mut engine, 1), Ok(EngineEvent::RecordInserted));
    assert_eq!(insert_value(&mut engine, 2), Ok(EngineEvent::RecordInserted));
    assert_eq!(insert_value(&mut engine, 3), Ok(EngineEvent::RecordInserted));

    assert_eq!(
        select_all(&mut engine),
        Ok(EngineEvent::RecordsSelected(vec![vec![int_value(1)], vec![int_value(2)], vec![int_value(3)]]))
    );
}

#[test]
fn update_single_value() {
    let mut engine = Engine::default();
    create_table(&mut engine);

    assert_eq!(insert_value(&mut engine, 1), Ok(EngineEvent::RecordInserted));
    assert_eq!(insert_value(&mut engine, 2), Ok(EngineEvent::RecordInserted));
    assert_eq!(insert_value(&mut engine, 3), Ok(EngineEvent::RecordInserted));

    assert_eq!(update_value(&mut engine, 4, 2), Ok(EngineEvent::RecordsUpdated));
    assert_eq!(
        select_all(&mut engine),
        Ok(EngineEvent::RecordsSelected(vec![vec![int_value(1)], vec![int_value(4)], vec![int_value(3)]]))
    );
}

#[test]
fn update_all_values() {
    let mut engine = Engine::default();
    create_table(&mut engine);

    assert_eq!(insert_value(&mut engine, 1), Ok(EngineEvent::RecordInserted));
    assert_eq!(insert_value(&mut engine, 2), Ok(EngineEvent::RecordInserted));
    assert_eq!(insert_value(&mut engine, 3), Ok(EngineEvent::RecordInserted));

    assert_eq!(update_all(&mut engine), Ok(EngineEvent::RecordsUpdated));
    assert_eq!(
        select_all(&mut engine),
        Ok(EngineEvent::RecordsSelected(vec![vec![int_value(100)], vec![int_value(100)], vec![int_value(100)]]))
    );
}

#[test]
fn delete_single_value() {
    let mut engine = Engine::default();
    create_table(&mut engine);

    assert_eq!(insert_value(&mut engine, 1), Ok(EngineEvent::RecordInserted));
    assert_eq!(insert_value(&mut engine, 2), Ok(EngineEvent::RecordInserted));
    assert_eq!(insert_value(&mut engine, 3), Ok(EngineEvent::RecordInserted));

    assert_eq!(delete_value(&mut engine, 2), Ok(EngineEvent::RecordsDeleted));
    assert_eq!(select_all(&mut engine), Ok(EngineEvent::RecordsSelected(vec![vec![int_value(1)], vec![int_value(3)]])));
}

#[test]
fn delete_all_values() {
    let mut engine = Engine::default();
    create_table(&mut engine);

    assert_eq!(insert_value(&mut engine, 1), Ok(EngineEvent::RecordInserted));
    assert_eq!(insert_value(&mut engine, 2), Ok(EngineEvent::RecordInserted));
    assert_eq!(insert_value(&mut engine, 3), Ok(EngineEvent::RecordInserted));

    assert_eq!(delete_all(&mut engine), Ok(EngineEvent::RecordsDeleted));
    assert_eq!(select_all(&mut engine), Ok(EngineEvent::RecordsSelected(vec![])));
}

#[test]
fn select_in_range() {
    let mut engine = Engine::default();
    create_table(&mut engine);
    insert_one_to_five(&mut engine);

    assert_eq!(
        select_between(&mut engine, 2, 4),
        Ok(EngineEvent::RecordsSelected(vec![vec![int_value(2)], vec![int_value(3)], vec![int_value(4)]]))
    );
}

#[test]
fn select_out_range() {
    let mut engine = Engine::default();
    create_table(&mut engine);
    insert_one_to_five(&mut engine);

    assert_eq!(
        select_not_between(&mut engine, 2, 4),
        Ok(EngineEvent::RecordsSelected(vec![vec![int_value(1)], vec![int_value(5)]]))
    );
}

#[test]
fn select_in_enumeration() {
    let mut engine = Engine::default();
    create_table(&mut engine);
    insert_one_to_five(&mut engine);

    assert_eq!(
        select_in(&mut engine, 1, 3, 5),
        Ok(EngineEvent::RecordsSelected(vec![vec![int_value(1)], vec![int_value(3)], vec![int_value(5)]]))
    )
}

#[test]
fn select_out_of_enumeration() {
    let mut engine = Engine::default();
    create_table(&mut engine);
    insert_one_to_five(&mut engine);

    assert_eq!(
        select_not_in(&mut engine, 1, 3, 5),
        Ok(EngineEvent::RecordsSelected(vec![vec![int_value(2)], vec![int_value(4)]]))
    )
}

#[test]
fn select_missing_value_is_empty() {
    let mut engine = Engine::default();
    create_table(&mut engine);
    insert_one_to_five(&mut engine);

    assert_eq!(select_value(&mut engine, 7), Ok(EngineEvent::RecordsSelected(vec![])));
}

#[test]
fn select_before_any_insert_is_reported() {
    let mut engine = Engine::default();
    create_table(&mut engine);

    assert_eq!(select_all(&mut engine), unimplemented("no value has been inserted into the table"));
}

#[test]
fn inserting_equal_values_keeps_one_row() {
    let mut engine = Engine::default();
    create_table(&mut engine);

    assert_eq!(insert_value(&mut engine, 3), Ok(EngineEvent::RecordInserted));
    assert_eq!(insert_value(&mut engine, 3), Ok(EngineEvent::RecordInserted));
    assert_eq!(insert_value(&mut engine, "003"), Ok(EngineEvent::RecordInserted));

    assert_eq!(select_all(&mut engine), Ok(EngineEvent::RecordsSelected(vec![vec![int_value(3)]])));
}

#[test]
fn rows_come_out_in_numeric_order() {
    let mut engine = Engine::default();
    create_table(&mut engine);
    let big = "123456789012345678901234567890";
    for v in ["10", "-7", big, "9", "0", "-100"] {
        assert_eq!(insert_value(&mut engine, v), Ok(EngineEvent::RecordInserted));
    }
    let expected: Vec<Vec<Type>> = ["-100", "-7", "0", "9", "10", big]
        .iter()
        .map(|v| vec![from_literal(&Literal::Number(v.to_string())).unwrap()])
        .collect();

    assert_eq!(select_all(&mut engine), Ok(EngineEvent::RecordsSelected(expected)));
    assert_eq!(
        select_between(&mut engine, "-7", "9"),
        Ok(EngineEvent::RecordsSelected(vec![vec![int_value(-7)], vec![int_value(0)], vec![int_value(9)]]))
    );
}

#[test]
fn update_and_delete_of_missing_key_change_nothing() {
    let mut engine = Engine::default();
    create_table(&mut engine);
    insert_one_to_five(&mut engine);

    assert_eq!(update_value(&mut engine, 9, 8), Ok(EngineEvent::RecordsUpdated));
    assert_eq!(delete_value(&mut engine, 8), Ok(EngineEvent::RecordsDeleted));
    assert_eq!(
        select_all(&mut engine),
        Ok(EngineEvent::RecordsSelected((1..=5).map(|v| vec![int_value(v)]).collect()))
    );
}

#[test]
fn unsupported_where_clauses_are_reported() {
    let mut engine = Engine::default();
    create_table(&mut engine);
    insert_one_to_five(&mut engine);

    let and = Some(Expr::BinaryOp {
        left: Box::new(equals(1)),
        op: BinaryOperator::And,
        right: Box::new(equals(3)),
    });
    assert_eq!(select_where(&mut engine, and), unimplemented("unsupported operator AND in WHERE clause"));
    assert_eq!(
        select_where(&mut engine, Some(Expr::Identifier(COLUMN_NAME.to_owned()))),
        unimplemented("unsupported WHERE clause")
    );
    let column_rhs = Some(Expr::BinaryOp { left: column(), op: BinaryOperator::Eq, right: column() });
    assert_eq!(select_where(&mut engine, column_rhs), unimplemented("right-hand side is not a literal"));
    let less = Some(Expr::BinaryOp { left: column(), op: BinaryOperator::Lt, right: Box::new(number(3)) });
    assert_eq!(update_where(&mut engine, 1, less), unimplemented("unsupported operator < in WHERE clause"));
    let other = Some(Expr::Other("EXISTS (SELECT 1)".to_owned()));
    assert_eq!(delete_where(&mut engine, other), unimplemented("EXISTS (SELECT 1)"));
    let string = Some(Expr::InList {
        expr: column(),
        list: vec![number(1), Expr::Value(Literal::SingleQuotedString("x".to_owned()))],
        negated: false,
    });
    assert_eq!(select_where(&mut engine, string), unimplemented("string literal"));
}

#[test]
fn unsupported_statements_are_reported() {
    let mut engine = Engine::default();
    create_table(&mut engine);

    assert_eq!(
        engine.execute(Statement::Other("DROP TABLE simple_table".to_owned())),
        unimplemented("DROP TABLE simple_table")
    );
    let two_rows = Statement::Insert {
        table_name: TABLE_NAME.to_owned(),
        source: Box::new(Query { body: SetExpr::Values(vec![vec![number(1)], vec![number(2)]]) }),
    };
    assert_eq!(engine.execute(two_rows), unimplemented("INSERT supports exactly one row of one value"));
    let not_values = Statement::Insert {
        table_name: TABLE_NAME.to_owned(),
        source: Box::new(Query { body: SetExpr::Other("SELECT 1".to_owned()) }),
    };
    assert_eq!(engine.execute(not_values), unimplemented("INSERT supports only a VALUES list"));
    let no_assignment = Statement::Update {
        table_name: TABLE_NAME.to_owned(),
        assignments: vec![],
        selection: None,
    };
    assert_eq!(engine.execute(no_assignment), unimplemented("UPDATE without an assignment"));
    let joined = Statement::Query(Box::new(Query {
        body: SetExpr::Select(Box::new(Select {
            from: vec![TableWithJoins {
                relation: TableFactor::Table { name: TABLE_NAME.to_owned() },
                joins: 1,
            }],
            selection: None,
        })),
    }));
    assert_eq!(engine.execute(joined), unimplemented("SELECT supports exactly one table without joins"));
}

#[test]
fn non_integer_literals_are_refused() {
    let mut engine = Engine::default();
    create_table(&mut engine);

    let insert = |engine: &mut Engine, lit: Literal| {
        engine.execute(Statement::Insert {
            table_name: TABLE_NAME.to_owned(),
            source: Box::new(Query { body: SetExpr::Values(vec![vec![Expr::Value(lit)]]) }),
        })
    };
    assert_eq!(
        insert(&mut engine, Literal::SingleQuotedString("x".to_owned())),
        unimplemented("string literal")
    );
    assert_eq!(
        insert(&mut engine, Literal::Number("1.5".to_owned())),
        unimplemented("number literal that is not an integer")
    );
    assert_eq!(insert(&mut engine, Literal::Boolean(true)), unimplemented("boolean literal"));
    assert_eq!(insert(&mut engine, Literal::Null), unimplemented("null literal"));
}

#[test]
fn error_text_is_what_the_error_carries() {
    assert_eq!(ErrorEvent::TableDoesNotExist("t".to_owned()).to_string(), "t");
    assert_eq!(ErrorEvent::UnimplementedBranch("why".to_owned()).to_string(), "why");
}

#[test]
fn forty_two_reads_as_forty_two() {
    assert_eq!(
        from_literal(&Literal::Number("42".to_owned())),
        Ok(Type::Int(Int { negative: false, digits: vec![4, 2] }))
    );
    assert_eq!(
        from_literal(&Literal::Number("-0042".to_owned())),
        Ok(Type::Int(Int { negative: true, digits: vec![4, 2] }))
    );
    assert_eq!(
        from_literal(&Literal::Number("-0".to_owned())),
        Ok(Type::Int(Int { negative: false, digits: vec![] }))
    );
}
