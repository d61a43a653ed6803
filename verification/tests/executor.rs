use sheet_query::error::QueryError;
use sheet_query::executor::csv::CsvExecutor;
use sheet_query::executor::xlsx::XlsxExecutor;
use sheet_query::executor::{
    answer_query, run_query, to_json, Cell, Executor, JsonValue, Readings, Row, Table,
};
use sheet_query::number::Number;
use sheet_query::parser::{
    parse_query, ComparisonOperator, Condition, FileInfo, LogicalExpression, LogicalOperator,
    Predicate, Query,
};
use sheet_query::value::Value;

fn exec_double(f: f64) -> Option<Number> {
    let text = serde_json::Number::from_f64(f)?.to_string();
    Number::from_double(f.to_bits(), text)
}

fn exec_reading(raw: &str) -> Option<Number> {
    let parsed: f64 = raw.parse().ok()?;
    exec_double(parsed)
}

fn exec_readings(query: &Query) -> Readings {
    let mut readings = Readings::new();
    if let Some(e) = &query.conditions {
        for literal in e.literals() {
            if let Some(n) = exec_reading(&literal) {
                readings.insert(literal, n);
            }
        }
    }
    readings
}

fn exec_text_table(header: &[&str], rows: &[&[&str]]) -> Table {
    let header: Vec<String> = header.iter().map(|h| h.to_string()).collect();
    let rows: Vec<Vec<Cell>> = rows
        .iter()
        .map(|r| {
            r.iter()
                .map(|c| Cell::Text(c.to_string(), exec_reading(c)))
                .collect()
        })
        .collect();
    Table::new(header, rows).unwrap()
}

fn exec_people() -> Table {
    exec_text_table(
        &["id", "name", "age"],
        &[&["1", "Alice", "30"], &["2", "Bob", "17"]],
    )
}

fn exec_query(columns: &[&str], conditions: Option<LogicalExpression>) -> Query {
    Query {
        columns: columns.iter().map(|c| c.to_string()).collect(),
        file: FileInfo {
            path: "t.csv".to_string(),
            sheet: None,
        },
        conditions,
    }
}

fn exec_predicate(column: &str, operator: ComparisonOperator, value: &str) -> LogicalExpression {
    LogicalExpression::Predicate(Predicate {
        column: column.to_string(),
        operator,
        value: value.to_string(),
    })
}

fn exec_compact(pretty: &str) -> String {
    let value: serde_json::Value = serde_json::from_str(pretty).unwrap();
    value.to_string()
}

fn exec_json(rows: &Vec<Row>) -> String {
    exec_compact(&to_json(rows).unwrap())
}

fn exec_run(query: &Query, table: &Table) -> Result<Vec<Row>, QueryError> {
    run_query(query, &exec_readings(query), table)
}

#[test]
fn filter_on_age_keeps_alice() {
    let query = exec_query(
        &["name"],
        Some(exec_predicate(
            "age",
            ComparisonOperator::GreaterThanOrEqual,
            "18",
        )),
    );
    let rows = exec_run(&query, &exec_people()).unwrap();
    assert_eq!(exec_json(&rows), "[{\"name\":\"Alice\"}]");
}

#[test]
fn a_parsed_query_runs() {
    let query = parse_query("SELECT name,age FROM t.csv WHERE age >= 18").unwrap();
    let rows = exec_run(&query, &exec_people()).unwrap();
    assert_eq!(exec_json(&rows), "[{\"age\":30,\"name\":\"Alice\"}]");
    let query = parse_query("SELECT id,name FROM t.csv WHERE name = 'Bob' OR id = 1").unwrap();
    let rows = exec_run(&query, &exec_people()).unwrap();
    assert_eq!(
        exec_json(&rows),
        "[{\"id\":1,\"name\":\"Alice\"},{\"id\":2,\"name\":\"Bob\"}]"
    );
}

#[test]
fn unknown_column_is_rejected_before_any_row() {
    let query = exec_query(&["name", "email"], None);
    assert_eq!(
        exec_run(&query, &exec_people()),
        Err(QueryError::UnknownColumn("email".to_string()))
    );
    let query = exec_query(&["zip", "email"], None);
    assert_eq!(
        exec_run(&query, &exec_people()),
        Err(QueryError::UnknownColumn("zip".to_string()))
    );
    let broken = Table::new(
        vec!["a".to_string()],
        vec![vec![Cell::Float(f64::NAN.to_bits(), String::new())]],
    )
    .unwrap();
    let query = exec_query(&["b"], None);
    assert_eq!(
        exec_run(&query, &broken),
        Err(QueryError::UnknownColumn("b".to_string()))
    );
}

#[test]
fn unknown_filter_column_is_rejected() {
    let query = exec_query(
        &["name"],
        Some(exec_predicate("salary", ComparisonOperator::Equal, "1")),
    );
    assert_eq!(
        exec_run(&query, &exec_people()),
        Err(QueryError::UnknownColumn("salary".to_string()))
    );
    let query = exec_query(
        &["nope"],
        Some(exec_predicate("salary", ComparisonOperator::Equal, "1")),
    );
    assert_eq!(
        exec_run(&query, &exec_people()),
        Err(QueryError::UnknownColumn("nope".to_string()))
    );
    let query = exec_query(
        &["name"],
        Some(LogicalExpression::Condition(Condition {
            left: Box::new(exec_predicate("age", ComparisonOperator::Equal, "1")),
            right: Box::new(exec_predicate("*", ComparisonOperator::Equal, "1")),
            operator: LogicalOperator::And,
        })),
    );
    assert_eq!(
        exec_run(&query, &exec_people()),
        Err(QueryError::UnknownColumn("*".to_string()))
    );
}

#[test]
fn star_shows_every_column_of_every_row() {
    let query = exec_query(&["*"], None);
    let rows = exec_run(&query, &exec_people()).unwrap();
    assert_eq!(rows.len(), 2);
    assert_eq!(
        exec_json(&rows),
        "[{\"age\":30,\"id\":1,\"name\":\"Alice\"},{\"age\":17,\"id\":2,\"name\":\"Bob\"}]"
    );
    for row in &rows {
        for name in ["id", "name", "age"] {
            assert!(row.contains_key(name));
        }
    }
}

#[test]
fn star_beside_names_shows_every_column() {
    let query = exec_query(&["name", "*"], None);
    let rows = exec_run(&query, &exec_people()).unwrap();
    assert_eq!(rows[0].len(), 3);
    let query = exec_query(&["*", "email"], None);
    assert_eq!(
        exec_run(&query, &exec_people()),
        Err(QueryError::UnknownColumn("email".to_string()))
    );
}

#[test]
fn rows_keep_the_order_of_the_table_and_names_that_of_strings() {
    let query = exec_query(&["id", "age"], None);
    let rows = exec_run(&query, &exec_people()).unwrap();
    assert_eq!(rows.len(), 2);
    assert_eq!(rows[0].len(), 2);
    assert_eq!(rows[0].name_at(0), "age");
    assert_eq!(rows[0].name_at(1), "id");
    assert_eq!(rows[0].value_at(1), &Value::Number(Number::from_i64(1)));
    assert_eq!(rows[1].value_at(0), &Value::Number(Number::from_i64(17)));
}

#[test]
fn cells_of_text_are_turned_into_values() {
    let table = exec_text_table(
        &["a", "b", "c", "d", "e"],
        &[&["", "true", "3.5", "x y", "null"]],
    );
    let rows = exec_run(&exec_query(&["*"], None), &table).unwrap();
    assert_eq!(rows[0].get("a"), Some(&Value::Null));
    assert_eq!(rows[0].get("b"), Some(&Value::Bool(true)));
    assert_eq!(
        rows[0].get("c"),
        Some(&Value::Number(exec_double(3.5).unwrap()))
    );
    assert_eq!(rows[0].get("d"), Some(&Value::String("x y".to_string())));
    assert_eq!(rows[0].get("e"), Some(&Value::Null));
    assert_eq!(
        exec_json(&rows),
        "[{\"a\":null,\"b\":true,\"c\":3.5,\"d\":\"x y\",\"e\":null}]"
    );
}

#[test]
fn typed_cells_keep_their_types() {
    let cells = vec![
        Cell::Empty,
        Cell::Bool(false),
        Cell::Int(-3),
        Cell::Float(2.5f64.to_bits(), "2.5".to_string()),
        Cell::String("42".to_string()),
        Cell::DateTime("44197".to_string()),
        Cell::Error("#DIV/0!".to_string()),
        Cell::Duration("0.5".to_string()),
        Cell::DateTimeIso("2021-01-01T00:00:00".to_string()),
        Cell::DurationIso("PT1H".to_string()),
    ];
    let expected = vec![
        Value::Null,
        Value::Bool(false),
        Value::Number(Number::from_i64(-3)),
        Value::Number(exec_double(2.5).unwrap()),
        Value::String("42".to_string()),
        Value::String("44197".to_string()),
        Value::String("#DIV/0!".to_string()),
        Value::String("0.5".to_string()),
        Value::String("2021-01-01T00:00:00".to_string()),
        Value::String("PT1H".to_string()),
    ];
    for (cell, want) in cells.iter().zip(expected) {
        assert_eq!(cell.to_value(), Ok(want));
    }
    assert_eq!(
        Cell::Text("42".to_string(), None).to_value(),
        Ok(Value::Number(Number::from_i64(42)))
    );
}

#[test]
fn a_number_that_is_not_finite_has_no_value() {
    for f in [f64::NAN, f64::INFINITY, f64::NEG_INFINITY] {
        assert_eq!(
            Cell::Float(f.to_bits(), String::new()).to_value(),
            Err(QueryError::SerializationError)
        );
    }
    let table = Table::new(
        vec!["a".to_string(), "b".to_string()],
        vec![
            vec![Cell::Int(1), Cell::Int(2)],
            vec![Cell::Int(3), Cell::Float(f64::INFINITY.to_bits(), String::new())],
        ],
    )
    .unwrap();
    assert_eq!(
        exec_run(&exec_query(&["a"], None), &table),
        Err(QueryError::SerializationError)
    );
    let filtered = exec_query(
        &["a"],
        Some(exec_predicate("a", ComparisonOperator::Equal, "1")),
    );
    assert_eq!(
        exec_run(&filtered, &table),
        Err(QueryError::SerializationError)
    );
}

#[test]
fn a_table_has_rows_as_long_as_its_header() {
    let header = vec!["a".to_string(), "b".to_string()];
    assert_eq!(Table::new(header.clone(), vec![vec![Cell::Empty]]), None);
    assert_eq!(
        Table::new(
            header.clone(),
            vec![vec![Cell::Empty, Cell::Empty, Cell::Empty]]
        ),
        None
    );
    let table = Table::new(header.clone(), vec![vec![Cell::Empty, Cell::Empty]]).unwrap();
    assert_eq!(table.header(), &header);
    assert_eq!(table.row_count(), 1);
    assert!(Table::new(Vec::new(), Vec::new()).is_some());
}

#[test]
fn a_query_that_shows_no_column_gives_no_rows() {
    assert_eq!(exec_run(&exec_query(&[], None), &exec_people()), Ok(Vec::new()));
    assert_eq!(
        answer_query(&exec_query(&[], None), &Readings::new(), &exec_people()),
        Ok("[]".to_string())
    );
}

#[test]
fn text_is_turned_into_a_value_from_either_module() {
    assert_eq!(
        sheet_query::executor::str_to_json_value("7", None),
        Value::Number(Number::from_i64(7))
    );
}

#[test]
fn a_table_without_rows_gives_no_rows() {
    let table = exec_text_table(&["a"], &[]);
    assert_eq!(exec_run(&exec_query(&["a"], None), &table), Ok(Vec::new()));
}

#[test]
fn a_table_without_columns_gives_no_rows() {
    let table = Table::new(Vec::new(), vec![Vec::new(), Vec::new()]).unwrap();
    assert_eq!(exec_run(&exec_query(&["*"], None), &table), Ok(Vec::new()));
}

#[test]
fn the_filter_sees_columns_that_are_not_shown() {
    let query = exec_query(
        &["id"],
        Some(exec_predicate("name", ComparisonOperator::Equal, "Bob")),
    );
    let rows = exec_run(&query, &exec_people()).unwrap();
    assert_eq!(exec_json(&rows), "[{\"id\":2}]");
}

#[test]
fn of_two_columns_with_one_name_the_later_counts() {
    let table = exec_text_table(&["a", "a"], &[&["1", "2"]]);
    let query = exec_query(
        &["a"],
        Some(exec_predicate("a", ComparisonOperator::Equal, "2")),
    );
    let rows = exec_run(&query, &table).unwrap();
    assert_eq!(rows.len(), 1);
    assert_eq!(rows[0].len(), 1);
    assert_eq!(rows[0].get("a"), Some(&Value::Number(Number::from_i64(2))));
    assert_eq!(exec_json(&rows), "[{\"a\":2}]");
}

#[test]
fn csv_executor_runs_against_its_table() {
    let executor = CsvExecutor::new(exec_people());
    let query = exec_query(
        &["name"],
        Some(exec_predicate("age", ComparisonOperator::LessThan, "18")),
    );
    let text = executor
        .execute_query(&query, &exec_readings(&query))
        .unwrap();
    assert_eq!(text, "[\n  {\n    \"name\": \"Bob\"\n  }\n]");
    assert_eq!(executor.table(), &exec_people());
}

#[test]
fn filter_on_age_keeps_alice_in_the_text() {
    let executor = CsvExecutor::new(exec_people());
    let query = exec_query(
        &["name"],
        Some(exec_predicate(
            "age",
            ComparisonOperator::GreaterThanOrEqual,
            "18",
        )),
    );
    let text = executor
        .execute_query(&query, &exec_readings(&query))
        .unwrap();
    assert_eq!(exec_compact(&text), "[{\"name\":\"Alice\"}]");
}

#[test]
fn json_is_written_over_several_lines_with_names_in_order() {
    let query = exec_query(&["*"], None);
    let text = answer_query(&query, &Readings::new(), &exec_people()).unwrap();
    let expected = "[\n  {\n    \"age\": 30,\n    \"id\": 1,\n    \"name\": \"Alice\"\n  },\n  {\n    \"age\": 17,\n    \"id\": 2,\n    \"name\": \"Bob\"\n  }\n]";
    assert_eq!(text, expected);
    assert_eq!(to_json(&Vec::new()), Ok("[]".to_string()));
}

#[test]
fn json_keeps_the_text_of_numbers_and_escapes_strings() {
    let table = Table::new(
        vec!["b".to_string(), "a".to_string()],
        vec![vec![
            Cell::Float(1e21f64.to_bits(), "1e21".to_string()),
            Cell::String("say \"hi\"\n".to_string()),
        ]],
    )
    .unwrap();
    let text = answer_query(&exec_query(&["*"], None), &Readings::new(), &table).unwrap();
    assert_eq!(
        text,
        "[\n  {\n    \"a\": \"say \\\"hi\\\"\\n\",\n    \"b\": 1e21\n  }\n]"
    );
}

#[test]
fn a_number_whose_text_is_not_json_cannot_be_written() {
    let table = Table::new(
        vec!["a".to_string()],
        vec![vec![Cell::Float(1.5f64.to_bits(), "one and a half".to_string())]],
    )
    .unwrap();
    let query = exec_query(&["a"], None);
    assert!(run_query(&query, &Readings::new(), &table).is_ok());
    assert_eq!(
        answer_query(&query, &Readings::new(), &table),
        Err(QueryError::SerializationError)
    );
}

fn exec_sheet_query(sheet: &str) -> Query {
    Query {
        columns: vec!["*".to_string()],
        file: FileInfo {
            path: "t.xlsx".to_string(),
            sheet: Some(sheet.to_string()),
        },
        conditions: None,
    }
}

fn exec_sheet() -> Table {
    Table::new(
        vec!["id".to_string(), "name".to_string()],
        vec![
            vec![Cell::Int(1), Cell::String("Alice".to_string())],
            vec![Cell::Int(2), Cell::String("Bob".to_string())],
            vec![Cell::Float(2.5f64.to_bits(), "2.5".to_string()), Cell::Empty],
        ],
    )
    .unwrap()
}

#[test]
fn star_on_a_sheet_gives_every_row_with_every_column() {
    let mut executor = XlsxExecutor::new();
    executor.store("Sheet1".to_string(), exec_sheet());
    let query = parse_query("SELECT * FROM t.xlsx SHEET Sheet1").unwrap();
    assert_eq!(query, exec_sheet_query("Sheet1"));
    let rows = run_query(&query, &Readings::new(), executor.cached("Sheet1").unwrap()).unwrap();
    assert_eq!(rows.len(), 3);
    for row in &rows {
        assert!(row.contains_key("id"));
        assert!(row.contains_key("name"));
    }
    let text = executor.execute_query(&query, &Readings::new()).unwrap();
    assert_eq!(
        exec_compact(&text),
        "[{\"id\":1,\"name\":\"Alice\"},{\"id\":2,\"name\":\"Bob\"},{\"id\":2.5,\"name\":null}]"
    );
}

#[test]
fn a_sheet_that_is_kept_is_not_read_again() {
    let mut executor = XlsxExecutor::new();
    let mut opened = 0;
    let query = exec_sheet_query("Sheet1");
    for _ in 0..3 {
        if let Some(sheet) = executor.sheet_to_read(&query) {
            assert_eq!(sheet, "Sheet1");
            opened += 1;
            executor.store(sheet.clone(), exec_sheet());
        }
        let text = executor.execute_query(&query, &Readings::new()).unwrap();
        assert_eq!(exec_compact(&text).matches("\"id\"").count(), 3);
    }
    assert_eq!(opened, 1);
    assert!(executor.cached("Sheet2").is_none());
    executor.store("Sheet2".to_string(), exec_text_table(&["x"], &[&["1"]]));
    assert_eq!(executor.cached("Sheet1"), Some(&exec_sheet()));
    assert!(executor.cached("Sheet2").is_some());
}

#[test]
fn a_sheet_that_is_not_kept_cannot_be_had() {
    let executor = XlsxExecutor::new();
    assert_eq!(
        executor.execute_query(&exec_sheet_query("Sheet1"), &Readings::new()),
        Err(QueryError::OpenError("Sheet1".to_string()))
    );
}
