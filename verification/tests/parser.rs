use sheet_query::error::QueryError;
use sheet_query::parser::{
    extension, parse_query, single_sheet_path, ComparisonOperator, Condition, FileInfo, LogicalExpression,
    LogicalOperator, Predicate, Query,
};

fn parser_predicate(column: &str, operator: ComparisonOperator, value: &str) -> LogicalExpression {
    LogicalExpression::Predicate(Predicate {
        column: column.to_string(),
        operator,
        value: value.to_string(),
    })
}

fn parser_join(
    left: LogicalExpression,
    operator: LogicalOperator,
    right: LogicalExpression,
) -> LogicalExpression {
    LogicalExpression::Condition(Condition {
        left: Box::new(left),
        right: Box::new(right),
        operator,
    })
}

fn parser_query(
    columns: &[&str],
    path: &str,
    sheet: Option<&str>,
    conditions: Option<LogicalExpression>,
) -> Query {
    Query {
        columns: columns.iter().map(|c| c.to_string()).collect(),
        file: FileInfo {
            path: path.to_string(),
            sheet: sheet.map(|s| s.to_string()),
        },
        conditions,
    }
}

#[test]
fn parses_a_plain_query() {
    assert_eq!(
        parse_query("SELECT name FROM t.csv"),
        Ok(parser_query(&["name"], "t.csv", None, None))
    );
}

#[test]
fn keywords_may_be_in_either_case() {
    assert_eq!(
        parse_query("select a from t.xlsx sheet S1 where a = 1"),
        Ok(parser_query(
            &["a"],
            "t.xlsx",
            Some("S1"),
            Some(parser_predicate("a", ComparisonOperator::Equal, "1"))
        ))
    );
    assert_eq!(
        parse_query("SeLeCt a FrOm t.csv WhErE a = 1 aNd a = 2"),
        Ok(parser_query(
            &["a"],
            "t.csv",
            None,
            Some(parser_join(
                parser_predicate("a", ComparisonOperator::Equal, "1"),
                LogicalOperator::And,
                parser_predicate("a", ComparisonOperator::Equal, "2")
            ))
        ))
    );
}

#[test]
fn parses_a_list_of_columns() {
    assert_eq!(
        parse_query("SELECT id,name,age FROM people.csv"),
        Ok(parser_query(&["id", "name", "age"], "people.csv", None, None))
    );
    assert_eq!(
        parse_query("SELECT * FROM t.csv"),
        Ok(parser_query(&["*"], "t.csv", None, None))
    );
    assert_eq!(
        parse_query("SELECT a,*,b FROM t.csv"),
        Ok(parser_query(&["a", "*", "b"], "t.csv", None, None))
    );
}

#[test]
fn a_column_list_takes_no_blank_around_a_comma() {
    assert_eq!(parse_query("SELECT a, b FROM t.csv"), Err(QueryError::SyntaxError));
    assert_eq!(parse_query("SELECT a ,b FROM t.csv"), Err(QueryError::SyntaxError));
    assert_eq!(parse_query("SELECT a, FROM t.csv"), Err(QueryError::SyntaxError));
    assert_eq!(parse_query("SELECT a,,b FROM t.csv"), Err(QueryError::SyntaxError));
}

#[test]
fn a_column_is_letters_and_digits() {
    assert_eq!(parse_query("SELECT first_name FROM t.csv"), Err(QueryError::SyntaxError));
    assert_eq!(parse_query("SELECT é FROM t.csv"), Err(QueryError::SyntaxError));
    assert_eq!(
        parse_query("SELECT a1B2 FROM t.csv"),
        Ok(parser_query(&["a1B2"], "t.csv", None, None))
    );
}

#[test]
fn rejects_text_that_is_no_query() {
    for text in [
        "",
        "SELECT",
        "SELECT ",
        " SELECT a FROM t.csv",
        "SELECTa FROM t.csv",
        "SELECT a",
        "SELECT a FROM",
        "SELECT aFROM t.csv",
        "SELECT a FROMt.csv",
        "SELEC a FROM t.csv",
        "SELECT a FRO t.csv",
        "DELETE a FROM t.csv",
    ] {
        assert_eq!(parse_query(text), Err(QueryError::SyntaxError), "{:?}", text);
    }
}

#[test]
fn a_name_may_be_empty() {
    assert_eq!(
        parse_query("SELECT a FROM "),
        Ok(parser_query(&["a"], "", None, None))
    );
    assert_eq!(
        parse_query("SELECT a FROM ;"),
        Ok(parser_query(&["a"], "", None, None))
    );
    assert_eq!(
        parse_query("SELECT a FROM t.xlsx SHEET ;"),
        Ok(parser_query(&["a"], "t.xlsx", Some(""), None))
    );
}

#[test]
fn any_run_of_spaces_separates() {
    assert_eq!(
        parse_query("SELECT\t\na \r\n FROM \t t.csv"),
        Ok(parser_query(&["a"], "t.csv", None, None))
    );
}

#[test]
fn parses_a_sheet() {
    assert_eq!(
        parse_query("SELECT a FROM book.xlsx SHEET Sheet1"),
        Ok(parser_query(&["a"], "book.xlsx", Some("Sheet1"), None))
    );
    assert_eq!(
        parse_query("SELECT a FROM book.ods SHEET Données WHERE a > 1"),
        Ok(parser_query(
            &["a"],
            "book.ods",
            Some("Données"),
            Some(parser_predicate("a", ComparisonOperator::GreaterThan, "1"))
        ))
    );
}

#[test]
fn sheet_clause_after_single_sheet_file_fails() {
    assert_eq!(
        parse_query("SELECT a FROM t.csv SHEET x"),
        Err(QueryError::UnexpectedSheetClause)
    );
    assert_eq!(
        parse_query("select a from dir.d/t.csv sheet x where a = 1"),
        Err(QueryError::UnexpectedSheetClause)
    );
    assert_eq!(
        parse_query("SELECT a FROM csv SHEET x"),
        Err(QueryError::UnexpectedSheetClause)
    );
}

#[test]
fn the_ending_csv_has_no_sheets_in_either_case() {
    assert_eq!(
        parse_query("SELECT a FROM t.CSV SHEET x"),
        Err(QueryError::UnexpectedSheetClause)
    );
    assert_eq!(
        parse_query("SELECT a FROM t.Csv SHEET x"),
        Err(QueryError::UnexpectedSheetClause)
    );
    assert_eq!(
        parse_query("select a from cSV sheet x"),
        Err(QueryError::UnexpectedSheetClause)
    );
    assert_eq!(
        parse_query("SELECT a FROM t.CSV"),
        Ok(parser_query(&["a"], "t.CSV", None, None))
    );
    assert!(single_sheet_path("t.csv"));
    assert!(single_sheet_path("a.b.cSv"));
    assert!(!single_sheet_path("t.csvx"));
    assert!(!single_sheet_path("t.cs"));
    assert!(!single_sheet_path("t.xlsx"));
    assert!(!single_sheet_path("t.csv."));
    assert_eq!(
        parse_query("SELECT a FROM t.xcsv SHEET x"),
        Ok(parser_query(&["a"], "t.xcsv", Some("x"), None))
    );
    assert_eq!(
        parse_query("SELECT a FROM t.csv.bak SHEET x"),
        Ok(parser_query(&["a"], "t.csv.bak", Some("x"), None))
    );
}

#[test]
fn a_sheet_clause_without_a_name_is_not_read() {
    assert_eq!(
        parse_query("SELECT a FROM t.csv SHEET"),
        Ok(parser_query(&["a"], "t.csv", None, None))
    );
    assert_eq!(
        parse_query("SELECT a FROM t.xlsx SHEET"),
        Ok(parser_query(&["a"], "t.xlsx", None, None))
    );
}

#[test]
fn a_name_may_end_at_a_semicolon() {
    assert_eq!(
        parse_query("SELECT a FROM t.csv;"),
        Ok(parser_query(&["a"], "t.csv", None, None))
    );
    assert_eq!(
        parse_query("SELECT a FROM t.xlsx SHEET S1;"),
        Ok(parser_query(&["a"], "t.xlsx", Some("S1"), None))
    );
}

#[test]
fn parses_each_comparator() {
    let cases = [
        ("=", ComparisonOperator::Equal),
        ("!=", ComparisonOperator::NotEqual),
        ("<>", ComparisonOperator::NotEqual),
        (">", ComparisonOperator::GreaterThan),
        ("<", ComparisonOperator::LessThan),
        (">=", ComparisonOperator::GreaterThanOrEqual),
        ("<=", ComparisonOperator::LessThanOrEqual),
    ];
    for (text, operator) in cases {
        let spaced = format!("SELECT age FROM t.csv WHERE age {} 18", text);
        let tight = format!("SELECT age FROM t.csv WHERE age{}18", text);
        let expected = parser_query(
            &["age"],
            "t.csv",
            None,
            Some(parser_predicate("age", operator, "18")),
        );
        assert_eq!(parse_query(&spaced), Ok(expected), "{}", text);
        let expected = parser_query(
            &["age"],
            "t.csv",
            None,
            Some(parser_predicate("age", operator, "18")),
        );
        assert_eq!(parse_query(&tight), Ok(expected), "{}", text);
    }
}

#[test]
fn comparison_operator_from_str() {
    assert_eq!(ComparisonOperator::from_str("="), Some(ComparisonOperator::Equal));
    assert_eq!(ComparisonOperator::from_str("!="), Some(ComparisonOperator::NotEqual));
    assert_eq!(ComparisonOperator::from_str("<>"), Some(ComparisonOperator::NotEqual));
    assert_eq!(ComparisonOperator::from_str(">"), Some(ComparisonOperator::GreaterThan));
    assert_eq!(ComparisonOperator::from_str("<"), Some(ComparisonOperator::LessThan));
    assert_eq!(
        ComparisonOperator::from_str(">="),
        Some(ComparisonOperator::GreaterThanOrEqual)
    );
    assert_eq!(
        ComparisonOperator::from_str("<="),
        Some(ComparisonOperator::LessThanOrEqual)
    );
    assert_eq!(ComparisonOperator::from_str("=="), None);
    assert_eq!(ComparisonOperator::from_str(""), None);
    assert_eq!(ComparisonOperator::from_str("=<"), None);
}

#[test]
fn logical_operator_from_str() {
    assert_eq!(LogicalOperator::from_str("AND"), Some(LogicalOperator::And));
    assert_eq!(LogicalOperator::from_str("and"), Some(LogicalOperator::And));
    assert_eq!(LogicalOperator::from_str("Or"), Some(LogicalOperator::Or));
    assert_eq!(LogicalOperator::from_str("oR"), Some(LogicalOperator::Or));
    assert_eq!(LogicalOperator::from_str("xor"), None);
    assert_eq!(LogicalOperator::from_str(""), None);
    assert_eq!(LogicalOperator::from_uppercase("AND"), Some(LogicalOperator::And));
    assert_eq!(LogicalOperator::from_uppercase("OR"), Some(LogicalOperator::Or));
    assert_eq!(LogicalOperator::from_uppercase("and"), None);
}

#[test]
fn quoted_operands_lose_their_quotes() {
    assert_eq!(
        parse_query("SELECT name FROM t.csv WHERE name = 'Alice'"),
        Ok(parser_query(
            &["name"],
            "t.csv",
            None,
            Some(parser_predicate("name", ComparisonOperator::Equal, "Alice"))
        ))
    );
    assert_eq!(
        parse_query("SELECT name FROM t.csv WHERE name = \"Alice\""),
        Ok(parser_query(
            &["name"],
            "t.csv",
            None,
            Some(parser_predicate("name", ComparisonOperator::Equal, "Alice"))
        ))
    );
    assert_eq!(
        parse_query("SELECT name FROM t.csv WHERE 'name' = Alice"),
        Ok(parser_query(
            &["name"],
            "t.csv",
            None,
            Some(parser_predicate("name", ComparisonOperator::Equal, "Alice"))
        ))
    );
}

#[test]
fn rejects_operands_that_are_badly_quoted() {
    for text in [
        "SELECT name FROM t.csv WHERE name = 'Alice",
        "SELECT name FROM t.csv WHERE name = 'Alice\"",
        "SELECT name FROM t.csv WHERE name = ''",
        "SELECT name FROM t.csv WHERE name = 'Al ice'",
        "SELECT name FROM t.csv WHERE name = ",
        "SELECT name FROM t.csv WHERE name",
        "SELECT name FROM t.csv WHERE = 1",
        "SELECT name FROM t.csv WHERE name == 1",
        "SELECT name FROM t.csv WHERE name ! 1",
        "SELECT name FROM t.csv WHERE",
        "SELECT name FROM t.csv WHEREname = 1",
        "SELECT name FROM t.csv WHERE name = 1 AND",
        "SELECT name FROM t.csv WHERE name = 1 AND ",
        "SELECT name FROM t.csv WHERE name = 1 ANDname = 2",
        "SELECT name FROM t.csv WHERE name = 1 OR !",
    ] {
        assert_eq!(parse_query(text), Err(QueryError::SyntaxError), "{:?}", text);
    }
}

#[test]
fn the_column_may_be_the_second_operand() {
    assert_eq!(
        parse_query("SELECT age FROM t.csv WHERE 18 < age"),
        Ok(parser_query(
            &["age"],
            "t.csv",
            None,
            Some(parser_predicate("age", ComparisonOperator::LessThan, "18"))
        ))
    );
}

#[test]
fn a_filter_on_a_column_that_is_not_shown_fails() {
    assert_eq!(
        parse_query("SELECT name FROM t.csv WHERE age >= 18"),
        Err(QueryError::UnknownColumn("age".to_string()))
    );
    assert_eq!(
        parse_query("SELECT * FROM t.csv WHERE age >= 18"),
        Err(QueryError::UnknownColumn("age".to_string()))
    );
    assert_eq!(
        parse_query("SELECT name FROM t.csv WHERE name = 1 AND 'x' = 2"),
        Err(QueryError::UnknownColumn("x".to_string()))
    );
}

#[test]
fn two_columns_make_no_predicate() {
    assert_eq!(
        parse_query("SELECT a,b FROM t.csv WHERE a = b"),
        Err(QueryError::SyntaxError)
    );
    assert_eq!(
        parse_query("SELECT a FROM t.csv WHERE a = 'a'"),
        Err(QueryError::SyntaxError)
    );
}

#[test]
fn connectives_fold_from_the_left() {
    let a = || parser_predicate("a", ComparisonOperator::Equal, "1");
    let b = || parser_predicate("b", ComparisonOperator::GreaterThan, "2");
    let c = || parser_predicate("c", ComparisonOperator::LessThan, "3");
    let d = || parser_predicate("d", ComparisonOperator::NotEqual, "4");
    assert_eq!(
        parse_query("SELECT a,b,c,d FROM t.csv WHERE a = 1 AND b > 2 OR c < 3"),
        Ok(parser_query(
            &["a", "b", "c", "d"],
            "t.csv",
            None,
            Some(parser_join(
                parser_join(a(), LogicalOperator::And, b()),
                LogicalOperator::Or,
                c()
            ))
        ))
    );
    assert_eq!(
        parse_query("SELECT a,b,c,d FROM t.csv WHERE a = 1 AND b > 2 OR c < 3 AND d != 4"),
        Ok(parser_query(
            &["a", "b", "c", "d"],
            "t.csv",
            None,
            Some(parser_join(
                parser_join(
                    parser_join(a(), LogicalOperator::And, b()),
                    LogicalOperator::Or,
                    c()
                ),
                LogicalOperator::And,
                d()
            ))
        ))
    );
}

#[test]
fn what_follows_the_last_clause_is_not_read() {
    assert_eq!(
        parse_query("SELECT a FROM t.csv LIMIT 5"),
        Ok(parser_query(&["a"], "t.csv", None, None))
    );
    assert_eq!(
        parse_query("SELECT a FROM t.csv WHERE a >= 3.14"),
        Ok(parser_query(
            &["a"],
            "t.csv",
            None,
            Some(parser_predicate("a", ComparisonOperator::GreaterThanOrEqual, "3"))
        ))
    );
    assert_eq!(
        parse_query("SELECT a FROM t.csv WHERE a = '1'AND a = 2"),
        Ok(parser_query(
            &["a"],
            "t.csv",
            None,
            Some(parser_predicate("a", ComparisonOperator::Equal, "1"))
        ))
    );
}

#[test]
fn a_path_runs_to_the_next_blank() {
    assert_eq!(
        parse_query("SELECT a FROM /tmp/données/t-1.csv WHERE a = 1"),
        Ok(parser_query(
            &["a"],
            "/tmp/données/t-1.csv",
            None,
            Some(parser_predicate("a", ComparisonOperator::Equal, "1"))
        ))
    );
    assert_eq!(
        parse_query("SELECT a FROM t.csv\nWHERE a = 1"),
        Ok(parser_query(&["a"], "t.csv\nWHERE", None, None))
    );
}

#[test]
fn the_last_part_of_a_path() {
    assert_eq!(extension("t.csv"), "csv");
    assert_eq!(extension("a.b.xlsx"), "xlsx");
    assert_eq!(extension("csv"), "csv");
    assert_eq!(extension("t."), "");
    assert_eq!(extension(""), "");
    assert_eq!(extension(".hidden"), "hidden");
    assert_eq!(extension("dir.d/file"), "d/file");
}
