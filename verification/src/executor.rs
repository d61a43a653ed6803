//! Running a query against a table: the filter, the columns shown, the rows
//! that come out.

use crate::error::{QueryError, QueryErrorView};
use crate::json::{
    all_json, is_json, is_json_value, object_names, objects_view, pretty_json, pretty_text,
};
use crate::number::{is_finite, number_of_integer, number_order, Number, NumberView};
use crate::parser::{
    contains_text, filter_columns, filter_literals, texts_view, ExpressionView,
    LogicalExpression, LogicalOperator, PredicateView, Query, QueryView,
};
use crate::text::{compare_text, str_eq, text_order, Order};
use crate::textmap::{
    ascending, lemma_map_of_names, lemma_sorted, map_of, sorted_names, sorted_values, TextMap,
};
pub use crate::value::str_to_json_value;
use crate::value::{coerced, reading_view, rendered, Value, ValueView};
use vstd::prelude::*;

pub mod csv;
pub mod xlsx;

verus! {

/// One row of a table: the value under each column's name.
pub type Row = TextMap<Value>;

/// What the literals of a query are when read as numbers of double precision:
/// under the text of a literal, the finite number that it writes. A literal
/// that writes none has no entry.
pub type Readings = TextMap<Number>;

/// How the value `left` stands to the value `right`: two numbers by value,
/// any other pair by the order of the texts that stand for them.
pub open spec fn value_order(left: ValueView, right: ValueView) -> Order {
    match (left, right) {
        (ValueView::Number(a), ValueView::Number(b)) => number_order(a, b),
        _ => text_order(rendered(left), rendered(right)),
    }
}

/// What `readings` holds under the text `raw`.
pub open spec fn reading_of(readings: Map<Seq<char>, NumberView>, raw: Seq<char>) -> Option<
    NumberView,
> {
    if readings.contains_key(raw) {
        Some(readings[raw])
    } else {
        None
    }
}

/// Whether the predicate `p` holds of `row`: the value under its column
/// stands to its literal, turned into a value, as its operator asks.
pub open spec fn predicate_holds(
    p: PredicateView,
    row: Map<Seq<char>, ValueView>,
    readings: Map<Seq<char>, NumberView>,
) -> bool {
    p.operator.admits(value_order(row[p.column], coerced(p.value, reading_of(readings, p.value))))
}

/// Whether the filter `e` holds of `row`.
pub open spec fn holds(
    e: ExpressionView,
    row: Map<Seq<char>, ValueView>,
    readings: Map<Seq<char>, NumberView>,
) -> bool
    decreases e,
{
    match e {
        ExpressionView::Predicate(p) => predicate_holds(p, row, readings),
        ExpressionView::Condition(left, operator, right) => operator.joins(
            holds(*left, row, readings),
            holds(*right, row, readings),
        ),
    }
}

/// Every name of `names` is a key of `row`.
pub open spec fn all_present<W>(names: Seq<Seq<char>>, row: Map<Seq<char>, W>) -> bool {
    forall|i: int| 0 <= i < names.len() ==> row.contains_key(#[trigger] names[i])
}

/// Compares two values.
pub fn compare_values(left: &Value, right: &Value) -> (r: Order)
    ensures
        r == value_order(left@, right@),
{
    match (left, right) {
        (Value::Number(a), Value::Number(b)) => a.compare(b),
        _ => {
            let l = left.render();
            let r = right.render();
            compare_text(l.as_str(), r.as_str())
        },
    }
}

impl LogicalExpression {
    /// Whether the filter holds of `row`. The row has a value under every
    /// column that the filter names.
    pub fn evaluate_conditions(
        logical_expression: &LogicalExpression,
        row: &Row,
        readings: &Readings,
    ) -> (r: bool)
        requires
            all_present(filter_columns(logical_expression@), row@),
        ensures
            r == holds(logical_expression@, row@, readings@),
        decreases logical_expression,
    {
        match logical_expression {
            LogicalExpression::Predicate(predicate) => {
                assert(filter_columns(logical_expression@)[0] == predicate.column@);
                let row_value = row.get(predicate.column.as_str()).unwrap();
                let reading = match readings.get(predicate.value.as_str()) {
                    Some(n) => Some(n.clone()),
                    None => None,
                };
                let compare_to = str_to_json_value(predicate.value.as_str(), reading);
                predicate.operator.holds(compare_values(row_value, &compare_to))
            },
            LogicalExpression::Condition(condition) => {
                proof {
                    let l = filter_columns(condition.left@);
                    let r = filter_columns(condition.right@);
                    assert forall|i: int| 0 <= i < l.len() implies row@.contains_key(
                        #[trigger] l[i],
                    ) by {
                        assert((l + r)[i] == l[i]);
                    }
                    assert forall|i: int| 0 <= i < r.len() implies row@.contains_key(
                        #[trigger] r[i],
                    ) by {
                        assert((l + r)[l.len() + i] == r[i]);
                    }
                }
                let left = LogicalExpression::evaluate_conditions(&condition.left, row, readings);
                let right = LogicalExpression::evaluate_conditions(&condition.right, row, readings);
                match condition.operator {
                    LogicalOperator::And => left && right,
                    LogicalOperator::Or => left || right,
                }
            },
        }
    }
}

/// One cell of a table, as the source of the table hands it over.
#[derive(Debug, PartialEq)]
pub enum Cell {
    /// Raw text, with what it is when read as a finite number of double
    /// precision, if it can be read so.
    Text(String, Option<Number>),
    /// No content.
    Empty,
    /// A boolean.
    Bool(bool),
    /// An integer.
    Int(i64),
    /// A number of double precision: its pattern, and the text that writes it.
    Float(u64, String),
    /// A string.
    String(String),
    /// A date and time, by the text that writes it.
    DateTime(String),
    /// An error of the sheet, by the text that writes it.
    Error(String),
    /// A span of time, by the text that writes it.
    Duration(String),
    /// A date and time in ISO 8601.
    DateTimeIso(String),
    /// A span of time in ISO 8601.
    DurationIso(String),
}

/// What a `Cell` is.
pub enum CellView {
    Text(Seq<char>, Option<NumberView>),
    Empty,
    Bool(bool),
    Int(i64),
    Float(u64, Seq<char>),
    String(Seq<char>),
    DateTime(Seq<char>),
    Error(Seq<char>),
    Duration(Seq<char>),
    DateTimeIso(Seq<char>),
    DurationIso(Seq<char>),
}

impl View for Cell {
    type V = CellView;

    open spec fn view(&self) -> CellView {
        match self {
            Cell::Text(s, reading) => CellView::Text(s@, reading_view(*reading)),
            Cell::Empty => CellView::Empty,
            Cell::Bool(b) => CellView::Bool(*b),
            Cell::Int(i) => CellView::Int(*i),
            Cell::Float(bits, s) => CellView::Float(*bits, s@),
            Cell::String(s) => CellView::String(s@),
            Cell::DateTime(s) => CellView::DateTime(s@),
            Cell::Error(s) => CellView::Error(s@),
            Cell::Duration(s) => CellView::Duration(s@),
            Cell::DateTimeIso(s) => CellView::DateTimeIso(s@),
            Cell::DurationIso(s) => CellView::DurationIso(s@),
        }
    }
}

/// The value of a cell. Raw text is turned into a value; a cell with a type at
/// its source keeps it: no content is null, a boolean a boolean, an integer and
/// a finite number a number, a string a string; a date, an error and a span of
/// time are the strings that write them. A number that is not finite has no
/// value.
pub open spec fn cell_value(c: CellView) -> Option<ValueView> {
    match c {
        CellView::Text(s, reading) => Some(coerced(s, reading)),
        CellView::Empty => Some(ValueView::Null),
        CellView::Bool(b) => Some(ValueView::Bool(b)),
        CellView::Int(i) => Some(ValueView::Number(number_of_integer(i as int))),
        CellView::Float(bits, text) => if is_finite(bits) {
            Some(ValueView::Number(NumberView { bits, text }))
        } else {
            None
        },
        CellView::String(s) => Some(ValueView::String(s)),
        CellView::DateTime(s) => Some(ValueView::String(s)),
        CellView::Error(s) => Some(ValueView::String(s)),
        CellView::Duration(s) => Some(ValueView::String(s)),
        CellView::DateTimeIso(s) => Some(ValueView::String(s)),
        CellView::DurationIso(s) => Some(ValueView::String(s)),
    }
}

/// What can be turned into a value.
pub trait JsonValue {
    /// The value that this stands for, if it stands for one.
    spec fn value(&self) -> Option<ValueView>;

    /// The value that this stands for, or `SerializationError` where it stands
    /// for none.
    fn to_value(&self) -> (r: Result<Value, QueryError>)
        ensures
            match r {
                Ok(v) => self.value() == Some(v@),
                Err(e) => self.value() is None && e@ == QueryErrorView::SerializationError,
            },
    ;
}

impl JsonValue for Cell {
    open spec fn value(&self) -> Option<ValueView> {
        cell_value(self@)
    }

    fn to_value(&self) -> (r: Result<Value, QueryError>) {
        match self {
            Cell::Text(s, reading) => {
                let reading = match reading {
                    Some(n) => Some(n.clone()),
                    None => None,
                };
                Ok(str_to_json_value(s.as_str(), reading))
            },
            Cell::Empty => Ok(Value::Null),
            Cell::Bool(b) => Ok(Value::Bool(*b)),
            Cell::Int(i) => Ok(Value::Number(Number::from_i64(*i))),
            Cell::Float(bits, text) => match Number::from_double(*bits, text.clone()) {
                Some(n) => Ok(Value::Number(n)),
                None => Err(QueryError::SerializationError),
            },
            Cell::String(s) => Ok(Value::String(s.clone())),
            Cell::DateTime(s) => Ok(Value::String(s.clone())),
            Cell::Error(s) => Ok(Value::String(s.clone())),
            Cell::Duration(s) => Ok(Value::String(s.clone())),
            Cell::DateTimeIso(s) => Ok(Value::String(s.clone())),
            Cell::DurationIso(s) => Ok(Value::String(s.clone())),
        }
    }
}

/// A table: the names of its columns, and its rows, each with one cell for each
/// column.
#[derive(Debug, PartialEq)]
pub struct Table {
    header: Vec<String>,
    rows: Vec<Vec<Cell>>,
}

/// What a `Table` is.
pub struct TableView {
    pub header: Seq<Seq<char>>,
    pub rows: Seq<Seq<CellView>>,
}

/// What a list of rows of cells is.
pub open spec fn cells_view(rows: Seq<Vec<Cell>>) -> Seq<Seq<CellView>> {
    Seq::new(rows.len(), |i: int| Seq::new(rows[i].len() as nat, |j: int| rows[i][j]@))
}

/// Every row has as many cells as the header has names.
pub open spec fn rectangular(header: Seq<Seq<char>>, rows: Seq<Seq<CellView>>) -> bool {
    forall|i: int| 0 <= i < rows.len() ==> (#[trigger] rows[i]).len() == header.len()
}

impl View for Table {
    type V = TableView;

    closed spec fn view(&self) -> TableView {
        TableView { header: texts_view(self.header@), rows: cells_view(self.rows@) }
    }
}

impl Table {
    /// Every row has as many cells as the header has names.
    #[verifier::type_invariant]
    spec fn aligned(self) -> bool {
        rectangular(texts_view(self.header@), cells_view(self.rows@))
    }

    /// The table with the header `header` and the rows `rows`, where every row
    /// has as many cells as the header has names.
    pub fn new(header: Vec<String>, rows: Vec<Vec<Cell>>) -> (r: Option<Table>)
        ensures
            match r {
                Some(t) => t@ == (TableView {
                    header: texts_view(header@),
                    rows: cells_view(rows@),
                }) && rectangular(t@.header, t@.rows),
                None => !rectangular(texts_view(header@), cells_view(rows@)),
            },
    {
        let mut i: usize = 0;
        while i < rows.len()
            invariant
                i <= rows.len(),
                forall|k: int|
                    0 <= k < i ==> (#[trigger] cells_view(rows@)[k]).len() == header.len(),
            decreases rows.len() - i,
        {
            if rows[i].len() != header.len() {
                assert(cells_view(rows@)[i as int].len() != texts_view(header@).len());
                return None;
            }
            i += 1;
        }
        Some(Table { header, rows })
    }

    /// The names of the columns.
    pub fn header(&self) -> (r: &Vec<String>)
        ensures
            texts_view(r@) == self@.header,
            rectangular(self@.header, self@.rows),
    {
        proof {
            use_type_invariant(self);
        }
        &self.header
    }

    /// The number of rows.
    pub fn row_count(&self) -> (r: usize)
        ensures
            r == self@.rows.len(),
    {
        self.rows.len()
    }
}

/// The first of `names` that is not among `header`, if there is one; with
/// `skip_star`, the name `*` is passed over.
pub open spec fn first_absent(
    names: Seq<Seq<char>>,
    header: Seq<Seq<char>>,
    skip_star: bool,
) -> Option<Seq<char>>
    decreases names.len(),
{
    if names.len() == 0 {
        None
    } else if !(skip_star && names[0] == "*"@) && !header.contains(names[0]) {
        Some(names[0])
    } else {
        first_absent(names.drop_first(), header, skip_star)
    }
}

/// Whether the column `name` is shown: the query asks for it by name, or for
/// all columns by `*`.
pub open spec fn selected(name: Seq<char>, columns: Seq<Seq<char>>) -> bool {
    columns.contains("*"@) || columns.contains(name)
}

/// The names of the columns that are shown, in the order of the header.
pub open spec fn shown_names(header: Seq<Seq<char>>, columns: Seq<Seq<char>>) -> Seq<Seq<char>>
    decreases header.len(),
{
    if header.len() == 0 {
        Seq::empty()
    } else if selected(header.last(), columns) {
        shown_names(header.drop_last(), columns).push(header.last())
    } else {
        shown_names(header.drop_last(), columns)
    }
}

/// The values of one row under the columns that are shown, in the order of the
/// header.
pub open spec fn shown_values(
    header: Seq<Seq<char>>,
    values: Seq<ValueView>,
    columns: Seq<Seq<char>>,
) -> Seq<ValueView>
    decreases header.len(),
{
    if header.len() == 0 {
        Seq::empty()
    } else if selected(header.last(), columns) {
        shown_values(header.drop_last(), values.drop_last(), columns).push(values.last())
    } else {
        shown_values(header.drop_last(), values.drop_last(), columns)
    }
}

/// Every cell of every row has a value.
pub open spec fn all_values(rows: Seq<Seq<CellView>>) -> bool {
    forall|i: int, j: int|
        0 <= i < rows.len() && 0 <= j < rows[i].len() ==> cell_value(#[trigger] rows[i][j]) is Some
}

/// The values of the cells of one row.
pub open spec fn row_values(cells: Seq<CellView>) -> Seq<ValueView> {
    Seq::new(cells.len(), |j: int| cell_value(cells[j])->0)
}

/// What one row of a result is: its names, in the order of strings and each
/// once, and the value under each.
pub struct RowView {
    pub names: Seq<Seq<char>>,
    pub values: Seq<ValueView>,
}

/// One row of a result: the columns shown, put into the row in the order of
/// the header, so that of two columns with one name the later stays.
pub open spec fn shown_row(
    header: Seq<Seq<char>>,
    values: Seq<ValueView>,
    columns: Seq<Seq<char>>,
) -> RowView {
    RowView {
        names: sorted_names(shown_names(header, columns)),
        values: sorted_values(shown_names(header, columns), shown_values(header, values, columns)),
    }
}

/// Whether a row with the values `values` is part of the result: the filter,
/// where there is one, holds of the whole row, and at least one column is
/// shown.
pub open spec fn row_kept(
    query: QueryView,
    readings: Map<Seq<char>, NumberView>,
    header: Seq<Seq<char>>,
    values: Seq<ValueView>,
) -> bool {
    &&& match query.conditions {
        Some(e) => holds(e, map_of(header, values), readings),
        None => true,
    }
    &&& shown_row(header, values, query.columns).names.len() > 0
}

/// The rows of a result: of the rows of the table, in their order, those that
/// are kept, each cut down to the columns shown.
pub open spec fn selected_rows(
    query: QueryView,
    readings: Map<Seq<char>, NumberView>,
    header: Seq<Seq<char>>,
    rows: Seq<Seq<CellView>>,
) -> Seq<RowView>
    decreases rows.len(),
{
    if rows.len() == 0 {
        Seq::empty()
    } else {
        let before = selected_rows(query, readings, header, rows.drop_last());
        let values = row_values(rows.last());
        if row_kept(query, readings, header, values) {
            before.push(shown_row(header, values, query.columns))
        } else {
            before
        }
    }
}

/// What running `query` against `table` gives. A column that the query shows
/// or that its filter names, and that the header lacks, fails the query before
/// any row is looked at; so does, after that, a cell without a value.
pub open spec fn executed(
    query: QueryView,
    readings: Map<Seq<char>, NumberView>,
    table: TableView,
) -> Result<Seq<RowView>, QueryErrorView> {
    if let Some(c) = first_absent(query.columns, table.header, true) {
        Err(QueryErrorView::UnknownColumn(c))
    } else if let Some(c) = filter_absent(query.conditions, table.header) {
        Err(QueryErrorView::UnknownColumn(c))
    } else if !all_values(table.rows) {
        Err(QueryErrorView::SerializationError)
    } else {
        Ok(selected_rows(query, readings, table.header, table.rows))
    }
}

/// The first column that the filter names and the header lacks.
pub open spec fn filter_absent(
    conditions: Option<ExpressionView>,
    header: Seq<Seq<char>>,
) -> Option<Seq<char>> {
    match conditions {
        Some(e) => first_absent(filter_columns(e), header, false),
        None => None,
    }
}

/// What a list of result rows is.
pub open spec fn rows_view(rows: Seq<Row>) -> Seq<RowView> {
    Seq::new(rows.len(), |i: int| RowView { names: rows[i].names(), values: rows[i].values() })
}

/// As many values are shown as names.
pub proof fn lemma_shown_lengths(
    header: Seq<Seq<char>>,
    values: Seq<ValueView>,
    columns: Seq<Seq<char>>,
)
    ensures
        shown_names(header, columns).len() == shown_values(header, values, columns).len(),
    decreases header.len(),
{
    if header.len() > 0 {
        lemma_shown_lengths(header.drop_last(), values.drop_last(), columns);
    }
}

/// In a list joined of two, the first absent name is that of the first list,
/// and that of the second where the first has none.
pub proof fn lemma_first_absent_joined(
    a: Seq<Seq<char>>,
    b: Seq<Seq<char>>,
    header: Seq<Seq<char>>,
    skip_star: bool,
)
    ensures
        first_absent(a + b, header, skip_star) == if first_absent(a, header, skip_star) is Some {
            first_absent(a, header, skip_star)
        } else {
            first_absent(b, header, skip_star)
        },
    decreases a.len(),
{
    if a.len() == 0 {
        assert(a + b =~= b);
    } else {
        assert((a + b).drop_first() =~= a.drop_first() + b);
        assert((a + b)[0] == a[0]);
        lemma_first_absent_joined(a.drop_first(), b, header, skip_star);
    }
}

/// Where no name is absent, every name is in the header.
pub proof fn lemma_none_absent(names: Seq<Seq<char>>, header: Seq<Seq<char>>)
    requires
        first_absent(names, header, false) is None,
    ensures
        forall|i: int| 0 <= i < names.len() ==> header.contains(#[trigger] names[i]),
    decreases names.len(),
{
    if names.len() > 0 {
        lemma_none_absent(names.drop_first(), header);
        assert forall|i: int| 0 <= i < names.len() implies header.contains(#[trigger] names[i]) by {
            if i > 0 {
                assert(names.drop_first()[i - 1] == names[i]);
            }
        }
    }
}

/// The first of the columns shown that the header lacks.
fn first_absent_name(names: &Vec<String>, header: &Vec<String>) -> (r: Option<String>)
    ensures
        match r {
            Some(c) => first_absent(texts_view(names@), texts_view(header@), true) == Some(c@),
            None => first_absent(texts_view(names@), texts_view(header@), true) is None,
        },
{
    let ghost all = texts_view(names@);
    let ghost h = texts_view(header@);
    let mut i: usize = 0;
    assert(all.skip(0) =~= all);
    while i < names.len()
        invariant
            i <= names.len(),
            all == texts_view(names@),
            h == texts_view(header@),
            first_absent(all, h, true) == first_absent(all.skip(i as int), h, true),
        decreases names.len() - i,
    {
        let name = &names[i];
        assert(all.skip(i as int)[0] == name@);
        assert(all.skip(i as int).drop_first() =~= all.skip(i + 1));
        if !str_eq(name.as_str(), "*") && !contains_text(header, name.as_str()) {
            return Some(name.clone());
        }
        i += 1;
    }
    None
}

/// The first of the columns that the filter names that the header lacks.
fn first_absent_column(e: &LogicalExpression, header: &Vec<String>) -> (r: Option<String>)
    ensures
        match r {
            Some(c) => first_absent(filter_columns(e@), texts_view(header@), false) == Some(c@),
            None => first_absent(filter_columns(e@), texts_view(header@), false) is None,
        },
    decreases e,
{
    match e {
        LogicalExpression::Predicate(p) => {
            assert(filter_columns(e@).drop_first().len() == 0);
            assert(filter_columns(e@)[0] == p.column@);
            reveal_with_fuel(first_absent, 2);
            if contains_text(header, p.column.as_str()) {
                None
            } else {
                Some(p.column.clone())
            }
        },
        LogicalExpression::Condition(c) => {
            proof {
                assert(filter_columns(e@) == filter_columns(c.left@) + filter_columns(c.right@));
                lemma_first_absent_joined(
                    filter_columns(c.left@),
                    filter_columns(c.right@),
                    texts_view(header@),
                    false,
                );
            }
            match first_absent_column(&c.left, header) {
                Some(x) => Some(x),
                None => first_absent_column(&c.right, header),
            }
        },
    }
}

/// Runs `query` against `table`: checks the columns that the query names
/// against the header, then goes through the rows in their order and keeps,
/// cut down to the columns shown, those of which the filter holds.
#[verifier::loop_isolation(false)]
pub fn run_query(query: &Query, readings: &Readings, table: &Table) -> (r: Result<
    Vec<Row>,
    QueryError,
>)
    ensures
        match r {
            Ok(rows) => executed(query@, readings@, table@) == Ok::<Seq<RowView>, QueryErrorView>(
                rows_view(rows@),
            ),
            Err(e) => executed(query@, readings@, table@) == Err::<Seq<RowView>, QueryErrorView>(
                e@,
            ),
        },
{
    proof {
        use_type_invariant(table);
    }
    let header = &table.header;
    let ghost h = texts_view(header@);
    let ghost q = query@;
    let ghost cells = cells_view(table.rows@);
    match first_absent_name(&query.columns, header) {
        Some(c) => {
            return Err(QueryError::UnknownColumn(c));
        },
        None => {},
    }
    match &query.conditions {
        Some(e) => {
            match first_absent_column(e, header) {
                Some(c) => {
                    return Err(QueryError::UnknownColumn(c));
                },
                None => {},
            }
        },
        None => {},
    }
    let all = contains_text(&query.columns, "*");
    let mut out: Vec<Row> = Vec::new();
    let mut i: usize = 0;
    assert(cells.take(0) =~= Seq::empty());
    while i < table.rows.len()
        invariant
            i <= table.rows.len(),
            forall|r: int, c: int|
                0 <= r < i && 0 <= c < cells[r].len() ==> cell_value(#[trigger] cells[r][c])
                    is Some,
            rows_view(out@) =~= selected_rows(q, readings@, h, cells.take(i as int)),
        decreases table.rows.len() - i,
    {
        let row = &table.rows[i];
        let ghost vals = row_values(cells[i as int]);
        assert(cells[i as int].len() == h.len());
        let mut values: Vec<Value> = Vec::new();
        let mut j: usize = 0;
        while j < row.len()
            invariant
                j <= row.len(),
                values.len() == j,
                forall|k: int| 0 <= k < j ==> cell_value(cells[i as int][k]) == Some(values[k]@),
            decreases row.len() - j,
        {
            match row[j].to_value() {
                Ok(v) => {
                    values.push(v);
                },
                Err(e) => {
                    assert(cell_value(cells[i as int][j as int]) is None);
                    return Err(e);
                },
            }
            j += 1;
        }
        let mut full: Row = TextMap::new();
        let mut shown: Row = TextMap::new();
        let mut k: usize = 0;
        assert(h.take(0) =~= Seq::empty());
        while k < header.len()
            invariant
                k <= header.len(),
                full@ == map_of(h.take(k as int), vals.take(k as int)),
                shown.names() == sorted_names(shown_names(h.take(k as int), q.columns)),
                shown.values() == sorted_values(
                    shown_names(h.take(k as int), q.columns),
                    shown_values(h.take(k as int), vals.take(k as int), q.columns),
                ),
            decreases header.len() - k,
        {
            let name = &header[k];
            let pick = all || contains_text(&query.columns, name.as_str());
            proof {
                assert(h.take(k + 1).drop_last() =~= h.take(k as int));
                assert(vals.take(k + 1).drop_last() =~= vals.take(k as int));
                assert(h.take(k + 1).last() == name@);
                assert(vals.take(k + 1).last() == values[k as int]@);
                let shown_before = shown_names(h.take(k as int), q.columns);
                let values_before = shown_values(h.take(k as int), vals.take(k as int), q.columns);
                assert(shown_before.push(name@).drop_last() =~= shown_before);
                assert(values_before.push(values[k as int]@).drop_last() =~= values_before);
            }
            full = full.with(name.clone(), values[k].clone());
            if pick {
                shown = shown.with(name.clone(), values[k].clone());
            }
            k += 1;
        }
        assert(h.take(h.len() as int) =~= h);
        assert(vals.take(vals.len() as int) =~= vals);
        let keep = match &query.conditions {
            Some(e) => {
                proof {
                    let names = filter_columns(e@);
                    lemma_none_absent(names, h);
                    assert forall|n: int| 0 <= n < names.len() implies full@.contains_key(
                        #[trigger] names[n],
                    ) by {
                        lemma_map_of_names(h, vals, names[n]);
                    }
                }
                LogicalExpression::evaluate_conditions(e, &full, readings)
            },
            None => true,
        };
        proof {
            assert(cells.take(i + 1).drop_last() =~= cells.take(i as int));
            assert(cells.take(i + 1).last() == cells[i as int]);
        }
        proof {
            lemma_shown_lengths(h, vals, q.columns);
        }
        if keep && !shown.is_empty() {
            let ghost before = out@;
            out.push(shown);
            assert(rows_view(out@) =~= rows_view(before).push(
                RowView { names: shown.names(), values: shown.values() },
            ));
        }
        i += 1;
    }
    assert(cells.take(cells.len() as int) =~= cells);
    Ok(out)
}

/// The objects that the rows of a result are written as: for each row, its
/// names, each with the text that stands for the value under it.
pub open spec fn row_objects(rows: Seq<RowView>) -> Seq<Seq<(Seq<char>, Seq<char>)>> {
    Seq::new(
        rows.len(),
        |i: int|
            Seq::new(rows[i].names.len(), |j: int| (rows[i].names[j], rendered(rows[i].values[j]))),
    )
}

/// The JSON text of a result: a list with one object for each row, or
/// `SerializationError` where the text of a value in it is not JSON.
pub open spec fn json_of(rows: Seq<RowView>) -> Result<Seq<char>, QueryErrorView> {
    if all_json(row_objects(rows)) {
        Ok(pretty_json(row_objects(rows)))
    } else {
        Err(QueryErrorView::SerializationError)
    }
}

/// What running `query` against `table` gives as JSON text.
pub open spec fn answered(
    query: QueryView,
    readings: Map<Seq<char>, NumberView>,
    table: TableView,
) -> Result<Seq<char>, QueryErrorView> {
    match executed(query, readings, table) {
        Ok(rows) => json_of(rows),
        Err(e) => Err(e),
    }
}

/// Writes the rows of a result as JSON: a list with one object for each row,
/// in the order of the rows, and in each object the names in the order of
/// strings. Fails with `SerializationError` exactly where the text that
/// stands for one of the values is not JSON.
pub fn to_json(rows: &Vec<Row>) -> (r: Result<String, QueryError>)
    ensures
        match r {
            Ok(text) => json_of(rows_view(rows@)) == Ok::<Seq<char>, QueryErrorView>(text@),
            Err(e) => json_of(rows_view(rows@)) == Err::<Seq<char>, QueryErrorView>(e@),
        },
{
    let mut objects: Vec<Vec<(String, String)>> = Vec::new();
    let mut i: usize = 0;
    while i < rows.len()
        invariant
            i <= rows.len(),
            objects.len() == i,
            objects_view(objects@) =~= row_objects(rows_view(rows@)).take(i as int),
            all_json(objects_view(objects@)),
            forall|n: int|
                0 <= n < i ==> ascending(object_names(#[trigger] objects_view(objects@)[n])),
        decreases rows.len() - i,
    {
        let row = &rows[i];
        let mut object: Vec<(String, String)> = Vec::new();
        let width = row.len();
        let mut j: usize = 0;
        while j < width
            invariant
                j <= width,
                i < rows.len(),
                rows_view(rows@)[i as int] == (RowView {
                    names: row.names(),
                    values: row.values(),
                }),
                width == row.names().len(),
                width == row.values().len(),
                object.len() == j,
                forall|k: int|
                    0 <= k < j ==> (#[trigger] object[k]).0@ == row.names()[k] && object[k].1@
                        == rendered(row.values()[k]) && is_json_value(object[k].1@),
            decreases width - j,
        {
            let text = row.value_at(j).render();
            if !is_json(text.as_str()) {
                proof {
                    let all = row_objects(rows_view(rows@));
                    assert(all[i as int][j as int].1 == text@);
                }
                return Err(QueryError::SerializationError);
            }
            object.push((row.name_at(j).clone(), text));
            j += 1;
        }
        let ghost before = objects@;
        let ghost pairs = object@;
        objects.push(object);
        proof {
            let all = row_objects(rows_view(rows@));
            assert(objects@[i as int]@ == pairs);
            assert(rows_view(rows@)[i as int].names == row.names());
            assert(objects_view(objects@)[i as int] =~= all[i as int]);
            assert(objects_view(objects@) =~= objects_view(before).push(all[i as int]));
            assert(all.take(i + 1) =~= all.take(i as int).push(all[i as int]));
            assert(object_names(all[i as int]) =~= row.names());
            assert forall|n: int, m: int|
                0 <= n < objects.len() && 0 <= m < objects_view(objects@)[n].len()
                implies is_json_value((#[trigger] objects_view(objects@)[n][m]).1) by {
                if n < i {
                    assert(objects_view(objects@)[n] == objects_view(before)[n]);
                    assert(is_json_value(objects_view(before)[n][m].1));
                } else {
                    assert(objects_view(objects@)[n][m] == (pairs[m].0@, pairs[m].1@));
                }
            }
            assert forall|n: int| 0 <= n < i + 1 implies ascending(
                object_names(#[trigger] objects_view(objects@)[n]),
            ) by {
                if n < i {
                    assert(objects_view(objects@)[n] == objects_view(before)[n]);
                }
            }
        }
        i += 1;
    }
    proof {
        let all = row_objects(rows_view(rows@));
        assert(all.take(rows.len() as int) =~= all);
    }
    match pretty_text(&objects) {
        Ok(text) => Ok(text),
        Err(_) => Err(QueryError::SerializationError),
    }
}

/// What runs queries against a source of rows. There are two kinds: one for a
/// file that holds one table, one for a workbook.
pub trait Executor {
    /// Whether `query` can be put to this executor.
    spec fn accepts(&self, query: QueryView) -> bool;

    /// What running `query` gives.
    spec fn outcome(&self, query: QueryView, readings: Map<Seq<char>, NumberView>) -> Result<
        Seq<char>,
        QueryErrorView,
    >;

    /// Runs `query`: gives the result as JSON text, or the reason why there is
    /// no result.
    fn execute_query(&self, query: &Query, readings: &Readings) -> (r: Result<String, QueryError>)
        requires
            self.accepts(query@),
        ensures
            match r {
                Ok(text) => self.outcome(query@, readings@) == Ok::<Seq<char>, QueryErrorView>(
                    text@,
                ),
                Err(e) => self.outcome(query@, readings@) == Err::<Seq<char>, QueryErrorView>(e@),
            },
    ;
}

/// Runs `query` against `table` and writes the result as JSON.
pub fn answer_query(query: &Query, readings: &Readings, table: &Table) -> (r: Result<
    String,
    QueryError,
>)
    ensures
        match r {
            Ok(text) => answered(query@, readings@, table@) == Ok::<Seq<char>, QueryErrorView>(
                text@,
            ),
            Err(e) => answered(query@, readings@, table@) == Err::<Seq<char>, QueryErrorView>(e@),
        },
{
    match run_query(query, readings, table) {
        Ok(rows) => to_json(&rows),
        Err(e) => Err(e),
    }
}

impl LogicalExpression {
    /// The literals of the filter, from left to right: the texts whose
    /// readings as numbers the filter is evaluated with.
    pub fn literals(&self) -> (r: Vec<String>)
        ensures
            texts_view(r@) == filter_literals(self@),
        decreases self,
    {
        match self {
            LogicalExpression::Predicate(p) => {
                let mut out: Vec<String> = Vec::new();
                out.push(p.value.clone());
                assert(texts_view(out@) =~= seq![p.value@]);
                out
            },
            LogicalExpression::Condition(c) => {
                let mut out = c.left.literals();
                let mut more = c.right.literals();
                let ghost a = texts_view(out@);
                let ghost b = texts_view(more@);
                out.append(&mut more);
                assert(texts_view(out@) =~= a + b);
                out
            },
        }
    }
}

/// A condition with `AND` holds exactly when both its sides hold, and one with
/// `OR` exactly when at least one side holds.
pub proof fn lemma_condition_joins(
    left: ExpressionView,
    right: ExpressionView,
    row: Map<Seq<char>, ValueView>,
    readings: Map<Seq<char>, NumberView>,
)
    ensures
        holds(
            ExpressionView::Condition(Box::new(left), LogicalOperator::And, Box::new(right)),
            row,
            readings,
        ) <==> holds(left, row, readings) && holds(right, row, readings),
        holds(
            ExpressionView::Condition(Box::new(left), LogicalOperator::Or, Box::new(right)),
            row,
            readings,
        ) <==> holds(left, row, readings) || holds(right, row, readings),
{
}

/// A predicate compares by value where the value under its column and its
/// literal are both numbers, and in every other case by the order of the texts
/// that stand for the two.
pub proof fn lemma_predicate_compares(
    p: PredicateView,
    row: Map<Seq<char>, ValueView>,
    readings: Map<Seq<char>, NumberView>,
)
    ensures
        ({
            let left = row[p.column];
            let right = coerced(p.value, reading_of(readings, p.value));
            if left is Number && right is Number {
                predicate_holds(p, row, readings) == p.operator.admits(
                    number_order(left->Number_0, right->Number_0),
                )
            } else {
                predicate_holds(p, row, readings) == p.operator.admits(
                    text_order(rendered(left), rendered(right)),
                )
            }
        }),
{
}

/// Where a name is absent, there is a first absent name, and it is one of the
/// names and not in the header.
pub proof fn lemma_first_absent_found(
    names: Seq<Seq<char>>,
    header: Seq<Seq<char>>,
    skip_star: bool,
    i: int,
)
    requires
        0 <= i < names.len(),
        !header.contains(names[i]),
        !(skip_star && names[i] == "*"@),
    ensures
        first_absent(names, header, skip_star) is Some,
        names.contains(first_absent(names, header, skip_star)->0),
        !header.contains(first_absent(names, header, skip_star)->0),
    decreases names.len(),
{
    if !(skip_star && names[0] == "*"@) && !header.contains(names[0]) {
    } else {
        assert(names.drop_first()[i - 1] == names[i]);
        lemma_first_absent_found(names.drop_first(), header, skip_star, i - 1);
        let c = first_absent(names.drop_first(), header, skip_star)->0;
        let j = choose|j: int| 0 <= j < names.drop_first().len() && names.drop_first()[j] == c;
        assert(names[j + 1] == c);
    }
}

/// A query that shows a column by a name that the header lacks is rejected
/// with `UnknownColumn` and a column that the header lacks, whatever the rows
/// of the table are: no row comes out.
pub proof fn lemma_absent_column_rejected(
    query: QueryView,
    readings: Map<Seq<char>, NumberView>,
    table: TableView,
    i: int,
)
    requires
        0 <= i < query.columns.len(),
        query.columns[i] != "*"@,
        !table.header.contains(query.columns[i]),
    ensures
        executed(query, readings, table) matches Err(QueryErrorView::UnknownColumn(c))
            && query.columns.contains(c) && !table.header.contains(c),
{
    lemma_first_absent_found(query.columns, table.header, true, i);
}

/// A query whose filter names a column that the header lacks is rejected with
/// `UnknownColumn`, whatever the rows of the table are.
pub proof fn lemma_absent_filter_column_rejected(
    query: QueryView,
    readings: Map<Seq<char>, NumberView>,
    table: TableView,
    i: int,
)
    requires
        query.conditions is Some,
        0 <= i < filter_columns(query.conditions->0).len(),
        !table.header.contains(filter_columns(query.conditions->0)[i]),
    ensures
        executed(query, readings, table) matches Err(QueryErrorView::UnknownColumn(c))
            && !table.header.contains(c),
{
    lemma_first_absent_found(filter_columns(query.conditions->0), table.header, false, i);
    if first_absent(query.columns, table.header, true) is Some {
        let c = first_absent(query.columns, table.header, true)->0;
        lemma_first_absent_is_absent(query.columns, table.header, true);
    }
}

/// The first absent name is not in the header.
pub proof fn lemma_first_absent_is_absent(
    names: Seq<Seq<char>>,
    header: Seq<Seq<char>>,
    skip_star: bool,
)
    requires
        first_absent(names, header, skip_star) is Some,
    ensures
        !header.contains(first_absent(names, header, skip_star)->0),
    decreases names.len(),
{
    if names.len() > 0 {
        if !(skip_star && names[0] == "*"@) && !header.contains(names[0]) {
        } else {
            lemma_first_absent_is_absent(names.drop_first(), header, skip_star);
        }
    }
}

/// With `*` among the columns of a query, every column of the header is
/// shown, with its value.
pub proof fn lemma_star_shows_all(
    header: Seq<Seq<char>>,
    values: Seq<ValueView>,
    columns: Seq<Seq<char>>,
)
    requires
        columns.contains("*"@),
        header.len() == values.len(),
    ensures
        shown_names(header, columns) == header,
        shown_values(header, values, columns) == values,
    decreases header.len(),
{
    if header.len() > 0 {
        lemma_star_shows_all(header.drop_last(), values.drop_last(), columns);
        assert(header.drop_last().push(header.last()) =~= header);
        assert(values.drop_last().push(values.last()) =~= values);
    } else {
        assert(header =~= Seq::empty());
        assert(values =~= Seq::empty());
    }
}

/// A query that shows `*`, names no column that the header lacks and has no
/// filter gives, for a table with at least one column whose cells all have
/// values, one row for each row of the table, in the table's order, each with
/// every name of the header and under it the value of the cell in that column
/// (of two columns with one name, the later).
pub proof fn lemma_star_without_filter(
    query: QueryView,
    readings: Map<Seq<char>, NumberView>,
    table: TableView,
)
    requires
        query.columns.contains("*"@),
        first_absent(query.columns, table.header, true) is None,
        query.conditions is None,
        table.header.len() > 0,
        rectangular(table.header, table.rows),
        all_values(table.rows),
    ensures
        executed(query, readings, table) matches Ok(rows) && rows.len() == table.rows.len()
            && forall|i: int|
            0 <= i < rows.len() ==> ascending((#[trigger] rows[i]).names) && map_of(
                rows[i].names,
                rows[i].values,
            ) == map_of(table.header, row_values(table.rows[i])),
{
    lemma_star_rows(query, readings, table.header, table.rows);
}

/// The rows that a query with `*` and without a filter selects.
proof fn lemma_star_rows(
    query: QueryView,
    readings: Map<Seq<char>, NumberView>,
    header: Seq<Seq<char>>,
    rows: Seq<Seq<CellView>>,
)
    requires
        query.columns.contains("*"@),
        query.conditions is None,
        header.len() > 0,
        rectangular(header, rows),
    ensures
        selected_rows(query, readings, header, rows).len() == rows.len(),
        forall|i: int|
            0 <= i < rows.len() ==> ascending(
                (#[trigger] selected_rows(query, readings, header, rows)[i]).names,
            ) && map_of(
                selected_rows(query, readings, header, rows)[i].names,
                selected_rows(query, readings, header, rows)[i].values,
            ) == map_of(header, row_values(rows[i])),
    decreases rows.len(),
{
    if rows.len() > 0 {
        assert(rectangular(header, rows.drop_last())) by {
            assert forall|i: int| 0 <= i < rows.drop_last().len() implies (
            #[trigger] rows.drop_last()[i]).len() == header.len() by {
                assert(rows.drop_last()[i] == rows[i]);
            }
        }
        lemma_star_rows(query, readings, header, rows.drop_last());
        let values = row_values(rows.last());
        assert(rows.last() == rows[rows.len() - 1]);
        lemma_star_shows_all(header, values, query.columns);
        lemma_sorted(header, values);
        let shown = shown_row(header, values, query.columns);
        assert(map_of(shown.names, shown.values).contains_key(header[0])) by {
            lemma_map_of_names(header, values, header[0]);
        }
        assert(shown.names.len() > 0);
        let before = selected_rows(query, readings, header, rows.drop_last());
        let all = selected_rows(query, readings, header, rows);
        assert(all == before.push(shown));
        assert forall|i: int| 0 <= i < rows.len() implies ascending((#[trigger] all[i]).names)
            && map_of(all[i].names, all[i].values) == map_of(header, row_values(rows[i])) by {
            if i < rows.len() - 1 {
                assert(all[i] == before[i]);
                assert(rows.drop_last()[i] == rows[i]);
            }
        }
    }
}

/// Every row of a result has its names in the order of strings, each once,
/// and holds under them the values of the columns shown.
pub proof fn lemma_shown_row(
    header: Seq<Seq<char>>,
    values: Seq<ValueView>,
    columns: Seq<Seq<char>>,
)
    ensures
        ascending(shown_row(header, values, columns).names),
        shown_row(header, values, columns).names.len() == shown_row(
            header,
            values,
            columns,
        ).values.len(),
        map_of(shown_row(header, values, columns).names, shown_row(header, values, columns).values)
            == map_of(shown_names(header, columns), shown_values(header, values, columns)),
{
    lemma_shown_lengths(header, values, columns);
    lemma_sorted(shown_names(header, columns), shown_values(header, values, columns));
}

/// A query that cannot be answered fails in one of two ways: it names a
/// column that the header lacks, or the table holds what JSON cannot write.
pub proof fn lemma_answer_errors(
    query: QueryView,
    readings: Map<Seq<char>, NumberView>,
    table: TableView,
)
    ensures
        answered(query, readings, table) matches Err(e) ==> e is UnknownColumn
            || e is SerializationError,
{
}

} // verus!
