//! Queries against a file that holds one table of delimited text.

use crate::error::{QueryError, QueryErrorView};
use crate::executor::{answer_query, answered, Executor, Readings, Table, TableView};
use crate::number::NumberView;
use crate::parser::{Query, QueryView};
use vstd::prelude::*;

verus! {

/// Runs queries against the one table of a file of delimited text. The table
/// is handed over as it was read: the first record is the header, and every
/// cell is raw text.
pub struct CsvExecutor {
    table: Table,
}

impl View for CsvExecutor {
    type V = TableView;

    closed spec fn view(&self) -> TableView {
        self.table@
    }
}

impl CsvExecutor {
    /// The executor for `table`.
    pub fn new(table: Table) -> (r: Self)
        ensures
            r@ == table@,
    {
        CsvExecutor { table }
    }

    /// The table that the executor runs queries against.
    pub fn table(&self) -> (r: &Table)
        ensures
            r@ == self@,
    {
        &self.table
    }
}

impl Executor for CsvExecutor {
    open spec fn accepts(&self, query: QueryView) -> bool {
        true
    }

    open spec fn outcome(&self, query: QueryView, readings: Map<Seq<char>, NumberView>) -> Result<
        Seq<char>,
        QueryErrorView,
    > {
        answered(query, readings, self@)
    }

    fn execute_query(&self, query: &Query, readings: &Readings) -> (r: Result<String, QueryError>) {
        answer_query(query, readings, &self.table)
    }
}

} // verus!
