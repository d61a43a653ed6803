//! Queries against a workbook: a file that holds several sheets, each a table
//! with a name.
//!
//! To read a sheet out of a workbook is costly, so a sheet that was read is
//! kept under its name for as long as the executor lives. The reading itself
//! is not done here: whoever holds the workbook asks whether a sheet is kept,
//! reads it where it is not, and hands it over to be kept.

use crate::error::{QueryError, QueryErrorView};
use crate::executor::{answer_query, answered, Executor, Readings, Table, TableView};
use crate::number::NumberView;
use crate::parser::{Query, QueryView};
use crate::textmap::TextMap;
use vstd::prelude::*;

verus! {

/// Runs queries against the sheets of a workbook.
pub struct XlsxExecutor {
    tables: TextMap<Table>,
}

impl View for XlsxExecutor {
    type V = Map<Seq<char>, TableView>;

    /// The sheets that are kept, each under its name.
    closed spec fn view(&self) -> Map<Seq<char>, TableView> {
        self.tables@
    }
}

/// What running `query` against the sheets `kept` gives: the sheet that the
/// query names is run against where it is kept, and cannot be had where it is
/// not.
pub open spec fn answered_on_sheet(
    query: QueryView,
    readings: Map<Seq<char>, NumberView>,
    kept: Map<Seq<char>, TableView>,
) -> Result<Seq<char>, QueryErrorView> {
    let sheet = query.file.sheet->0;
    if kept.contains_key(sheet) {
        answered(query, readings, kept[sheet])
    } else {
        Err(QueryErrorView::OpenError(sheet))
    }
}

/// The sheet that has to be read before `query` can be run against the sheets
/// `kept`: the one that the query names, where it is not kept.
pub open spec fn sheet_needed(query: QueryView, kept: Map<Seq<char>, TableView>) -> Option<
    Seq<char>,
> {
    let sheet = query.file.sheet->0;
    if kept.contains_key(sheet) {
        None
    } else {
        Some(sheet)
    }
}

impl XlsxExecutor {
    /// The executor that keeps no sheet yet.
    pub fn new() -> (r: Self)
        ensures
            r@ == Map::<Seq<char>, TableView>::empty(),
    {
        XlsxExecutor { tables: TextMap::new() }
    }

    /// The sheet that is kept under `sheet`, if one is: then it need not be
    /// read again.
    pub fn cached(&self, sheet: &str) -> (r: Option<&Table>)
        ensures
            match r {
                Some(t) => self@.contains_key(sheet@) && self@[sheet@] == t@,
                None => !self@.contains_key(sheet@),
            },
    {
        self.tables.get(sheet)
    }

    /// The sheet that has to be read and stored before `query` can be run, if
    /// there is one.
    pub fn sheet_to_read<'a>(&self, query: &'a Query) -> (r: Option<&'a String>)
        requires
            query@.file.sheet is Some,
        ensures
            match r {
                Some(sheet) => sheet_needed(query@, self@) == Some(sheet@),
                None => sheet_needed(query@, self@) is None,
            },
    {
        let sheet = query.file.sheet.as_ref().unwrap();
        if self.tables.contains_key(sheet.as_str()) {
            None
        } else {
            Some(sheet)
        }
    }

    /// Keeps `table` under `sheet`. No sheet that is kept is ever dropped.
    pub fn store(&mut self, sheet: String, table: Table)
        ensures
            final(self)@ == old(self)@.insert(sheet@, table@),
    {
        self.tables.insert(sheet, table);
    }
}

impl Executor for XlsxExecutor {
    open spec fn accepts(&self, query: QueryView) -> bool {
        query.file.sheet is Some
    }

    open spec fn outcome(&self, query: QueryView, readings: Map<Seq<char>, NumberView>) -> Result<
        Seq<char>,
        QueryErrorView,
    > {
        answered_on_sheet(query, readings, self@)
    }

    fn execute_query(&self, query: &Query, readings: &Readings) -> (r: Result<String, QueryError>) {
        let sheet = query.file.sheet.as_ref().unwrap();
        match self.cached(sheet.as_str()) {
            Some(table) => answer_query(query, readings, table),
            None => Err(QueryError::OpenError(sheet.clone())),
        }
    }
}

/// A sheet that is kept stays kept, with its table, when another sheet is
/// kept after it: whoever asks for it again is given it and has no cause to
/// read the workbook a second time.
pub proof fn lemma_kept_sheet_stays(
    kept: Map<Seq<char>, TableView>,
    sheet: Seq<char>,
    table: TableView,
    later_sheet: Seq<char>,
    later_table: TableView,
)
    ensures
        kept.insert(sheet, table).contains_key(sheet),
        kept.insert(sheet, table)[sheet] == table,
        kept.insert(sheet, table).insert(later_sheet, later_table).contains_key(sheet),
        later_sheet != sheet ==> kept.insert(sheet, table).insert(later_sheet, later_table)[sheet]
            == table,
{
}

/// Once the sheet that a query names is kept, no sheet has to be read for the
/// query, whatever other sheets are kept after it: a workbook is read once for
/// each sheet at most.
pub proof fn lemma_kept_sheet_is_not_read_again(
    kept: Map<Seq<char>, TableView>,
    sheet: Seq<char>,
    table: TableView,
    later_sheet: Seq<char>,
    later_table: TableView,
    query: QueryView,
)
    requires
        query.file.sheet == Some(sheet),
    ensures
        sheet_needed(query, kept.insert(sheet, table)) is None,
        sheet_needed(query, kept.insert(sheet, table).insert(later_sheet, later_table)) is None,
{
}

/// Against a sheet that is kept, a query runs as against the table of that
/// sheet.
pub proof fn lemma_query_on_kept_sheet(
    kept: Map<Seq<char>, TableView>,
    sheet: Seq<char>,
    table: TableView,
    query: QueryView,
    readings: Map<Seq<char>, NumberView>,
)
    requires
        query.file.sheet == Some(sheet),
    ensures
        answered_on_sheet(query, readings, kept.insert(sheet, table)) == answered(
            query,
            readings,
            table,
        ),
{
}

} // verus!
