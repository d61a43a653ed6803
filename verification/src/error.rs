//! The ways in which a query can fail.

use vstd::prelude::*;

verus! {

/// Why a query was not read or not run. Each ends the query: there is no
/// second try and no part of a result.
#[derive(Debug, PartialEq)]
pub enum QueryError {
    /// The text is not a query.
    SyntaxError,
    /// A column is named that is not there: it is the one held.
    UnknownColumn(String),
    /// A sheet is named for a file that has no sheets.
    UnexpectedSheetClause,
    /// The file, or the sheet held, cannot be had.
    OpenError(String),
    /// A cell holds what no value can stand for.
    SerializationError,
}

/// What a `QueryError` is.
pub enum QueryErrorView {
    SyntaxError,
    UnknownColumn(Seq<char>),
    UnexpectedSheetClause,
    OpenError(Seq<char>),
    SerializationError,
}

impl View for QueryError {
    type V = QueryErrorView;

    open spec fn view(&self) -> QueryErrorView {
        match self {
            QueryError::SyntaxError => QueryErrorView::SyntaxError,
            QueryError::UnknownColumn(c) => QueryErrorView::UnknownColumn(c@),
            QueryError::UnexpectedSheetClause => QueryErrorView::UnexpectedSheetClause,
            QueryError::OpenError(s) => QueryErrorView::OpenError(s@),
            QueryError::SerializationError => QueryErrorView::SerializationError,
        }
    }
}

} // verus!
