//! Queries in a small language of the kind of SQL, run against one table: a
//! file of delimited text, or one sheet of a workbook.
//!
//! A query names the columns to show, the file to read and, where it filters,
//! the conditions that a row must meet:
//!
//! ```text
//! SELECT name,age FROM people.csv WHERE age >= 18 AND name != 'Bob'
//! ```
//!
//! [`parser`] reads the text of a query, [`value`] turns the text of a cell or
//! of a literal into a typed value, and [`executor`] checks the columns of a
//! query against the header of a table, filters the rows and writes the
//! result as JSON. Opening files and arithmetic on floating-point numbers are
//! left to the caller, who hands over cells, and numbers of double precision
//! as the bit patterns that [`number`] orders.

pub mod error;
pub mod executor;
pub mod filetypes;
pub mod json;
pub mod number;
pub mod parser;
pub mod scan;
pub mod text;
pub mod textmap;
pub mod value;
