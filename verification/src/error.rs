//! What can go wrong when a table is built or asked.

use crate::decimal::{decimal, to_decimal};
use vstd::prelude::*;
use vstd::string::StringExecFns;

verus! {

/// The words for a column that is not there.
pub open spec fn column_not_found(name: Seq<char>) -> Seq<char> {
    "Column '"@ + name + "' not found"@
}

/// The words for a column that holds more than numbers.
pub open spec fn column_not_numeric(name: Seq<char>) -> Seq<char> {
    "Column '"@ + name + "' is not numeric"@
}

/// The words for a table without data rows.
pub open spec fn no_data() -> Seq<char> {
    "no data in the file"@
}

/// The words for a text where a number should be.
pub open spec fn type_mismatch() -> Seq<char> {
    "expected number, found string"@
}

/// The words for a table with no more than `available` rows.
pub open spec fn only_rows(available: nat) -> Seq<char> {
    "there are only "@ + decimal(available) + " rows in the file"@
}

/// The words in front of `name`, `name`, and the words behind it.
fn around(front: &str, name: &str, back: &str) -> (r: String)
    ensures
        r@ == front@ + name@ + back@,
{
    let mut r = front.to_owned();
    r.append(name);
    r.append(back);
    r
}

/// Why no table could be built.
#[derive(Debug, Clone, PartialEq, Eq)]
pub enum TableError {
    /// The text has no line, so there is no header.
    EmptyInput,
    /// The data row at this position has not as many cells as the header has
    /// names.
    MalformedRow { row: usize },
}

/// Why a table gave no numbers for a column. The caller can report any of
/// these and go on.
#[derive(Debug, Clone, PartialEq, Eq)]
pub enum QueryError {
    /// No column has this name.
    ColumnNotFound(String),
    /// The column of this name holds a cell that is no number.
    ColumnNotNumeric(String),
    /// The table has no data row.
    EmptyTable,
    /// A cell that should be a number is a text.
    TypeMismatch,
}

impl QueryError {
    /// The words that say what went wrong.
    pub open spec fn words(self) -> Seq<char> {
        match self {
            QueryError::ColumnNotFound(name) => column_not_found(name@),
            QueryError::ColumnNotNumeric(name) => column_not_numeric(name@),
            QueryError::EmptyTable => no_data(),
            QueryError::TypeMismatch => type_mismatch(),
        }
    }

    /// The words that say what went wrong.
    pub fn message(&self) -> (r: String)
        ensures
            r@ == self.words(),
    {
        match self {
            QueryError::ColumnNotFound(name) => around("Column '", name.as_str(), "' not found"),
            QueryError::ColumnNotNumeric(name) => around(
                "Column '",
                name.as_str(),
                "' is not numeric",
            ),
            QueryError::EmptyTable => "no data in the file".to_owned(),
            QueryError::TypeMismatch => "expected number, found string".to_owned(),
        }
    }
}

/// Why a table gave no listing of a column and no tally: conditions that
/// the caller is expected to stop at.
#[derive(Debug, Clone, PartialEq, Eq)]
pub enum FatalError {
    /// No column has this name.
    ColumnNotFound(String),
    /// The table has no data row.
    EmptyTable,
}

impl FatalError {
    /// The words that say what went wrong.
    pub open spec fn words(self) -> Seq<char> {
        match self {
            FatalError::ColumnNotFound(name) => column_not_found(name@),
            FatalError::EmptyTable => no_data(),
        }
    }

    /// The words that say what went wrong.
    pub fn message(&self) -> (r: String)
        ensures
            r@ == self.words(),
    {
        match self {
            FatalError::ColumnNotFound(name) => around("Column '", name.as_str(), "' not found"),
            FatalError::EmptyTable => "no data in the file".to_owned(),
        }
    }
}

/// More rows were asked for than the table has.
#[derive(Debug, Clone, Copy, PartialEq, Eq)]
pub struct TooManyRows {
    /// The number of data rows that the table has.
    pub available: usize,
}

impl TooManyRows {
    /// The words that say how many rows there are.
    pub fn message(&self) -> (r: String)
        ensures
            r@ == only_rows(self.available as nat),
    {
        let count = to_decimal(self.available);
        around("there are only ", count.as_str(), " rows in the file")
    }
}

} // verus!
