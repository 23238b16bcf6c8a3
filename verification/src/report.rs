//! The lines in which an answer is given.

use crate::decimal::{decimal, to_decimal};
use crate::table::Column;
use crate::tally::Count;
use vstd::prelude::*;
use vstd::string::StringExecFns;

verus! {

/// The line that gives the number of rows.
pub open spec fn rows_report(n: nat) -> Seq<char> {
    "Number of rows: "@ + decimal(n) + "\n"@
}

/// The word for a column's type.
pub open spec fn type_label(numeric: bool) -> Seq<char> {
    if numeric {
        "number"@
    } else {
        "text"@
    }
}

/// The line of one column: its name, and its type in brackets.
pub open spec fn column_line(column: (Seq<char>, bool)) -> Seq<char> {
    "  "@ + column.0 + " ("@ + type_label(column.1) + ")\n"@
}

/// The lines of the given columns, one after the other.
pub open spec fn column_lines(columns: Seq<(Seq<char>, bool)>) -> Seq<char>
    decreases columns.len(),
{
    if columns.len() == 0 {
        Seq::empty()
    } else {
        column_lines(columns.drop_last()) + column_line(columns.last())
    }
}

/// The lines that give the columns: a heading, then a line for each.
pub open spec fn columns_report(columns: Seq<(Seq<char>, bool)>) -> Seq<char> {
    "Columns: \n"@ + column_lines(columns)
}

/// The line of one value: the value, and how often it was seen.
pub open spec fn count_line(count: (Seq<char>, nat)) -> Seq<char> {
    count.0 + " : "@ + decimal(count.1) + "\n"@
}

/// The lines of the given values, one after the other.
pub open spec fn count_lines(counts: Seq<(Seq<char>, nat)>) -> Seq<char>
    decreases counts.len(),
{
    if counts.len() == 0 {
        Seq::empty()
    } else {
        count_lines(counts.drop_last()) + count_line(counts.last())
    }
}

/// The lines that give a tally: a heading with the column's name and the
/// number of distinct values, then a line for each value.
pub open spec fn unique_report(name: Seq<char>, counts: Seq<(Seq<char>, nat)>) -> Seq<char> {
    "Column '"@ + name + "' has "@ + decimal(counts.len()) + " unique elements:\n"@ + count_lines(
        counts,
    )
}

/// The line that reports an error.
pub open spec fn error_line(words: Seq<char>) -> Seq<char> {
    "Error: "@ + words + "\n"@
}

/// The line that says how a command is to be given its column.
pub open spec fn usage_line(command: Seq<char>) -> Seq<char> {
    "usage: "@ + command + " <column name>\n"@
}

/// The line for a command that there is not.
pub open spec fn unknown_line(command: Seq<char>) -> Seq<char> {
    "unknown command: "@ + command + "\n"@
}

impl Column {
    /// The word for the column's type: `number` or `text`.
    pub fn label(&self) -> (r: &'static str)
        ensures
            r@ == type_label(self.numeric),
    {
        if self.numeric {
            "number"
        } else {
            "text"
        }
    }
}

/// The line that gives the number of rows.
pub fn report_rows(n: usize) -> (out: String)
    ensures
        out@ == rows_report(n as nat),
{
    let mut out = "Number of rows: ".to_owned();
    out.append(to_decimal(n).as_str());
    out.append("\n");
    out
}

/// The lines that give the columns: a heading, then for each column a line
/// with its name and its type.
pub fn report_columns(columns: &Vec<Column>) -> (out: String)
    ensures
        out@ == columns_report(columns.deep_view()),
{
    let ghost all = columns.deep_view();
    let mut out = "Columns: \n".to_owned();
    let mut i: usize = 0;
    assert(all.take(0) =~= Seq::<(Seq<char>, bool)>::empty());
    assert(out@ =~= "Columns: \n"@ + column_lines(all.take(0)));
    while i < columns.len()
        invariant
            i <= columns.len(),
            all == columns.deep_view(),
            out@ == "Columns: \n"@ + column_lines(all.take(i as int)),
        decreases columns.len() - i,
    {
        out.append("  ");
        out.append(columns[i].name.as_str());
        out.append(" (");
        out.append(columns[i].label());
        out.append(")\n");
        proof {
            let next = all.take(i as int + 1);
            assert(next.drop_last() == all.take(i as int));
            assert(next.last() == columns[i as int]@);
            assert(out@ =~= "Columns: \n"@ + column_lines(next));
        }
        i += 1;
    }
    assert(all.take(i as int) == all);
    out
}

/// The lines that give the tally of the column called `name`: a heading
/// with the number of distinct values, then for each value a line with the
/// value and its number.
pub fn report_unique(name: &str, counts: &Vec<Count>) -> (out: String)
    ensures
        out@ == unique_report(name@, counts.deep_view()),
{
    let ghost all = counts.deep_view();
    let mut out = "Column '".to_owned();
    out.append(name);
    out.append("' has ");
    out.append(to_decimal(counts.len()).as_str());
    out.append(" unique elements:\n");
    let ghost heading = out@;
    assert(heading =~= "Column '"@ + name@ + "' has "@ + decimal(all.len())
        + " unique elements:\n"@);
    let mut i: usize = 0;
    assert(all.take(0) =~= Seq::<(Seq<char>, nat)>::empty());
    assert(out@ =~= heading + count_lines(all.take(0)));
    while i < counts.len()
        invariant
            i <= counts.len(),
            all == counts.deep_view(),
            out@ == heading + count_lines(all.take(i as int)),
        decreases counts.len() - i,
    {
        out.append(counts[i].value.as_str());
        out.append(" : ");
        out.append(to_decimal(counts[i].count).as_str());
        out.append("\n");
        proof {
            let next = all.take(i as int + 1);
            assert(next.drop_last() == all.take(i as int));
            assert(next.last() == counts[i as int]@);
            assert(out@ =~= heading + count_lines(next));
        }
        i += 1;
    }
    assert(all.take(i as int) == all);
    out
}

/// The line that reports an error in the given words.
pub fn report_error(words: &str) -> (out: String)
    ensures
        out@ == error_line(words@),
{
    let mut out = "Error: ".to_owned();
    out.append(words);
    out.append("\n");
    out
}

/// The line that says how `command` is to be given its column.
pub fn report_usage(command: &str) -> (out: String)
    ensures
        out@ == usage_line(command@),
{
    let mut out = "usage: ".to_owned();
    out.append(command);
    out.append(" <column name>\n");
    out
}

/// The line that says that there is no `command`.
pub fn report_unknown(command: &str) -> (out: String)
    ensures
        out@ == unknown_line(command@),
{
    let mut out = "unknown command: ".to_owned();
    out.append(command);
    out.append("\n");
    out
}

} // verus!
