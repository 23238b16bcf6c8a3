//! What is asked of a table, and what is answered.
//!
//! A command is a word and at most one argument. The answer to a command is
//! text to write out, with the way the run is to end; for an aggregate over
//! a column it is the column's numbers, which are left to the caller to
//! fold.

use crate::cell::CellModel;
use crate::decimal::{count_of, parse_count};
use crate::error::{column_not_found, column_not_numeric, no_data, only_rows};
use crate::render::{column_listing, listing, Palette, PaletteModel};
use crate::report::{
    columns_report, error_line, report_columns, report_error, report_rows, report_unique,
    report_unknown, report_usage, rows_report, unique_report, unknown_line, usage_line,
};
use crate::table::{head_rows, numbers, tail_rows, texts, Table, TableModel};
use crate::tally::tally_of;
use vstd::prelude::*;
use vstd::string::StringExecFns;

verus! {

/// A number that sums up a numeric column.
#[derive(Debug, Clone, Copy, PartialEq, Eq, Structural)]
pub enum Aggregate {
    Avg,
    Min,
    Max,
}

/// What can be asked of a table.
#[derive(Debug, Clone, PartialEq, Eq)]
pub enum Command {
    /// The column names with their types.
    Columns,
    /// The number of data rows.
    Rows,
    /// The first rows, this many.
    Head(usize),
    /// The last rows, this many.
    Tail(usize),
    /// The whole table.
    Show,
    /// The column of this name.
    ShowColumn(String),
    /// An aggregate over the column of this name.
    Aggregate(Aggregate, String),
    /// The tally of the column of this name.
    Unique(String),
    /// This command, which needs the name of a column and was given none.
    MissingColumn(String),
    /// This word, which is no command.
    Unknown(String),
}

/// What a [`Command`] holds, as a mathematical value.
pub enum CommandModel {
    Columns,
    Rows,
    Head(usize),
    Tail(usize),
    Show,
    ShowColumn(Seq<char>),
    Aggregate(Aggregate, Seq<char>),
    Unique(Seq<char>),
    MissingColumn(Seq<char>),
    Unknown(Seq<char>),
}

impl View for Command {
    type V = CommandModel;

    open spec fn view(&self) -> CommandModel {
        match self {
            Command::Columns => CommandModel::Columns,
            Command::Rows => CommandModel::Rows,
            Command::Head(n) => CommandModel::Head(*n),
            Command::Tail(n) => CommandModel::Tail(*n),
            Command::Show => CommandModel::Show,
            Command::ShowColumn(name) => CommandModel::ShowColumn(name@),
            Command::Aggregate(kind, name) => CommandModel::Aggregate(*kind, name@),
            Command::Unique(name) => CommandModel::Unique(name@),
            Command::MissingColumn(word) => CommandModel::MissingColumn(word@),
            Command::Unknown(word) => CommandModel::Unknown(word@),
        }
    }
}

/// The count that `arg` writes, or `rows` where there is no argument or it
/// writes no count.
pub open spec fn count_or(arg: Option<Seq<char>>, rows: usize) -> usize {
    match arg {
        Some(text) => match count_of(text) {
            Some(n) => n,
            None => rows,
        },
        None => rows,
    }
}

/// The command that the word `word` with the argument `arg` stands for, on
/// a table of `rows` rows.
///
/// `columns` and `rows` take no argument. `head` and `tail` take a count, and
/// stand for all rows without one. `show` with an argument shows the column
/// of that name. `avg`, `min`, `max` and `unique` need the name of a column.
pub open spec fn command_of(word: Seq<char>, arg: Option<Seq<char>>, rows: usize) -> CommandModel {
    if word == "columns"@ {
        CommandModel::Columns
    } else if word == "rows"@ {
        CommandModel::Rows
    } else if word == "head"@ {
        CommandModel::Head(count_or(arg, rows))
    } else if word == "tail"@ {
        CommandModel::Tail(count_or(arg, rows))
    } else if word == "show"@ {
        match arg {
            Some(name) => CommandModel::ShowColumn(name),
            None => CommandModel::Show,
        }
    } else if word == "avg"@ {
        match arg {
            Some(name) => CommandModel::Aggregate(Aggregate::Avg, name),
            None => CommandModel::MissingColumn(word),
        }
    } else if word == "min"@ {
        match arg {
            Some(name) => CommandModel::Aggregate(Aggregate::Min, name),
            None => CommandModel::MissingColumn(word),
        }
    } else if word == "max"@ {
        match arg {
            Some(name) => CommandModel::Aggregate(Aggregate::Max, name),
            None => CommandModel::MissingColumn(word),
        }
    } else if word == "unique"@ {
        match arg {
            Some(name) => CommandModel::Unique(name),
            None => CommandModel::MissingColumn(word),
        }
    } else {
        CommandModel::Unknown(word)
    }
}

/// Whether two texts hold the same characters.
fn same_text(a: &str, b: &str) -> (r: bool)
    ensures
        r == (a@ == b@),
{
    a.to_owned() == b.to_owned()
}

/// The count that `arg` writes, or `rows` where there is no argument or it
/// writes no count.
fn count_from(arg: Option<&str>, rows: usize) -> (n: usize)
    ensures
        n == count_or(arg.deep_view(), rows),
{
    match arg {
        Some(text) => match parse_count(text) {
            Some(n) => n,
            None => rows,
        },
        None => rows,
    }
}

/// The command that the word `word` with the argument `arg` stands for, on
/// a table of `rows` rows.
pub fn parse_command(word: &str, arg: Option<&str>, rows: usize) -> (c: Command)
    ensures
        c@ == command_of(word@, arg.deep_view(), rows),
{
    if same_text(word, "columns") {
        Command::Columns
    } else if same_text(word, "rows") {
        Command::Rows
    } else if same_text(word, "head") {
        Command::Head(count_from(arg, rows))
    } else if same_text(word, "tail") {
        Command::Tail(count_from(arg, rows))
    } else if same_text(word, "show") {
        match arg {
            Some(name) => Command::ShowColumn(name.to_owned()),
            None => Command::Show,
        }
    } else if same_text(word, "avg") {
        match arg {
            Some(name) => Command::Aggregate(Aggregate::Avg, name.to_owned()),
            None => Command::MissingColumn(word.to_owned()),
        }
    } else if same_text(word, "min") {
        match arg {
            Some(name) => Command::Aggregate(Aggregate::Min, name.to_owned()),
            None => Command::MissingColumn(word.to_owned()),
        }
    } else if same_text(word, "max") {
        match arg {
            Some(name) => Command::Aggregate(Aggregate::Max, name.to_owned()),
            None => Command::MissingColumn(word.to_owned()),
        }
    } else if same_text(word, "unique") {
        match arg {
            Some(name) => Command::Unique(name.to_owned()),
            None => Command::MissingColumn(word.to_owned()),
        }
    } else {
        Command::Unknown(word.to_owned())
    }
}

/// The answer to a command.
#[derive(Debug, Clone, PartialEq, Eq)]
pub enum Reply {
    /// Text to write out; the run ends well.
    Output(String),
    /// The numbers of a column, as bit patterns in the order of the rows,
    /// and the aggregate to take of them.
    Numbers { kind: Aggregate, bits: Vec<u64> },
    /// Text to write out; the run ends as failed.
    Failure(String),
    /// Text to write out, then the words with which the run breaks off.
    Abort { output: String, message: String },
}

/// What a [`Reply`] holds, as a mathematical value.
pub enum ReplyModel {
    Output(Seq<char>),
    Numbers { kind: Aggregate, bits: Seq<u64> },
    Failure(Seq<char>),
    Abort { output: Seq<char>, message: Seq<char> },
}

impl View for Reply {
    type V = ReplyModel;

    open spec fn view(&self) -> ReplyModel {
        match self {
            Reply::Output(text) => ReplyModel::Output(text@),
            Reply::Numbers { kind, bits } => ReplyModel::Numbers { kind: *kind, bits: bits@ },
            Reply::Failure(text) => ReplyModel::Failure(text@),
            Reply::Abort { output, message } => ReplyModel::Abort {
                output: output@,
                message: message@,
            },
        }
    }
}

/// The answer to asking for `n` rows of which `shown` are the ones to list:
/// the listing, or a failure that says how many rows there are.
pub open spec fn rows_reply(
    table: TableModel,
    n: usize,
    shown: Seq<Seq<CellModel>>,
    palette: PaletteModel,
) -> ReplyModel {
    if n > table.rows.len() {
        ReplyModel::Failure(only_rows(table.rows.len()) + "\n"@)
    } else {
        ReplyModel::Output(listing(table.header, shown, palette))
    }
}

/// The answer of `table` to `command`.
///
/// An aggregate over a column that is not there, or not numeric, or empty,
/// is answered by an error line, and the run ends well. More rows than there
/// are end the run as failed. A listing or a tally of a column that is not
/// there, or of a table without rows, breaks the run off; of a listing the
/// column's name is written out before.
pub open spec fn reply_to(
    table: TableModel,
    command: CommandModel,
    palette: PaletteModel,
) -> ReplyModel {
    match command {
        CommandModel::Columns => ReplyModel::Output(columns_report(table.columns())),
        CommandModel::Rows => ReplyModel::Output(rows_report(table.rows.len())),
        CommandModel::Head(n) => rows_reply(table, n, head_rows(table.rows, n as int), palette),
        CommandModel::Tail(n) => rows_reply(table, n, tail_rows(table.rows, n as int), palette),
        CommandModel::Show => ReplyModel::Output(listing(table.header, table.rows, palette)),
        CommandModel::ShowColumn(name) => if !table.column_index.contains_key(name) {
            ReplyModel::Abort {
                output: name + "\n"@,
                message: column_not_found(name),
            }
        } else if table.rows.len() == 0 {
            ReplyModel::Abort { output: name + "\n"@, message: no_data() }
        } else {
            ReplyModel::Output(column_listing(name, table.named_column(name), palette))
        },
        CommandModel::Aggregate(kind, name) => if !table.column_index.contains_key(name) {
            ReplyModel::Output(error_line(column_not_found(name)))
        } else if !table.column_is_numeric[name] {
            ReplyModel::Output(error_line(column_not_numeric(name)))
        } else if table.rows.len() == 0 {
            ReplyModel::Output(error_line(no_data()))
        } else {
            ReplyModel::Numbers { kind, bits: numbers(table.named_column(name)) }
        },
        CommandModel::Unique(name) => if !table.column_index.contains_key(name) {
            ReplyModel::Abort {
                output: Seq::empty(),
                message: column_not_found(name),
            }
        } else if table.rows.len() == 0 {
            ReplyModel::Abort { output: Seq::empty(), message: no_data() }
        } else {
            ReplyModel::Output(unique_report(name, tally_of(texts(table.named_column(name)))))
        },
        CommandModel::MissingColumn(word) => ReplyModel::Output(usage_line(word)),
        CommandModel::Unknown(word) => ReplyModel::Output(unknown_line(word)),
    }
}

/// `text` and a line feed.
fn line_of(text: &str) -> (r: String)
    ensures
        r@ == text@ + "\n"@,
{
    let mut r = text.to_owned();
    r.append("\n");
    r
}

/// The answer of `table` to `command`, with cells set apart by `palette`.
pub fn run(table: &Table, command: &Command, palette: &Palette) -> (reply: Reply)
    ensures
        reply@ == reply_to(table@, command@, palette@),
{
    match command {
        Command::Columns => Reply::Output(report_columns(&table.columns())),
        Command::Rows => Reply::Output(report_rows(table.rows_count())),
        Command::Head(n) => match table.head(*n, palette) {
            Ok(out) => Reply::Output(out),
            Err(e) => Reply::Failure(line_of(e.message().as_str())),
        },
        Command::Tail(n) => match table.tail(*n, palette) {
            Ok(out) => Reply::Output(out),
            Err(e) => Reply::Failure(line_of(e.message().as_str())),
        },
        Command::Show => Reply::Output(table.show(palette)),
        Command::ShowColumn(name) => match table.show_column(name.as_str(), palette) {
            Ok(out) => Reply::Output(out),
            Err(e) => Reply::Abort { output: line_of(name.as_str()), message: e.message() },
        },
        Command::Aggregate(kind, name) => match table.numeric_column(name.as_str()) {
            Ok(bits) => Reply::Numbers { kind: *kind, bits },
            Err(e) => Reply::Output(report_error(e.message().as_str())),
        },
        Command::Unique(name) => match table.unique(name.as_str()) {
            Ok(counts) => Reply::Output(report_unique(name.as_str(), &counts)),
            Err(e) => Reply::Abort { output: String::new(), message: e.message() },
        },
        Command::MissingColumn(word) => Reply::Output(report_usage(word.as_str())),
        Command::Unknown(word) => Reply::Output(report_unknown(word.as_str())),
    }
}

} // verus!
