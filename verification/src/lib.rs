//! Tables read from delimited text, and the questions they answer.
//!
//! A table has a header of column names and rows of cells; a cell is a
//! number or a text, and a column is numeric when all its cells are numbers.
//! [`text`] cuts a text into the fields of its lines. [`table`] builds the
//! table from names and cells and answers for it: its columns and their
//! types, its rows listed from the top or the bottom, one column on its own,
//! the numbers of a numeric column, and how often each value of a column
//! occurs. [`command`] reads a command word and gives the table's answer as
//! the text to write out.
//!
//! What number a field writes, and how a number is displayed, is not decided
//! here: a cell is handed in with its type, a number as the bit pattern of
//! its value and the text that displays it, and the numbers of a column are
//! handed out in the same form.

pub mod cell;
pub mod command;
pub mod decimal;
pub mod error;
pub mod render;
pub mod report;
pub mod round_trip;
pub mod table;
pub mod tally;
pub mod text;
