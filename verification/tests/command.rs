use csv_tool::cell::Cell;
use csv_tool::command::{parse_command, run, Aggregate, Command, Reply};
use csv_tool::render::Palette;
use csv_tool::report::{
    report_columns, report_error, report_rows, report_unique, report_unknown, report_usage,
};
use csv_tool::table::{Column, Table};
use csv_tool::tally::Count;
use csv_tool::text::read_records;

fn cell(field: &str) -> Cell {
    match field.parse::<f64>() {
        Ok(x) => Cell::Num { bits: x.to_bits(), text: x.to_string() },
        Err(_) => Cell::Str(field.to_string()),
    }
}

fn table_of(content: &str) -> Table {
    let found = read_records(content).unwrap();
    let rows = found.rows.iter().map(|row| row.iter().map(|f| cell(f)).collect()).collect();
    Table::new(found.header, rows).unwrap()
}

fn sample() -> Table {
    table_of("a,b\n1,x\n2,y\n3,x\n")
}

fn output(text: &str) -> Reply {
    Reply::Output(text.to_string())
}

#[test]
fn commands_without_argument() {
    assert_eq!(parse_command("columns", None, 3), Command::Columns);
    assert_eq!(parse_command("rows", None, 3), Command::Rows);
    assert_eq!(parse_command("show", None, 3), Command::Show);
    assert_eq!(parse_command("columns", Some("x"), 3), Command::Columns);
    assert_eq!(parse_command("rows", Some("x"), 3), Command::Rows);
}

#[test]
fn head_and_tail_take_a_count() {
    assert_eq!(parse_command("head", Some("2"), 3), Command::Head(2));
    assert_eq!(parse_command("tail", Some("2"), 3), Command::Tail(2));
    assert_eq!(parse_command("head", Some("0"), 3), Command::Head(0));
    assert_eq!(parse_command("head", Some("10"), 3), Command::Head(10));
    assert_eq!(parse_command("tail", Some("+1"), 3), Command::Tail(1));
}

#[test]
fn head_and_tail_stand_for_all_rows_without_a_count() {
    assert_eq!(parse_command("head", None, 3), Command::Head(3));
    assert_eq!(parse_command("tail", None, 3), Command::Tail(3));
    assert_eq!(parse_command("head", Some("many"), 3), Command::Head(3));
    assert_eq!(parse_command("tail", Some("-1"), 3), Command::Tail(3));
    assert_eq!(parse_command("head", Some(""), 0), Command::Head(0));
    assert_eq!(parse_command("head", Some("1.5"), 7), Command::Head(7));
    assert_eq!(parse_command("head", Some("99999999999999999999999"), 7), Command::Head(7));
}

#[test]
fn show_with_a_name_shows_a_column() {
    assert_eq!(parse_command("show", Some("b"), 3), Command::ShowColumn("b".to_string()));
}

#[test]
fn aggregates_and_unique_take_a_column() {
    assert_eq!(
        parse_command("avg", Some("a"), 3),
        Command::Aggregate(Aggregate::Avg, "a".to_string())
    );
    assert_eq!(
        parse_command("min", Some("a"), 3),
        Command::Aggregate(Aggregate::Min, "a".to_string())
    );
    assert_eq!(
        parse_command("max", Some("a"), 3),
        Command::Aggregate(Aggregate::Max, "a".to_string())
    );
    assert_eq!(parse_command("unique", Some("b"), 3), Command::Unique("b".to_string()));
}

#[test]
fn aggregates_and_unique_need_a_column() {
    for word in ["avg", "min", "max", "unique"] {
        assert_eq!(parse_command(word, None, 3), Command::MissingColumn(word.to_string()));
    }
}

#[test]
fn other_words_are_no_commands() {
    for word in ["", "help", "Columns", "rows ", "sum", "héad"] {
        assert_eq!(parse_command(word, None, 3), Command::Unknown(word.to_string()));
        assert_eq!(parse_command(word, Some("a"), 3), Command::Unknown(word.to_string()));
    }
}

#[test]
fn reports() {
    assert_eq!(report_rows(3), "Number of rows: 3\n");
    assert_eq!(report_rows(0), "Number of rows: 0\n");
    assert_eq!(report_rows(1234567), "Number of rows: 1234567\n");
    assert_eq!(report_error("no data in the file"), "Error: no data in the file\n");
    assert_eq!(report_usage("avg"), "usage: avg <column name>\n");
    assert_eq!(report_unknown("sum"), "unknown command: sum\n");
    assert_eq!(report_columns(&vec![]), "Columns: \n");
    assert_eq!(
        report_columns(&vec![
            Column { name: "a".to_string(), numeric: true },
            Column { name: "b c".to_string(), numeric: false },
        ]),
        "Columns: \n  a (number)\n  b c (text)\n"
    );
    assert_eq!(report_unique("b", &vec![]), "Column 'b' has 0 unique elements:\n");
    assert_eq!(
        report_unique(
            "b",
            &vec![
                Count { value: "x".to_string(), count: 12 },
                Count { value: "".to_string(), count: 1 },
            ]
        ),
        "Column 'b' has 2 unique elements:\nx : 12\n : 1\n"
    );
}

#[test]
fn run_columns_and_rows() {
    let t = sample();
    let p = Palette::plain();
    assert_eq!(run(&t, &Command::Columns, &p), output("Columns: \n  a (number)\n  b (text)\n"));
    assert_eq!(run(&t, &Command::Rows, &p), output("Number of rows: 3\n"));
}

#[test]
fn run_listings() {
    let t = sample();
    let p = Palette::plain();
    assert_eq!(run(&t, &Command::Show, &p), output("a,b,\n1,x,\n2,y,\n3,x,\n"));
    assert_eq!(run(&t, &Command::Head(1), &p), output("a,b,\n1,x,\n"));
    assert_eq!(run(&t, &Command::Tail(1), &p), output("a,b,\n3,x,\n"));
    assert_eq!(run(&t, &Command::Tail(0), &p), output("a,b,\n"));
    assert_eq!(run(&t, &Command::ShowColumn("b".to_string()), &p), output("b\nx\ny\nx\n"));
    assert_eq!(
        run(&t, &Command::Head(1), &Palette::ansi()),
        output("a,b,\n\x1b[34m1\x1b[0m,\x1b[31mx\x1b[0m,\n")
    );
}

#[test]
fn run_with_too_many_rows_fails() {
    let t = sample();
    let p = Palette::plain();
    let failure = Reply::Failure("there are only 3 rows in the file\n".to_string());
    assert_eq!(run(&t, &Command::Head(4), &p), failure);
    assert_eq!(run(&t, &Command::Tail(10), &p), failure);
}

#[test]
fn run_aggregate_hands_out_the_numbers() {
    let t = sample();
    let p = Palette::plain();
    for kind in [Aggregate::Avg, Aggregate::Min, Aggregate::Max] {
        assert_eq!(
            run(&t, &Command::Aggregate(kind, "a".to_string()), &p),
            Reply::Numbers {
                kind,
                bits: vec![1.0f64.to_bits(), 2.0f64.to_bits(), 3.0f64.to_bits()],
            }
        );
    }
}

#[test]
fn run_aggregate_reports_errors_and_goes_on() {
    let t = sample();
    let p = Palette::plain();
    assert_eq!(
        run(&t, &Command::Aggregate(Aggregate::Avg, "b".to_string()), &p),
        output("Error: Column 'b' is not numeric\n")
    );
    assert_eq!(
        run(&t, &Command::Aggregate(Aggregate::Min, "c".to_string()), &p),
        output("Error: Column 'c' not found\n")
    );
    assert_eq!(
        run(&table_of("a,b\n"), &Command::Aggregate(Aggregate::Max, "a".to_string()), &p),
        output("Error: no data in the file\n")
    );
}

#[test]
fn run_unique() {
    let t = sample();
    let p = Palette::plain();
    assert_eq!(
        run(&t, &Command::Unique("b".to_string()), &p),
        output("Column 'b' has 2 unique elements:\nx : 2\ny : 1\n")
    );
}

#[test]
fn run_breaks_off_on_a_missing_column() {
    let t = sample();
    let p = Palette::plain();
    assert_eq!(
        run(&t, &Command::ShowColumn("c".to_string()), &p),
        Reply::Abort { output: "c\n".to_string(), message: "Column 'c' not found".to_string() }
    );
    assert_eq!(
        run(&t, &Command::Unique("c".to_string()), &p),
        Reply::Abort { output: String::new(), message: "Column 'c' not found".to_string() }
    );
}

#[test]
fn run_breaks_off_on_an_empty_table() {
    let t = table_of("a,b\n");
    let p = Palette::plain();
    assert_eq!(
        run(&t, &Command::ShowColumn("a".to_string()), &p),
        Reply::Abort { output: "a\n".to_string(), message: "no data in the file".to_string() }
    );
    assert_eq!(
        run(&t, &Command::Unique("a".to_string()), &p),
        Reply::Abort { output: String::new(), message: "no data in the file".to_string() }
    );
}

#[test]
fn run_usage_and_unknown() {
    let t = sample();
    let p = Palette::plain();
    assert_eq!(
        run(&t, &Command::MissingColumn("avg".to_string()), &p),
        output("usage: avg <column name>\n")
    );
    assert_eq!(run(&t, &Command::Unknown("sum".to_string()), &p), output("unknown command: sum\n"));
}
