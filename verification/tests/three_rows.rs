use csv_tool::cell::Cell;
use csv_tool::command::{parse_command, run, Aggregate, Reply};
use csv_tool::error::{QueryError, TooManyRows};
use csv_tool::render::Palette;
use csv_tool::table::{Column, Table};
use csv_tool::tally::Count;
use csv_tool::text::read_records;

const INPUT: &str = "a,b\n1,x\n2,y\n3,x\n";

fn cell(field: &str) -> Cell {
    match field.parse::<f64>() {
        Ok(x) => Cell::Num { bits: x.to_bits(), text: x.to_string() },
        Err(_) => Cell::Str(field.to_string()),
    }
}

fn table_of(content: &str) -> Table {
    let found = read_records(content).unwrap();
    let rows = found.rows.iter().map(|row| row.iter().map(|f| cell(f)).collect()).collect();
    Table::new(found.header, rows).unwrap()
}

fn fold(kind: Aggregate, bits: &[u64]) -> String {
    let values: Vec<f64> = bits.iter().map(|b| f64::from_bits(*b)).collect();
    match kind {
        Aggregate::Avg => format!("{:.2}", values.iter().sum::<f64>() / values.len() as f64),
        Aggregate::Min => format!("{}", values.iter().copied().fold(values[0], f64::min)),
        Aggregate::Max => format!("{}", values.iter().copied().fold(values[0], f64::max)),
    }
}

fn answer(table: &Table, word: &str, arg: Option<&str>) -> Reply {
    let command = parse_command(word, arg, table.rows_count());
    run(table, &command, &Palette::plain())
}

#[test]
fn three_rows_columns_and_rows() {
    let t = table_of(INPUT);
    assert_eq!(
        t.columns(),
        vec![
            Column { name: "a".to_string(), numeric: true },
            Column { name: "b".to_string(), numeric: false },
        ]
    );
    assert_eq!(t.rows_count(), 3);
    assert_eq!(answer(&t, "rows", None), Reply::Output("Number of rows: 3\n".to_string()));
}

#[test]
fn three_rows_aggregates() {
    let t = table_of(INPUT);
    let bits = t.numeric_column("a").unwrap();
    assert_eq!(fold(Aggregate::Avg, &bits), "2.00");
    assert_eq!(fold(Aggregate::Min, &bits), "1");
    assert_eq!(fold(Aggregate::Max, &bits), "3");
    match answer(&t, "avg", Some("a")) {
        Reply::Numbers { kind, bits } => assert_eq!(fold(kind, &bits), "2.00"),
        other => panic!("no numbers: {:?}", other),
    }
}

#[test]
fn three_rows_unique() {
    let t = table_of(INPUT);
    let counts = t.unique("b").unwrap();
    assert_eq!(counts.len(), 2);
    assert!(counts.contains(&Count { value: "x".to_string(), count: 2 }));
    assert!(counts.contains(&Count { value: "y".to_string(), count: 1 }));
}

#[test]
fn three_rows_average_of_a_text_column() {
    let t = table_of(INPUT);
    let before = t.show(&Palette::plain());
    assert_eq!(t.numeric_column("b"), Err(QueryError::ColumnNotNumeric("b".to_string())));
    assert_eq!(
        answer(&t, "avg", Some("b")),
        Reply::Output("Error: Column 'b' is not numeric\n".to_string())
    );
    assert_eq!(t.show(&Palette::plain()), before);
    assert_eq!(t.rows_count(), 3);
}

#[test]
fn three_rows_head_of_more_rows_than_there_are() {
    let t = table_of(INPUT);
    assert_eq!(t.head(10, &Palette::plain()), Err(TooManyRows { available: 3 }));
    assert_eq!(
        answer(&t, "head", Some("10")),
        Reply::Failure("there are only 3 rows in the file\n".to_string())
    );
}
