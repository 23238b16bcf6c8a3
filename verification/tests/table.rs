use csv_tool::cell::{Cell, Style};
use csv_tool::error::{FatalError, QueryError, TableError, TooManyRows};
use csv_tool::render::Palette;
use csv_tool::table::{column_numbers, Column, Table};
use csv_tool::tally::{tally, Count};
use csv_tool::text::read_records;

fn strings(items: &[&str]) -> Vec<String> {
    items.iter().map(|s| s.to_string()).collect()
}

fn num(x: f64) -> Cell {
    Cell::Num { bits: x.to_bits(), text: x.to_string() }
}

fn text(s: &str) -> Cell {
    Cell::Str(s.to_string())
}

fn cell(field: &str) -> Cell {
    match field.parse::<f64>() {
        Ok(x) => num(x),
        Err(_) => text(field),
    }
}

fn table_of(content: &str) -> Table {
    let found = read_records(content).unwrap();
    let rows = found.rows.iter().map(|row| row.iter().map(|f| cell(f)).collect()).collect();
    Table::new(found.header, rows).unwrap()
}

fn column(name: &str, numeric: bool) -> Column {
    Column { name: name.to_string(), numeric }
}

fn count(value: &str, count: usize) -> Count {
    Count { value: value.to_string(), count }
}

fn values(bits: &[u64]) -> Vec<f64> {
    bits.iter().map(|b| f64::from_bits(*b)).collect()
}

#[test]
fn cell_gives_text_and_style() {
    assert_eq!(num(1.5).text(), "1.5");
    assert_eq!(num(1.5).style(), Style::Number);
    assert!(num(1.5).is_numeric());
    assert_eq!(text("x y").text(), "x y");
    assert_eq!(text("x y").style(), Style::Text);
    assert!(!text("x y").is_numeric());
}

#[test]
fn table_keeps_names_and_rows() {
    let rows = vec![vec![num(1.0), text("x")], vec![num(2.0), text("y")]];
    let t = Table::new(strings(&["a", "b"]), rows).unwrap();
    assert_eq!(t.rows_count(), 2);
    assert_eq!(t.show(&Palette::plain()), "a,b,\n1,x,\n2,y,\n");
}

#[test]
fn table_without_rows() {
    let t = Table::new(strings(&["a", "b"]), vec![]).unwrap();
    assert_eq!(t.rows_count(), 0);
    assert_eq!(t.columns(), vec![column("a", true), column("b", true)]);
    assert_eq!(t.show(&Palette::plain()), "a,b,\n");
}

#[test]
fn table_without_columns() {
    let t = Table::new(vec![], vec![vec![], vec![]]).unwrap();
    assert_eq!(t.rows_count(), 2);
    assert_eq!(t.columns(), vec![]);
    assert_eq!(t.show(&Palette::plain()), "\n\n\n");
}

#[test]
fn short_row_is_malformed() {
    let r = Table::new(strings(&["a", "b"]), vec![vec![num(1.0), num(2.0)], vec![num(3.0)]]);
    assert_eq!(r.err(), Some(TableError::MalformedRow { row: 1 }));
}

#[test]
fn long_row_is_malformed() {
    let r = Table::new(strings(&["a"]), vec![vec![num(1.0), num(2.0)], vec![num(3.0)]]);
    assert_eq!(r.err(), Some(TableError::MalformedRow { row: 0 }));
}

#[test]
fn first_malformed_row_is_reported() {
    let r = Table::new(
        strings(&["a", "b"]),
        vec![vec![num(1.0), num(2.0)], vec![], vec![num(1.0), num(2.0)], vec![num(3.0)]],
    );
    assert_eq!(r.err(), Some(TableError::MalformedRow { row: 1 }));
}

#[test]
fn blank_line_under_two_columns_is_malformed() {
    let found = read_records("a,b\n1,2\n\n3,4\n").unwrap();
    let rows = found.rows.iter().map(|row| row.iter().map(|f| cell(f)).collect()).collect();
    assert_eq!(Table::new(found.header, rows).err(), Some(TableError::MalformedRow { row: 1 }));
}

#[test]
fn column_of_numbers_is_numeric() {
    let t = table_of("a,b\n1,x\n2.5,y\n-3e2,z\n");
    assert_eq!(t.is_numeric("a"), Some(true));
    assert_eq!(t.is_numeric("b"), Some(false));
    assert_eq!(t.is_numeric("c"), None);
}

#[test]
fn one_text_makes_a_column_text_wherever_it_stands() {
    assert_eq!(table_of("a\nx\n2\n3\n").is_numeric("a"), Some(false));
    assert_eq!(table_of("a\n1\nx\n3\n").is_numeric("a"), Some(false));
    assert_eq!(table_of("a\n1\n2\nx\n").is_numeric("a"), Some(false));
    assert_eq!(table_of("a\n1\n2\n3\n").is_numeric("a"), Some(true));
    assert_eq!(table_of("a,b,c\n1,2,3\n4,,6\n").is_numeric("b"), Some(false));
}

#[test]
fn text_in_one_column_leaves_the_others_numeric() {
    let t = table_of("a,b,c\n1,x,3\n4,5,6\n");
    assert_eq!(t.columns(), vec![column("a", true), column("b", false), column("c", true)]);
}

#[test]
fn columns_come_in_header_order() {
    let t = table_of("z,y,x\n1,b,3\n");
    assert_eq!(t.columns(), vec![column("z", true), column("y", false), column("x", true)]);
    assert_eq!(column("z", true).label(), "number");
    assert_eq!(column("y", false).label(), "text");
}

#[test]
fn name_twice_stands_for_the_last_column() {
    let t = table_of("a,b,a\n1,2,3\n4,5,6\n");
    assert_eq!(t.column_index("a"), Some(2));
    assert_eq!(t.column_index("b"), Some(1));
    assert_eq!(t.column_index("c"), None);
    assert_eq!(values(&t.numeric_column("a").unwrap()), vec![3.0, 6.0]);
    assert_eq!(t.columns(), vec![column("a", true), column("b", true)]);
}

#[test]
fn name_twice_is_numeric_only_if_both_columns_are() {
    let t = table_of("a,b,a\nx,2,3\n4,5,6\n");
    assert_eq!(t.is_numeric("a"), Some(false));
    assert_eq!(t.numeric_column("a"), Err(QueryError::ColumnNotNumeric("a".to_string())));
    assert_eq!(t.columns(), vec![column("a", false), column("b", true)]);
    let u = table_of("a,b,a\n1,2,3\n4,5,y\n");
    assert_eq!(u.is_numeric("a"), Some(false));
}

#[test]
fn names_are_compared_as_they_are() {
    let t = table_of("Age, age \n1,2\n");
    assert_eq!(t.column_index("Age"), Some(0));
    assert_eq!(t.column_index("age"), Some(1));
    assert_eq!(t.column_index(" age "), None);
    assert_eq!(t.column_index(""), None);
}

#[test]
fn numbers_of_a_column_in_row_order() {
    let t = table_of("a,b\n3,x\n1,y\n2,x\n");
    assert_eq!(values(&t.numeric_column("a").unwrap()), vec![3.0, 1.0, 2.0]);
}

#[test]
fn numbers_keep_their_bit_patterns() {
    let t = Table::new(
        strings(&["a"]),
        vec![vec![num(-0.0)], vec![num(f64::INFINITY)], vec![num(0.1)]],
    )
    .unwrap();
    assert_eq!(
        t.numeric_column("a"),
        Ok(vec![(-0.0f64).to_bits(), f64::INFINITY.to_bits(), 0.1f64.to_bits()])
    );
}

#[test]
fn numbers_of_a_missing_column() {
    let t = table_of("a,b\n1,x\n");
    let e = t.numeric_column("c").unwrap_err();
    assert_eq!(e, QueryError::ColumnNotFound("c".to_string()));
    assert_eq!(e.message(), "Column 'c' not found");
}

#[test]
fn numbers_of_a_text_column() {
    let t = table_of("a,b\n1,x\n");
    let e = t.numeric_column("b").unwrap_err();
    assert_eq!(e, QueryError::ColumnNotNumeric("b".to_string()));
    assert_eq!(e.message(), "Column 'b' is not numeric");
}

#[test]
fn numbers_of_an_empty_table() {
    let t = table_of("a,b\n");
    let e = t.numeric_column("a").unwrap_err();
    assert_eq!(e, QueryError::EmptyTable);
    assert_eq!(e.message(), "no data in the file");
}

#[test]
fn missing_column_comes_before_empty_table() {
    let t = table_of("a,b\n");
    assert_eq!(t.numeric_column("c"), Err(QueryError::ColumnNotFound("c".to_string())));
}

#[test]
fn text_among_numbers_is_a_type_mismatch() {
    let rows = vec![vec![num(1.0), num(2.0)], vec![num(3.0), text("x")]];
    assert_eq!(column_numbers(&rows, 0), Ok(vec![1.0f64.to_bits(), 3.0f64.to_bits()]));
    let e = column_numbers(&rows, 1).unwrap_err();
    assert_eq!(e, QueryError::TypeMismatch);
    assert_eq!(e.message(), "expected number, found string");
}

#[test]
fn no_rows_are_an_empty_table() {
    let rows: Vec<Vec<Cell>> = vec![];
    assert_eq!(column_numbers(&rows, 0), Err(QueryError::EmptyTable));
}

#[test]
fn average_of_one_row_is_its_value() {
    for x in [0.1f64, -7.25, 1e300, 3.0] {
        let t = Table::new(strings(&["a"]), vec![vec![num(x)]]).unwrap();
        let v = values(&t.numeric_column("a").unwrap());
        let avg = v.iter().sum::<f64>() / v.len() as f64;
        assert_eq!(avg, x);
    }
}

#[test]
fn average_lies_between_minimum_and_maximum() {
    let t = table_of("a\n3.5\n-2\n10\n0.25\n7\n");
    let v = values(&t.numeric_column("a").unwrap());
    let avg = v.iter().sum::<f64>() / v.len() as f64;
    let min = v.iter().copied().fold(v[0], f64::min);
    let max = v.iter().copied().fold(v[0], f64::max);
    assert_eq!(min, -2.0);
    assert_eq!(max, 10.0);
    assert_eq!(avg, 3.75);
    assert!(min <= avg && avg <= max);
}

#[test]
fn head_lists_the_first_rows() {
    let t = table_of("a,b\n1,x\n2,y\n3,x\n");
    let p = Palette::plain();
    assert_eq!(t.head(0, &p).unwrap(), "a,b,\n");
    assert_eq!(t.head(2, &p).unwrap(), "a,b,\n1,x,\n2,y,\n");
    assert_eq!(t.head(3, &p).unwrap(), "a,b,\n1,x,\n2,y,\n3,x,\n");
}

#[test]
fn tail_lists_the_last_rows() {
    let t = table_of("a,b\n1,x\n2,y\n3,x\n");
    let p = Palette::plain();
    assert_eq!(t.tail(0, &p).unwrap(), "a,b,\n");
    assert_eq!(t.tail(1, &p).unwrap(), "a,b,\n3,x,\n");
    assert_eq!(t.tail(2, &p).unwrap(), "a,b,\n2,y,\n3,x,\n");
    assert_eq!(t.tail(3, &p).unwrap(), "a,b,\n1,x,\n2,y,\n3,x,\n");
}

#[test]
fn more_rows_than_there_are() {
    let t = table_of("a,b\n1,x\n2,y\n3,x\n");
    let p = Palette::plain();
    assert_eq!(t.head(4, &p), Err(TooManyRows { available: 3 }));
    assert_eq!(t.tail(4, &p), Err(TooManyRows { available: 3 }));
    assert_eq!(t.head(usize::MAX, &p), Err(TooManyRows { available: 3 }));
    assert_eq!(TooManyRows { available: 3 }.message(), "there are only 3 rows in the file");
    assert_eq!(TooManyRows { available: 0 }.message(), "there are only 0 rows in the file");
}

#[test]
fn head_and_tail_of_an_empty_table() {
    let t = table_of("a,b\n");
    let p = Palette::plain();
    assert_eq!(t.head(0, &p).unwrap(), "a,b,\n");
    assert_eq!(t.tail(0, &p).unwrap(), "a,b,\n");
    assert_eq!(t.head(1, &p), Err(TooManyRows { available: 0 }));
}

#[test]
fn head_and_tail_cover_every_row_once() {
    let t = table_of("a,b\n1,x\n2,y\n3,x\n4,z\n");
    let p = Palette::plain();
    let header = "a,b,\n";
    let whole = t.show(&p);
    let count = t.rows_count();
    for n in 0..=count {
        let head = t.head(n, &p).unwrap();
        let tail = t.tail(count - n, &p).unwrap();
        let joined = format!("{}{}", head, &tail[header.len()..]);
        assert_eq!(joined, whole);
    }
}

#[test]
fn show_sets_numbers_and_texts_apart() {
    let t = table_of("a,b\n1,x\n2.50,y\n");
    assert_eq!(
        t.show(&Palette::ansi()),
        "a,b,\n\x1b[34m1\x1b[0m,\x1b[31mx\x1b[0m,\n\x1b[34m2.5\x1b[0m,\x1b[31my\x1b[0m,\n"
    );
}

#[test]
fn show_writes_the_marks_of_its_palette() {
    let t = table_of("a,b\n1,x\n");
    let p = Palette { number: "<".to_string(), text: "[".to_string(), reset: "|".to_string() };
    assert_eq!(t.show(&p), "a,b,\n<1|,[x|,\n");
    assert_eq!(t.head(1, &p).unwrap(), "a,b,\n<1|,[x|,\n");
    assert_eq!(t.show_column("b", &p).unwrap(), "b\n[x|\n");
}

#[test]
fn palettes() {
    assert_eq!(
        Palette::plain(),
        Palette { number: String::new(), text: String::new(), reset: String::new() }
    );
    assert_eq!(
        Palette::ansi(),
        Palette {
            number: "\x1b[34m".to_string(),
            text: "\x1b[31m".to_string(),
            reset: "\x1b[0m".to_string(),
        }
    );
    assert_eq!(Palette::ansi().mark(Style::Number), "\x1b[34m");
    assert_eq!(Palette::ansi().mark(Style::Text), "\x1b[31m");
}

#[test]
fn show_column_lists_one_column() {
    let t = table_of("a,b\n1,x\n2,y\n3,x\n");
    assert_eq!(t.show_column("b", &Palette::plain()).unwrap(), "b\nx\ny\nx\n");
    assert_eq!(
        t.show_column("a", &Palette::ansi()).unwrap(),
        "a\n\x1b[34m1\x1b[0m\n\x1b[34m2\x1b[0m\n\x1b[34m3\x1b[0m\n"
    );
}

#[test]
fn show_column_of_a_missing_column() {
    let t = table_of("a,b\n1,x\n");
    let e = t.show_column("c", &Palette::plain()).unwrap_err();
    assert_eq!(e, FatalError::ColumnNotFound("c".to_string()));
    assert_eq!(e.message(), "Column 'c' not found");
}

#[test]
fn show_column_of_an_empty_table() {
    let t = table_of("a,b\n");
    let e = t.show_column("a", &Palette::plain()).unwrap_err();
    assert_eq!(e, FatalError::EmptyTable);
    assert_eq!(e.message(), "no data in the file");
    assert_eq!(
        t.show_column("c", &Palette::plain()),
        Err(FatalError::ColumnNotFound("c".to_string()))
    );
}

#[test]
fn unique_counts_each_text() {
    let t = table_of("a,b\n1,x\n2,y\n3,x\n");
    assert_eq!(t.unique("b").unwrap(), vec![count("x", 2), count("y", 1)]);
    assert_eq!(t.unique("a").unwrap(), vec![count("1", 1), count("2", 1), count("3", 1)]);
}

#[test]
fn unique_counts_add_up_to_the_rows() {
    let t = table_of("k\nb\na\nb\nc\na\nb\n\nc\nb\n");
    let counts = t.unique("k").unwrap();
    assert_eq!(counts, vec![count("b", 4), count("a", 2), count("c", 2), count("", 1)]);
    assert_eq!(counts.iter().map(|c| c.count).sum::<usize>(), t.rows_count());
}

#[test]
fn unique_goes_by_what_is_displayed() {
    let t = table_of("a\n1\n1.0\n+1\n1e0\n01\n2\n");
    assert_eq!(t.unique("a").unwrap(), vec![count("1", 5), count("2", 1)]);
}

#[test]
fn unique_tells_number_and_text_apart_by_text_alone() {
    let rows = vec![vec![num(1.0)], vec![text("1")], vec![text("one")]];
    let t = Table::new(strings(&["a"]), rows).unwrap();
    assert_eq!(t.unique("a").unwrap(), vec![count("1", 2), count("one", 1)]);
}

#[test]
fn unique_of_a_missing_column() {
    let t = table_of("a,b\n1,x\n");
    assert_eq!(t.unique("c"), Err(FatalError::ColumnNotFound("c".to_string())));
}

#[test]
fn unique_of_an_empty_table() {
    let t = table_of("a,b\n");
    assert_eq!(t.unique("a"), Err(FatalError::EmptyTable));
    assert_eq!(t.unique("c"), Err(FatalError::ColumnNotFound("c".to_string())));
}

#[test]
fn tally_in_order_of_first_sight() {
    let keys = vec!["b", "a", "b", "", "a", "b"];
    assert_eq!(tally(&keys), vec![count("b", 3), count("a", 2), count("", 1)]);
    assert_eq!(tally(&Vec::new()), vec![]);
}

#[test]
fn tally_of_many_keys() {
    let names: Vec<String> = (0..2000).map(|i| format!("k{}", i % 37)).collect();
    let keys: Vec<&str> = names.iter().map(|s| s.as_str()).collect();
    let counts = tally(&keys);
    assert_eq!(counts.len(), 37);
    assert_eq!(counts[0], count("k0", 55));
    assert_eq!(counts[36], count("k36", 54));
    assert_eq!(counts.iter().map(|c| c.count).sum::<usize>(), 2000);
}

#[test]
fn table_read_back_from_its_listing_has_the_same_types() {
    let t = table_of("name,age,score\nAnn,31,4.50\nBob,n/a,3\nCy,27,1e2\n");
    let shown = t.show(&Palette::plain());
    assert_eq!(shown, "name,age,score,\nAnn,31,4.5,\nBob,n/a,3,\nCy,27,100,\n");
    let back = table_of(&shown);
    assert_eq!(back.rows_count(), t.rows_count());
    for c in t.columns() {
        assert_eq!(back.is_numeric(&c.name), Some(c.numeric), "column {}", c.name);
    }
    assert_eq!(
        back.columns(),
        vec![column("name", false), column("age", false), column("score", true), column("", false)]
    );
}
