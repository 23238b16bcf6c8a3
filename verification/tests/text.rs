use csv_tool::error::TableError;
use csv_tool::text::{is_whitespace, read_records, split_fields, split_records, Records};

fn strings(items: &[&str]) -> Vec<String> {
    items.iter().map(|s| s.to_string()).collect()
}

fn by_std(text: &str) -> Vec<Vec<String>> {
    text.lines().map(|line| line.split(',').map(|s| s.trim().to_string()).collect()).collect()
}

#[test]
fn whitespace_is_what_std_calls_whitespace() {
    for code in 0u32..=0x10ffff {
        if let Some(c) = char::from_u32(code) {
            assert_eq!(is_whitespace(c), c.is_whitespace(), "code point {:#x}", code);
        }
    }
}

#[test]
fn fields_are_cut_at_commas_and_trimmed() {
    assert_eq!(split_fields("a,b,c"), strings(&["a", "b", "c"]));
    assert_eq!(split_fields("  a , b\t,\u{3000}c\u{a0} "), strings(&["a", "b", "c"]));
    assert_eq!(split_fields("one field"), strings(&["one field"]));
    assert_eq!(split_fields("a b , c  d"), strings(&["a b", "c  d"]));
}

#[test]
fn empty_fields_are_kept() {
    assert_eq!(split_fields(""), strings(&[""]));
    assert_eq!(split_fields(","), strings(&["", ""]));
    assert_eq!(split_fields("a,,b,"), strings(&["a", "", "b", ""]));
    assert_eq!(split_fields(" , "), strings(&["", ""]));
}

#[test]
fn fields_keep_characters_beyond_ascii() {
    assert_eq!(split_fields("né,日本語 ,ß"), strings(&["né", "日本語", "ß"]));
}

#[test]
fn records_follow_the_lines() {
    assert_eq!(
        split_records("a,b\n1,x\n2,y\n3,x\n"),
        vec![strings(&["a", "b"]), strings(&["1", "x"]), strings(&["2", "y"]), strings(&["3", "x"])]
    );
}

#[test]
fn last_line_needs_no_line_feed() {
    assert_eq!(split_records("a,b\n1,2"), split_records("a,b\n1,2\n"));
    assert_eq!(split_records("a,b\n1,2"), vec![strings(&["a", "b"]), strings(&["1", "2"])]);
}

#[test]
fn empty_text_has_no_record() {
    assert_eq!(split_records(""), Vec::<Vec<String>>::new());
}

#[test]
fn blank_lines_are_records_of_one_empty_field() {
    assert_eq!(split_records("\n"), vec![strings(&[""])]);
    assert_eq!(
        split_records("a\n\nb\n\n"),
        vec![strings(&["a"]), strings(&[""]), strings(&["b"]), strings(&[""])]
    );
}

#[test]
fn carriage_returns_leave_with_the_white_space() {
    assert_eq!(split_records("a,b\r\n1,2\r\n"), vec![strings(&["a", "b"]), strings(&["1", "2"])]);
    assert_eq!(split_records("a,b\r"), vec![strings(&["a", "b"])]);
}

#[test]
fn records_are_those_of_lines_split_and_trim() {
    let samples = [
        "",
        "\n",
        "\n\n",
        "a",
        "a\n",
        "a,b\n1,x\n2,y\n3,x\n",
        "a,b\r\n1,x\r\n",
        "a,b\r\n1,x\r",
        "\r\n",
        "\r",
        " a , b \n ,, \n",
        "x,\u{2003}y\u{2003},z\n\n\n1,2,3",
        ",\n,",
        "a\rb,c\n",
        "name,age\n  Ann ,  31\nBob,n/a\n",
        "é,ü\n1.5,-2e3\n",
    ];
    for text in samples {
        assert_eq!(split_records(text), by_std(text), "text {:?}", text);
    }
}

#[test]
fn header_is_the_first_record() {
    let found = read_records("name, age\nAnn,31\nBob,27\n").unwrap();
    assert_eq!(
        found,
        Records {
            header: strings(&["name", "age"]),
            rows: vec![strings(&["Ann", "31"]), strings(&["Bob", "27"])],
        }
    );
}

#[test]
fn header_alone_gives_no_rows() {
    let found = read_records("a,b").unwrap();
    assert_eq!(found.header, strings(&["a", "b"]));
    assert!(found.rows.is_empty());
}

#[test]
fn blank_first_line_is_a_header_of_one_empty_name() {
    let found = read_records("\n1\n").unwrap();
    assert_eq!(found.header, strings(&[""]));
    assert_eq!(found.rows, vec![strings(&["1"])]);
}

#[test]
fn empty_text_has_no_header() {
    assert_eq!(read_records(""), Err(TableError::EmptyInput));
}
