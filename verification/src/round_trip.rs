//! Reading a listing back.
//!
//! A listing without marks is delimited text again. Cut into records it
//! gives back the names and the texts of the cells, each line with one empty
//! field more, for the comma behind its last cell. So a table that is built
//! from its own listing has the types it had, as long as a cell's type
//! follows from its text.

use crate::cell::CellModel;
use crate::render::{line, listing, plain_palette, styled, styled_row, terminated};
use crate::table::{all_numeric, column_numeric, texts, TableModel};
use crate::text::{
    clean, fields, lemma_split_extend, lines, records, split, trimmed, DELIMITER, LINE_FEED,
};
use vstd::prelude::*;

verus! {

/// Pieces of which none holds `sep`, each followed by `sep`, are cut at
/// `sep` into themselves and one empty piece behind the last `sep`.
pub proof fn lemma_split_terminated(pieces: Seq<Seq<char>>, sep: char)
    requires
        forall|i: int| 0 <= i < pieces.len() ==> !(#[trigger] pieces[i]).contains(sep),
    ensures
        split(terminated(pieces, sep), sep) == pieces.push(Seq::<char>::empty()),
    decreases pieces.len(),
{
    if pieces.len() == 0 {
        assert(split(terminated(pieces, sep), sep) =~~= pieces.push(Seq::<char>::empty()));
    } else {
        let front = pieces.drop_last();
        let last = pieces.last();
        assert forall|i: int| 0 <= i < front.len() implies !(#[trigger] front[i]).contains(sep) by {
            assert(front[i] == pieces[i]);
        }
        lemma_split_terminated(front, sep);
        lemma_split_extend(terminated(front, sep), last, sep);
        let joined = terminated(front, sep) + last;
        assert(terminated(pieces, sep) =~= joined.push(sep));
        assert(joined.push(sep).drop_last() == joined);
        assert(split(joined, sep) =~~= pieces);
    }
}

/// Whether every name and every cell text comes back as one field.
pub open spec fn clean_table(header: Seq<Seq<char>>, rows: Seq<Seq<CellModel>>) -> bool {
    &&& forall|j: int| 0 <= j < header.len() ==> clean(#[trigger] header[j])
    &&& forall|r: int, j: int|
        0 <= r < rows.len() && 0 <= j < rows[r].len() ==> clean((#[trigger] rows[r][j]).text())
}

/// The content of each line of a listing without marks: the header's, then
/// each row's.
pub open spec fn shown_lines(header: Seq<Seq<char>>, rows: Seq<Seq<CellModel>>) -> Seq<Seq<char>> {
    seq![terminated(header, DELIMITER)] + Seq::new(
        rows.len(),
        |r: int| terminated(texts(rows[r]), DELIMITER),
    )
}

/// The records that a listing without marks holds: the names, then the
/// texts of each row, each line with one empty field at its end.
pub open spec fn shown_records(header: Seq<Seq<char>>, rows: Seq<Seq<CellModel>>) -> Seq<
    Seq<Seq<char>>,
> {
    seq![header.push(Seq::<char>::empty())] + Seq::new(
        rows.len(),
        |r: int| texts(rows[r]).push(Seq::<char>::empty()),
    )
}

/// Without marks a row is shown as the texts of its cells.
pub proof fn lemma_plain_row(row: Seq<CellModel>)
    ensures
        styled_row(row, plain_palette()) == texts(row),
{
    assert forall|j: int| 0 <= j < row.len() implies styled(row[j], plain_palette())
        == row[j].text() by {
        assert(styled(row[j], plain_palette()) =~= row[j].text());
    }
    assert(styled_row(row, plain_palette()) =~= texts(row));
}

/// A listing without marks is its lines' contents, each followed by a line
/// feed.
pub proof fn lemma_listing_lines(header: Seq<Seq<char>>, rows: Seq<Seq<CellModel>>)
    ensures
        listing(header, rows, plain_palette()) == terminated(shown_lines(header, rows), LINE_FEED),
    decreases rows.len(),
{
    let palette = plain_palette();
    let first = seq![terminated(header, DELIMITER)];
    assert(first.drop_last() =~= Seq::<Seq<char>>::empty());
    assert(terminated(first.drop_last(), LINE_FEED) =~= Seq::<char>::empty());
    assert(first.last() == terminated(header, DELIMITER));
    assert(terminated(first, LINE_FEED) =~= line(header));
    if rows.len() == 0 {
        assert(shown_lines(header, rows) =~= first);
        assert(listing(header, rows, palette) =~= line(header));
    } else {
        let front = rows.drop_last();
        lemma_listing_lines(header, front);
        lemma_plain_row(rows.last());
        let content = terminated(texts(rows.last()), DELIMITER);
        assert(shown_lines(header, rows) =~= shown_lines(header, front).push(content));
        assert(shown_lines(header, rows).drop_last() =~= shown_lines(header, front));
        assert(listing(header, rows, palette) =~= listing(header, front, palette) + line(
            styled_row(rows.last(), palette),
        ));
    }
}

/// Fields that come back as they are, each followed by a comma, are read as
/// themselves and one empty field.
pub proof fn lemma_fields_terminated(pieces: Seq<Seq<char>>)
    requires
        forall|j: int| 0 <= j < pieces.len() ==> clean(#[trigger] pieces[j]),
    ensures
        fields(terminated(pieces, DELIMITER)) == pieces.push(Seq::<char>::empty()),
        !terminated(pieces, DELIMITER).contains(LINE_FEED),
{
    lemma_split_terminated(pieces, DELIMITER);
    let raw = pieces.push(Seq::<char>::empty());
    assert(trimmed(Seq::<char>::empty()) == Seq::<char>::empty());
    assert forall|j: int| 0 <= j < raw.len() implies trimmed(#[trigger] raw[j]) == raw[j] by {
        if j < pieces.len() {
            assert(clean(pieces[j]));
        }
    }
    assert(fields(terminated(pieces, DELIMITER)) =~= raw);
    lemma_terminated_free(pieces, DELIMITER, LINE_FEED);
}

/// Pieces that hold no `c`, each followed by another character, hold no `c`
/// together.
pub proof fn lemma_terminated_free(pieces: Seq<Seq<char>>, end: char, c: char)
    requires
        end != c,
        forall|j: int| 0 <= j < pieces.len() ==> !(#[trigger] pieces[j]).contains(c),
    ensures
        !terminated(pieces, end).contains(c),
    decreases pieces.len(),
{
    if pieces.len() > 0 {
        let front = pieces.drop_last();
        assert forall|j: int| 0 <= j < front.len() implies !(#[trigger] front[j]).contains(c) by {
            assert(front[j] == pieces[j]);
        }
        lemma_terminated_free(front, end, c);
        let whole = terminated(pieces, end);
        let head = terminated(front, end);
        if whole.contains(c) {
            let i = choose|i: int| 0 <= i < whole.len() && whole[i] == c;
            if i < head.len() {
                assert(head[i] == c);
            } else {
                assert(pieces.last().push(end)[i - head.len()] == c);
                if i - head.len() < pieces.last().len() {
                    assert(pieces.last()[i - head.len()] == c);
                }
            }
        }
    }
}

/// The records of a listing without marks are the names and the texts of
/// the cells, each line with one empty field at its end, as long as every
/// name and every text comes back as one field.
pub proof fn lemma_records_of_listing(header: Seq<Seq<char>>, rows: Seq<Seq<CellModel>>)
    requires
        clean_table(header, rows),
    ensures
        records(listing(header, rows, plain_palette())) == shown_records(header, rows),
{
    let contents = shown_lines(header, rows);
    lemma_listing_lines(header, rows);
    lemma_fields_terminated(header);
    assert forall|i: int| 0 <= i < contents.len() implies !(#[trigger] contents[i]).contains(
        LINE_FEED,
    ) && fields(contents[i]) == shown_records(header, rows)[i] by {
        if i > 0 {
            let row = rows[i - 1];
            assert forall|j: int| 0 <= j < texts(row).len() implies clean(
                #[trigger] texts(row)[j],
            ) by {
                assert(clean(rows[i - 1][j].text()));
            }
            lemma_fields_terminated(texts(row));
        }
    }
    lemma_split_terminated(contents, LINE_FEED);
    assert(split(terminated(contents, LINE_FEED), LINE_FEED).drop_last() =~= contents);
    assert(lines(terminated(contents, LINE_FEED)) == contents);
    assert(records(listing(header, rows, plain_palette())) =~= shown_records(header, rows));
}

/// Whether the type of every cell follows from its text by `is_number`.
pub open spec fn typed_by(
    rows: Seq<Seq<CellModel>>,
    is_number: spec_fn(Seq<char>) -> bool,
) -> bool {
    forall|r: int, j: int|
        0 <= r < rows.len() && 0 <= j < rows[r].len() ==> ((#[trigger] rows[r][j]) is Num)
            == is_number(rows[r][j].text())
}

/// The texts of the cells of every row.
pub open spec fn row_texts(rows: Seq<Seq<CellModel>>) -> Seq<Seq<Seq<char>>> {
    Seq::new(rows.len(), |r: int| texts(rows[r]))
}

/// A table built from its own listing has the column types it had.
///
/// Let `back` be a table whose header and cell texts are the records of the
/// listing of `table` without marks. Let the type of a cell follow from its
/// text alone, by whatever rule `is_number`, in both tables. Then every
/// column name of `table` is numeric in `back` exactly when it is in
/// `table`. This holds where every name and every cell text of `table`
/// comes back as one field, and where no column of `table` has the empty
/// name: that is the name of the column that the comma behind the last cell
/// of each line adds.
pub proof fn lemma_round_trip(
    table: TableModel,
    back: TableModel,
    is_number: spec_fn(Seq<char>) -> bool,
)
    requires
        table.well_formed(),
        table.inferred(),
        back.well_formed(),
        back.inferred(),
        clean_table(table.header, table.rows),
        !table.header.contains(Seq::<char>::empty()),
        typed_by(table.rows, is_number),
        typed_by(back.rows, is_number),
        seq![back.header] + row_texts(back.rows) == records(
            listing(table.header, table.rows, plain_palette()),
        ),
    ensures
        forall|name: Seq<char>| #[trigger]
            table.header.contains(name) ==> back.column_is_numeric.contains_key(name)
                && back.column_is_numeric[name] == table.column_is_numeric[name],
{
    lemma_records_of_listing(table.header, table.rows);
    let shown = shown_records(table.header, table.rows);
    let read = seq![back.header] + row_texts(back.rows);
    let width = table.header.len() as int;
    let extra = Seq::<char>::empty();
    assert(read[0] == back.header);
    assert(shown[0] == table.header.push(extra));
    assert(back.header == table.header.push(extra));
    assert(back.rows.len() == table.rows.len()) by {
        assert(read.len() == shown.len());
    }
    assert forall|r: int, j: int|
        0 <= r < table.rows.len() && 0 <= j < width implies (back.rows[r][j] is Num) == (
    table.rows[r][j] is Num) by {
        assert(read[r + 1] == texts(back.rows[r]));
        assert(shown[r + 1] == texts(table.rows[r]).push(extra));
        assert(table.rows[r].len() == width);
        assert(back.rows[r].len() == width + 1);
        assert(texts(back.rows[r])[j] == back.rows[r][j].text());
        assert(texts(table.rows[r]).push(extra)[j] == table.rows[r][j].text());
    }
    assert forall|name: Seq<char>| #[trigger]
        table.header.contains(name) implies back.column_is_numeric.contains_key(name)
        && back.column_is_numeric[name] == table.column_is_numeric[name] by {
        let k = choose|k: int| 0 <= k < table.header.len() && table.header[k] == name;
        assert(back.header[k] == name);
        assert(back.header.contains(name));
        assert(table.column_is_numeric.contains_key(name));
        assert(back.column_is_numeric.contains_key(name));
        assert(name != extra);
        if all_numeric(table.header, table.rows, name) {
            assert forall|j: int| 0 <= j < back.header.len() && #[trigger] back.header[j]
                == name implies column_numeric(back.rows, j) by {
                assert(j < width);
                assert(table.header[j] == name);
                assert(column_numeric(table.rows, j));
                assert forall|r: int| 0 <= r < back.rows.len() implies (
                #[trigger] back.rows[r])[j] is Num by {
                    assert(table.rows[r][j] is Num);
                }
            }
        }
        if all_numeric(back.header, back.rows, name) {
            assert forall|j: int| 0 <= j < table.header.len() && #[trigger] table.header[j]
                == name implies column_numeric(table.rows, j) by {
                assert(back.header[j] == name);
                assert(column_numeric(back.rows, j));
                assert forall|r: int| 0 <= r < table.rows.len() implies (
                #[trigger] table.rows[r])[j] is Num by {
                    assert(back.rows[r][j] is Num);
                }
            }
        }
    }
}

} // verus!
