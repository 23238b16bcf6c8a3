//! Laying cells out as text.
//!
//! A row is shown as its cells, each followed by a comma, the last one too;
//! a listing is a header line and one line for each row. How a number and a
//! text are set apart is left to a [`Palette`]: the marks that it holds are
//! written around each cell and are otherwise not looked at.

use crate::cell::{Cell, CellModel, Style};
use crate::text::{DELIMITER, LINE_FEED};
use vstd::prelude::*;
use vstd::string::StringExecFns;

verus! {

/// The marks written around a cell: one in front of a number, one in front
/// of a text, one behind either.
#[derive(Debug, Clone, PartialEq, Eq)]
pub struct Palette {
    pub number: String,
    pub text: String,
    pub reset: String,
}

/// What a [`Palette`] holds, as a mathematical value.
pub struct PaletteModel {
    pub number: Seq<char>,
    pub text: Seq<char>,
    pub reset: Seq<char>,
}

impl PaletteModel {
    /// The mark in front of a cell of the given style.
    pub open spec fn mark(self, style: Style) -> Seq<char> {
        match style {
            Style::Number => self.number,
            Style::Text => self.text,
        }
    }
}

impl View for Palette {
    type V = PaletteModel;

    open spec fn view(&self) -> PaletteModel {
        PaletteModel { number: self.number@, text: self.text@, reset: self.reset@ }
    }
}

/// The palette without marks.
pub open spec fn plain_palette() -> PaletteModel {
    PaletteModel { number: Seq::empty(), text: Seq::empty(), reset: Seq::empty() }
}

/// The palette of a colour terminal: numbers in blue, texts in red, by the
/// escape sequences `ESC [ 3 4 m` and `ESC [ 3 1 m`, and `ESC [ 0 m` behind.
pub open spec fn ansi_palette() -> PaletteModel {
    PaletteModel {
        number: seq!['\x1b', '[', '3', '4', 'm'],
        text: seq!['\x1b', '[', '3', '1', 'm'],
        reset: seq!['\x1b', '[', '0', 'm'],
    }
}

/// A cell with its marks around it.
pub open spec fn styled(cell: CellModel, palette: PaletteModel) -> Seq<char> {
    palette.mark(cell.style()) + cell.text() + palette.reset
}

/// The cells of a row, each with its marks around it.
pub open spec fn styled_row(row: Seq<CellModel>, palette: PaletteModel) -> Seq<Seq<char>> {
    Seq::new(row.len(), |j: int| styled(row[j], palette))
}

/// The pieces one after the other, each followed by `end`.
pub open spec fn terminated(pieces: Seq<Seq<char>>, end: char) -> Seq<char>
    decreases pieces.len(),
{
    if pieces.len() == 0 {
        Seq::empty()
    } else {
        terminated(pieces.drop_last(), end) + pieces.last().push(end)
    }
}

/// One line of a listing: each piece followed by a comma, then a line feed.
pub open spec fn line(pieces: Seq<Seq<char>>) -> Seq<char> {
    terminated(pieces, DELIMITER).push(LINE_FEED)
}

/// The lines of the given rows, one after the other.
pub open spec fn block(rows: Seq<Seq<CellModel>>, palette: PaletteModel) -> Seq<char>
    decreases rows.len(),
{
    if rows.len() == 0 {
        Seq::empty()
    } else {
        block(rows.drop_last(), palette) + line(styled_row(rows.last(), palette))
    }
}

/// A header line and the lines of the given rows.
pub open spec fn listing(
    header: Seq<Seq<char>>,
    rows: Seq<Seq<CellModel>>,
    palette: PaletteModel,
) -> Seq<char> {
    line(header) + block(rows, palette)
}

/// A column on its own: its name on a line, then each cell on a line.
pub open spec fn column_listing(
    name: Seq<char>,
    cells: Seq<CellModel>,
    palette: PaletteModel,
) -> Seq<char> {
    name.push(LINE_FEED) + terminated(styled_row(cells, palette), LINE_FEED)
}

/// The lines of two runs of rows, one after the other, are the lines of the
/// rows together.
pub proof fn lemma_block_add(
    first: Seq<Seq<CellModel>>,
    second: Seq<Seq<CellModel>>,
    palette: PaletteModel,
)
    ensures
        block(first + second, palette) == block(first, palette) + block(second, palette),
    decreases second.len(),
{
    if second.len() == 0 {
        assert(first + second == first);
    } else {
        assert((first + second).drop_last() == first + second.drop_last());
        lemma_block_add(first, second.drop_last(), palette);
    }
}

impl Palette {
    /// The palette without marks: cells are shown as they are.
    pub fn plain() -> (p: Palette)
        ensures
            p@ == plain_palette(),
    {
        Palette { number: String::new(), text: String::new(), reset: String::new() }
    }

    /// The palette of a colour terminal: numbers in blue, texts in red.
    pub fn ansi() -> (p: Palette)
        ensures
            p@ == ansi_palette(),
    {
        proof {
            reveal_strlit("\x1b[34m");
            reveal_strlit("\x1b[31m");
            reveal_strlit("\x1b[0m");
        }
        let p = Palette {
            number: "\x1b[34m".to_owned(),
            text: "\x1b[31m".to_owned(),
            reset: "\x1b[0m".to_owned(),
        };
        assert(p@.number =~= ansi_palette().number);
        assert(p@.text =~= ansi_palette().text);
        assert(p@.reset =~= ansi_palette().reset);
        p
    }

    /// The mark in front of a cell of the given style.
    pub fn mark(&self, style: Style) -> (r: &str)
        ensures
            r@ == self@.mark(style),
    {
        match style {
            Style::Number => self.number.as_str(),
            Style::Text => self.text.as_str(),
        }
    }
}

/// Writes `cell` with its marks around it at the end of `out`.
pub(crate) fn push_styled(out: &mut String, cell: &Cell, palette: &Palette)
    ensures
        final(out)@ == old(out)@ + styled(cell@, palette@),
{
    out.append(palette.mark(cell.style()));
    out.append(cell.text());
    out.append(palette.reset.as_str());
    assert(out@ =~= old(out)@ + styled(cell@, palette@));
}

/// Writes the header line of `names` at the end of `out`.
pub(crate) fn push_header(out: &mut String, names: &Vec<String>)
    ensures
        final(out)@ == old(out)@ + line(names.deep_view()),
{
    let ghost pieces = names.deep_view();
    let mut j: usize = 0;
    assert(pieces.take(0) == Seq::<Seq<char>>::empty());
    assert(out@ =~= old(out)@ + terminated(pieces.take(0), DELIMITER));
    while j < names.len()
        invariant
            j <= names.len(),
            pieces == names.deep_view(),
            out@ == old(out)@ + terminated(pieces.take(j as int), DELIMITER),
        decreases names.len() - j,
    {
        let ghost before = out@;
        out.append(names[j].as_str());
        out.push(DELIMITER);
        proof {
            let next = pieces.take(j as int + 1);
            assert(next.drop_last() == pieces.take(j as int));
            assert(next.last() == names@[j as int]@);
            assert(out@ =~= old(out)@ + terminated(next, DELIMITER));
        }
        j += 1;
    }
    assert(pieces.take(j as int) == pieces);
    out.push(LINE_FEED);
    assert(out@ =~= old(out)@ + line(pieces));
}

/// Writes the line of `row` at the end of `out`.
pub(crate) fn push_row(out: &mut String, row: &Vec<Cell>, palette: &Palette)
    ensures
        final(out)@ == old(out)@ + line(styled_row(row.deep_view(), palette@)),
{
    let ghost pieces = styled_row(row.deep_view(), palette@);
    let mut j: usize = 0;
    assert(pieces.take(0) == Seq::<Seq<char>>::empty());
    assert(out@ =~= old(out)@ + terminated(pieces.take(0), DELIMITER));
    while j < row.len()
        invariant
            j <= row.len(),
            pieces == styled_row(row.deep_view(), palette@),
            out@ == old(out)@ + terminated(pieces.take(j as int), DELIMITER),
        decreases row.len() - j,
    {
        push_styled(out, &row[j], palette);
        out.push(DELIMITER);
        proof {
            let next = pieces.take(j as int + 1);
            assert(next.drop_last() == pieces.take(j as int));
            assert(next.last() == styled(row@[j as int]@, palette@));
            assert(out@ =~= old(out)@ + terminated(next, DELIMITER));
        }
        j += 1;
    }
    assert(pieces.take(j as int) == pieces);
    out.push(LINE_FEED);
    assert(out@ =~= old(out)@ + line(pieces));
}

/// The listing of the rows from `from` up to `to` under the header `names`.
pub(crate) fn render_listing(
    names: &Vec<String>,
    rows: &Vec<Vec<Cell>>,
    from: usize,
    to: usize,
    palette: &Palette,
) -> (out: String)
    requires
        from <= to <= rows.len(),
    ensures
        out@ == listing(
            names.deep_view(),
            rows.deep_view().subrange(from as int, to as int),
            palette@,
        ),
{
    let ghost cells = rows.deep_view();
    let mut out = String::new();
    push_header(&mut out, names);
    let mut i: usize = from;
    assert(cells.subrange(from as int, from as int) == Seq::<Seq<CellModel>>::empty());
    assert(out@ =~= line(names.deep_view()) + block(
        cells.subrange(from as int, i as int),
        palette@,
    ));
    while i < to
        invariant
            from <= i <= to <= rows.len(),
            cells == rows.deep_view(),
            out@ == line(names.deep_view()) + block(
                cells.subrange(from as int, i as int),
                palette@,
            ),
        decreases to - i,
    {
        push_row(&mut out, &rows[i], palette);
        proof {
            let next = cells.subrange(from as int, i as int + 1);
            assert(next.drop_last() == cells.subrange(from as int, i as int));
            assert(next.last() == rows@[i as int].deep_view());
            assert(out@ =~= line(names.deep_view()) + block(next, palette@));
        }
        i += 1;
    }
    out
}

} // verus!
