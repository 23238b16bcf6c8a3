//! The table: named columns over rows of typed cells.

use crate::cell::{Cell, CellModel};
use crate::error::{FatalError, QueryError, TableError, TooManyRows};
use crate::render::{
    block, column_listing, lemma_block_add, listing, push_styled, render_listing, styled_row,
    terminated, Palette, PaletteModel,
};
use crate::tally::{distinct, lemma_distinct_contains, tally, tally_of, total, Count};
use crate::text::LINE_FEED;
use vstd::prelude::*;

verus! {

/// The position of the last `name` in `names`, or -1 where there is none.
pub open spec fn last_index(names: Seq<Seq<char>>, name: Seq<char>) -> int
    decreases names.len(),
{
    if names.len() == 0 {
        -1
    } else if names.last() == name {
        names.len() - 1
    } else {
        last_index(names.drop_last(), name)
    }
}

/// Whether every row is `width` cells long.
pub open spec fn rectangular(rows: Seq<Seq<CellModel>>, width: int) -> bool {
    forall|r: int| 0 <= r < rows.len() ==> (#[trigger] rows[r]).len() == width
}

/// Whether every cell at position `j` is a number.
pub open spec fn column_numeric(rows: Seq<Seq<CellModel>>, j: int) -> bool {
    forall|r: int| 0 <= r < rows.len() ==> (#[trigger] rows[r])[j] is Num
}

/// Whether every cell under a header called `name` is a number.
pub open spec fn all_numeric(
    header: Seq<Seq<char>>,
    rows: Seq<Seq<CellModel>>,
    name: Seq<char>,
) -> bool {
    forall|j: int| 0 <= j < header.len() && #[trigger] header[j] == name ==> column_numeric(rows, j)
}

/// The bit patterns of the numbers in `cells`, one for one. Of a text it
/// says nothing.
pub open spec fn numbers(cells: Seq<CellModel>) -> Seq<u64> {
    Seq::new(cells.len(), |r: int| cells[r]->bits)
}

/// The cells at position `j` of `rows`, row by row.
pub open spec fn column_of(rows: Seq<Seq<CellModel>>, j: int) -> Seq<CellModel> {
    Seq::new(rows.len(), |r: int| rows[r][j])
}

/// The texts that display `cells`, one for one.
pub open spec fn texts(cells: Seq<CellModel>) -> Seq<Seq<char>> {
    Seq::new(cells.len(), |r: int| cells[r].text())
}

/// The first `n` of `rows`.
pub open spec fn head_rows(rows: Seq<Seq<CellModel>>, n: int) -> Seq<Seq<CellModel>> {
    rows.take(n)
}

/// The last `n` of `rows`.
pub open spec fn tail_rows(rows: Seq<Seq<CellModel>>, n: int) -> Seq<Seq<CellModel>> {
    rows.skip(rows.len() - n)
}

/// A column name with its inferred type.
#[derive(Debug, Clone, PartialEq, Eq)]
pub struct Column {
    pub name: String,
    pub numeric: bool,
}

impl View for Column {
    type V = (Seq<char>, bool);

    open spec fn view(&self) -> (Seq<char>, bool) {
        (self.name@, self.numeric)
    }
}

impl DeepView for Column {
    type V = (Seq<char>, bool);

    open spec fn deep_view(&self) -> (Seq<char>, bool) {
        self@
    }
}

/// A table as a mathematical value.
pub struct TableModel {
    /// The column names, in the order of the header line.
    pub header: Seq<Seq<char>>,
    /// The data rows, in the order of the input.
    pub rows: Seq<Seq<CellModel>>,
    /// For each column name the position it stands for.
    pub column_index: Map<Seq<char>, int>,
    /// For each column name whether its cells are all numbers.
    pub column_is_numeric: Map<Seq<char>, bool>,
}

impl TableModel {
    /// The structure that every table has: rows as long as the header, and
    /// both mappings over exactly the header's names, a name standing for
    /// the last column that carries it.
    pub open spec fn well_formed(self) -> bool {
        &&& rectangular(self.rows, self.header.len() as int)
        &&& forall|name: Seq<char>| #[trigger]
            self.column_index.contains_key(name) <==> self.header.contains(name)
        &&& forall|name: Seq<char>| #[trigger]
            self.column_is_numeric.contains_key(name) <==> self.header.contains(name)
        &&& forall|name: Seq<char>| #[trigger]
            self.column_index.contains_key(name) ==> self.column_index[name] == last_index(
                self.header,
                name,
            )
    }

    /// Whether each flag says what the cells are: a name is numeric exactly
    /// when every cell under every header of that name is a number.
    pub open spec fn inferred(self) -> bool {
        forall|name: Seq<char>| #[trigger]
            self.column_is_numeric.contains_key(name) ==> self.column_is_numeric[name]
                == all_numeric(self.header, self.rows, name)
    }

    /// The column names with their types: each name once, where the header
    /// has it first, with its flag.
    pub open spec fn columns(self) -> Seq<(Seq<char>, bool)> {
        let names = distinct(self.header);
        Seq::new(names.len(), |i: int| (names[i], self.column_is_numeric[names[i]]))
    }

    /// The cells of the column that `name` stands for, row by row.
    pub open spec fn named_column(self, name: Seq<char>) -> Seq<CellModel> {
        column_of(self.rows, self.column_index[name])
    }
}

/// A table: a header of column names over rows of cells.
#[derive(Debug)]
pub struct Table {
    header: Vec<String>,
    numeric: Vec<bool>,
    rows: Vec<Vec<Cell>>,
}

impl View for Table {
    type V = TableModel;

    closed spec fn view(&self) -> TableModel {
        let header = self.header.deep_view();
        TableModel {
            header,
            rows: self.rows.deep_view(),
            column_index: Map::new(
                |name: Seq<char>| header.contains(name),
                |name: Seq<char>| last_index(header, name),
            ),
            column_is_numeric: Map::new(
                |name: Seq<char>| header.contains(name),
                |name: Seq<char>| self.numeric@[last_index(header, name)],
            ),
        }
    }
}

/// The last `name` in `names` is a `name`, and none follows it; there is
/// one exactly when `names` holds `name`.
pub proof fn lemma_last_index(names: Seq<Seq<char>>, name: Seq<char>)
    ensures
        names.contains(name) ==> 0 <= last_index(names, name) < names.len()
            && names[last_index(names, name)] == name,
        !names.contains(name) ==> last_index(names, name) == -1,
        forall|k: int| last_index(names, name) < k < names.len() ==> names[k] != name,
    decreases names.len(),
{
    if names.len() > 0 {
        let front = names.drop_last();
        lemma_last_index(front, name);
        if names.last() != name {
            if names.contains(name) {
                let k = choose|k: int| 0 <= k < names.len() && names[k] == name;
                assert(front[k] == name);
            }
            if front.contains(name) {
                let k = choose|k: int| 0 <= k < front.len() && front[k] == name;
                assert(names[k] == name);
            }
            assert forall|k: int| last_index(names, name) < k < names.len() implies names[k]
                != name by {
                if k < front.len() {
                    assert(front[k] == names[k]);
                }
            }
        }
    }
}

/// The last `name` in `names` stands where none follows it.
pub proof fn lemma_last_index_is(names: Seq<Seq<char>>, name: Seq<char>, j: int)
    requires
        0 <= j < names.len(),
        names[j] == name,
        forall|k: int| j < k < names.len() ==> names[k] != name,
    ensures
        names.contains(name),
        last_index(names, name) == j,
{
    lemma_last_index(names, name);
}

impl Table {
    #[verifier::type_invariant]
    spec fn valid(&self) -> bool {
        &&& self.numeric.len() == self.header.len()
        &&& self@.well_formed()
        &&& self@.inferred()
        &&& forall|j: int|
            0 <= j < self.header.len() ==> #[trigger] self.numeric[j] == all_numeric(
                self.header.deep_view(),
                self.rows.deep_view(),
                self.header[j]@,
            )
    }

    /// A table of the given column names over the given rows.
    ///
    /// Every row must have one cell for each name; the first row that has
    /// not is reported. The table keeps names and rows as they are given. A
    /// name is numeric exactly when every cell under every header of that
    /// name is a number, wherever the other cells stand; a name that occurs
    /// twice stands for the last column that carries it.
    pub fn new(header: Vec<String>, rows: Vec<Vec<Cell>>) -> (r: Result<Table, TableError>)
        ensures
            match r {
                Ok(t) => {
                    &&& rectangular(rows.deep_view(), header.len() as int)
                    &&& t@.header == header.deep_view()
                    &&& t@.rows == rows.deep_view()
                    &&& t@.well_formed()
                    &&& t@.inferred()
                },
                Err(TableError::MalformedRow { row }) => {
                    &&& row < rows.len()
                    &&& rows[row as int].len() != header.len()
                    &&& rectangular(rows.deep_view().take(row as int), header.len() as int)
                },
                Err(TableError::EmptyInput) => false,
            },
    {
        match first_ragged(&rows, header.len()) {
            Some(row) => Err(TableError::MalformedRow { row }),
            None => {
                let flags = numeric_positions(&rows, header.len());
                let numeric = shared_flags(&header, &flags);
                proof {
                    let names = header.deep_view();
                    let cells = rows.deep_view();
                    lemma_shared_flags(names, cells, flags@, numeric@);
                    assert forall|name: Seq<char>| names.contains(name) implies numeric@[last_index(
                        names,
                        name,
                    )] == all_numeric(names, cells, name) by {
                        lemma_last_index(names, name);
                    }
                    assert forall|j: int| 0 <= j < header.len() implies #[trigger] numeric@[j]
                        == all_numeric(names, cells, header@[j]@) by {
                        assert(names[j] == header@[j]@);
                    }
                }
                Ok(Table { header, numeric, rows })
            },
        }
    }
}

impl Table {
    /// The number of data rows; the header is none of them.
    pub fn rows_count(&self) -> (n: usize)
        ensures
            n == self@.rows.len(),
    {
        self.rows.len()
    }

    /// The position that `name` stands for: that of the last column of this
    /// name, if there is one.
    pub fn column_index(&self, name: &str) -> (r: Option<usize>)
        ensures
            self@.well_formed(),
            match r {
                Some(j) => {
                    &&& self@.column_index.contains_key(name@)
                    &&& self@.column_index[name@] == j
                    &&& j < self@.header.len()
                    &&& self@.header[j as int] == name@
                },
                None => !self@.column_index.contains_key(name@),
            },
    {
        proof {
            use_type_invariant(self);
            lemma_last_index(self@.header, name@);
        }
        let wanted = name.to_owned();
        let mut j: usize = self.header.len();
        while j > 0
            invariant
                j <= self.header.len(),
                wanted@ == name@,
                self@.well_formed(),
                forall|k: int| j <= k < self.header.len() ==> (#[trigger] self.header[k])@ != name@,
            decreases j,
        {
            j -= 1;
            if self.header[j] == wanted {
                proof {
                    let names = self.header.deep_view();
                    assert(names[j as int] == name@);
                    assert forall|k: int| j < k < names.len() implies names[k] != name@ by {
                        assert(names[k] == self.header[k]@);
                    }
                    lemma_last_index_is(names, name@, j as int);
                }
                return Some(j);
            }
        }
        proof {
            let names = self.header.deep_view();
            if names.contains(name@) {
                let k = choose|k: int| 0 <= k < names.len() && names[k] == name@;
                assert(self.header[k]@ == name@);
            }
        }
        None
    }

    /// Whether the column called `name` is numeric, if there is one: whether
    /// every cell under every header of this name is a number.
    pub fn is_numeric(&self, name: &str) -> (r: Option<bool>)
        ensures
            self@.well_formed(),
            self@.inferred(),
            match r {
                Some(flag) => {
                    &&& self@.column_is_numeric.contains_key(name@)
                    &&& self@.column_is_numeric[name@] == flag
                },
                None => !self@.column_is_numeric.contains_key(name@),
            },
    {
        proof {
            use_type_invariant(self);
        }
        match self.column_index(name) {
            Some(j) => Some(self.numeric[j]),
            None => None,
        }
    }

    /// The numbers of the column called `name`, row by row, as bit patterns.
    ///
    /// The answer is `ColumnNotFound` where no column has this name; else
    /// `ColumnNotNumeric` where the column is not numeric; else `EmptyTable`
    /// where there is no data row. A table's flags say what its cells are,
    /// so a numeric column holds numbers only and `TypeMismatch` never comes
    /// from here; the test for it is made all the same, in
    /// [`column_numbers`].
    pub fn numeric_column(&self, name: &str) -> (r: Result<Vec<u64>, QueryError>)
        ensures
            self@.well_formed(),
            self@.inferred(),
            match r {
                Ok(v) => {
                    &&& self@.column_index.contains_key(name@)
                    &&& self@.column_is_numeric[name@]
                    &&& self@.rows.len() > 0
                    &&& column_numeric(self@.rows, self@.column_index[name@])
                    &&& v@ == numbers(self@.named_column(name@))
                },
                Err(QueryError::ColumnNotFound(n)) => {
                    &&& n@ == name@
                    &&& !self@.column_index.contains_key(name@)
                },
                Err(QueryError::ColumnNotNumeric(n)) => {
                    &&& n@ == name@
                    &&& self@.column_index.contains_key(name@)
                    &&& !self@.column_is_numeric[name@]
                },
                Err(QueryError::EmptyTable) => {
                    &&& self@.column_index.contains_key(name@)
                    &&& self@.column_is_numeric[name@]
                    &&& self@.rows.len() == 0
                },
                Err(QueryError::TypeMismatch) => false,
            },
    {
        proof {
            use_type_invariant(self);
        }
        let j = match self.column_index(name) {
            Some(j) => j,
            None => {
                return Err(QueryError::ColumnNotFound(name.to_owned()));
            },
        };
        if !self.numeric[j] {
            return Err(QueryError::ColumnNotNumeric(name.to_owned()));
        }
        proof {
            assert(self@.column_is_numeric.contains_key(name@));
            assert(all_numeric(self@.header, self@.rows, name@));
            assert(self@.header[j as int] == name@);
            assert(column_numeric(self@.rows, j as int));
            assert forall|i: int| 0 <= i < self.rows.len() implies j < (
            #[trigger] self.rows[i]).len() by {
                assert(self@.rows[i].len() == self.rows[i].len());
            }
        }
        column_numbers(&self.rows, j)
    }

    /// The column names with their types: each name once, where the header
    /// has it first, and whether the column of that name is numeric.
    pub fn columns(&self) -> (r: Vec<Column>)
        ensures
            self@.well_formed(),
            self@.inferred(),
            r.deep_view() == self@.columns(),
    {
        proof {
            use_type_invariant(self);
        }
        let ghost names = self.header.deep_view();
        let mut r: Vec<Column> = Vec::new();
        let mut j: usize = 0;
        assert(names.take(0) == Seq::<Seq<char>>::empty());
        while j < self.header.len()
            invariant
                j <= self.header.len(),
                names == self.header.deep_view(),
                names == self@.header,
                self.numeric.len() == self.header.len(),
                self@.well_formed(),
                self@.inferred(),
                forall|k: int|
                    0 <= k < self.header.len() ==> #[trigger] self.numeric[k] == all_numeric(
                        self.header.deep_view(),
                        self.rows.deep_view(),
                        self.header[k]@,
                    ),
                r.len() == distinct(names.take(j as int)).len(),
                forall|i: int|
                    0 <= i < r.len() ==> (#[trigger] r[i])@ == (
                        distinct(names.take(j as int))[i],
                        self@.column_is_numeric[distinct(names.take(j as int))[i]],
                    ),
            decreases self.header.len() - j,
        {
            let ghost seen = names.take(j as int);
            let ghost next = names.take(j as int + 1);
            let ghost before = r@;
            proof {
                assert(next.drop_last() == seen);
                assert(next.last() == self.header[j as int]@);
                lemma_distinct_contains(seen, self.header[j as int]@);
            }
            let mut fresh: bool = true;
            let mut k: usize = 0;
            while k < j
                invariant
                    k <= j < self.header.len(),
                    fresh == (forall|i: int|
                        0 <= i < k ==> (#[trigger] self.header[i])@ != self.header[j as int]@),
                decreases j - k,
            {
                if self.header[k] == self.header[j] {
                    fresh = false;
                }
                k += 1;
            }
            proof {
                if fresh {
                    if seen.contains(self.header[j as int]@) {
                        let i = choose|i: int|
                            0 <= i < seen.len() && seen[i] == self.header[j as int]@;
                        assert(self.header[i]@ == seen[i]);
                    }
                } else {
                    let i = choose|i: int|
                        0 <= i < j && (#[trigger] self.header[i])@ == self.header[j as int]@;
                    assert(seen[i] == self.header[j as int]@);
                }
            }
            if fresh {
                r.push(Column { name: self.header[j].clone(), numeric: self.numeric[j] });
                proof {
                    let name = self.header[j as int]@;
                    assert(names[j as int] == name);
                    assert(self@.column_is_numeric.contains_key(name));
                    assert(self.header.deep_view() == self@.header);
                    assert(self.rows.deep_view() == self@.rows);
                }
            }
            j += 1;
        }
        assert(names.take(j as int) == names);
        assert(r.deep_view() =~= self@.columns());
        r
    }

    /// The listing of the first `n` rows: the header line, then the rows in
    /// their order. Without that many rows there is no listing and the
    /// answer says how many there are.
    pub fn head(&self, n: usize, palette: &Palette) -> (r: Result<String, TooManyRows>)
        ensures
            match r {
                Ok(out) => {
                    &&& n <= self@.rows.len()
                    &&& out@ == listing(self@.header, head_rows(self@.rows, n as int), palette@)
                },
                Err(e) => {
                    &&& n > self@.rows.len()
                    &&& e.available == self@.rows.len()
                },
            },
    {
        if n > self.rows.len() {
            return Err(TooManyRows { available: self.rows.len() });
        }
        Ok(render_listing(&self.header, &self.rows, 0, n, palette))
    }

    /// The listing of the last `n` rows: the header line, then the rows in
    /// their order. Without that many rows there is no listing and the
    /// answer says how many there are.
    pub fn tail(&self, n: usize, palette: &Palette) -> (r: Result<String, TooManyRows>)
        ensures
            match r {
                Ok(out) => {
                    &&& n <= self@.rows.len()
                    &&& out@ == listing(self@.header, tail_rows(self@.rows, n as int), palette@)
                },
                Err(e) => {
                    &&& n > self@.rows.len()
                    &&& e.available == self@.rows.len()
                },
            },
    {
        if n > self.rows.len() {
            return Err(TooManyRows { available: self.rows.len() });
        }
        Ok(render_listing(&self.header, &self.rows, self.rows.len() - n, self.rows.len(), palette))
    }

    /// The listing of the whole table: the header line, then every row in
    /// its order.
    pub fn show(&self, palette: &Palette) -> (out: String)
        ensures
            out@ == listing(self@.header, self@.rows, palette@),
    {
        assert(self@.rows.subrange(0, self@.rows.len() as int) == self@.rows);
        render_listing(&self.header, &self.rows, 0, self.rows.len(), palette)
    }

    /// The column called `name` on its own: the name on a line, then each of
    /// its cells on a line, in the order of the rows.
    ///
    /// The answer is `ColumnNotFound` where no column has this name, else
    /// `EmptyTable` where there is no data row.
    pub fn show_column(&self, name: &str, palette: &Palette) -> (r: Result<String, FatalError>)
        ensures
            self@.well_formed(),
            match r {
                Ok(out) => {
                    &&& self@.column_index.contains_key(name@)
                    &&& self@.rows.len() > 0
                    &&& out@ == column_listing(name@, self@.named_column(name@), palette@)
                },
                Err(FatalError::ColumnNotFound(n)) => {
                    &&& n@ == name@
                    &&& !self@.column_index.contains_key(name@)
                },
                Err(FatalError::EmptyTable) => {
                    &&& self@.column_index.contains_key(name@)
                    &&& self@.rows.len() == 0
                },
            },
    {
        proof {
            use_type_invariant(self);
        }
        let j = match self.column_index(name) {
            Some(j) => j,
            None => {
                return Err(FatalError::ColumnNotFound(name.to_owned()));
            },
        };
        if self.rows.len() == 0 {
            return Err(FatalError::EmptyTable);
        }
        let ghost cells = self@.named_column(name@);
        let ghost pieces = styled_row(cells, palette@);
        let mut out = name.to_owned();
        out.push(LINE_FEED);
        let mut i: usize = 0;
        assert(pieces.take(0) == Seq::<Seq<char>>::empty());
        assert(out@ =~= name@.push(LINE_FEED) + terminated(pieces.take(0), LINE_FEED));
        while i < self.rows.len()
            invariant
                i <= self.rows.len(),
                j < self.header.len(),
                rectangular(self.rows.deep_view(), self.header.len() as int),
                cells == column_of(self.rows.deep_view(), j as int),
                pieces == styled_row(cells, palette@),
                out@ == name@.push(LINE_FEED) + terminated(pieces.take(i as int), LINE_FEED),
            decreases self.rows.len() - i,
        {
            assert(self.rows.deep_view()[i as int].len() == self.rows[i as int].len());
            push_styled(&mut out, &self.rows[i][j], palette);
            out.push(LINE_FEED);
            proof {
                let next = pieces.take(i as int + 1);
                assert(next.drop_last() == pieces.take(i as int));
                assert(self.rows.deep_view()[i as int][j as int] == self.rows[i as int][j as int]@);
                assert(next.last() == pieces[i as int]);
                assert(out@ =~= name@.push(LINE_FEED) + terminated(next, LINE_FEED));
            }
            i += 1;
        }
        assert(pieces.take(i as int) == pieces);
        Ok(out)
    }

    /// The tally of the column called `name`: each distinct text that
    /// displays one of its cells, where it is first seen, with the number of
    /// rows that show it. Cells are told apart by their text alone, so two
    /// numbers that are displayed alike are counted together. The numbers
    /// add up to the number of rows.
    ///
    /// The answer is `ColumnNotFound` where no column has this name, else
    /// `EmptyTable` where there is no data row.
    pub fn unique(&self, name: &str) -> (r: Result<Vec<Count>, FatalError>)
        ensures
            self@.well_formed(),
            match r {
                Ok(counts) => {
                    &&& self@.column_index.contains_key(name@)
                    &&& self@.rows.len() > 0
                    &&& counts.deep_view() == tally_of(texts(self@.named_column(name@)))
                    &&& total(counts.deep_view()) == self@.rows.len()
                },
                Err(FatalError::ColumnNotFound(n)) => {
                    &&& n@ == name@
                    &&& !self@.column_index.contains_key(name@)
                },
                Err(FatalError::EmptyTable) => {
                    &&& self@.column_index.contains_key(name@)
                    &&& self@.rows.len() == 0
                },
            },
    {
        proof {
            use_type_invariant(self);
        }
        let j = match self.column_index(name) {
            Some(j) => j,
            None => {
                return Err(FatalError::ColumnNotFound(name.to_owned()));
            },
        };
        if self.rows.len() == 0 {
            return Err(FatalError::EmptyTable);
        }
        let ghost cells = self@.named_column(name@);
        let mut keys: Vec<&str> = Vec::new();
        let mut i: usize = 0;
        while i < self.rows.len()
            invariant
                i <= self.rows.len(),
                j < self.header.len(),
                rectangular(self.rows.deep_view(), self.header.len() as int),
                cells == column_of(self.rows.deep_view(), j as int),
                keys.len() == i,
                forall|k: int| 0 <= k < i ==> (#[trigger] keys[k])@ == cells[k].text(),
            decreases self.rows.len() - i,
        {
            assert(self.rows.deep_view()[i as int].len() == self.rows[i as int].len());
            assert(self.rows.deep_view()[i as int][j as int] == self.rows[i as int][j as int]@);
            keys.push(self.rows[i][j].text());
            i += 1;
        }
        assert(keys.deep_view() =~= texts(cells));
        Ok(tally(&keys))
    }
}

/// The numbers at position `j` of every row, row by row, as bit patterns.
/// Every row must have a cell at that position.
///
/// Without a row the answer is `EmptyTable`; with a text at that position in
/// some row it is `TypeMismatch`.
pub fn column_numbers(rows: &Vec<Vec<Cell>>, j: usize) -> (r: Result<Vec<u64>, QueryError>)
    requires
        forall|i: int| 0 <= i < rows.len() ==> j < (#[trigger] rows[i]).len(),
    ensures
        match r {
            Ok(v) => {
                &&& rows.len() > 0
                &&& column_numeric(rows.deep_view(), j as int)
                &&& v@ == numbers(column_of(rows.deep_view(), j as int))
            },
            Err(QueryError::EmptyTable) => rows.len() == 0,
            Err(QueryError::TypeMismatch) => {
                &&& rows.len() > 0
                &&& !column_numeric(rows.deep_view(), j as int)
            },
            Err(_) => false,
        },
{
    if rows.len() == 0 {
        return Err(QueryError::EmptyTable);
    }
    let ghost cells = rows.deep_view();
    let mut v: Vec<u64> = Vec::new();
    let mut i: usize = 0;
    while i < rows.len()
        invariant
            i <= rows.len(),
            cells == rows.deep_view(),
            forall|k: int| 0 <= k < rows.len() ==> j < (#[trigger] rows[k]).len(),
            v.len() == i,
            forall|k: int| 0 <= k < i ==> (#[trigger] cells[k])[j as int] is Num,
            forall|k: int| 0 <= k < i ==> #[trigger] v[k] == cells[k][j as int]->bits,
        decreases rows.len() - i,
    {
        assert(cells[i as int][j as int] == rows[i as int][j as int]@);
        match &rows[i][j] {
            Cell::Num { bits, .. } => {
                v.push(*bits);
            },
            Cell::Str(_) => {
                return Err(QueryError::TypeMismatch);
            },
        }
        i += 1;
    }
    assert(v@ =~= numbers(column_of(cells, j as int)));
    Ok(v)
}

/// The position of the first row that has not `width` cells.
fn first_ragged(rows: &Vec<Vec<Cell>>, width: usize) -> (r: Option<usize>)
    ensures
        match r {
            Some(k) => {
                &&& k < rows.len()
                &&& rows[k as int].len() != width
                &&& rectangular(rows.deep_view().take(k as int), width as int)
            },
            None => rectangular(rows.deep_view(), width as int),
        },
{
    let mut k: usize = 0;
    while k < rows.len()
        invariant
            k <= rows.len(),
            rectangular(rows.deep_view().take(k as int), width as int),
        decreases rows.len() - k,
    {
        if rows[k].len() != width {
            return Some(k);
        }
        assert forall|r: int| 0 <= r < k + 1 implies (#[trigger] rows.deep_view().take(
            k as int + 1,
        )[r]).len() == width by {
            if r < k {
                assert(rows.deep_view().take(k as int)[r] == rows.deep_view()[r]);
            }
        }
        k += 1;
    }
    assert(rows.deep_view().take(k as int) == rows.deep_view());
    None
}

/// Adding a row keeps a position numeric exactly when the new cell there is
/// a number.
proof fn lemma_column_numeric_step(rows: Seq<Seq<CellModel>>, r: int, j: int)
    requires
        0 <= r < rows.len(),
    ensures
        column_numeric(rows.take(r + 1), j) == (column_numeric(rows.take(r), j)
            && rows[r][j] is Num),
{
    let before = rows.take(r);
    let after = rows.take(r + 1);
    if column_numeric(after, j) {
        assert(after[r][j] is Num);
        assert forall|i: int| 0 <= i < before.len() implies (#[trigger] before[i])[j] is Num by {
            assert(after[i][j] is Num);
        }
    }
    if column_numeric(before, j) && rows[r][j] is Num {
        assert forall|i: int| 0 <= i < after.len() implies (#[trigger] after[i])[j] is Num by {
            if i < r {
                assert(before[i][j] is Num);
            }
        }
    }
}

/// For each position whether every cell at it is a number.
fn numeric_positions(rows: &Vec<Vec<Cell>>, width: usize) -> (flags: Vec<bool>)
    requires
        rectangular(rows.deep_view(), width as int),
    ensures
        flags.len() == width,
        forall|j: int|
            0 <= j < width ==> #[trigger] flags[j] == column_numeric(rows.deep_view(), j),
{
    let ghost cells = rows.deep_view();
    let mut flags: Vec<bool> = Vec::new();
    while flags.len() < width
        invariant
            flags.len() <= width,
            forall|j: int| 0 <= j < flags.len() ==> #[trigger] flags[j],
        decreases width - flags.len(),
    {
        flags.push(true);
    }
    let mut r: usize = 0;
    while r < rows.len()
        invariant
            r <= rows.len(),
            cells == rows.deep_view(),
            rectangular(cells, width as int),
            flags.len() == width,
            forall|j: int|
                0 <= j < width ==> #[trigger] flags[j] == column_numeric(cells.take(r as int), j),
        decreases rows.len() - r,
    {
        let row = &rows[r];
        assert(cells[r as int] == row.deep_view());
        let mut j: usize = 0;
        while j < width
            invariant
                j <= width,
                r < rows.len(),
                cells == rows.deep_view(),
                cells[r as int] == row.deep_view(),
                row.len() == width,
                flags.len() == width,
                forall|i: int|
                    0 <= i < j ==> #[trigger] flags[i] == column_numeric(
                        cells.take(r as int + 1),
                        i,
                    ),
                forall|i: int|
                    j <= i < width ==> #[trigger] flags[i] == column_numeric(
                        cells.take(r as int),
                        i,
                    ),
            decreases width - j,
        {
            proof {
                lemma_column_numeric_step(cells, r as int, j as int);
                assert(cells[r as int][j as int] == row@[j as int]@);
            }
            if !row[j].is_numeric() {
                flags.set(j, false);
            }
            j += 1;
        }
        r += 1;
    }
    assert(cells.take(r as int) == cells);
    flags
}

/// Whether `flags` holds at every position that has the name at position
/// `j`.
spec fn shared(names: Seq<Seq<char>>, flags: Seq<bool>, j: int) -> bool {
    forall|k: int| 0 <= k < names.len() && #[trigger] names[k] == names[j] ==> flags[k]
}

/// Where each position is flagged by its own cells, the positions of one
/// name together say whether every cell under that name is a number.
proof fn lemma_shared_flags(
    names: Seq<Seq<char>>,
    cells: Seq<Seq<CellModel>>,
    flags: Seq<bool>,
    numeric: Seq<bool>,
)
    requires
        flags.len() == names.len(),
        numeric.len() == names.len(),
        forall|j: int| 0 <= j < names.len() ==> #[trigger] flags[j] == column_numeric(cells, j),
        forall|j: int| 0 <= j < names.len() ==> #[trigger] numeric[j] == shared(names, flags, j),
    ensures
        forall|j: int|
            0 <= j < names.len() ==> #[trigger] numeric[j] == all_numeric(names, cells, names[j]),
{
    assert forall|j: int| 0 <= j < names.len() implies #[trigger] numeric[j] == all_numeric(
        names,
        cells,
        names[j],
    ) by {
        if numeric[j] {
            assert forall|k: int| 0 <= k < names.len() && #[trigger] names[k]
                == names[j] implies column_numeric(cells, k) by {
                assert(flags[k]);
            }
        } else {
            let k = choose|k: int|
                0 <= k < names.len() && #[trigger] names[k] == names[j] && !flags[k];
            assert(!column_numeric(cells, k));
        }
    }
}

/// For each position whether `flags` holds at every position of the same
/// name.
fn shared_flags(header: &Vec<String>, flags: &Vec<bool>) -> (numeric: Vec<bool>)
    requires
        flags.len() == header.len(),
    ensures
        numeric.len() == header.len(),
        forall|j: int|
            0 <= j < header.len() ==> #[trigger] numeric[j] == shared(
                header.deep_view(),
                flags@,
                j,
            ),
{
    let ghost names = header.deep_view();
    let mut numeric: Vec<bool> = Vec::new();
    let mut j: usize = 0;
    while j < header.len()
        invariant
            j <= header.len(),
            names == header.deep_view(),
            flags.len() == header.len(),
            numeric.len() == j,
            forall|i: int| 0 <= i < j ==> #[trigger] numeric[i] == shared(names, flags@, i),
        decreases header.len() - j,
    {
        let mut all: bool = true;
        let mut k: usize = 0;
        while k < header.len()
            invariant
                k <= header.len(),
                j < header.len(),
                names == header.deep_view(),
                flags.len() == header.len(),
                all == (forall|i: int|
                    0 <= i < k && #[trigger] names[i] == names[j as int] ==> flags[i]),
            decreases header.len() - k,
        {
            assert(names[k as int] == header[k as int]@);
            assert(names[j as int] == header[j as int]@);
            if header[k] == header[j] && !flags[k] {
                all = false;
            }
            k += 1;
        }
        numeric.push(all);
        j += 1;
    }
    numeric
}

/// The name of a column is numeric where every cell under every header of
/// that name is a number, and is not where one cell of the column is a
/// text, in whichever row it stands.
pub proof fn lemma_numeric_flag(table: TableModel, j: int)
    requires
        table.well_formed(),
        table.inferred(),
        0 <= j < table.header.len(),
    ensures
        table.column_is_numeric.contains_key(table.header[j]),
        all_numeric(table.header, table.rows, table.header[j])
            ==> table.column_is_numeric[table.header[j]],
        forall|r: int|
            0 <= r < table.rows.len() && (#[trigger] table.rows[r])[j] is Str
                ==> !table.column_is_numeric[table.header[j]],
{
    let name = table.header[j];
    assert(table.header.contains(name));
    assert(table.column_is_numeric.contains_key(name));
    assert forall|r: int|
        0 <= r < table.rows.len() && (#[trigger] table.rows[r])[j] is Str implies
        !table.column_is_numeric[name] by {
        if all_numeric(table.header, table.rows, name) {
            assert(column_numeric(table.rows, j));
            assert(table.rows[r][j] is Num);
        }
    }
}

/// The first `n` rows of a table and the last `count - n`, where `count` is
/// the number of its rows and `n` is not above it, are all its rows together,
/// each once and in its place: the listing of the whole table is the header
/// line, then the lines of the one run, then the lines of the other.
pub proof fn lemma_head_tail_cover(table: TableModel, n: int, palette: PaletteModel)
    requires
        0 <= n <= table.rows.len(),
    ensures
        head_rows(table.rows, n) + tail_rows(table.rows, table.rows.len() - n) == table.rows,
        listing(table.header, head_rows(table.rows, n), palette) + block(
            tail_rows(table.rows, table.rows.len() - n),
            palette,
        ) == listing(table.header, table.rows, palette),
{
    let first = head_rows(table.rows, n);
    let second = tail_rows(table.rows, table.rows.len() - n);
    assert(first + second == table.rows);
    lemma_block_add(first, second, palette);
}

} // verus!
