//! Cutting delimited text into trimmed fields.
//!
//! A text is a sequence of lines, each line a sequence of fields between
//! commas. Nothing is quoted or escaped: every comma separates two fields and
//! every line feed ends a line. A field is taken without the white space
//! around it, so a carriage return in front of a line feed leaves with it.

use crate::error::TableError;
use vstd::prelude::*;

verus! {

/// The fields of a delimited text: those of its first line, the header, and
/// those of every line after it.
#[derive(Debug, Clone, PartialEq, Eq)]
pub struct Records {
    pub header: Vec<String>,
    pub rows: Vec<Vec<String>>,
}

/// The character between two fields of a line.
pub const DELIMITER: char = ',';

/// The character that ends a line.
pub const LINE_FEED: char = '\n';

/// Whether `c` is white space: the code points with the Unicode property
/// `White_Space`.
pub open spec fn is_space(c: char) -> bool {
    let n: u32 = c as u32;
    ||| 0x09 <= n <= 0x0d
    ||| n == 0x20
    ||| n == 0x85
    ||| n == 0xa0
    ||| n == 0x1680
    ||| 0x2000 <= n <= 0x200a
    ||| n == 0x2028
    ||| n == 0x2029
    ||| n == 0x202f
    ||| n == 0x205f
    ||| n == 0x3000
}

/// `s` without the white space at its start.
pub open spec fn trim_start(s: Seq<char>) -> Seq<char>
    decreases s.len(),
{
    if s.len() > 0 && is_space(s.first()) {
        trim_start(s.drop_first())
    } else {
        s
    }
}

/// `s` without the white space at its end.
pub open spec fn trim_end(s: Seq<char>) -> Seq<char>
    decreases s.len(),
{
    if s.len() > 0 && is_space(s.last()) {
        trim_end(s.drop_last())
    } else {
        s
    }
}

/// `s` without the white space around it.
pub open spec fn trimmed(s: Seq<char>) -> Seq<char> {
    trim_end(trim_start(s))
}

/// The pieces of `s` between the occurrences of `sep`, in order. There is one
/// piece more than there are separators, so the empty text has one empty piece.
pub open spec fn split(s: Seq<char>, sep: char) -> Seq<Seq<char>>
    decreases s.len(),
{
    if s.len() == 0 {
        seq![Seq::<char>::empty()]
    } else {
        let before = split(s.drop_last(), sep);
        if s.last() == sep {
            before.push(Seq::<char>::empty())
        } else {
            before.drop_last().push(before.last().push(s.last()))
        }
    }
}

/// The lines of `s`. A line feed ends a line; the last line needs none, and
/// the empty text has no line.
pub open spec fn lines(s: Seq<char>) -> Seq<Seq<char>> {
    let pieces = split(s, LINE_FEED);
    if pieces.last().len() == 0 {
        pieces.drop_last()
    } else {
        pieces
    }
}

/// The fields of one line: its pieces between commas, each trimmed.
pub open spec fn fields(line: Seq<char>) -> Seq<Seq<char>> {
    split(line, DELIMITER).map_values(|piece: Seq<char>| trimmed(piece))
}

/// The fields of every line of `s`.
pub open spec fn records(s: Seq<char>) -> Seq<Seq<Seq<char>>> {
    lines(s).map_values(|line: Seq<char>| fields(line))
}

/// Whether a text comes back as one field: it holds no comma and no line
/// feed, and no white space stands at its start or end.
pub open spec fn clean(s: Seq<char>) -> bool {
    &&& !s.contains(DELIMITER)
    &&& !s.contains(LINE_FEED)
    &&& trimmed(s) == s
}

/// The parts of `s` that the index pairs of `bounds` delimit.
spec fn slices(s: Seq<char>, bounds: Seq<(usize, usize)>) -> Seq<Seq<char>> {
    Seq::new(bounds.len(), |k: int| s.subrange(bounds[k].0 as int, bounds[k].1 as int))
}

/// Whether every pair of `bounds` delimits a part of `start..end`.
spec fn bounds_within(bounds: Seq<(usize, usize)>, start: int, end: int) -> bool {
    forall|k: int|
        0 <= k < bounds.len() ==> start <= (#[trigger] bounds[k]).0 <= bounds[k].1 <= end
}

/// A text is cut into one piece at least.
pub proof fn lemma_split_len(s: Seq<char>, sep: char)
    ensures
        split(s, sep).len() >= 1,
    decreases s.len(),
{
    if s.len() > 0 {
        lemma_split_len(s.drop_last(), sep);
    }
}

/// Text without `sep`, put behind `s`, lengthens the last piece of `s`.
pub proof fn lemma_split_extend(s: Seq<char>, more: Seq<char>, sep: char)
    requires
        !more.contains(sep),
    ensures
        split(s + more, sep) == split(s, sep).drop_last().push(split(s, sep).last() + more),
    decreases more.len(),
{
    let pieces = split(s, sep);
    lemma_split_len(s, sep);
    if more.len() == 0 {
        assert(s + more == s);
        assert(pieces.drop_last().push(pieces.last() + more) =~~= pieces);
    } else {
        let front = more.drop_last();
        assert forall|i: int| 0 <= i < front.len() implies front[i] != sep by {
            assert(more[i] == front[i]);
        }
        assert(more[more.len() - 1] != sep);
        lemma_split_extend(s, front, sep);
        assert((s + more).drop_last() == s + front);
        assert((s + more).last() == more.last());
        let before = split(s + front, sep);
        assert(before.drop_last() =~~= pieces.drop_last());
        assert(before.last().push(more.last()) =~= pieces.last() + more);
    }
}

/// No piece holds the separator, and every character of a piece is one of
/// the text.
pub proof fn lemma_split_pieces(s: Seq<char>, sep: char)
    ensures
        forall|i: int, k: int|
            0 <= i < split(s, sep).len() && 0 <= k < split(s, sep)[i].len() ==> {
                &&& (#[trigger] split(s, sep)[i][k]) != sep
                &&& s.contains(split(s, sep)[i][k])
            },
    decreases s.len(),
{
    if s.len() > 0 {
        let front = s.drop_last();
        let before = split(front, sep);
        let pieces = split(s, sep);
        lemma_split_pieces(front, sep);
        lemma_split_len(front, sep);
        assert forall|i: int, k: int|
            0 <= i < pieces.len() && 0 <= k < pieces[i].len() implies (#[trigger] pieces[i][k])
            != sep && s.contains(pieces[i][k]) by {
            if s.last() != sep && i == pieces.len() - 1 && k == pieces[i].len() - 1 {
                assert(pieces[i][k] == s[s.len() - 1]);
            } else {
                assert(pieces[i][k] == before[i][k]);
                let at = choose|at: int| 0 <= at < front.len() && front[at] == before[i][k];
                assert(s[at] == before[i][k]);
            }
        }
    }
}

/// What is left without the white space at the start is the end of the
/// text, and does not start with white space.
pub proof fn lemma_trim_start(s: Seq<char>)
    ensures
        trim_start(s).len() <= s.len(),
        trim_start(s) == s.skip(s.len() - trim_start(s).len()),
        trim_start(s).len() > 0 ==> !is_space(trim_start(s).first()),
    decreases s.len(),
{
    if s.len() > 0 && is_space(s.first()) {
        let rest = s.drop_first();
        lemma_trim_start(rest);
        assert(rest.skip(rest.len() - trim_start(rest).len()) =~= s.skip(
            s.len() - trim_start(rest).len(),
        ));
    } else {
        assert(s.skip(0) =~= s);
    }
}

/// What is left without the white space at the end is the start of the
/// text, and does not end with white space.
pub proof fn lemma_trim_end(s: Seq<char>)
    ensures
        trim_end(s).len() <= s.len(),
        trim_end(s) == s.take(trim_end(s).len() as int),
        trim_end(s).len() > 0 ==> !is_space(trim_end(s).last()),
    decreases s.len(),
{
    if s.len() > 0 && is_space(s.last()) {
        let rest = s.drop_last();
        lemma_trim_end(rest);
        assert(rest.take(trim_end(rest).len() as int) =~= s.take(trim_end(rest).len() as int));
    } else {
        assert(s.take(s.len() as int) =~= s);
    }
}

/// A trimmed text is a part of the text, and trimming it again changes
/// nothing.
pub proof fn lemma_trimmed(s: Seq<char>)
    ensures
        trimmed(trimmed(s)) == trimmed(s),
        forall|k: int| 0 <= k < trimmed(s).len() ==> s.contains(#[trigger] trimmed(s)[k]),
{
    let inner = trim_start(s);
    let both = trim_end(inner);
    lemma_trim_start(s);
    lemma_trim_end(inner);
    if both.len() > 0 {
        assert(both.first() == inner.first());
    }
    assert(trim_start(both) == both);
    assert(trim_end(both) == both);
    assert forall|k: int| 0 <= k < both.len() implies s.contains(#[trigger] both[k]) by {
        assert(both[k] == inner[k]);
        assert(inner[k] == s[s.len() - inner.len() + k]);
    }
}

/// Every field that is read from a text comes back as one field: it holds
/// no comma and no line feed and is trimmed.
pub proof fn lemma_records_clean(text: Seq<char>)
    ensures
        forall|i: int, j: int|
            0 <= i < records(text).len() && 0 <= j < records(text)[i].len() ==> clean(
                #[trigger] records(text)[i][j],
            ),
{
    assert forall|i: int, j: int|
        0 <= i < records(text).len() && 0 <= j < records(text)[i].len() implies clean(
        #[trigger] records(text)[i][j],
    ) by {
        let line = lines(text)[i];
        let piece = split(line, DELIMITER)[j];
        let field = records(text)[i][j];
        assert(field == trimmed(piece));
        lemma_split_pieces(text, LINE_FEED);
        lemma_split_pieces(line, DELIMITER);
        lemma_trimmed(piece);
        assert(line == split(text, LINE_FEED)[i]);
        assert forall|k: int| 0 <= k < field.len() implies field[k] != DELIMITER && field[k]
            != LINE_FEED by {
            let at = choose|at: int| 0 <= at < piece.len() && piece[at] == field[k];
            assert(split(line, DELIMITER)[j][at] != DELIMITER);
            let on = choose|on: int| 0 <= on < line.len() && line[on] == piece[at];
            assert(split(text, LINE_FEED)[i][on] != LINE_FEED);
        }
    }
}

/// `String::push` of the standard library: the string afterwards holds the
/// characters it held before, then `ch`.
pub assume_specification[ String::push ](s: &mut String, ch: char)
    ensures
        final(s)@ == old(s)@.push(ch),
;

/// Whether `c` is white space.
pub fn is_whitespace(c: char) -> (r: bool)
    ensures
        r == is_space(c),
{
    let n: u32 = c as u32;
    (0x09 <= n && n <= 0x0d) || n == 0x20 || n == 0x85 || n == 0xa0 || n == 0x1680 || (0x2000
        <= n && n <= 0x200a) || n == 0x2028 || n == 0x2029 || n == 0x202f || n == 0x205f || n
        == 0x3000
}

/// The characters of `text`, one by one.
pub(crate) fn chars_of(text: &str) -> (v: Vec<char>)
    ensures
        v@ == text@,
{
    let mut v: Vec<char> = Vec::new();
    for c in it: text.chars()
        invariant
            it.seq() == text@,
            v@ == text@.take(it.index() as int),
    {
        v.push(c);
    }
    v
}

/// The characters of `v` from `start` up to `end`, as a string.
fn string_of(v: &Vec<char>, start: usize, end: usize) -> (s: String)
    requires
        start <= end <= v.len(),
    ensures
        s@ == v@.subrange(start as int, end as int),
{
    let mut s = String::new();
    let mut i: usize = start;
    while i < end
        invariant
            start <= i <= end <= v.len(),
            s@ == v@.subrange(start as int, i as int),
        decreases end - i,
    {
        s.push(v[i]);
        i += 1;
    }
    s
}

/// Where the trimmed part of `start..end` begins and ends.
fn trim_bounds(v: &Vec<char>, start: usize, end: usize) -> (r: (usize, usize))
    requires
        start <= end <= v.len(),
    ensures
        start <= r.0 <= r.1 <= end,
        v@.subrange(r.0 as int, r.1 as int) == trimmed(v@.subrange(start as int, end as int)),
{
    let mut a: usize = start;
    while a < end && is_whitespace(v[a])
        invariant
            start <= a <= end <= v.len(),
            trim_start(v@.subrange(start as int, end as int)) == trim_start(
                v@.subrange(a as int, end as int),
            ),
        decreases end - a,
    {
        assert(v@.subrange(a as int, end as int).drop_first() == v@.subrange(
            a as int + 1,
            end as int,
        ));
        a += 1;
    }
    let mut b: usize = end;
    while a < b && is_whitespace(v[b - 1])
        invariant
            a <= b <= end <= v.len(),
            trim_end(v@.subrange(a as int, end as int)) == trim_end(
                v@.subrange(a as int, b as int),
            ),
        decreases b - a,
    {
        assert(v@.subrange(a as int, b as int).drop_last() == v@.subrange(
            a as int,
            b as int - 1,
        ));
        b -= 1;
    }
    (a, b)
}

/// Where the pieces of `start..end` between the occurrences of `sep` begin
/// and end.
fn split_bounds(v: &Vec<char>, start: usize, end: usize, sep: char) -> (r: Vec<(usize, usize)>)
    requires
        start <= end <= v.len(),
    ensures
        bounds_within(r@, start as int, end as int),
        slices(v@, r@) == split(v@.subrange(start as int, end as int), sep),
{
    let mut r: Vec<(usize, usize)> = Vec::new();
    let mut from: usize = start;
    let mut i: usize = start;
    assert(slices(v@, r@).push(v@.subrange(from as int, i as int)) =~~= split(
        v@.subrange(start as int, i as int),
        sep,
    ));
    while i < end
        invariant
            start <= from <= i <= end <= v.len(),
            bounds_within(r@, start as int, end as int),
            slices(v@, r@).push(v@.subrange(from as int, i as int)) == split(
                v@.subrange(start as int, i as int),
                sep,
            ),
        decreases end - i,
    {
        let ghost so_far = v@.subrange(start as int, i as int);
        let ghost next = v@.subrange(start as int, i as int + 1);
        assert(next.drop_last() == so_far);
        assert(next.last() == v@[i as int]);
        if v[i] == sep {
            let ghost done = slices(v@, r@);
            r.push((from, i));
            assert(slices(v@, r@) =~~= done.push(v@.subrange(from as int, i as int)));
            from = i + 1;
            assert(slices(v@, r@).push(v@.subrange(from as int, from as int)) =~~= split(
                next,
                sep,
            ));
        } else {
            assert(v@.subrange(from as int, i as int).push(v@[i as int]) == v@.subrange(
                from as int,
                i as int + 1,
            ));
            assert(slices(v@, r@).push(v@.subrange(from as int, i as int + 1)) == split(
                next,
                sep,
            ));
        }
        i += 1;
    }
    r.push((from, end));
    assert(slices(v@, r@) == slices(v@, r@.drop_last()).push(
        v@.subrange(from as int, end as int),
    ));
    r
}

/// The fields of the line that `start..end` holds.
fn fields_in(v: &Vec<char>, start: usize, end: usize) -> (r: Vec<String>)
    requires
        start <= end <= v.len(),
    ensures
        r.deep_view() == fields(v@.subrange(start as int, end as int)),
{
    let bounds = split_bounds(v, start, end, DELIMITER);
    let ghost raw = split(v@.subrange(start as int, end as int), DELIMITER);
    let mut r: Vec<String> = Vec::new();
    let mut k: usize = 0;
    while k < bounds.len()
        invariant
            k <= bounds.len(),
            start <= end <= v.len(),
            bounds_within(bounds@, start as int, end as int),
            slices(v@, bounds@) == raw,
            r.len() == k,
            forall|j: int| 0 <= j < k ==> (#[trigger] r@[j])@ == trimmed(raw[j]),
        decreases bounds.len() - k,
    {
        let (a, b) = bounds[k];
        assert(raw[k as int] == v@.subrange(a as int, b as int));
        let (ta, tb) = trim_bounds(v, a, b);
        r.push(string_of(v, ta, tb));
        k += 1;
    }
    assert(r.deep_view() =~= fields(v@.subrange(start as int, end as int)));
    r
}

/// The fields of `line`: its pieces between commas, each without the white
/// space around it.
pub fn split_fields(line: &str) -> (r: Vec<String>)
    ensures
        r.deep_view() == fields(line@),
{
    let v = chars_of(line);
    assert(v@.subrange(0, v@.len() as int) == v@);
    fields_in(&v, 0, v.len())
}

/// The fields of every line of `text`, line by line.
pub fn split_records(text: &str) -> (r: Vec<Vec<String>>)
    ensures
        r.deep_view() == records(text@),
{
    let v = chars_of(text);
    assert(v@.subrange(0, v@.len() as int) == v@);
    let mut bounds = split_bounds(&v, 0, v.len(), LINE_FEED);
    proof {
        lemma_split_len(v@, LINE_FEED);
    }
    let (a, b) = bounds[bounds.len() - 1];
    if a == b {
        bounds.pop();
        assert(slices(v@, bounds@) == lines(text@));
    }
    assert(slices(v@, bounds@) == lines(text@));
    let mut r: Vec<Vec<String>> = Vec::new();
    let mut k: usize = 0;
    while k < bounds.len()
        invariant
            k <= bounds.len(),
            bounds_within(bounds@, 0, v.len() as int),
            slices(v@, bounds@) == lines(text@),
            r.len() == k,
            forall|j: int| 0 <= j < k ==> (#[trigger] r@[j]).deep_view() == fields(lines(text@)[j]),
        decreases bounds.len() - k,
    {
        let (a, b) = bounds[k];
        assert(lines(text@)[k as int] == v@.subrange(a as int, b as int));
        r.push(fields_in(&v, a, b));
        k += 1;
    }
    assert(r.deep_view() =~= records(text@));
    r
}

/// The fields of `text`, the header apart from the data rows. A text
/// without a line has no header and gives `EmptyInput`.
pub fn read_records(text: &str) -> (r: Result<Records, TableError>)
    ensures
        match r {
            Ok(found) => {
                &&& records(text@).len() > 0
                &&& found.header.deep_view() == records(text@).first()
                &&& found.rows.deep_view() == records(text@).drop_first()
            },
            Err(TableError::EmptyInput) => records(text@).len() == 0,
            Err(TableError::MalformedRow { .. }) => false,
        },
{
    let mut rows = split_records(text);
    if rows.len() == 0 {
        return Err(TableError::EmptyInput);
    }
    let ghost all = rows.deep_view();
    let header = rows.remove(0);
    assert(header.deep_view() == all[0]);
    assert(rows.deep_view() =~= all.drop_first());
    Ok(Records { header, rows })
}

} // verus!
