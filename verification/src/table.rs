//! Tables: a run of lines with pipes is re-rendered with aligned, padded columns.

use vstd::prelude::*;
use crate::text::{
    trim_is_clean, trim_of_padded,
    all_to_chars, all_to_strings, copy, count_char, count_of, count_of_other_first, has_char, join,
    joined, push_all, push_repeat, repeat, slice, split, split_on, string_views, strip_newlines,
    to_chars, trim, trimmed, trimmed_end_char, views,
};

verus! {

/// How the cells of a column are placed in it, told by the two ends of the
/// column's cell in the separator row.
#[derive(Clone, Copy, Debug, PartialEq, Eq, Structural)]
pub enum Align {
    /// A dash at both ends, or no cell: to the left.
    Unmarked,
    /// A colon first and a dash last: to the left.
    Left,
    /// A dash first and a colon last: to the right.
    Right,
    /// A colon at both ends: centered.
    Center,
}

/// Whether `c` may stand in a separator row.
pub open spec fn separator_char(c: char) -> bool {
    c == '|' || c == ':' || c == '-' || c == ' '
}

/// Whether `line` is a separator row: it holds a pipe and a dash, and besides
/// pipes nothing but colons, dashes and spaces.
pub open spec fn separator_row(line: Seq<char>) -> bool {
    let s = trim(line);
    s.contains('|') && s.contains('-') && forall|i: int|
        0 <= i < s.len() ==> separator_char(#[trigger] s[i])
}

/// Whether `line` is a separator row.
pub fn is_separator_row_chars(line: &Vec<char>) -> (r: bool)
    ensures
        r == separator_row(line@),
{
    let s = trimmed(line);
    if !has_char(&s, '|') || !has_char(&s, '-') {
        return false;
    }
    let mut i: usize = 0;
    while i < s.len()
        invariant
            i <= s.len(),
            s@ == trim(line@),
            forall|j: int| 0 <= j < i ==> separator_char(#[trigger] s@[j]),
        decreases s.len() - i,
    {
        let c = s[i];
        if !(c == '|' || c == ':' || c == '-' || c == ' ') {
            assert(!separator_char(s@[i as int]));
            return false;
        }
        i += 1;
    }
    true
}

/// Whether `line` is a separator row.
pub fn is_separator_row(line: &str) -> (r: bool)
    ensures
        r == separator_row(line@),
{
    is_separator_row_chars(&to_chars(line))
}

/// The number of columns that the pipes of `line` mark: one less than the pipes
/// where the line begins with one, one more where it does not; none in a blank line.
pub open spec fn column_count(line: Seq<char>) -> nat {
    let s = trim(line);
    if s.len() == 0 {
        0
    } else if s[0] == '|' {
        if count_of(s, '|') > 0 {
            (count_of(s, '|') - 1) as nat
        } else {
            0
        }
    } else {
        count_of(s, '|') + 1
    }
}

/// The number of columns that the pipes of `line` mark.
pub fn count_columns_chars(line: &Vec<char>) -> (r: usize)
    ensures
        r == column_count(line@),
{
    let s = trimmed(line);
    if s.len() == 0 {
        return 0;
    }
    let pipes = count_char(&s, '|');
    if s[0] == '|' {
        if pipes > 0 {
            pipes - 1
        } else {
            0
        }
    } else {
        proof {
            count_of_other_first(s@, '|');
        }
        pipes + 1
    }
}

/// The number of columns that the pipes of `line` mark.
pub fn count_columns(line: &str) -> (r: usize)
    ensures
        r == column_count(line@),
{
    count_columns_chars(&to_chars(line))
}

/// `line` trimmed, without one leading and one trailing pipe.
pub open spec fn without_outer_pipes(line: Seq<char>) -> Seq<char> {
    let t = trim(line);
    let a = if t.len() > 0 && t[0] == '|' {
        t.skip(1)
    } else {
        t
    };
    if a.len() > 0 && a.last() == '|' {
        a.drop_last()
    } else {
        a
    }
}

/// The cells of `line` as they stand between its pipes.
pub open spec fn raw_cells(line: Seq<char>) -> Seq<Seq<char>> {
    split_on(without_outer_pipes(line), '|')
}

/// A cell trimmed, with one space on each side.
pub open spec fn padded_cell(cell: Seq<char>) -> Seq<char> {
    seq![' '] + trim(cell) + seq![' ']
}

/// The cells of a content row, each trimmed and padded.
pub open spec fn row_cells(line: Seq<char>) -> Seq<Seq<char>> {
    raw_cells(line).map_values(|c: Seq<char>| padded_cell(c))
}

/// The alignment that a separator cell asks for: centered between two colons,
/// to the right with a dash first and a colon last, to the left with a colon
/// first and a dash last; unmarked with anything else.
pub open spec fn align_of(cell: Seq<char>) -> Align {
    let c = trim(cell);
    if c.len() == 0 {
        Align::Unmarked
    } else if c[0] == ':' && c.last() == ':' {
        Align::Center
    } else if c[0] == '-' && c.last() == ':' {
        Align::Right
    } else if c[0] == ':' && c.last() == '-' {
        Align::Left
    } else {
        Align::Unmarked
    }
}

/// The cells of `line` as they stand between its pipes.
pub fn cells_of(line: &Vec<char>) -> (r: Vec<Vec<char>>)
    ensures
        views(r@) == raw_cells(line@),
        r.len() >= 1,
{
    let t = trimmed(line);
    let from: usize = if t.len() > 0 && t[0] == '|' { 1 } else { 0 };
    let a = slice(&t, from, t.len());
    let to: usize = if a.len() > 0 && a[a.len() - 1] == '|' { a.len() - 1 } else { a.len() };
    let b = slice(&a, 0, to);
    assert(a@ =~= if t@.len() > 0 && t@[0] == '|' { t@.skip(1) } else { t@ });
    assert(b@ =~= without_outer_pipes(line@));
    split(&b, '|')
}

/// The alignment that a separator cell asks for.
pub fn alignment(cell: &Vec<char>) -> (r: Align)
    ensures
        r == align_of(cell@),
{
    let c = trimmed(cell);
    if c.len() == 0 {
        Align::Unmarked
    } else if c[0] == ':' && c[c.len() - 1] == ':' {
        Align::Center
    } else if c[0] == '-' && c[c.len() - 1] == ':' {
        Align::Right
    } else if c[0] == ':' && c[c.len() - 1] == '-' {
        Align::Left
    } else {
        Align::Unmarked
    }
}

/// The lines of a run without their line feeds, the empty ones left out.
pub open spec fn kept_lines(input: Seq<Seq<char>>) -> Seq<Seq<char>>
    decreases input.len(),
{
    if input.len() == 0 {
        Seq::<Seq<char>>::empty()
    } else if strip_newlines(input.last()).len() == 0 {
        kept_lines(input.drop_last())
    } else {
        kept_lines(input.drop_last()).push(strip_newlines(input.last()))
    }
}

/// Whether `lines` can be formatted as a table: at least two lines, each with a
/// pipe and with at least one column.
pub open spec fn is_table(lines: Seq<Seq<char>>) -> bool {
    lines.len() >= 2 && forall|i: int|
        0 <= i < lines.len() ==> (#[trigger] lines[i]).contains('|') && column_count(lines[i]) > 0
}

/// The index of the first separator row at or after `i`; the number of lines where
/// there is none.
pub open spec fn first_separator(lines: Seq<Seq<char>>, i: int) -> int
    decreases lines.len() - i,
{
    if 0 <= i < lines.len() && !separator_row(lines[i]) {
        first_separator(lines, i + 1)
    } else {
        i
    }
}

/// The alignments that the table states: those of the cells of its separator row;
/// where it has none, left for each column of its first row.
pub open spec fn stated_aligns(lines: Seq<Seq<char>>) -> Seq<Align> {
    let sep = first_separator(lines, 0);
    if 0 <= sep < lines.len() {
        raw_cells(lines[sep]).map_values(|c: Seq<char>| align_of(c))
    } else {
        Seq::new(column_count(lines[0]), |c: int| Align::Unmarked)
    }
}

/// The cells of the content rows: of every line but the separator row.
pub open spec fn content_rows(lines: Seq<Seq<char>>) -> Seq<Seq<Seq<char>>> {
    let sep = first_separator(lines, 0);
    if 0 <= sep < lines.len() {
        Seq::new(
            (lines.len() - 1) as nat,
            |k: int|
                row_cells(
                    lines[if k < sep {
                        k
                    } else {
                        k + 1
                    }],
                ),
        )
    } else {
        Seq::new(lines.len(), |k: int| row_cells(lines[k]))
    }
}

/// The greater of two numbers.
pub open spec fn greater(a: int, b: int) -> int {
    if a >= b {
        a
    } else {
        b
    }
}

/// The most cells that any of the first `n` rows has.
pub open spec fn most_cells(rows: Seq<Seq<Seq<char>>>, n: int) -> int
    decreases n,
{
    if n <= 0 || n > rows.len() {
        0
    } else {
        greater(most_cells(rows, n - 1), rows[n - 1].len() as int)
    }
}

/// The number of columns of the table: the most cells that any row has, the
/// separator row included.
pub open spec fn table_columns(aligns: Seq<Align>, rows: Seq<Seq<Seq<char>>>) -> int {
    greater(aligns.len() as int, most_cells(rows, rows.len() as int))
}

/// Cell `c` of a row; a row that is too short is filled up with cells of one space.
pub open spec fn cell_at(row: Seq<Seq<char>>, c: int) -> Seq<char> {
    if 0 <= c < row.len() {
        row[c]
    } else {
        seq![' ']
    }
}

/// The alignment of column `c`; unmarked where the separator row states none.
pub open spec fn align_at(aligns: Seq<Align>, c: int) -> Align {
    if 0 <= c < aligns.len() {
        aligns[c]
    } else {
        Align::Unmarked
    }
}

/// The width of column `c` over the first `n` rows: that of its widest cell, and
/// at least 2.
pub open spec fn width_upto(rows: Seq<Seq<Seq<char>>>, c: int, n: int) -> int
    decreases n,
{
    if n <= 0 || n > rows.len() {
        2
    } else {
        greater(width_upto(rows, c, n - 1), cell_at(rows[n - 1], c).len() as int)
    }
}

/// The width of column `c`.
pub open spec fn column_width(rows: Seq<Seq<Seq<char>>>, c: int) -> int {
    width_upto(rows, c, rows.len() as int)
}

/// A cell filled up with spaces to `width` characters, placed as `align` says. A
/// centered cell with an odd number of spaces to share gets the extra one on the right.
pub open spec fn justified(cell: Seq<char>, align: Align, width: int) -> Seq<char> {
    let pad = if width > cell.len() {
        (width - cell.len()) as nat
    } else {
        0nat
    };
    match align {
        Align::Center => repeat(' ', pad / 2) + cell + repeat(' ', (pad - pad / 2) as nat),
        Align::Right => repeat(' ', pad) + cell,
        Align::Left => cell + repeat(' ', pad),
        Align::Unmarked => cell + repeat(' ', pad),
    }
}

/// The character that a separator cell of `align` begins with.
pub open spec fn first_mark(align: Align) -> char {
    match align {
        Align::Center => ':',
        Align::Left => ':',
        Align::Right => '-',
        Align::Unmarked => '-',
    }
}

/// The character that a separator cell of `align` ends with.
pub open spec fn last_mark(align: Align) -> char {
    match align {
        Align::Center => ':',
        Align::Right => ':',
        Align::Left => '-',
        Align::Unmarked => '-',
    }
}

/// A separator cell of `width` characters: dashes between the two ends that the
/// cell was written with.
pub open spec fn separator_cell(align: Align, width: int) -> Seq<char> {
    let dashes = repeat(
        '-',
        if width > 2 {
            (width - 2) as nat
        } else {
            0nat
        },
    );
    seq![first_mark(align)] + dashes + seq![last_mark(align)]
}

/// A separator cell keeps its two ends as they were written: a cell of colons and
/// dashes is rendered with the character that it began with first and the
/// character that it ended with last.
pub proof fn separator_keeps_its_ends(cell: Seq<char>, width: int)
    requires
        trim(cell).len() > 0,
        trim(cell)[0] == ':' || trim(cell)[0] == '-',
        trim(cell).last() == ':' || trim(cell).last() == '-',
    ensures
        separator_cell(align_of(cell), width)[0] == trim(cell)[0],
        separator_cell(align_of(cell), width).last() == trim(cell).last(),
{
}

/// The cells of a rendered content row.
pub open spec fn rendered_cells(
    row: Seq<Seq<char>>,
    aligns: Seq<Align>,
    rows: Seq<Seq<Seq<char>>>,
    columns: int,
) -> Seq<Seq<char>> {
    Seq::new(
        columns as nat,
        |c: int| justified(cell_at(row, c), align_at(aligns, c), column_width(rows, c)),
    )
}

/// The cells of the rendered separator row.
pub open spec fn separator_cells(
    aligns: Seq<Align>,
    rows: Seq<Seq<Seq<char>>>,
    columns: int,
) -> Seq<Seq<char>> {
    Seq::new(columns as nat, |c: int| separator_cell(align_at(aligns, c), column_width(rows, c)))
}

/// A rendered row: its cells between pipes, with a line feed.
pub open spec fn rendered(cells: Seq<Seq<char>>) -> Seq<char> {
    seq!['|'] + join(cells, '|') + seq!['|', '\n']
}

/// The table that the run `input` is formatted to, line by line; `None` where the
/// run is no table. The separator row comes first where it came first, else second.
pub open spec fn table_formatted(input: Seq<Seq<char>>) -> Option<Seq<Seq<char>>> {
    let lines = kept_lines(input);
    if !is_table(lines) {
        None
    } else {
        let aligns = stated_aligns(lines);
        let rows = content_rows(lines);
        let columns = table_columns(aligns, rows);
        let body = Seq::new(
            rows.len(),
            |k: int| rendered(rendered_cells(rows[k], aligns, rows, columns)),
        );
        let separator = rendered(separator_cells(aligns, rows, columns));
        if first_separator(lines, 0) == 0 {
            Some(seq![separator] + body)
        } else {
            Some(body.take(1).push(separator) + body.skip(1))
        }
    }
}

/// The views of the rows of a table.
pub open spec fn rows_view(rows: Seq<Vec<Vec<char>>>) -> Seq<Seq<Seq<char>>> {
    rows.map_values(|r: Vec<Vec<char>>| views(r@))
}

/// A cell filled up with spaces to `width` characters, placed as `align` says.
pub fn justify(cell: &Vec<char>, align: Align, width: usize) -> (r: Vec<char>)
    ensures
        r@ == justified(cell@, align, width as int),
{
    let pad: usize = if width > cell.len() { width - cell.len() } else { 0 };
    let mut r: Vec<char> = Vec::new();
    match align {
        Align::Center => {
            let left = pad / 2;
            push_repeat(&mut r, ' ', left);
            push_all(&mut r, cell);
            push_repeat(&mut r, ' ', pad - left);
        },
        Align::Right => {
            push_repeat(&mut r, ' ', pad);
            push_all(&mut r, cell);
        },
        Align::Left => {
            push_all(&mut r, cell);
            push_repeat(&mut r, ' ', pad);
        },
        Align::Unmarked => {
            push_all(&mut r, cell);
            push_repeat(&mut r, ' ', pad);
        },
    }
    assert(r@ =~= justified(cell@, align, width as int));
    r
}

/// A separator cell of `width` characters.
pub fn make_separator_cell(align: Align, width: usize) -> (r: Vec<char>)
    ensures
        r@ == separator_cell(align, width as int),
{
    let dashes: usize = if width > 2 { width - 2 } else { 0 };
    let mut r: Vec<char> = Vec::new();
    match align {
        Align::Center => {
            r.push(':');
            push_repeat(&mut r, '-', dashes);
            r.push(':');
        },
        Align::Right => {
            r.push('-');
            push_repeat(&mut r, '-', dashes);
            r.push(':');
        },
        Align::Left => {
            r.push(':');
            push_repeat(&mut r, '-', dashes);
            r.push('-');
        },
        Align::Unmarked => {
            r.push('-');
            push_repeat(&mut r, '-', dashes);
            r.push('-');
        },
    }
    assert(r@ =~= separator_cell(align, width as int));
    r
}

/// A rendered row: its cells between pipes, with a line feed.
pub fn render(cells: &Vec<Vec<char>>) -> (r: Vec<char>)
    ensures
        r@ == rendered(views(cells@)),
{
    let mut r: Vec<char> = Vec::new();
    r.push('|');
    let inner = joined(cells, '|');
    push_all(&mut r, &inner);
    r.push('|');
    r.push('\n');
    assert(r@ =~= rendered(views(cells@)));
    r
}

/// The lines of a run without their line feeds, the empty ones left out.
pub fn keep_lines(input: &Vec<Vec<char>>) -> (r: Vec<Vec<char>>)
    ensures
        views(r@) == kept_lines(views(input@)),
{
    let mut r: Vec<Vec<char>> = Vec::new();
    let mut i: usize = 0;
    while i < input.len()
        invariant
            i <= input.len(),
            views(r@) == kept_lines(views(input@.take(i as int))),
        decreases input.len() - i,
    {
        assert(views(input@.take(i + 1)).drop_last() =~= views(input@.take(i as int)));
        assert(views(input@.take(i + 1)).last() == input@[i as int]@);
        let l = trimmed_end_char(&input[i], '\n');
        if l.len() > 0 {
            let ghost before = views(r@);
            r.push(l);
            assert(views(r@) =~= before.push(l@));
        }
        i += 1;
    }
    assert(input@.take(input.len() as int) =~= input@);
    r
}

/// Whether `lines` can be formatted as a table.
pub fn can_format(lines: &Vec<Vec<char>>) -> (r: bool)
    ensures
        r == is_table(views(lines@)),
{
    if lines.len() < 2 {
        return false;
    }
    let ghost ls = views(lines@);
    let mut i: usize = 0;
    while i < lines.len()
        invariant
            i <= lines.len(),
            ls == views(lines@),
            forall|j: int|
                0 <= j < i ==> (#[trigger] ls[j]).contains('|') && column_count(ls[j]) > 0,
        decreases lines.len() - i,
    {
        assert(ls[i as int] == lines@[i as int]@);
        if !has_char(&lines[i], '|') || count_columns_chars(&lines[i]) == 0 {
            return false;
        }
        i += 1;
    }
    true
}

/// The index of the first separator row; the number of lines where there is none.
pub fn find_separator(lines: &Vec<Vec<char>>) -> (r: usize)
    ensures
        r == first_separator(views(lines@), 0),
        r <= lines.len(),
{
    let ghost ls = views(lines@);
    let mut i: usize = 0;
    while i < lines.len()
        invariant
            i <= lines.len(),
            ls == views(lines@),
            first_separator(ls, 0) == first_separator(ls, i as int),
        decreases lines.len() - i,
    {
        assert(ls[i as int] == lines@[i as int]@);
        if is_separator_row_chars(&lines[i]) {
            return i;
        }
        i += 1;
    }
    i
}

/// The alignments that the table states.
pub fn read_aligns(lines: &Vec<Vec<char>>, sep: usize) -> (r: Vec<Align>)
    requires
        lines.len() >= 1,
        sep == first_separator(views(lines@), 0),
    ensures
        r@ == stated_aligns(views(lines@)),
{
    let ghost ls = views(lines@);
    let mut r: Vec<Align> = Vec::new();
    if sep < lines.len() {
        assert(ls[sep as int] == lines@[sep as int]@);
        let cells = cells_of(&lines[sep]);
        let mut i: usize = 0;
        while i < cells.len()
            invariant
                i <= cells.len(),
                r.len() == i,
                forall|j: int| 0 <= j < i ==> #[trigger] r@[j] == align_of(cells@[j]@),
            decreases cells.len() - i,
        {
            r.push(alignment(&cells[i]));
            i += 1;
        }
        assert(r@ =~= views(cells@).map_values(|c: Seq<char>| align_of(c)));
    } else {
        assert(ls[0] == lines@[0]@);
        let n = count_columns_chars(&lines[0]);
        let mut i: usize = 0;
        while i < n
            invariant
                i <= n,
                r.len() == i,
                forall|j: int| 0 <= j < i ==> #[trigger] r@[j] == Align::Unmarked,
            decreases n - i,
        {
            r.push(Align::Unmarked);
            i += 1;
        }
        assert(r@ =~= Seq::new(n as nat, |c: int| Align::Unmarked));
    }
    r
}

/// The cells of a content row, each trimmed and padded.
pub fn read_row(line: &Vec<char>) -> (r: Vec<Vec<char>>)
    ensures
        views(r@) == row_cells(line@),
{
    let cells = cells_of(line);
    let mut r: Vec<Vec<char>> = Vec::new();
    let mut i: usize = 0;
    while i < cells.len()
        invariant
            i <= cells.len(),
            r.len() == i,
            forall|j: int| 0 <= j < i ==> (#[trigger] r@[j])@ == padded_cell(cells@[j]@),
        decreases cells.len() - i,
    {
        let inner = trimmed(&cells[i]);
        let mut c: Vec<char> = Vec::new();
        c.push(' ');
        push_all(&mut c, &inner);
        c.push(' ');
        assert(c@ =~= padded_cell(cells@[i as int]@));
        r.push(c);
        i += 1;
    }
    assert(views(r@) =~= views(cells@).map_values(|c: Seq<char>| padded_cell(c)));
    r
}

/// The cells of the content rows.
pub fn read_rows(lines: &Vec<Vec<char>>, sep: usize) -> (r: Vec<Vec<Vec<char>>>)
    requires
        sep == first_separator(views(lines@), 0),
        sep <= lines.len(),
    ensures
        rows_view(r@) == content_rows(views(lines@)),
{
    let ghost ls = views(lines@);
    let mut r: Vec<Vec<Vec<char>>> = Vec::new();
    let mut i: usize = 0;
    while i < lines.len()
        invariant
            i <= lines.len(),
            sep <= lines.len(),
            ls == views(lines@),
            r.len() == if i <= sep {
                i as int
            } else {
                i - 1
            },
            forall|k: int|
                0 <= k < r.len() ==> views((#[trigger] r@[k])@) == row_cells(
                    ls[if k < sep {
                        k
                    } else {
                        k + 1
                    }],
                ),
        decreases lines.len() - i,
    {
        if i != sep {
            assert(ls[i as int] == lines@[i as int]@);
            r.push(read_row(&lines[i]));
        }
        i += 1;
    }
    assert(rows_view(r@) =~= content_rows(ls));
    r
}

/// The number of columns of the table.
pub fn count_table_columns(aligns: &Vec<Align>, rows: &Vec<Vec<Vec<char>>>) -> (r: usize)
    ensures
        r == table_columns(aligns@, rows_view(rows@)),
{
    let ghost rs = rows_view(rows@);
    let mut most: usize = 0;
    let mut i: usize = 0;
    while i < rows.len()
        invariant
            i <= rows.len(),
            rs == rows_view(rows@),
            most == most_cells(rs, i as int),
        decreases rows.len() - i,
    {
        assert(rs[i as int] == views(rows@[i as int]@));
        if rows[i].len() > most {
            most = rows[i].len();
        }
        i += 1;
    }
    if aligns.len() >= most {
        aligns.len()
    } else {
        most
    }
}

/// The width of each column.
pub fn measure_columns(rows: &Vec<Vec<Vec<char>>>, columns: usize) -> (r: Vec<usize>)
    ensures
        r.len() == columns,
        forall|c: int| 0 <= c < columns ==> #[trigger] r@[c] == column_width(rows_view(rows@), c),
{
    let ghost rs = rows_view(rows@);
    let mut r: Vec<usize> = Vec::new();
    let mut c: usize = 0;
    while c < columns
        invariant
            c <= columns,
            rs == rows_view(rows@),
            r.len() == c,
            forall|d: int| 0 <= d < c ==> #[trigger] r@[d] == column_width(rs, d),
        decreases columns - c,
    {
        let mut w: usize = 2;
        let mut k: usize = 0;
        while k < rows.len()
            invariant
                k <= rows.len(),
                rs == rows_view(rows@),
                w == width_upto(rs, c as int, k as int),
            decreases rows.len() - k,
        {
            assert(rs[k as int] == views(rows@[k as int]@));
            let n: usize = if c < rows[k].len() {
                assert(views(rows@[k as int]@)[c as int] == rows@[k as int]@[c as int]@);
                rows[k][c].len()
            } else {
                1
            };
            if n > w {
                w = n;
            }
            k += 1;
        }
        r.push(w);
        c += 1;
    }
    r
}

/// A content row rendered.
fn render_row(
    row: &Vec<Vec<char>>,
    aligns: &Vec<Align>,
    widths: &Vec<usize>,
    columns: usize,
    Ghost(rows): Ghost<Seq<Seq<Seq<char>>>>,
) -> (r: Vec<char>)
    requires
        widths.len() == columns,
        forall|c: int| 0 <= c < columns ==> #[trigger] widths@[c] == column_width(rows, c),
    ensures
        r@ == rendered(rendered_cells(views(row@), aligns@, rows, columns as int)),
{
    let mut cells: Vec<Vec<char>> = Vec::new();
    let mut c: usize = 0;
    while c < columns
        invariant
            c <= columns,
            widths.len() == columns,
            forall|c: int| 0 <= c < columns ==> #[trigger] widths@[c] == column_width(rows, c),
            cells.len() == c,
            forall|d: int|
                0 <= d < c ==> (#[trigger] cells@[d])@ == justified(
                    cell_at(views(row@), d),
                    align_at(aligns@, d),
                    column_width(rows, d),
                ),
        decreases columns - c,
    {
        let a = if c < aligns.len() { aligns[c] } else { Align::Unmarked };
        let cell = if c < row.len() {
            assert(views(row@)[c as int] == row@[c as int]@);
            justify(&row[c], a, widths[c])
        } else {
            let mut filler: Vec<char> = Vec::new();
            filler.push(' ');
            assert(filler@ =~= seq![' ']);
            justify(&filler, a, widths[c])
        };
        cells.push(cell);
        c += 1;
    }
    assert(views(cells@) =~= rendered_cells(views(row@), aligns@, rows, columns as int));
    render(&cells)
}

/// The separator row rendered.
fn render_separator(
    aligns: &Vec<Align>,
    widths: &Vec<usize>,
    columns: usize,
    Ghost(rows): Ghost<Seq<Seq<Seq<char>>>>,
) -> (r: Vec<char>)
    requires
        widths.len() == columns,
        forall|c: int| 0 <= c < columns ==> #[trigger] widths@[c] == column_width(rows, c),
    ensures
        r@ == rendered(separator_cells(aligns@, rows, columns as int)),
{
    let mut cells: Vec<Vec<char>> = Vec::new();
    let mut c: usize = 0;
    while c < columns
        invariant
            c <= columns,
            widths.len() == columns,
            forall|c: int| 0 <= c < columns ==> #[trigger] widths@[c] == column_width(rows, c),
            cells.len() == c,
            forall|d: int|
                0 <= d < c ==> (#[trigger] cells@[d])@ == separator_cell(
                    align_at(aligns@, d),
                    column_width(rows, d),
                ),
        decreases columns - c,
    {
        let a = if c < aligns.len() { aligns[c] } else { Align::Unmarked };
        cells.push(make_separator_cell(a, widths[c]));
        c += 1;
    }
    assert(views(cells@) =~= separator_cells(aligns@, rows, columns as int));
    render(&cells)
}

/// Formats a run of lines as a table; `None` where the run is no table.
pub fn normalize_table_formatting_chars(table_lines: &Vec<Vec<char>>) -> (r: Option<
    Vec<Vec<char>>,
>)
    ensures
        match r {
            Some(v) => table_formatted(views(table_lines@)) == Some(views(v@)),
            None => table_formatted(views(table_lines@)) is None,
        },
{
    let lines = keep_lines(table_lines);
    if !can_format(&lines) {
        return None;
    }
    let ghost ls = views(lines@);
    let sep = find_separator(&lines);
    let aligns = read_aligns(&lines, sep);
    let rows = read_rows(&lines, sep);
    let ghost rs = rows_view(rows@);
    let columns = count_table_columns(&aligns, &rows);
    let widths = measure_columns(&rows, columns);
    let separator = render_separator(&aligns, &widths, columns, Ghost(rs));
    let ghost body = Seq::new(
        rs.len(),
        |k: int| rendered(rendered_cells(rs[k], aligns@, rs, columns as int)),
    );
    let mut out: Vec<Vec<char>> = Vec::new();
    if sep == 0 {
        out.push(copy(&separator));
    }
    let mut k: usize = 0;
    while k < rows.len()
        invariant
            k <= rows.len(),
            rs == rows_view(rows@),
            widths.len() == columns,
            forall|c: int| 0 <= c < columns ==> #[trigger] widths@[c] == column_width(rs, c),
            body == Seq::new(
                rs.len(),
                |k: int| rendered(rendered_cells(rs[k], aligns@, rs, columns as int)),
            ),
            views(out@) == if sep == 0 {
                seq![separator@] + body.take(k as int)
            } else if k >= 1 {
                body.take(1).push(separator@) + body.subrange(1, k as int)
            } else {
                body.take(0)
            },
        decreases rows.len() - k,
    {
        assert(rs[k as int] == views(rows@[k as int]@));
        let ghost before = views(out@);
        let line = render_row(&rows[k], &aligns, &widths, columns, Ghost(rs));
        assert(line@ == body[k as int]);
        out.push(line);
        assert(views(out@) =~= before.push(line@));
        if sep != 0 && k == 0 {
            out.push(copy(&separator));
            assert(views(out@) =~= before.push(line@).push(separator@));
            assert(views(out@) =~= body.take(1).push(separator@) + body.subrange(1, 1));
        } else if sep == 0 {
            assert(views(out@) =~= seq![separator@] + body.take(k + 1));
        } else {
            assert(body.subrange(1, k + 1) =~= body.subrange(1, k as int).push(line@));
            assert(views(out@) =~= body.take(1).push(separator@) + body.subrange(1, k + 1));
        }
        k += 1;
    }
    proof {
        assert(rs.len() >= 1) by {
            assert(ls.len() >= 2);
        }
        assert(body.take(rs.len() as int) =~= body);
        assert(body.subrange(1, rs.len() as int) =~= body.skip(1));
    }
    Some(out)
}

/// Formats a run of lines as a table; `None` where the run is no table.
pub fn normalize_table_formatting(table_lines: &Vec<String>) -> (r: Option<Vec<String>>)
    ensures
        match r {
            Some(v) => table_formatted(string_views(table_lines@)) == Some(string_views(v@)),
            None => table_formatted(string_views(table_lines@)) is None,
        },
{
    let lines = all_to_chars(table_lines);
    match normalize_table_formatting_chars(&lines) {
        Some(v) => Some(all_to_strings(&v)),
        None => None,
    }
}

proof fn width_at_least_two(rows: Seq<Seq<Seq<char>>>, c: int, n: int)
    ensures
        width_upto(rows, c, n) >= 2,
    decreases n,
{
    if 0 < n <= rows.len() {
        width_at_least_two(rows, c, n - 1);
    }
}

proof fn width_covers(rows: Seq<Seq<Seq<char>>>, c: int, n: int, k: int)
    requires
        0 <= k < n <= rows.len(),
    ensures
        width_upto(rows, c, n) >= cell_at(rows[k], c).len(),
    decreases n,
{
    if k < n - 1 {
        width_covers(rows, c, n - 1, k);
    }
}

/// Every cell of a column is rendered as wide as the column, and so is the
/// column's cell of the separator row. The column is at least 2 wide and as wide
/// as its widest cell, which holds its content and a space on each side.
pub proof fn cells_fill_their_column(
    rows: Seq<Seq<Seq<char>>>,
    aligns: Seq<Align>,
    k: int,
    c: int,
)
    requires
        0 <= k < rows.len(),
    ensures
        column_width(rows, c) >= 2,
        column_width(rows, c) >= cell_at(rows[k], c).len(),
        justified(cell_at(rows[k], c), align_at(aligns, c), column_width(rows, c)).len()
            == column_width(rows, c),
        separator_cell(align_at(aligns, c), column_width(rows, c)).len() == column_width(rows, c),
{
    width_covers(rows, c, rows.len() as int, k);
    width_at_least_two(rows, c, rows.len() as int);
}

/// A cell of a content row is its trimmed content with one space on each side.
pub proof fn cell_is_padded(cell: Seq<char>)
    ensures
        padded_cell(cell).len() == trim(cell).len() + 2,
        padded_cell(cell)[0] == ' ',
        padded_cell(cell).last() == ' ',
{
}

proof fn join_length(v: Seq<Seq<char>>, w: Seq<Seq<char>>)
    requires
        v.len() == w.len(),
        forall|c: int| 0 <= c < v.len() ==> (#[trigger] v[c]).len() == w[c].len(),
    ensures
        join(v, '|').len() == join(w, '|').len(),
    decreases v.len(),
{
    if v.len() > 1 {
        assert forall|c: int| 0 <= c < v.drop_last().len() implies (#[trigger] v.drop_last()[c]).len()
            == w.drop_last()[c].len() by {
            assert(v.drop_last()[c] == v[c] && w.drop_last()[c] == w[c]);
        }
        join_length(v.drop_last(), w.drop_last());
        assert(v.last() == v[v.len() - 1] && w.last() == w[w.len() - 1]);
    } else if v.len() == 1 {
        assert(v[0].len() == w[0].len());
    }
}

proof fn row_is_as_long_as_separator(
    rows: Seq<Seq<Seq<char>>>,
    aligns: Seq<Align>,
    columns: int,
    k: int,
)
    requires
        0 <= k < rows.len(),
        0 <= columns,
    ensures
        rendered(rendered_cells(rows[k], aligns, rows, columns)).len() == rendered(
            separator_cells(aligns, rows, columns),
        ).len(),
{
    let cells = rendered_cells(rows[k], aligns, rows, columns);
    let marks = separator_cells(aligns, rows, columns);
    assert forall|c: int| 0 <= c < cells.len() implies (#[trigger] cells[c]).len()
        == marks[c].len() by {
        cells_fill_their_column(rows, aligns, k, c);
    }
    join_length(cells, marks);
}

/// The lines of a formatted table are all equally long: each row holds, between
/// its pipes, one cell of each column at the column's width, and so does the
/// separator row.
pub proof fn table_lines_are_equally_long(input: Seq<Seq<char>>, i: int, j: int)
    requires
        table_formatted(input) is Some,
        0 <= i < table_formatted(input)->0.len(),
        0 <= j < table_formatted(input)->0.len(),
    ensures
        table_formatted(input)->0[i].len() == table_formatted(input)->0[j].len(),
{
    let lines = kept_lines(input);
    let aligns = stated_aligns(lines);
    let rows = content_rows(lines);
    let columns = table_columns(aligns, rows);
    let body = Seq::new(
        rows.len(),
        |k: int| rendered(rendered_cells(rows[k], aligns, rows, columns)),
    );
    let separator = rendered(separator_cells(aligns, rows, columns));
    let v = table_formatted(input)->0;
    assert forall|q: int| 0 <= q < v.len() implies (#[trigger] v[q]).len() == separator.len() by {
        if first_separator(lines, 0) == 0 {
            if q > 0 {
                assert(v[q] == body[q - 1]);
                row_is_as_long_as_separator(rows, aligns, columns, q - 1);
            }
        } else {
            if q == 0 {
                assert(v[q] == body[0]);
                row_is_as_long_as_separator(rows, aligns, columns, 0);
            } else if q >= 2 {
                assert(v[q] == body[q - 1]);
                row_is_as_long_as_separator(rows, aligns, columns, q - 1);
            }
        }
    }
}

/// A rendered cell holds the text of the cell as it was written: what is left of
/// it when whitespace is trimmed away is what is left of the written cell.
pub proof fn cell_keeps_its_text(cell: Seq<char>, align: Align, width: int)
    ensures
        trim(justified(padded_cell(cell), align, width)) == trim(cell),
{
    let t = trim(cell);
    let p = padded_cell(cell);
    let pad = if width > p.len() {
        (width - p.len()) as nat
    } else {
        0nat
    };
    trim_is_clean(cell);
    let one = repeat(' ', 1);
    assert(p =~= one + t + one);
    match align {
        Align::Center => {
            trim_of_padded(t, pad / 2 + 1, (pad - pad / 2) as nat + 1);
            assert(justified(p, align, width) =~= repeat(' ', pad / 2 + 1) + t + repeat(
                ' ',
                (pad - pad / 2) as nat + 1,
            ));
        },
        Align::Right => {
            trim_of_padded(t, pad + 1, 1);
            assert(justified(p, align, width) =~= repeat(' ', pad + 1) + t + repeat(' ', 1));
        },
        Align::Left => {
            trim_of_padded(t, 1, pad + 1);
            assert(justified(p, align, width) =~= repeat(' ', 1) + t + repeat(' ', pad + 1));
        },
        Align::Unmarked => {
            trim_of_padded(t, 1, pad + 1);
            assert(justified(p, align, width) =~= repeat(' ', 1) + t + repeat(' ', pad + 1));
        },
    }
}

} // verus!
