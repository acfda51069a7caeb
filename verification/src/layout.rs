//! The layout of a table: what each column holds and how wide it is, how a row
//! is split into physical lines, and how a line of cells and a border line are
//! written.

use vstd::prelude::*;
use crate::cell::{Cell, CellView};
use crate::number::{all_zeros, zeros_only};
use crate::style::{one_line_border, one_line_row, Align, DataRow, DataRowView, Line, LineView};
use crate::text::{
    all_one_line,
    display_width,
    from_chars,
    join,
    joined,
    largest,
    largest_of,
    lines,
    naturals,
    one_line,
    push_repeated,
    push_spaces,
    repeated,
    replace_first,
    replace_first_occurrence,
    spaces,
    split_lines,
    str_width,
    text_width,
    to_chars,
    trim_end,
    trim_trailing,
    widest,
    lemma_first_occurrence,
    lemma_largest_bounds,
    lemma_largest_is_reached,
    lemma_lines_hold_no_break,
    lemma_one_line_joined,
    lemma_one_line_repeated,
    lemma_trim_end,
    lemma_widest_bounds,
};
use crate::unstyle::{StyledText, TextView};
use crate::Headers;

verus! {

/// The room that is added to the width of a header.
pub const MIN_PADDING: u128 = 2;

/// What a column holds: whether it is made of numbers only, and the largest
/// number of fraction digits among its numbers.
#[derive(Clone, Copy, PartialEq, Eq, Structural, Debug)]
pub struct ColSpec {
    pub all_numeric: bool,
    pub max_fraction_digits: usize,
}

/// What a column holds, as mathematical values.
pub struct ColSpecView {
    pub all_numeric: bool,
    pub max_fraction_digits: nat,
}

impl View for ColSpec {
    type V = ColSpecView;

    open spec fn view(&self) -> ColSpecView {
        ColSpecView {
            all_numeric: self.all_numeric,
            max_fraction_digits: self.max_fraction_digits as nat,
        }
    }
}

impl DeepView for ColSpec {
    type V = ColSpecView;

    open spec fn deep_view(&self) -> ColSpecView {
        self@
    }
}

/// The alignments and the columns that a row is laid out in.
pub struct Columns {
    pub str_align: Align,
    pub num_align: Align,
    pub widths: Seq<nat>,
    pub specs: Seq<ColSpecView>,
}

impl Columns {
    /// The alignment of column `c`: that of numbers where the column is
    /// numeric, and else that of texts.
    pub open spec fn align(self, c: int) -> Align {
        if self.specs[c].all_numeric {
            self.num_align
        } else {
            self.str_align
        }
    }
}

/// The larger of two numbers.
pub open spec fn larger(a: nat, b: nat) -> nat {
    if a >= b {
        a
    } else {
        b
    }
}

/// The widths as natural numbers.
pub open spec fn nats(widths: Seq<u128>) -> Seq<nat> {
    Seq::new(widths.len(), |i: int| widths[i] as nat)
}

/// The length of the longest row.
pub open spec fn longest_row(rows: Seq<Seq<CellView>>) -> nat
    decreases rows.len(),
{
    if rows.len() == 0 {
        0
    } else {
        larger(longest_row(rows.drop_last()), rows.last().len())
    }
}

/// The number of columns of a table: the length of its headers or of its
/// longest row, whichever is larger.
pub open spec fn column_count(rows: Seq<Seq<CellView>>, headers: Option<Seq<TextView>>) -> nat {
    larger(
        match headers {
            Some(h) => h.len(),
            None => 0,
        },
        longest_row(rows),
    )
}

/// Whether some row has a cell in column `c`.
pub open spec fn column_has_cell(rows: Seq<Seq<CellView>>, c: int) -> bool
    decreases rows.len(),
{
    rows.len() > 0 && (column_has_cell(rows.drop_last(), c) || c < rows.last().len())
}

/// Whether some row has a text in column `c`.
pub open spec fn column_has_text(rows: Seq<Seq<CellView>>, c: int) -> bool
    decreases rows.len(),
{
    rows.len() > 0 && (column_has_text(rows.drop_last(), c) || (c < rows.last().len()
        && !rows.last()[c].is_number()))
}

/// The largest number of fraction digits among the cells of column `c`.
pub open spec fn column_digits(rows: Seq<Seq<CellView>>, c: int) -> nat
    decreases rows.len(),
{
    if rows.len() == 0 {
        0
    } else {
        larger(
            column_digits(rows.drop_last(), c),
            if c < rows.last().len() {
                rows.last()[c].fraction_digits()
            } else {
                0
            },
        )
    }
}

/// What column `c` holds. A column is numeric where it has a cell and every
/// cell that it has is a number; a row too short to reach the column says
/// nothing about it.
pub open spec fn column_spec(rows: Seq<Seq<CellView>>, c: int) -> ColSpecView {
    ColSpecView {
        all_numeric: column_has_cell(rows, c) && !column_has_text(rows, c),
        max_fraction_digits: column_digits(rows, c),
    }
}

/// What each of the first `n` columns holds.
pub open spec fn column_specs(rows: Seq<Seq<CellView>>, n: nat) -> Seq<ColSpecView> {
    Seq::new(n, |c: int| column_spec(rows, c))
}

/// Whether the cells of a column are measured as numerals of a fixed number
/// of fraction digits.
pub open spec fn measures_fixed(spec: ColSpecView, num_align: Align) -> bool {
    spec.all_numeric && num_align == Align::Decimal && spec.max_fraction_digits > 0
}

/// The width that a cell asks of its column: the length of its numeral with
/// the column's fraction digits where the column is measured so, and else the
/// display width of the widest line of what it shows by default.
pub open spec fn cell_width(cell: CellView, spec: ColSpecView, num_align: Align) -> nat {
    match cell {
        CellView::Text(t) => widest(lines(t.plain)) as nat,
        _ => if measures_fixed(spec, num_align) {
            cell.fixed(spec.max_fraction_digits)->0.len()
        } else {
            widest(lines(cell.natural()->0)) as nat
        },
    }
}

/// What the header of column `c` measures: the display width of its widest
/// line; `None` where the column has no header.
pub open spec fn header_measure(headers: Option<Seq<TextView>>, c: int) -> Option<nat> {
    match headers {
        Some(h) => if 0 <= c < h.len() {
            Some(widest(lines(h[c].plain)))
        } else {
            None
        },
        None => None,
    }
}

/// What the cells of column `c` measure, row by row; 0 for a row that does not
/// reach the column.
pub open spec fn column_measures(rows: Seq<Seq<CellView>>, spec: ColSpecView, num_align: Align, c: int) -> Seq<
    nat,
> {
    Seq::new(
        rows.len(),
        |r: int| if c < rows[r].len() {
            cell_width(rows[r][c], spec, num_align)
        } else {
            0
        },
    )
}

/// The width of a column, given what its header and its cells measure: the
/// largest of the cells' measures and of the header's with the padding.
pub open spec fn width_from(header: Option<nat>, cells: Seq<nat>) -> nat {
    larger(
        match header {
            Some(h) => h + MIN_PADDING as nat,
            None => 0,
        },
        largest(cells),
    )
}

/// The width of column `c`.
pub open spec fn column_width(
    rows: Seq<Seq<CellView>>,
    headers: Option<Seq<TextView>>,
    specs: Seq<ColSpecView>,
    num_align: Align,
    c: int,
) -> nat {
    width_from(header_measure(headers, c), column_measures(rows, specs[c], num_align, c))
}

/// The width of each column.
pub open spec fn column_widths(
    rows: Seq<Seq<CellView>>,
    headers: Option<Seq<TextView>>,
    specs: Seq<ColSpecView>,
    num_align: Align,
) -> Seq<nat> {
    Seq::new(specs.len(), |c: int| column_width(rows, headers, specs, num_align, c))
}

/// The number of spaces that fill a line of the display width `dw` up to the
/// width; none where the line is as wide or wider.
pub open spec fn padding(dw: nat, width: nat) -> nat {
    if width > dw {
        (width - dw) as nat
    } else {
        0
    }
}

/// The position of the last point in `s`, or -1 where it holds none.
pub open spec fn last_point(s: Seq<char>) -> int
    decreases s.len(),
{
    if s.len() == 0 {
        -1
    } else if s.last() == '.' {
        s.len() - 1
    } else {
        last_point(s.drop_last())
    }
}

/// `s` with its last point and what follows it turned into spaces, where only
/// zeros follow it; else `s` as it is.
pub open spec fn blank_zero_fraction(s: Seq<char>) -> Seq<char> {
    let dot = last_point(s);
    if dot >= 0 && all_zeros(s.skip(dot + 1)) {
        s.take(dot) + spaces((s.len() - dot) as nat)
    } else {
        s
    }
}

/// A line of the display width `dw` filled up with spaces to the width. In the
/// middle, the odd space goes to the right. By the decimal point, the line
/// goes to the right and a fraction of zeros only is blanked out.
pub open spec fn justified_as(s: Seq<char>, dw: nat, align: Align, width: nat) -> Seq<char> {
    let pad = padding(dw, width);
    match align {
        Align::Left => s + spaces(pad),
        Align::Right => spaces(pad) + s,
        Align::Center => spaces(pad / 2) + s + spaces((pad - pad / 2) as nat),
        Align::Decimal => blank_zero_fraction(spaces(pad) + s),
    }
}

/// A line filled up with spaces to the width, by its display width.
pub open spec fn justified(s: Seq<char>, align: Align, width: nat) -> Seq<char> {
    justified_as(s, display_width(s) as nat, align, width)
}

/// Line `i` of a cell, given the lines of its plain and of its written text:
/// the plain line justified, with the written line put in its place where the
/// two differ in length. A cell without a line `i` gives spaces.
pub open spec fn formatted_line(
    plain: Seq<Seq<char>>,
    text: Seq<Seq<char>>,
    i: int,
    align: Align,
    width: nat,
) -> Seq<char> {
    if 0 <= i < plain.len() {
        let j = justified(plain[i], align, width);
        if i < text.len() && text[i].len() != plain[i].len() {
            replace_first(j, plain[i], text[i])
        } else {
            j
        }
    } else {
        spaces(width)
    }
}

/// Line `i` of a cell, formatted for a column of the given alignment and width.
pub open spec fn formatted(t: TextView, i: int, align: Align, width: nat) -> Seq<char> {
    formatted_line(lines(t.plain), lines(t.text), i, align, width)
}

/// The number of physical lines of a row: the largest number of lines among
/// its cells, 0 for a row without cells.
pub open spec fn row_height(texts: Seq<TextView>) -> nat
    decreases texts.len(),
{
    if texts.len() == 0 {
        0
    } else {
        larger(row_height(texts.drop_last()), lines(texts.last().text).len())
    }
}

/// Physical line `i` of a row: line `i` of each of its cells.
pub open spec fn physical_line(texts: Seq<TextView>, i: int, cols: Columns) -> Seq<Seq<char>> {
    Seq::new(texts.len(), |c: int| formatted(texts[c], i, cols.align(c), cols.widths[c]))
}

/// The physical lines of a row.
pub open spec fn data_lines(texts: Seq<TextView>, cols: Columns) -> Seq<Seq<Seq<char>>> {
    Seq::new(row_height(texts), |i: int| physical_line(texts, i, cols))
}

/// The first `col_nb` of the given cells, with empty cells where they run out.
pub open spec fn filled(content: Seq<Seq<char>>, col_nb: nat) -> Seq<Seq<char>> {
    Seq::new(
        col_nb,
        |c: int| if c < content.len() {
            content[c]
        } else {
            Seq::empty()
        },
    )
}

/// A line of cells: the beginning, the cells with the separator between them
/// and the end, without trailing white space.
pub open spec fn data_line(row: DataRowView, col_nb: nat, content: Seq<Seq<char>>) -> Seq<char> {
    trim_end(row.begin + joined(filled(content, col_nb), row.sep) + row.end)
}

/// The filling of a border line, column by column.
pub open spec fn fillings(hline: Seq<char>, widths: Seq<nat>) -> Seq<Seq<char>> {
    Seq::new(widths.len(), |c: int| repeated(hline, widths[c]))
}

/// A border line: the beginning, the filling of each column with the separator
/// between them and the end, without trailing white space.
pub open spec fn border_line(line: LineView, widths: Seq<nat>) -> Seq<char> {
    trim_end(line.begin + joined(fillings(line.hline, widths), line.sep) + line.end)
}

/// The physical lines of a row, each written as a line of cells.
pub open spec fn block(row: DataRowView, col_nb: nat, texts: Seq<TextView>, cols: Columns) -> Seq<Seq<char>> {
    Seq::new(row_height(texts), |i: int| data_line(row, col_nb, physical_line(texts, i, cols)))
}

/// What a cell shows in a column whose numbers have `digits` fraction digits:
/// a text shows itself, a number its numeral with that many fraction digits.
pub open spec fn shown(cell: CellView, digits: nat) -> TextView {
    match cell {
        CellView::Text(t) => t,
        _ => TextView::of_plain(cell.fixed(digits)->0),
    }
}

/// What a row shows, column by column; a column that the row does not reach
/// shows an empty text.
pub open spec fn row_texts(row: Seq<CellView>, specs: Seq<ColSpecView>) -> Seq<TextView> {
    Seq::new(
        specs.len(),
        |c: int| if c < row.len() {
            shown(row[c], specs[c].max_fraction_digits)
        } else {
            TextView::of_plain(Seq::empty())
        },
    )
}

/// The headers of the first `col_nb` columns; a column without a header shows
/// an empty text.
pub open spec fn header_texts(headers: Seq<TextView>, col_nb: nat) -> Seq<TextView> {
    Seq::new(
        col_nb,
        |c: int| if c < headers.len() {
            headers[c]
        } else {
            TextView::of_plain(Seq::empty())
        },
    )
}

/// What a cell shows by default, styling left out: a text its plain form, a
/// number its default numeral.
pub open spec fn plain_text(cell: CellView) -> Seq<char> {
    match cell {
        CellView::Text(t) => t.plain,
        _ => cell.natural()->0,
    }
}

/// No row is longer than the longest.
pub proof fn lemma_longest_row(rows: Seq<Seq<CellView>>, r: int)
    requires
        0 <= r < rows.len(),
    ensures
        rows[r].len() <= longest_row(rows),
    decreases rows.len(),
{
    if r < rows.len() - 1 {
        lemma_longest_row(rows.drop_last(), r);
    }
}

/// A column is numeric exactly where some row has a cell in it and every cell
/// that a row has in it is a number.
pub proof fn lemma_column_numeric(rows: Seq<Seq<CellView>>, c: int)
    requires
        0 <= c,
    ensures
        column_spec(rows, c).all_numeric <==> (exists|r: int| 0 <= r < rows.len() && c < rows[r].len())
            && (forall|r: int| 0 <= r < rows.len() && c < rows[r].len() ==> rows[r][c].is_number()),
    decreases rows.len(),
{
    if rows.len() > 0 {
        let before = rows.drop_last();
        lemma_column_numeric(before, c);
        lemma_column_cells(before, c);
        lemma_column_cells(rows, c);
        if column_spec(rows, c).all_numeric {
            assert forall|r: int| 0 <= r < rows.len() && c < rows[r].len() implies rows[r][c].is_number() by {
                if r < before.len() {
                    assert(before[r] == rows[r]);
                    if !before[r][c].is_number() {
                        lemma_column_texts(before, c, r);
                    }
                }
            }
        }
        if (exists|r: int| 0 <= r < rows.len() && c < rows[r].len()) && (forall|r: int|
            0 <= r < rows.len() && c < rows[r].len() ==> rows[r][c].is_number()) {
            if column_has_text(rows, c) {
                let r = lemma_text_of_column(rows, c);
                assert(!rows[r][c].is_number());
            }
        }
    }
}

/// A column has a cell exactly where some row reaches it.
pub proof fn lemma_column_cells(rows: Seq<Seq<CellView>>, c: int)
    ensures
        column_has_cell(rows, c) <==> exists|r: int| 0 <= r < rows.len() && c < rows[r].len(),
    decreases rows.len(),
{
    if rows.len() > 0 {
        let before = rows.drop_last();
        lemma_column_cells(before, c);
        if column_has_cell(rows, c) {
            if c < rows.last().len() {
                assert(c < rows[rows.len() - 1].len());
            } else {
                let r = choose|r: int| 0 <= r < before.len() && c < before[r].len();
                assert(c < rows[r].len());
            }
        }
        if exists|r: int| 0 <= r < rows.len() && c < rows[r].len() {
            let r = choose|r: int| 0 <= r < rows.len() && c < rows[r].len();
            if r < before.len() {
                assert(c < before[r].len());
            }
        }
    }
}

/// A text in row `r` of column `c` makes the column one that has a text.
pub proof fn lemma_column_texts(rows: Seq<Seq<CellView>>, c: int, r: int)
    requires
        0 <= r < rows.len(),
        0 <= c < rows[r].len(),
        !rows[r][c].is_number(),
    ensures
        column_has_text(rows, c),
    decreases rows.len(),
{
    if r < rows.len() - 1 {
        lemma_column_texts(rows.drop_last(), c, r);
    }
}

/// A column that has a text has it in some row.
pub proof fn lemma_text_of_column(rows: Seq<Seq<CellView>>, c: int) -> (r: int)
    requires
        column_has_text(rows, c),
    ensures
        0 <= r < rows.len(),
        c < rows[r].len(),
        !rows[r][c].is_number(),
    decreases rows.len(),
{
    if column_has_text(rows.drop_last(), c) {
        lemma_text_of_column(rows.drop_last(), c)
    } else {
        rows.len() - 1
    }
}

/// No cell of a column has more fraction digits than the column's largest
/// number of them.
pub proof fn lemma_column_digits(rows: Seq<Seq<CellView>>, c: int, r: int)
    requires
        0 <= r < rows.len(),
        0 <= c < rows[r].len(),
    ensures
        rows[r][c].fraction_digits() <= column_digits(rows, c),
    decreases rows.len(),
{
    if r < rows.len() - 1 {
        lemma_column_digits(rows.drop_last(), c, r);
    }
}

/// The height of a row is at least the number of lines of each of its cells.
pub proof fn lemma_row_height(texts: Seq<TextView>, c: int)
    requires
        0 <= c < texts.len(),
    ensures
        lines(texts[c].text).len() <= row_height(texts),
    decreases texts.len(),
{
    if c < texts.len() - 1 {
        lemma_row_height(texts.drop_last(), c);
    }
}

/// The height of a row with cells is the number of lines of one of them.
pub proof fn lemma_row_height_is_reached(texts: Seq<TextView>)
    requires
        texts.len() > 0,
    ensures
        exists|c: int| 0 <= c < texts.len() && lines(texts[c].text).len() == row_height(texts),
    decreases texts.len(),
{
    let before = texts.drop_last();
    let n = lines(texts.last().text).len();
    if before.len() == 0 || n >= row_height(before) {
        assert(before.len() == 0 ==> row_height(before) == 0);
        assert(texts.last() == texts[texts.len() - 1]);
        assert(lines(texts[texts.len() - 1].text).len() == row_height(texts));
    } else {
        lemma_row_height_is_reached(before);
        let c = choose|c: int| 0 <= c < before.len() && lines(before[c].text).len() == row_height(before);
        assert(lines(texts[c].text).len() == row_height(texts));
    }
}

/// A column is at least as wide as each line of its header and the padding.
pub proof fn lemma_width_covers_header(
    rows: Seq<Seq<CellView>>,
    headers: Seq<TextView>,
    specs: Seq<ColSpecView>,
    num_align: Align,
    c: int,
    i: int,
)
    requires
        0 <= c < headers.len(),
        0 <= i < lines(headers[c].plain).len(),
    ensures
        column_width(rows, Some(headers), specs, num_align, c) >= display_width(
            lines(headers[c].plain)[i],
        ) + MIN_PADDING,
{
    lemma_widest_bounds(lines(headers[c].plain), i);
}

/// A column is at least as wide as what each of its cells asks for: as every
/// line of what the cell shows by default, but in a column of numbers aligned
/// by the decimal point with fraction digits, where it is as wide as the
/// cell's numeral with the column's fraction digits is long.
pub proof fn lemma_width_covers_cells(
    rows: Seq<Seq<CellView>>,
    headers: Option<Seq<TextView>>,
    specs: Seq<ColSpecView>,
    num_align: Align,
    r: int,
    c: int,
)
    requires
        0 <= r < rows.len(),
        0 <= c < rows[r].len(),
    ensures
        column_width(rows, headers, specs, num_align, c) >= cell_width(rows[r][c], specs[c], num_align),
        !measures_fixed(specs[c], num_align) ==> forall|i: int|
            0 <= i < lines(plain_text(rows[r][c])).len() ==> column_width(rows, headers, specs, num_align, c)
                >= display_width(#[trigger] lines(plain_text(rows[r][c]))[i]),
        measures_fixed(specs[c], num_align) && rows[r][c].is_number() ==> column_width(
            rows,
            headers,
            specs,
            num_align,
            c,
        ) >= rows[r][c].fixed(specs[c].max_fraction_digits)->0.len(),
{
    lemma_largest_bounds(column_measures(rows, specs[c], num_align, c), r);
    if !measures_fixed(specs[c], num_align) {
        let ls = lines(plain_text(rows[r][c]));
        assert(cell_width(rows[r][c], specs[c], num_align) == widest(ls));
        assert forall|i: int| 0 <= i < ls.len() implies column_width(rows, headers, specs, num_align, c)
            >= display_width(#[trigger] ls[i]) by {
            lemma_widest_bounds(ls, i);
        }
    }
}

/// The width of a column is asked for by its header or by one of its cells,
/// or it is 0.
pub proof fn lemma_width_is_reached(header: Option<nat>, cells: Seq<nat>)
    ensures
        width_from(header, cells) == 0 || (header is Some && width_from(header, cells) == header->0
            + MIN_PADDING) || exists|r: int| 0 <= r < cells.len() && cells[r] == width_from(header, cells),
{
    if cells.len() > 0 {
        lemma_largest_is_reached(cells);
    }
}

/// The last point stands within the text, or there is none.
pub proof fn lemma_last_point(s: Seq<char>)
    ensures
        -1 <= last_point(s) < s.len(),
        last_point(s) >= 0 ==> s[last_point(s)] == '.',
        forall|i: int| last_point(s) < i < s.len() ==> s[i] != '.',
    decreases s.len(),
{
    if s.len() > 0 && s.last() != '.' {
        let t = s.drop_last();
        lemma_last_point(t);
        assert forall|i: int| last_point(s) < i < s.len() implies s[i] != '.' by {
            if i < t.len() {
                assert(s[i] == t[i]);
            }
        }
    }
}

/// A line without a line break has none when it is filled up.
pub proof fn lemma_justified_one_line(s: Seq<char>, align: Align, width: nat)
    requires
        one_line(s),
    ensures
        one_line(justified(s, align, width)),
{
    lemma_last_point(spaces(padding(display_width(s) as nat, width)) + s);
}

/// A formatted line of a cell holds no line break.
pub proof fn lemma_formatted_one_line(t: TextView, i: int, align: Align, width: nat)
    ensures
        one_line(formatted(t, i, align, width)),
{
    let plain = lines(t.plain);
    let text = lines(t.text);
    if 0 <= i < plain.len() {
        lemma_lines_hold_no_break(t.plain);
        assert(one_line(plain[i]));
        lemma_justified_one_line(plain[i], align, width);
        let j = justified(plain[i], align, width);
        if i < text.len() && text[i].len() != plain[i].len() {
            lemma_lines_hold_no_break(t.text);
            assert(one_line(text[i]));
            lemma_first_occurrence(j, plain[i]);
        }
    }
}

/// A line of cells holds no line break where its cells and the texts around
/// them hold none.
pub proof fn lemma_data_line_one_line(row: DataRowView, col_nb: nat, content: Seq<Seq<char>>)
    requires
        one_line_row(row),
        all_one_line(content),
    ensures
        one_line(data_line(row, col_nb, content)),
{
    let cells = filled(content, col_nb);
    assert forall|c: int| 0 <= c < cells.len() implies one_line(#[trigger] cells[c]) by {
        if c < content.len() {
            assert(one_line(content[c]));
        }
    }
    lemma_one_line_joined(cells, row.sep);
    lemma_trim_end(row.begin + joined(cells, row.sep) + row.end);
}

/// A border line holds no line break where its texts hold none.
pub proof fn lemma_border_line_one_line(line: LineView, widths: Seq<nat>)
    requires
        one_line_border(line),
    ensures
        one_line(border_line(line, widths)),
{
    let parts = fillings(line.hline, widths);
    assert forall|c: int| 0 <= c < parts.len() implies one_line(#[trigger] parts[c]) by {
        lemma_one_line_repeated(line.hline, widths[c]);
    }
    lemma_one_line_joined(parts, line.sep);
    lemma_trim_end(line.begin + joined(parts, line.sep) + line.end);
}

/// No line of a row holds a line break where the texts around its cells hold
/// none.
pub proof fn lemma_block_one_line(row: DataRowView, col_nb: nat, texts: Seq<TextView>, cols: Columns)
    requires
        one_line_row(row),
    ensures
        all_one_line(block(row, col_nb, texts, cols)),
{
    let b = block(row, col_nb, texts, cols);
    assert forall|i: int| 0 <= i < b.len() implies one_line(#[trigger] b[i]) by {
        let cells = physical_line(texts, i, cols);
        assert forall|c: int| 0 <= c < cells.len() implies one_line(#[trigger] cells[c]) by {
            lemma_formatted_one_line(texts[c], i, cols.align(c), cols.widths[c]);
        }
        lemma_data_line_one_line(row, col_nb, cells);
    }
}

/// What each of the first `col_nb` columns of the table holds.
pub fn get_col_specs(col_nb: usize, contents: &Vec<Vec<Cell>>) -> (specs: Vec<ColSpec>)
    ensures
        specs.deep_view() == column_specs(contents.deep_view(), col_nb as nat),
{
    let ghost rows = contents.deep_view();
    let mut specs: Vec<ColSpec> = Vec::new();
    let mut col: usize = 0;
    while col < col_nb
        invariant
            col <= col_nb,
            rows == contents.deep_view(),
            specs.deep_view() == column_specs(rows, col as nat),
        decreases col_nb - col,
    {
        let mut max: usize = 0;
        let mut any = false;
        let mut text = false;
        let mut r: usize = 0;
        while r < contents.len()
            invariant
                r <= contents.len(),
                rows == contents.deep_view(),
                any == column_has_cell(rows.take(r as int), col as int),
                text == column_has_text(rows.take(r as int), col as int),
                max == column_digits(rows.take(r as int), col as int),
            decreases contents.len() - r,
        {
            proof {
                assert(rows.take(r + 1).drop_last() =~= rows.take(r as int));
                assert(rows.take(r + 1).last() == contents[r as int].deep_view());
            }
            if col < contents[r].len() {
                let cell = &contents[r][col];
                assert(contents[r as int].deep_view()[col as int] == cell@);
                any = true;
                if cell.is_a_number() {
                    let d = cell.digits_len();
                    if d > max {
                        max = d;
                    }
                } else {
                    text = true;
                }
            }
            r += 1;
        }
        assert(rows.take(contents.len() as int) =~= rows);
        let ghost done = specs.deep_view();
        let spec = ColSpec { all_numeric: any && !text, max_fraction_digits: max };
        assert(spec@ == column_spec(rows, col as int));
        specs.push(spec);
        assert(specs.deep_view() =~= done.push(spec@));
        assert(specs.deep_view() =~= column_specs(rows, (col + 1) as nat));
        col += 1;
    }
    specs
}

/// The width that a cell asks of its column.
pub fn get_cell_width(cell: &Cell, spec: &ColSpec, num_align: &Align) -> (w: usize)
    ensures
        w == cell_width(cell@, spec@, *num_align),
{
    match cell {
        Cell::Text(t) => text_width(t.plain.as_str()),
        _ => {
            if spec.all_numeric && *num_align == Align::Decimal && spec.max_fraction_digits > 0 {
                match cell.to_string_with_precision(spec.max_fraction_digits) {
                    Some(s) => s.as_str().unicode_len(),
                    None => 0,
                }
            } else {
                match cell.to_string() {
                    Some(s) => text_width(s.as_str()),
                    None => 0,
                }
            }
        },
    }
}

/// The width of a column, given what its header and its cells measure.
pub fn column_width_from(header: Option<usize>, cells: &Vec<usize>) -> (w: u128)
    ensures
        w == width_from(
            match header {
                Some(h) => Some(h as nat),
                None => None,
            },
            naturals(cells@),
        ),
{
    let most = largest_of(cells) as u128;
    let head: u128 = match header {
        Some(h) => h as u128 + MIN_PADDING,
        None => 0,
    };
    if head >= most {
        head
    } else {
        most
    }
}

/// The width of each column: the largest that its header and its cells ask for.
pub fn get_col_width(
    col_nb: usize,
    headers: &Option<Headers>,
    contents: &Vec<Vec<Cell>>,
    col_spec: &Vec<ColSpec>,
    num_align: &Align,
) -> (widths: Vec<u128>)
    requires
        col_spec.len() == col_nb,
    ensures
        nats(widths@) == column_widths(
            contents.deep_view(),
            headers.deep_view(),
            col_spec.deep_view(),
            *num_align,
        ),
        widths.len() == col_nb,
{
    let ghost rows = contents.deep_view();
    let ghost heads = headers.deep_view();
    let ghost specs = col_spec.deep_view();
    let mut widths: Vec<u128> = Vec::new();
    let mut col: usize = 0;
    while col < col_nb
        invariant
            col <= col_nb,
            col_spec.len() == col_nb,
            rows == contents.deep_view(),
            heads == headers.deep_view(),
            specs == col_spec.deep_view(),
            widths.len() == col,
            forall|c: int| 0 <= c < col ==> widths@[c] as nat == column_width(rows, heads, specs, *num_align, c),
        decreases col_nb - col,
    {
        let header: Option<usize> = match headers {
            Some(h) => match h.get(col) {
                Some(t) => Some(text_width(t.plain.as_str())),
                None => None,
            },
            None => None,
        };
        let spec = &col_spec[col];
        assert(spec@ == specs[col as int]);
        let mut cells: Vec<usize> = Vec::new();
        let mut r: usize = 0;
        while r < contents.len()
            invariant
                r <= contents.len(),
                rows == contents.deep_view(),
                cells.len() == r,
                forall|k: int| 0 <= k < r ==> cells@[k] as nat == column_measures(rows, spec@, *num_align, col as int)[k],
            decreases contents.len() - r,
        {
            assert(rows[r as int] == contents[r as int].deep_view());
            if col < contents[r].len() {
                let cell = &contents[r][col];
                assert(contents[r as int].deep_view()[col as int] == cell@);
                cells.push(get_cell_width(cell, spec, num_align));
            } else {
                cells.push(0);
            }
            r += 1;
        }
        assert(naturals(cells@) =~= column_measures(rows, spec@, *num_align, col as int));
        widths.push(column_width_from(header, &cells));
        col += 1;
    }
    assert(nats(widths@) =~= column_widths(rows, heads, specs, *num_align));
    widths
}

/// `s` with a fraction of zeros only blanked out.
pub fn blank_fraction(s: &str) -> (out: String)
    ensures
        out@ == blank_zero_fraction(s@),
{
    let v = to_chars(s);
    let mut k: usize = v.len();
    assert(v@.take(k as int) =~= v@);
    while k > 0 && v[k - 1] != '.'
        invariant
            k <= v.len(),
            last_point(v@) == last_point(v@.take(k as int)),
        decreases k,
    {
        assert(v@.take(k as int).drop_last() =~= v@.take(k - 1));
        k -= 1;
    }
    if k > 0 && zeros_only(&v, k) {
        let mut out = from_chars(&v, 0, k - 1);
        push_spaces(&mut out, (v.len() - (k - 1)) as u128);
        assert(v@.take(k - 1) =~= v@.subrange(0, k - 1));
        out
    } else {
        assert(v@.subrange(0, v.len() as int) =~= v@);
        from_chars(&v, 0, v.len())
    }
}

/// The line of the display width `dw` filled up with spaces to the width.
pub fn justify_as(s: &str, dw: usize, align: &Align, width: u128) -> (out: String)
    ensures
        out@ == justified_as(s@, dw as nat, *align, width as nat),
{
    let pad: u128 = if width > dw as u128 {
        width - dw as u128
    } else {
        0
    };
    let mut out = String::new();
    match align {
        Align::Left => {
            out.append(s);
            push_spaces(&mut out, pad);
            assert(out@ =~= s@ + spaces(pad as nat));
            out
        },
        Align::Right => {
            push_spaces(&mut out, pad);
            out.append(s);
            assert(out@ =~= spaces(pad as nat) + s@);
            out
        },
        Align::Center => {
            let left: u128 = pad / 2;
            push_spaces(&mut out, left);
            out.append(s);
            push_spaces(&mut out, pad - left);
            assert(out@ =~= spaces(left as nat) + s@ + spaces((pad - left) as nat));
            out
        },
        Align::Decimal => {
            push_spaces(&mut out, pad);
            out.append(s);
            assert(out@ =~= spaces(pad as nat) + s@);
            blank_fraction(out.as_str())
        },
    }
}

/// The line filled up with spaces to the width, by its display width.
pub fn justify(s: &str, align: &Align, width: u128) -> (out: String)
    ensures
        out@ == justified(s@, *align, width as nat),
{
    let dw = str_width(s);
    justify_as(s, dw, align, width)
}

/// Line `line_idx` of a cell whose plain and written lines are given.
pub fn format_line(
    plain: &Vec<String>,
    text: &Vec<String>,
    line_idx: usize,
    align: &Align,
    width: u128,
) -> (out: String)
    ensures
        out@ == formatted_line(
            plain.deep_view(),
            text.deep_view(),
            line_idx as int,
            *align,
            width as nat,
        ),
{
    if line_idx < plain.len() {
        let unstyled = plain[line_idx].as_str();
        let out = justify(unstyled, align, width);
        if line_idx < text.len() {
            let styled = text[line_idx].as_str();
            if styled.unicode_len() != unstyled.unicode_len() {
                return replace_first_occurrence(out.as_str(), unstyled, styled);
            }
        }
        out
    } else {
        let mut out = String::new();
        push_spaces(&mut out, width);
        assert(out@ =~= spaces(width as nat));
        out
    }
}

/// Line `line_idx` of a styled text, formatted for a column of the given
/// alignment and width.
pub fn format_unstylable(word: &StyledText, line_idx: usize, align: &Align, width: u128) -> (out:
    String)
    ensures
        out@ == formatted(word@, line_idx as int, *align, width as nat),
{
    let plain = split_lines(word.plain.as_str());
    let text = split_lines(word.text.as_str());
    format_line(&plain, &text, line_idx, align, width)
}

/// The physical lines of a row, each as the formatted lines of its cells.
pub fn create_data_lines(
    content: &Vec<StyledText>,
    str_align: &Align,
    num_align: &Align,
    col_width: &Vec<u128>,
    col_spec: &Vec<ColSpec>,
) -> (out: Vec<Vec<String>>)
    requires
        content.len() <= col_width.len(),
        content.len() <= col_spec.len(),
    ensures
        out.deep_view() == data_lines(
            content.deep_view(),
            Columns {
                str_align: *str_align,
                num_align: *num_align,
                widths: nats(col_width@),
                specs: col_spec.deep_view(),
            },
        ),
{
    let ghost texts = content.deep_view();
    let ghost cols = Columns {
        str_align: *str_align,
        num_align: *num_align,
        widths: nats(col_width@),
        specs: col_spec.deep_view(),
    };
    let mut plains: Vec<Vec<String>> = Vec::new();
    let mut writtens: Vec<Vec<String>> = Vec::new();
    let mut lines_nb: usize = 0;
    let mut c: usize = 0;
    while c < content.len()
        invariant
            c <= content.len(),
            texts == content.deep_view(),
            plains.len() == c,
            writtens.len() == c,
            forall|k: int| 0 <= k < c ==> (#[trigger] plains[k]).deep_view() == lines(texts[k].plain),
            forall|k: int| 0 <= k < c ==> (#[trigger] writtens[k]).deep_view() == lines(texts[k].text),
            lines_nb == row_height(texts.take(c as int)),
        decreases content.len() - c,
    {
        let p = split_lines(content[c].plain.as_str());
        let w = split_lines(content[c].text.as_str());
        proof {
            assert(texts.take(c + 1).drop_last() =~= texts.take(c as int));
            assert(texts.take(c + 1).last() == content[c as int]@);
        }
        if w.len() > lines_nb {
            lines_nb = w.len();
        }
        plains.push(p);
        writtens.push(w);
        c += 1;
    }
    assert(texts.take(content.len() as int) =~= texts);
    let mut out: Vec<Vec<String>> = Vec::new();
    let mut i: usize = 0;
    while i < lines_nb
        invariant
            i <= lines_nb,
            lines_nb == row_height(texts),
            texts == content.deep_view(),
            content.len() <= col_width.len(),
            content.len() <= col_spec.len(),
            cols == (Columns {
                str_align: *str_align,
                num_align: *num_align,
                widths: nats(col_width@),
                specs: col_spec.deep_view(),
            }),
            plains.len() == content.len(),
            writtens.len() == content.len(),
            forall|k: int| 0 <= k < content.len() ==> (#[trigger] plains[k]).deep_view() == lines(texts[k].plain),
            forall|k: int| 0 <= k < content.len() ==> (#[trigger] writtens[k]).deep_view() == lines(texts[k].text),
            out.len() == i,
            forall|k: int| 0 <= k < i ==> (#[trigger] out[k]).deep_view() == physical_line(texts, k, cols),
        decreases lines_nb - i,
    {
        let mut line: Vec<String> = Vec::new();
        let mut col: usize = 0;
        while col < content.len()
            invariant
                col <= content.len(),
                texts == content.deep_view(),
                content.len() <= col_width.len(),
                content.len() <= col_spec.len(),
                cols == (Columns {
                    str_align: *str_align,
                    num_align: *num_align,
                    widths: nats(col_width@),
                    specs: col_spec.deep_view(),
                }),
                plains.len() == content.len(),
                writtens.len() == content.len(),
                forall|k: int| 0 <= k < content.len() ==> (#[trigger] plains[k]).deep_view() == lines(texts[k].plain),
                forall|k: int| 0 <= k < content.len() ==> (#[trigger] writtens[k]).deep_view() == lines(texts[k].text),
                line.len() == col,
                forall|k: int| 0 <= k < col ==> (#[trigger] line[k])@ == formatted(texts[k], i as int, cols.align(k), cols.widths[k]),
            decreases content.len() - col,
        {
            let align = if col_spec[col].all_numeric {
                num_align
            } else {
                str_align
            };
            assert(col_spec.deep_view()[col as int] == col_spec[col as int]@);
            let f = format_line(&plains[col], &writtens[col], i, align, col_width[col]);
            line.push(f);
            col += 1;
        }
        assert(line.deep_view() =~= physical_line(texts, i as int, cols));
        out.push(line);
        i += 1;
    }
    assert(out.deep_view() =~= data_lines(texts, cols));
    out
}

/// A border line for columns of the given widths.
pub fn create_line(line: &Line, col_width: &Vec<u128>) -> (out: String)
    ensures
        out@ == border_line(line@, nats(col_width@)),
{
    let ghost widths = nats(col_width@);
    let mut parts: Vec<String> = Vec::new();
    let mut c: usize = 0;
    while c < col_width.len()
        invariant
            c <= col_width.len(),
            widths == nats(col_width@),
            parts.len() == c,
            forall|k: int| 0 <= k < c ==> (#[trigger] parts[k])@ == repeated(line.hline@, widths[k]),
        decreases col_width.len() - c,
    {
        let mut part = String::new();
        push_repeated(&mut part, line.hline.as_str(), col_width[c]);
        assert(part@ =~= repeated(line.hline@, widths[c as int]));
        parts.push(part);
        c += 1;
    }
    assert(parts.deep_view() =~= fillings(line.hline@, widths));
    let middle = join(&parts, line.sep.as_str());
    let mut whole = line.begin.clone();
    whole.append(middle.as_str());
    whole.append(line.end.as_str());
    trim_trailing(whole.as_str())
}

/// A line of `col_nb` cells, with empty cells where `content` runs out.
pub fn create_data_line(row: &DataRow, col_nb: usize, content: &Vec<String>) -> (out: String)
    ensures
        out@ == data_line(row@, col_nb as nat, content.deep_view()),
{
    let ghost cells = content.deep_view();
    let mut v: Vec<String> = Vec::new();
    let mut col: usize = 0;
    while col < col_nb
        invariant
            col <= col_nb,
            cells == content.deep_view(),
            v.len() == col,
            forall|k: int| 0 <= k < col ==> (#[trigger] v[k])@ == filled(cells, col_nb as nat)[k],
        decreases col_nb - col,
    {
        if col < content.len() {
            v.push(content[col].clone());
        } else {
            v.push(String::new());
        }
        col += 1;
    }
    assert(v.deep_view() =~= filled(cells, col_nb as nat));
    let middle = join(&v, row.sep.as_str());
    let mut whole = row.begin.clone();
    whole.append(middle.as_str());
    whole.append(row.end.as_str());
    trim_trailing(whole.as_str())
}

/// The length of the longest row.
pub fn longest_row_len(contents: &Vec<Vec<Cell>>) -> (n: usize)
    ensures
        n == longest_row(contents.deep_view()),
{
    let ghost rows = contents.deep_view();
    let mut n: usize = 0;
    let mut r: usize = 0;
    while r < contents.len()
        invariant
            r <= contents.len(),
            rows == contents.deep_view(),
            n == longest_row(rows.take(r as int)),
        decreases contents.len() - r,
    {
        proof {
            assert(rows.take(r + 1).drop_last() =~= rows.take(r as int));
            assert(rows.take(r + 1).last() == contents[r as int].deep_view());
        }
        if contents[r].len() > n {
            n = contents[r].len();
        }
        r += 1;
    }
    assert(rows.take(contents.len() as int) =~= rows);
    n
}

/// What a cell shows in a column whose numbers have `digits` fraction digits.
pub fn cell_content(cell: &Cell, digits: usize) -> (t: StyledText)
    ensures
        t@ == shown(cell@, digits as nat),
{
    match cell {
        Cell::Text(t) => t.duplicate(),
        _ => match cell.to_string_with_precision(digits) {
            Some(s) => StyledText::from(s.as_str()),
            None => StyledText::from(""),
        },
    }
}

/// What a row shows, column by column.
pub fn row_content(row: &Vec<Cell>, col_spec: &Vec<ColSpec>) -> (out: Vec<StyledText>)
    ensures
        out.deep_view() == row_texts(row.deep_view(), col_spec.deep_view()),
        out.len() == col_spec.len(),
{
    let mut out: Vec<StyledText> = Vec::new();
    let mut c: usize = 0;
    while c < col_spec.len()
        invariant
            c <= col_spec.len(),
            out.len() == c,
            forall|k: int| 0 <= k < c ==> (#[trigger] out[k])@ == row_texts(row.deep_view(), col_spec.deep_view())[k],
        decreases col_spec.len() - c,
    {
        if c < row.len() {
            assert(row.deep_view()[c as int] == row[c as int]@);
            assert(col_spec.deep_view()[c as int] == col_spec[c as int]@);
            out.push(cell_content(&row[c], col_spec[c].max_fraction_digits));
        } else {
            let t = StyledText::from("");
            assert(t@.text =~= Seq::<char>::empty()) by {
                reveal_strlit("");
            }
            out.push(t);
        }
        c += 1;
    }
    assert(out.deep_view() =~= row_texts(row.deep_view(), col_spec.deep_view()));
    out
}

/// The headers of the first `col_nb` columns.
pub fn header_content(headers: &Headers, col_nb: usize) -> (out: Vec<StyledText>)
    ensures
        out.deep_view() == header_texts(headers@, col_nb as nat),
        out.len() == col_nb,
{
    let mut out: Vec<StyledText> = Vec::new();
    let mut c: usize = 0;
    while c < col_nb
        invariant
            c <= col_nb,
            out.len() == c,
            forall|k: int| 0 <= k < c ==> (#[trigger] out[k])@ == header_texts(headers@, col_nb as nat)[k],
        decreases col_nb - c,
    {
        match headers.get(c) {
            Some(t) => {
                out.push(t.duplicate());
            },
            None => {
                let t = StyledText::from("");
                assert(t@.text =~= Seq::<char>::empty()) by {
                    reveal_strlit("");
                }
                out.push(t);
            },
        }
        c += 1;
    }
    assert(out.deep_view() =~= header_texts(headers@, col_nb as nat));
    out
}

/// Appends one line to the lines.
pub fn push_line(lines: &mut Vec<String>, line: String)
    ensures
        final(lines).deep_view() == old(lines).deep_view().push(line@),
{
    let ghost before = lines.deep_view();
    lines.push(line);
    assert(lines.deep_view() =~= before.push(line@));
}

/// Appends the physical lines of a row, each written as a line of cells.
pub fn push_block(
    lines: &mut Vec<String>,
    row: &DataRow,
    col_nb: usize,
    content: &Vec<StyledText>,
    str_align: &Align,
    num_align: &Align,
    col_width: &Vec<u128>,
    col_spec: &Vec<ColSpec>,
)
    requires
        content.len() <= col_width.len(),
        content.len() <= col_spec.len(),
    ensures
        final(lines).deep_view() == old(lines).deep_view() + block(
            row@,
            col_nb as nat,
            content.deep_view(),
            Columns {
                str_align: *str_align,
                num_align: *num_align,
                widths: nats(col_width@),
                specs: col_spec.deep_view(),
            },
        ),
{
    let ghost cols = Columns {
        str_align: *str_align,
        num_align: *num_align,
        widths: nats(col_width@),
        specs: col_spec.deep_view(),
    };
    let ghost texts = content.deep_view();
    let ghost all = block(row@, col_nb as nat, texts, cols);
    let data = create_data_lines(content, str_align, num_align, col_width, col_spec);
    let mut i: usize = 0;
    assert(all.take(0) =~= Seq::<Seq<char>>::empty());
    assert(lines.deep_view() + all.take(0) =~= lines.deep_view());
    assert(data.deep_view().len() == data.len());
    while i < data.len()
        invariant
            i <= data.len(),
            all.len() == data.len(),
            data.deep_view() == data_lines(texts, cols),
            all == block(row@, col_nb as nat, texts, cols),
            lines.deep_view() == old(lines).deep_view() + all.take(i as int),
        decreases data.len() - i,
    {
        let line = create_data_line(row, col_nb, &data[i]);
        assert(data.deep_view()[i as int] == data[i as int].deep_view());
        assert(line@ == all[i as int]);
        push_line(lines, line);
        assert(all.take(i + 1) =~= all.take(i as int).push(all[i as int]));
        assert(lines.deep_view() =~= old(lines).deep_view() + all.take(i + 1));
        i += 1;
    }
    assert(all.take(data.len() as int) =~= all);
}

} // verus!
