//! Tables as text: a grid of cells, laid out in columns and framed by the
//! border lines of a style.
//!
//! ```text
//! ╒═══════════╤═══════════╕
//! │ strings   │   numbers │
//! ╞═══════════╪═══════════╡
//! │ answer    │   42      │
//! ├───────────┼───────────┤
//! │ pi        │    3.1415 │
//! ╘═══════════╧═══════════╛
//! ```

use vstd::prelude::*;

pub mod cell;
pub mod layout;
pub mod number;
pub mod style;
pub mod text;
pub mod unstyle;

pub use cell::{Cell, FloatText};
pub use style::{Align, BorderStyle, Style};
pub use unstyle::{AsciiEscapedString, StyledText, Unstyle};

use cell::CellView;
use layout::{
    block,
    border_line,
    column_count,
    column_specs,
    column_widths,
    create_line,
    get_col_specs,
    get_col_width,
    header_content,
    header_texts,
    longest_row_len,
    nats,
    push_block,
    push_line,
    row_content,
    row_height,
    row_texts,
    lemma_block_one_line,
    lemma_border_line_one_line,
    ColSpec,
    ColSpecView,
    Columns,
};
use style::{
    format_of,
    lemma_format_is_one_line,
    lemma_painted_is_one_line,
    one_line_format,
    painted_format,
    BorderStyleView,
    TableFormat,
    TableFormatView,
};
use text::{
    all_one_line,
    join,
    joined,
    line_breaks,
    lines,
    one_line,
    lemma_joined_lines,
    lemma_lines_len,
};
use unstyle::TextView;

verus! {

/// The headers of a table, one for each column.
pub struct Headers {
    headers: Vec<StyledText>,
}

impl View for Headers {
    type V = Seq<TextView>;

    closed spec fn view(&self) -> Seq<TextView> {
        self.headers.deep_view()
    }
}

impl DeepView for Headers {
    type V = Seq<TextView>;

    open spec fn deep_view(&self) -> Seq<TextView> {
        self@
    }
}

impl Default for Headers {
    /// No headers.
    fn default() -> (h: Self)
        ensures
            h@ == Seq::<TextView>::empty(),
    {
        let h = Self { headers: Vec::new() };
        assert(h@ =~= Seq::<TextView>::empty());
        h
    }
}

impl Headers {
    /// No headers.
    pub fn new() -> (h: Self)
        ensures
            h@ == Seq::<TextView>::empty(),
    {
        Default::default()
    }

    /// One header without styling for each of the given texts.
    pub fn from(headers: Vec<&str>) -> (h: Self)
        ensures
            h@.len() == headers.len(),
            forall|i: int| 0 <= i < headers.len() ==> h@[i] == TextView::of_plain(headers[i]@),
    {
        let mut v: Vec<StyledText> = Vec::with_capacity(headers.len());
        let mut i: usize = 0;
        while i < headers.len()
            invariant
                i <= headers.len(),
                v.len() == i,
                forall|k: int| 0 <= k < i ==> (#[trigger] v[k])@ == TextView::of_plain(headers[k]@),
            decreases headers.len() - i,
        {
            v.push(StyledText::from(headers[i]));
            i += 1;
        }
        Self { headers: v }
    }

    /// No headers, with room for `capacity` of them.
    pub fn with_capacity(capacity: usize) -> (h: Self)
        ensures
            h@ == Seq::<TextView>::empty(),
    {
        let h = Self { headers: Vec::with_capacity(capacity) };
        assert(h@ =~= Seq::<TextView>::empty());
        h
    }

    /// Adds a header behind the others.
    pub fn push<H: Unstyle + 'static>(&mut self, header: H) -> (ret: &mut Self)
        ensures
            ret@ == old(self)@.push(TextView::of(&header)),
            *final(self) == *final(ret),
    {
        let t = StyledText::new(&header);
        self.headers.push(t);
        assert(self@ =~= old(self)@.push(TextView::of(&header)));
        self
    }

    /// The number of headers.
    pub fn len(&self) -> (n: usize)
        ensures
            n == self@.len(),
    {
        self.headers.len()
    }

    /// The header of column `i`, `None` where the column has none.
    pub fn get(&self, i: usize) -> (r: Option<&StyledText>)
        ensures
            match r {
                Some(t) => i < self@.len() && t@ == self@[i as int],
                None => i >= self@.len(),
            },
    {
        if i < self.headers.len() {
            Some(&self.headers[i])
        } else {
            None
        }
    }

    /// The headers, in the order of the columns.
    pub fn to_ref_vec(&self) -> (v: &Vec<StyledText>)
        ensures
            v.deep_view() == self@,
    {
        &self.headers
    }
}

/// A table as mathematical values: its style, its two alignments, its rows of
/// cells and its headers.
pub struct TableView {
    pub style: Style,
    pub str_align: Align,
    pub num_align: Align,
    pub rows: Seq<Seq<CellView>>,
    pub headers: Option<Seq<TextView>>,
    pub border_style: Option<BorderStyleView>,
}

impl TableView {
    /// The lines and separators of the table's style, painted where the
    /// borders have a style of their own.
    pub open spec fn format(self) -> TableFormatView {
        match self.border_style {
            Some(b) => painted_format(format_of(self.style), b),
            None => format_of(self.style),
        }
    }

    /// The number of columns.
    pub open spec fn column_count(self) -> nat {
        column_count(self.rows, self.headers)
    }

    /// What each column holds.
    pub open spec fn specs(self) -> Seq<ColSpecView> {
        column_specs(self.rows, self.column_count())
    }

    /// The width of each column.
    pub open spec fn widths(self) -> Seq<nat> {
        column_widths(self.rows, self.headers, self.specs(), self.num_align)
    }

    /// The alignments and the columns that the rows are laid out in.
    pub open spec fn columns(self) -> Columns {
        Columns {
            str_align: self.str_align,
            num_align: self.num_align,
            widths: self.widths(),
            specs: self.specs(),
        }
    }

    /// Whether a line is drawn above the table.
    pub open spec fn shows_line_above(self) -> bool {
        self.format().lineabove is Some && !(self.headers is Some
            && self.format().hidelineaboveifheader)
    }

    /// Whether a line is drawn below the table.
    pub open spec fn shows_line_below(self) -> bool {
        self.format().linebelow is Some && !(self.headers is Some
            && self.format().hidelinebelowifheader)
    }

    /// What the header row shows, column by column.
    pub open spec fn header_cells(self) -> Seq<TextView> {
        header_texts(self.headers->0, self.column_count())
    }

    /// What row `r` shows, column by column.
    pub open spec fn row_cells(self, r: int) -> Seq<TextView> {
        row_texts(self.rows[r], self.specs())
    }

    /// The line above the table, where it is drawn.
    pub open spec fn top(self) -> Seq<Seq<char>> {
        if self.shows_line_above() {
            seq![border_line(self.format().lineabove->0, self.widths())]
        } else {
            Seq::empty()
        }
    }

    /// The lines of the headers and the line below them; nothing for a table
    /// without headers.
    pub open spec fn header_block(self) -> Seq<Seq<char>> {
        if self.headers is Some {
            block(self.format().headerrow, self.column_count(), self.header_cells(), self.columns())
                + (if self.format().linebelowheader is Some {
                seq![border_line(self.format().linebelowheader->0, self.widths())]
            } else {
                Seq::empty()
            })
        } else {
            Seq::empty()
        }
    }

    /// The line between row `r` and the row before it, where one is drawn.
    pub open spec fn separator(self, r: int) -> Seq<Seq<char>> {
        if r > 0 && self.format().linebetweenrows is Some {
            seq![border_line(self.format().linebetweenrows->0, self.widths())]
        } else {
            Seq::empty()
        }
    }

    /// The lines of row `r`.
    pub open spec fn row_block(self, r: int) -> Seq<Seq<char>> {
        block(self.format().datarow, self.column_count(), self.row_cells(r), self.columns())
    }

    /// The lines of the first `n` rows, with the lines between them.
    pub open spec fn body(self, n: nat) -> Seq<Seq<char>>
        decreases n,
    {
        if n == 0 {
            Seq::empty()
        } else {
            self.body((n - 1) as nat) + self.separator(n - 1) + self.row_block(n - 1)
        }
    }

    /// The line below the table, where it is drawn.
    pub open spec fn bottom(self) -> Seq<Seq<char>> {
        if self.shows_line_below() {
            seq![border_line(self.format().linebelow->0, self.widths())]
        } else {
            Seq::empty()
        }
    }

    /// The lines of the table, from top to bottom.
    pub open spec fn lines(self) -> Seq<Seq<char>> {
        self.top() + self.header_block() + self.body(self.rows.len()) + self.bottom()
    }

    /// The table as one text: its lines with a line break between each two.
    pub open spec fn rendered(self) -> Seq<char> {
        joined(self.lines(), seq!['\n'])
    }

    /// The number of physical lines of the first `n` rows together.
    pub open spec fn heights(self, n: nat) -> nat
        decreases n,
    {
        if n == 0 {
            0
        } else {
            self.heights((n - 1) as nat) + row_height(self.row_cells(n - 1))
        }
    }

    /// The number of lines that are drawn between the first `n` rows.
    pub open spec fn separators(self, n: nat) -> nat {
        if n > 0 && self.format().linebetweenrows is Some {
            (n - 1) as nat
        } else {
            0
        }
    }

    /// Whether the texts that paint the borders hold no line break.
    pub open spec fn one_line_borders(self) -> bool {
        match self.border_style {
            Some(b) => one_line(b.prefix) && one_line(b.suffix),
            None => true,
        }
    }

    /// The number of lines of the table, counted part by part.
    pub open spec fn line_count(self) -> nat {
        (if self.shows_line_above() {
            1nat
        } else {
            0nat
        }) + self.header_lines() + self.heights(self.rows.len()) + self.separators(self.rows.len())
            + (if self.shows_line_below() {
            1nat
        } else {
            0nat
        })
    }

    /// The number of lines that the headers take, the line below them
    /// included.
    pub open spec fn header_lines(self) -> nat {
        if self.headers is Some {
            row_height(self.header_cells()) + (if self.format().linebelowheader is Some {
                1nat
            } else {
                0nat
            })
        } else {
            0
        }
    }
}

/// The rows of a table take as many lines as their physical lines and the
/// lines between them.
pub proof fn lemma_body_len(t: TableView, n: nat)
    ensures
        t.body(n).len() == t.heights(n) + t.separators(n),
    decreases n,
{
    if n > 0 {
        lemma_body_len(t, (n - 1) as nat);
    }
}

/// The number of lines of a table: one for the line above where it is drawn,
/// the physical lines of the headers and one for the line below them, the
/// physical lines of every row, one between each two rows where the style
/// draws it, and one for the line below where it is drawn.
pub proof fn lemma_line_count(t: TableView)
    ensures
        t.lines().len() == t.line_count(),
{
    lemma_body_len(t, t.rows.len());
}

/// No text of a table's format holds a line break, where the texts that paint
/// its borders hold none.
pub proof fn lemma_format_holds_no_break(t: TableView)
    requires
        t.one_line_borders(),
    ensures
        one_line_format(t.format()),
{
    lemma_format_is_one_line(t.style);
    match t.border_style {
        Some(b) => {
            lemma_painted_is_one_line(format_of(t.style), b);
        },
        None => {},
    }
}

/// No line of the first `n` rows holds a line break.
pub proof fn lemma_body_holds_no_break(t: TableView, n: nat)
    requires
        t.one_line_borders(),
    ensures
        all_one_line(t.body(n)),
    decreases n,
{
    lemma_format_holds_no_break(t);
    if n > 0 {
        lemma_body_holds_no_break(t, (n - 1) as nat);
        lemma_block_one_line(t.format().datarow, t.column_count(), t.row_cells(n - 1), t.columns());
        if t.format().linebetweenrows is Some {
            lemma_border_line_one_line(t.format().linebetweenrows->0, t.widths());
        }
        let before = t.body((n - 1) as nat);
        let sep = t.separator(n - 1);
        let row = t.row_block(n - 1);
        let all = t.body(n);
        assert forall|i: int| 0 <= i < all.len() implies one_line(#[trigger] all[i]) by {
            if i < before.len() {
                assert(all[i] == before[i]);
            } else if i < before.len() + sep.len() {
                assert(all[i] == sep[i - before.len()]);
            } else {
                assert(all[i] == row[i - before.len() - sep.len()]);
            }
        }
    }
}

/// No line of a table holds a line break, where the texts that paint its
/// borders hold none.
pub proof fn lemma_lines_hold_no_break(t: TableView)
    requires
        t.one_line_borders(),
    ensures
        all_one_line(t.lines()),
{
    lemma_format_holds_no_break(t);
    lemma_body_holds_no_break(t, t.rows.len());
    let f = t.format();
    if f.lineabove is Some {
        lemma_border_line_one_line(f.lineabove->0, t.widths());
    }
    if f.linebelowheader is Some {
        lemma_border_line_one_line(f.linebelowheader->0, t.widths());
    }
    if f.linebelow is Some {
        lemma_border_line_one_line(f.linebelow->0, t.widths());
    }
    lemma_block_one_line(f.headerrow, t.column_count(), t.header_cells(), t.columns());
    let top = t.top();
    let head = t.header_block();
    let body = t.body(t.rows.len());
    let bottom = t.bottom();
    let all = t.lines();
    assert(all_one_line(head)) by {
        if t.headers is Some {
            let b = block(f.headerrow, t.column_count(), t.header_cells(), t.columns());
            assert forall|i: int| 0 <= i < head.len() implies one_line(#[trigger] head[i]) by {
                if i < b.len() {
                    assert(head[i] == b[i]);
                }
            }
        }
    }
    assert forall|i: int| 0 <= i < all.len() implies one_line(#[trigger] all[i]) by {
        if i < top.len() {
            assert(all[i] == top[i]);
        } else if i < top.len() + head.len() {
            assert(all[i] == head[i - top.len()]);
        } else if i < top.len() + head.len() + body.len() {
            assert(all[i] == body[i - top.len() - head.len()]);
        } else {
            assert(all[i] == bottom[i - top.len() - head.len() - body.len()]);
        }
    }
}

/// The lines of the text that a table is written as are the lines of the
/// table, and they are as many as its parts have together. This holds of a
/// table that has a line at all (its text is empty else), where the texts that
/// paint its borders hold no line break.
pub proof fn lemma_rendered_lines(t: TableView)
    requires
        t.one_line_borders(),
        t.lines().len() > 0,
    ensures
        lines(t.rendered()) == t.lines(),
        line_breaks(t.rendered()) + 1 == t.line_count(),
{
    lemma_lines_hold_no_break(t);
    lemma_joined_lines(t.lines());
    lemma_lines_len(t.rendered());
    lemma_line_count(t);
}

/// A table: a grid of cells, optional headers, a style and the alignments of
/// texts and of numbers. The alignment of texts is never `Align::Decimal`.
pub struct Table {
    style: Style,
    str_align: Align,
    num_align: Align,
    contents: Vec<Vec<Cell>>,
    headers: Option<Headers>,
    border_style: Option<BorderStyle>,
}

impl View for Table {
    type V = TableView;

    closed spec fn view(&self) -> TableView {
        TableView {
            style: self.style,
            str_align: self.str_align,
            num_align: self.num_align,
            rows: self.contents.deep_view(),
            headers: self.headers.deep_view(),
            border_style: self.border_style.deep_view(),
        }
    }
}

impl Table {
    #[verifier::type_invariant]
    spec fn well_formed(self) -> bool {
        self.str_align != Align::Decimal
    }

    /// A table with texts aligned to the left and numbers by the decimal point.
    pub fn new(style: Style, contents: Vec<Vec<Cell>>, headers: Option<Headers>) -> (t: Self)
        ensures
            t@ == (TableView {
                style,
                str_align: Align::Left,
                num_align: Align::Decimal,
                rows: contents.deep_view(),
                headers: headers.deep_view(),
                border_style: None,
            }),
    {
        Self {
            style,
            str_align: Align::Left,
            num_align: Align::Decimal,
            contents,
            headers,
            border_style: None,
        }
    }

    /// Sets the alignment of texts and that of numbers. Texts cannot be
    /// aligned by the decimal point.
    pub fn set_align(&mut self, str_align: Align, num_align: Align)
        requires
            str_align != Align::Decimal,
        ensures
            final(self)@ == (TableView { str_align, num_align, ..old(self)@ }),
    {
        self.str_align = str_align;
        self.num_align = num_align;
    }

    /// Sets the two alignments where texts are not to be aligned by the
    /// decimal point, and says whether it did; else the table stays as it is.
    pub fn try_set_align(&mut self, str_align: Align, num_align: Align) -> (done: bool)
        ensures
            done == (str_align != Align::Decimal),
            done ==> final(self)@ == (TableView { str_align, num_align, ..old(self)@ }),
            !done ==> final(self)@ == old(self)@,
    {
        if str_align == Align::Decimal {
            false
        } else {
            self.set_align(str_align, num_align);
            true
        }
    }

    /// Sets the style in which the borders are painted.
    pub fn set_border_style(&mut self, style: BorderStyle)
        ensures
            final(self)@ == (TableView { border_style: Some(style@), ..old(self)@ }),
    {
        proof {
            use_type_invariant(&*self);
        }
        self.border_style = Some(style);
    }

    /// The alignment of texts, which is never by the decimal point.
    pub fn str_align(&self) -> (a: Align)
        ensures
            a == self@.str_align,
            a != Align::Decimal,
    {
        proof {
            use_type_invariant(self);
        }
        self.str_align
    }

    /// The alignment of numbers.
    pub fn num_align(&self) -> (a: Align)
        ensures
            a == self@.num_align,
    {
        self.num_align
    }

    /// The lines and separators of the table's style, painted where the
    /// borders have a style of their own.
    fn format(&self) -> (fmt: TableFormat)
        ensures
            fmt@ == self@.format(),
    {
        let mut fmt = self.style.to_format();
        match &self.border_style {
            Some(b) => {
                fmt.apply_style(b);
            },
            None => {},
        }
        fmt
    }

    /// The number of columns.
    fn column_nb(&self) -> (col_nb: usize)
        ensures
            col_nb == self@.column_count(),
    {
        let header_len = match &self.headers {
            Some(h) => h.len(),
            None => 0,
        };
        let longest = longest_row_len(&self.contents);
        if header_len > longest {
            header_len
        } else {
            longest
        }
    }

    /// Appends the line above the table, where it is drawn.
    fn push_top(&self, lines: &mut Vec<String>, fmt: &TableFormat, col_width: &Vec<u128>)
        requires
            fmt@ == self@.format(),
            nats(col_width@) == self@.widths(),
        ensures
            final(lines).deep_view() == old(lines).deep_view() + self@.top(),
    {
        let ghost before = lines.deep_view();
        if !(self.headers.is_some() && fmt.hidelineaboveifheader) {
            match &fmt.lineabove {
                Some(l) => {
                    push_line(lines, create_line(l, col_width));
                },
                None => {},
            }
        }
        assert(lines.deep_view() =~= before + self@.top());
    }

    /// Appends the line below the table, where it is drawn.
    fn push_bottom(&self, lines: &mut Vec<String>, fmt: &TableFormat, col_width: &Vec<u128>)
        requires
            fmt@ == self@.format(),
            nats(col_width@) == self@.widths(),
        ensures
            final(lines).deep_view() == old(lines).deep_view() + self@.bottom(),
    {
        let ghost before = lines.deep_view();
        if !(self.headers.is_some() && fmt.hidelinebelowifheader) {
            match &fmt.linebelow {
                Some(l) => {
                    push_line(lines, create_line(l, col_width));
                },
                None => {},
            }
        }
        assert(lines.deep_view() =~= before + self@.bottom());
    }

    /// Appends the lines of the headers and the line below them.
    fn push_headers(
        &self,
        lines: &mut Vec<String>,
        fmt: &TableFormat,
        col_width: &Vec<u128>,
        col_spec: &Vec<ColSpec>,
    )
        requires
            fmt@ == self@.format(),
            col_spec.len() == self@.column_count(),
            col_width.len() == self@.column_count(),
            col_spec.deep_view() == self@.specs(),
            nats(col_width@) == self@.widths(),
        ensures
            final(lines).deep_view() == old(lines).deep_view() + self@.header_block(),
    {
        let ghost before = lines.deep_view();
        match &self.headers {
            Some(h) => {
                let content = header_content(h, col_spec.len());
                push_block(
                    lines,
                    &fmt.headerrow,
                    col_spec.len(),
                    &content,
                    &self.str_align,
                    &self.num_align,
                    col_width,
                    col_spec,
                );
                let ghost middle = lines.deep_view();
                match &fmt.linebelowheader {
                    Some(l) => {
                        push_line(lines, create_line(l, col_width));
                    },
                    None => {},
                }
                assert(lines.deep_view() =~= before + self@.header_block());
            },
            None => {
                assert(lines.deep_view() =~= before + self@.header_block());
            },
        }
    }

    /// Appends the lines of row `i`, behind the line that parts it from the
    /// row before.
    fn push_row(
        &self,
        lines: &mut Vec<String>,
        i: usize,
        fmt: &TableFormat,
        col_width: &Vec<u128>,
        col_spec: &Vec<ColSpec>,
    )
        requires
            i < self@.rows.len(),
            fmt@ == self@.format(),
            col_spec.len() == self@.column_count(),
            col_width.len() == self@.column_count(),
            col_spec.deep_view() == self@.specs(),
            nats(col_width@) == self@.widths(),
        ensures
            final(lines).deep_view() == old(lines).deep_view() + self@.separator(i as int)
                + self@.row_block(i as int),
    {
        let ghost before = lines.deep_view();
        if i != 0 {
            match &fmt.linebetweenrows {
                Some(l) => {
                    push_line(lines, create_line(l, col_width));
                },
                None => {},
            }
        }
        assert(lines.deep_view() =~= before + self@.separator(i as int));
        let content = row_content(&self.contents[i], col_spec);
        assert(self.contents.deep_view()[i as int] == self.contents[i as int].deep_view());
        push_block(
            lines,
            &fmt.datarow,
            col_spec.len(),
            &content,
            &self.str_align,
            &self.num_align,
            col_width,
            col_spec,
        );
    }

    /// Writes the table as one text, its lines separated by line breaks.
    pub fn tabulate(&self) -> (out: String)
        ensures
            out@ == self@.rendered(),
    {
        let ghost t = self@;
        let fmt = self.format();
        let col_nb = self.column_nb();
        let col_spec = get_col_specs(col_nb, &self.contents);
        assert(col_spec.deep_view().len() == col_spec.len());
        let col_width = get_col_width(col_nb, &self.headers, &self.contents, &col_spec, &self.num_align);
        let mut lines: Vec<String> = Vec::new();
        assert(lines.deep_view() =~= Seq::<Seq<char>>::empty());
        self.push_top(&mut lines, &fmt, &col_width);
        self.push_headers(&mut lines, &fmt, &col_width, &col_spec);
        let ghost head = lines.deep_view();
        assert(head =~= t.top() + t.header_block());
        let mut i: usize = 0;
        assert(head + t.body(0) =~= head);
        while i < self.contents.len()
            invariant
                i <= self.contents.len(),
                t == self@,
                self.contents.len() == t.rows.len(),
                fmt@ == t.format(),
                col_spec.len() == t.column_count(),
                col_width.len() == t.column_count(),
                col_spec.deep_view() == t.specs(),
                nats(col_width@) == t.widths(),
                lines.deep_view() == head + t.body(i as nat),
            decreases self.contents.len() - i,
        {
            self.push_row(&mut lines, i, &fmt, &col_width, &col_spec);
            assert(lines.deep_view() =~= head + t.body((i + 1) as nat));
            i += 1;
        }
        self.push_bottom(&mut lines, &fmt, &col_width);
        assert(lines.deep_view() =~= t.lines());
        proof {
            reveal_strlit("\n");
            assert("\n"@ =~= seq!['\n']);
        }
        join(&lines, "\n")
    }
}

} // verus!
