//! The styles of a table: which border lines are drawn, and with which
//! characters. A style is fixed data; nothing here is computed from the table.

use vstd::prelude::*;
use crate::text::one_line;

verus! {

/// The style of the table.
///
/// Each example shows a header line and two content lines.
#[derive(Clone, Copy, PartialEq, Eq, Structural, Debug)]
pub enum Style {
    /// ```text
    /// item      qty
    /// spam       42
    /// eggs      451
    /// ```
    Plain,
    /// ```text
    /// item      qty
    /// ------  -----
    /// spam       42
    /// eggs      451
    /// ```
    Simple,
    /// ```text
    /// | item   |   qty |
    /// |--------|-------|
    /// | spam   |    42 |
    /// | eggs   |   451 |
    /// ```
    Github,
    /// ```text
    /// +--------+-------+
    /// | item   |   qty |
    /// +========+=======+
    /// | spam   |    42 |
    /// +--------+-------+
    /// | eggs   |   451 |
    /// +--------+-------+
    /// ```
    Grid,
    /// ```text
    /// ╒════════╤═══════╕
    /// │ item   │   qty │
    /// ╞════════╪═══════╡
    /// │ spam   │    42 │
    /// ├────────┼───────┤
    /// │ eggs   │   451 │
    /// ╘════════╧═══════╛
    /// ```
    Fancy,
    /// ```text
    ///  item   |   qty
    /// --------+-------
    ///  spam   |    42
    ///  eggs   |   451
    /// ```
    Presto,
    /// ```text
    /// │ item   │   qty │
    /// ├────────┼───────┤
    /// │ spam   │    42 │
    /// │ eggs   │   451 │
    /// ```
    FancyGithub,
    /// ```text
    /// item   │   qty
    /// ───────┼──────
    /// spam   │    42
    /// eggs   │   451
    /// ```
    FancyPresto,
}

/// How the content of a column is placed within the column's width.
///
/// `Decimal` is for columns of numbers only.
#[derive(Clone, Copy, PartialEq, Eq, Structural, Debug)]
pub enum Align {
    /// Against the left border.
    Left,
    /// In the middle.
    Center,
    /// Against the right border.
    Right,
    /// Against the right border, the decimal points one below the other.
    Decimal,
}

/// A border line: how it begins, what fills a column, what stands between two
/// columns and how it ends.
pub struct Line {
    pub begin: String,
    pub hline: String,
    pub sep: String,
    pub end: String,
}

/// A border line as mathematical values.
pub struct LineView {
    pub begin: Seq<char>,
    pub hline: Seq<char>,
    pub sep: Seq<char>,
    pub end: Seq<char>,
}

/// A line of cells: how it begins, what stands between two cells and how it ends.
pub struct DataRow {
    pub begin: String,
    pub sep: String,
    pub end: String,
}

/// A line of cells as mathematical values.
pub struct DataRowView {
    pub begin: Seq<char>,
    pub sep: Seq<char>,
    pub end: Seq<char>,
}

/// The lines of a table, from top to bottom:
///
/// ```text
///     --- lineabove ---------
///         headerrow
///     --- linebelowheader ---
///         datarow
///     --- linebetweenrows ---
///     ... (more datarows) ...
///     --- linebetweenrows ---
///         last datarow
///     --- linebelow ---------
/// ```
pub struct TableFormat {
    pub lineabove: Option<Line>,
    pub linebelowheader: Option<Line>,
    pub linebetweenrows: Option<Line>,
    pub linebelow: Option<Line>,
    pub headerrow: DataRow,
    pub datarow: DataRow,
    pub padding: u32,
    pub hidelineaboveifheader: bool,
    pub hidelinebelowifheader: bool,
}

/// The lines of a table as mathematical values.
pub struct TableFormatView {
    pub lineabove: Option<LineView>,
    pub linebelowheader: Option<LineView>,
    pub linebetweenrows: Option<LineView>,
    pub linebelow: Option<LineView>,
    pub headerrow: DataRowView,
    pub datarow: DataRowView,
    pub padding: u32,
    pub hidelineaboveifheader: bool,
    pub hidelinebelowifheader: bool,
}

impl View for Line {
    type V = LineView;

    open spec fn view(&self) -> LineView {
        LineView { begin: self.begin@, hline: self.hline@, sep: self.sep@, end: self.end@ }
    }
}

impl DeepView for Line {
    type V = LineView;

    open spec fn deep_view(&self) -> LineView {
        self@
    }
}

impl View for DataRow {
    type V = DataRowView;

    open spec fn view(&self) -> DataRowView {
        DataRowView { begin: self.begin@, sep: self.sep@, end: self.end@ }
    }
}

impl View for TableFormat {
    type V = TableFormatView;

    open spec fn view(&self) -> TableFormatView {
        TableFormatView {
            lineabove: self.lineabove.deep_view(),
            linebelowheader: self.linebelowheader.deep_view(),
            linebetweenrows: self.linebetweenrows.deep_view(),
            linebelow: self.linebelow.deep_view(),
            headerrow: self.headerrow@,
            datarow: self.datarow@,
            padding: self.padding,
            hidelineaboveifheader: self.hidelineaboveifheader,
            hidelinebelowifheader: self.hidelinebelowifheader,
        }
    }
}

/// The border line made of the four texts.
pub open spec fn line_of(begin: Seq<char>, hline: Seq<char>, sep: Seq<char>, end: Seq<char>) -> LineView {
    LineView { begin, hline, sep, end }
}

/// The line of cells made of the three texts.
pub open spec fn row_of(begin: Seq<char>, sep: Seq<char>, end: Seq<char>) -> DataRowView {
    DataRowView { begin, sep, end }
}

/// The format without any border line, its cells two spaces apart.
pub open spec fn bare_format() -> TableFormatView {
    TableFormatView {
        lineabove: None,
        linebelowheader: None,
        linebetweenrows: None,
        linebelow: None,
        headerrow: row_of(""@, "  "@, ""@),
        datarow: row_of(""@, "  "@, ""@),
        padding: 0,
        hidelineaboveifheader: false,
        hidelinebelowifheader: false,
    }
}

/// The format of each style.
pub open spec fn format_of(style: Style) -> TableFormatView {
    match style {
        Style::Plain => bare_format(),
        Style::Simple => TableFormatView {
            lineabove: Some(line_of(""@, "-"@, "  "@, ""@)),
            linebelowheader: Some(line_of(""@, "-"@, "  "@, ""@)),
            linebelow: Some(line_of(""@, "-"@, "  "@, ""@)),
            hidelineaboveifheader: true,
            hidelinebelowifheader: true,
            ..bare_format()
        },
        Style::Github => TableFormatView {
            lineabove: Some(line_of("|-"@, "-"@, "-|-"@, "-|"@)),
            linebelowheader: Some(line_of("|-"@, "-"@, "-|-"@, "-|"@)),
            headerrow: row_of("| "@, " | "@, " |"@),
            datarow: row_of("| "@, " | "@, " |"@),
            padding: 1,
            hidelineaboveifheader: true,
            ..bare_format()
        },
        Style::Grid => TableFormatView {
            lineabove: Some(line_of("+-"@, "-"@, "-+-"@, "-+"@)),
            linebelowheader: Some(line_of("+="@, "="@, "=+="@, "=+"@)),
            linebetweenrows: Some(line_of("+-"@, "-"@, "-+-"@, "-+"@)),
            linebelow: Some(line_of("+-"@, "-"@, "-+-"@, "-+"@)),
            headerrow: row_of("| "@, " | "@, " |"@),
            datarow: row_of("| "@, " | "@, " |"@),
            padding: 1,
            ..bare_format()
        },
        Style::Fancy => TableFormatView {
            lineabove: Some(line_of("╒═"@, "═"@, "═╤═"@, "═╕"@)),
            linebelowheader: Some(line_of("╞═"@, "═"@, "═╪═"@, "═╡"@)),
            linebetweenrows: Some(line_of("├─"@, "─"@, "─┼─"@, "─┤"@)),
            linebelow: Some(line_of("╘═"@, "═"@, "═╧═"@, "═╛"@)),
            headerrow: row_of("│ "@, " │ "@, " │"@),
            datarow: row_of("│ "@, " │ "@, " │"@),
            padding: 1,
            ..bare_format()
        },
        Style::Presto => TableFormatView {
            linebelowheader: Some(line_of("-"@, "-"@, "-+-"@, "-"@)),
            headerrow: row_of(" "@, " | "@, " "@),
            datarow: row_of(" "@, " | "@, " "@),
            padding: 1,
            ..bare_format()
        },
        Style::FancyGithub => TableFormatView {
            linebelowheader: Some(line_of("├─"@, "─"@, "─┼─"@, "─┤"@)),
            headerrow: row_of("│ "@, " │ "@, " │"@),
            datarow: row_of("│ "@, " │ "@, " │"@),
            padding: 1,
            ..bare_format()
        },
        Style::FancyPresto => TableFormatView {
            linebelowheader: Some(line_of(""@, "─"@, "─┼─"@, ""@)),
            headerrow: row_of(""@, " │ "@, ""@),
            datarow: row_of(""@, " │ "@, ""@),
            padding: 1,
            ..bare_format()
        },
    }
}

/// The style that a name stands for. The names are in lower case.
pub open spec fn style_of_name(s: Seq<char>) -> Option<Style> {
    if s == "plain"@ {
        Some(Style::Plain)
    } else if s == "simple"@ {
        Some(Style::Simple)
    } else if s == "github"@ {
        Some(Style::Github)
    } else if s == "grid"@ {
        Some(Style::Grid)
    } else if s == "fancy"@ {
        Some(Style::Fancy)
    } else if s == "presto"@ {
        Some(Style::Presto)
    } else if s == "fancygithub"@ {
        Some(Style::FancyGithub)
    } else if s == "fancypresto"@ {
        Some(Style::FancyPresto)
    } else {
        None
    }
}

/// Whether the text is the name of a style.
pub open spec fn is_style_name(s: Seq<char>) -> bool {
    s == "plain"@ || s == "simple"@ || s == "github"@ || s == "grid"@ || s == "fancy"@ || s
        == "presto"@ || s == "fancygithub"@ || s == "fancypresto"@
}

/// The message that names an unsupported format.
pub open spec fn unsupported_message(name: Seq<char>) -> Seq<char> {
    "Unsupported format \""@ + name + "\""@
}

/// The error of looking up a name that no style has.
#[derive(Debug)]
pub struct UnsupportedFormat {
    /// The name that was looked up.
    pub name: String,
}

impl UnsupportedFormat {
    /// The message of the error: it names the format that is not supported.
    pub fn message(&self) -> (m: String)
        ensures
            m@ == unsupported_message(self.name@),
    {
        let mut m = String::from_str("Unsupported format \"");
        m.append(self.name.as_str());
        m.append("\"");
        m
    }
}

/// Whether the two texts are the same.
fn same_text(a: &str, b: &str) -> (r: bool)
    ensures
        r == (a@ == b@),
{
    let x = String::from_str(a);
    let y = String::from_str(b);
    x == y
}

impl Line {
    /// The border line made of the four texts.
    pub fn new(begin: &str, hline: &str, sep: &str, end: &str) -> (l: Self)
        ensures
            l@ == line_of(begin@, hline@, sep@, end@),
    {
        Self {
            begin: String::from_str(begin),
            hline: String::from_str(hline),
            sep: String::from_str(sep),
            end: String::from_str(end),
        }
    }
}

impl DataRow {
    /// The line of cells made of the three texts.
    pub fn new(begin: &str, sep: &str, end: &str) -> (r: Self)
        ensures
            r@ == row_of(begin@, sep@, end@),
    {
        Self { begin: String::from_str(begin), sep: String::from_str(sep), end: String::from_str(end) }
    }
}

impl TableFormat {
    /// The format without any border line, its cells two spaces apart.
    pub fn bare() -> (f: Self)
        ensures
            f@ == bare_format(),
    {
        TableFormat {
            lineabove: None,
            linebelowheader: None,
            linebetweenrows: None,
            linebelow: None,
            headerrow: DataRow::new("", "  ", ""),
            datarow: DataRow::new("", "  ", ""),
            padding: 0,
            hidelineaboveifheader: false,
            hidelinebelowifheader: false,
        }
    }
}

impl Style {
    /// The style of the given name, `None` where no style has that name.
    pub fn from(s: &str) -> (r: Option<Self>)
        ensures
            r == style_of_name(s@),
            r is Some <==> is_style_name(s@),
    {
        if same_text(s, "plain") {
            Some(Self::Plain)
        } else if same_text(s, "simple") {
            Some(Self::Simple)
        } else if same_text(s, "github") {
            Some(Self::Github)
        } else if same_text(s, "grid") {
            Some(Self::Grid)
        } else if same_text(s, "fancy") {
            Some(Self::Fancy)
        } else if same_text(s, "presto") {
            Some(Self::Presto)
        } else if same_text(s, "fancygithub") {
            Some(Self::FancyGithub)
        } else if same_text(s, "fancypresto") {
            Some(Self::FancyPresto)
        } else {
            None
        }
    }

    /// The style of the given name, or the error that names the unsupported
    /// format.
    pub fn lookup(s: &str) -> (r: Result<Self, UnsupportedFormat>)
        ensures
            r is Ok <==> is_style_name(s@),
            match r {
                Ok(style) => style_of_name(s@) == Some(style),
                Err(e) => !is_style_name(s@) && e.name@ == s@,
            },
    {
        match Self::from(s) {
            Some(style) => Ok(style),
            None => Err(UnsupportedFormat { name: String::from_str(s) }),
        }
    }

    /// The lines and separators of the style.
    pub fn to_format(&self) -> (f: TableFormat)
        ensures
            f@ == format_of(*self),
    {
        match self {
            Self::Plain => TableFormat::bare(),
            Self::Simple => TableFormat {
                lineabove: Some(Line::new("", "-", "  ", "")),
                linebelowheader: Some(Line::new("", "-", "  ", "")),
                linebelow: Some(Line::new("", "-", "  ", "")),
                hidelineaboveifheader: true,
                hidelinebelowifheader: true,
                ..TableFormat::bare()
            },
            Self::Github => TableFormat {
                lineabove: Some(Line::new("|-", "-", "-|-", "-|")),
                linebelowheader: Some(Line::new("|-", "-", "-|-", "-|")),
                headerrow: DataRow::new("| ", " | ", " |"),
                datarow: DataRow::new("| ", " | ", " |"),
                padding: 1,
                hidelineaboveifheader: true,
                ..TableFormat::bare()
            },
            Self::Grid => TableFormat {
                lineabove: Some(Line::new("+-", "-", "-+-", "-+")),
                linebelowheader: Some(Line::new("+=", "=", "=+=", "=+")),
                linebetweenrows: Some(Line::new("+-", "-", "-+-", "-+")),
                linebelow: Some(Line::new("+-", "-", "-+-", "-+")),
                headerrow: DataRow::new("| ", " | ", " |"),
                datarow: DataRow::new("| ", " | ", " |"),
                padding: 1,
                ..TableFormat::bare()
            },
            Self::Fancy => TableFormat {
                lineabove: Some(Line::new("╒═", "═", "═╤═", "═╕")),
                linebelowheader: Some(Line::new("╞═", "═", "═╪═", "═╡")),
                linebetweenrows: Some(Line::new("├─", "─", "─┼─", "─┤")),
                linebelow: Some(Line::new("╘═", "═", "═╧═", "═╛")),
                headerrow: DataRow::new("│ ", " │ ", " │"),
                datarow: DataRow::new("│ ", " │ ", " │"),
                padding: 1,
                ..TableFormat::bare()
            },
            Self::Presto => TableFormat {
                linebelowheader: Some(Line::new("-", "-", "-+-", "-")),
                headerrow: DataRow::new(" ", " | ", " "),
                datarow: DataRow::new(" ", " | ", " "),
                padding: 1,
                ..TableFormat::bare()
            },
            Self::FancyGithub => TableFormat {
                linebelowheader: Some(Line::new("├─", "─", "─┼─", "─┤")),
                headerrow: DataRow::new("│ ", " │ ", " │"),
                datarow: DataRow::new("│ ", " │ ", " │"),
                padding: 1,
                ..TableFormat::bare()
            },
            Self::FancyPresto => TableFormat {
                linebelowheader: Some(Line::new("", "─", "─┼─", "")),
                headerrow: DataRow::new("", " │ ", ""),
                datarow: DataRow::new("", " │ ", ""),
                padding: 1,
                ..TableFormat::bare()
            },
        }
    }
}

/// How the borders of a table are painted: the text that switches a style of
/// the terminal on, written before each piece of border, and the text that
/// resets it, written behind.
pub struct BorderStyle {
    pub prefix: String,
    pub suffix: String,
}

/// The two texts of a border style as mathematical values.
pub struct BorderStyleView {
    pub prefix: Seq<char>,
    pub suffix: Seq<char>,
}

impl View for BorderStyle {
    type V = BorderStyleView;

    open spec fn view(&self) -> BorderStyleView {
        BorderStyleView { prefix: self.prefix@, suffix: self.suffix@ }
    }
}

impl DeepView for BorderStyle {
    type V = BorderStyleView;

    open spec fn deep_view(&self) -> BorderStyleView {
        self@
    }
}

/// The text between the two texts of the style.
pub open spec fn painted(style: BorderStyleView, s: Seq<char>) -> Seq<char> {
    style.prefix + s + style.suffix
}

/// A border line with each of its four texts painted.
pub open spec fn painted_line(l: LineView, style: BorderStyleView) -> LineView {
    LineView {
        begin: painted(style, l.begin),
        hline: painted(style, l.hline),
        sep: painted(style, l.sep),
        end: painted(style, l.end),
    }
}

/// A line of cells with each of its three texts painted.
pub open spec fn painted_row(r: DataRowView, style: BorderStyleView) -> DataRowView {
    DataRowView {
        begin: painted(style, r.begin),
        sep: painted(style, r.sep),
        end: painted(style, r.end),
    }
}

/// A border line that may be missing, painted where it is there.
pub open spec fn painted_option(l: Option<LineView>, style: BorderStyleView) -> Option<LineView> {
    match l {
        Some(l) => Some(painted_line(l, style)),
        None => None,
    }
}

/// A format with all its texts painted.
pub open spec fn painted_format(f: TableFormatView, style: BorderStyleView) -> TableFormatView {
    TableFormatView {
        lineabove: painted_option(f.lineabove, style),
        linebelowheader: painted_option(f.linebelowheader, style),
        linebetweenrows: painted_option(f.linebetweenrows, style),
        linebelow: painted_option(f.linebelow, style),
        headerrow: painted_row(f.headerrow, style),
        datarow: painted_row(f.datarow, style),
        ..f
    }
}

impl BorderStyle {
    /// The style made of the text that switches it on and the text that
    /// resets it.
    pub fn new(prefix: &str, suffix: &str) -> (b: Self)
        ensures
            b@ == (BorderStyleView { prefix: prefix@, suffix: suffix@ }),
    {
        Self { prefix: String::from_str(prefix), suffix: String::from_str(suffix) }
    }

    /// A second copy of the style.
    pub fn duplicate(&self) -> (b: Self)
        ensures
            b@ == self@,
    {
        Self { prefix: self.prefix.clone(), suffix: self.suffix.clone() }
    }

    /// The text between the two texts of the style.
    pub fn paint(&self, s: &str) -> (out: String)
        ensures
            out@ == painted(self@, s@),
    {
        let mut out = self.prefix.clone();
        out.append(s);
        out.append(self.suffix.as_str());
        out
    }
}

impl Line {
    /// Paints the four texts of the line in the style.
    pub fn apply_style(&mut self, style: &BorderStyle)
        ensures
            final(self)@ == painted_line(old(self)@, style@),
    {
        self.begin = style.paint(self.begin.as_str());
        self.hline = style.paint(self.hline.as_str());
        self.sep = style.paint(self.sep.as_str());
        self.end = style.paint(self.end.as_str());
    }
}

impl DataRow {
    /// Paints the three texts of the row in the style.
    pub fn apply_style(&mut self, style: &BorderStyle)
        ensures
            final(self)@ == painted_row(old(self)@, style@),
    {
        self.begin = style.paint(self.begin.as_str());
        self.sep = style.paint(self.sep.as_str());
        self.end = style.paint(self.end.as_str());
    }
}

/// Paints the line in the style, where there is one.
fn paint_option(line: &mut Option<Line>, style: &BorderStyle)
    ensures
        final(line).deep_view() == painted_option(old(line).deep_view(), style@),
{
    match line {
        Some(l) => {
            l.apply_style(style);
        },
        None => {},
    }
}

impl TableFormat {
    /// Paints all the texts of the format in the style.
    pub fn apply_style(&mut self, style: &BorderStyle)
        ensures
            final(self)@ == painted_format(old(self)@, style@),
    {
        paint_option(&mut self.lineabove, style);
        paint_option(&mut self.linebelowheader, style);
        paint_option(&mut self.linebetweenrows, style);
        paint_option(&mut self.linebelow, style);
        self.headerrow.apply_style(style);
        self.datarow.apply_style(style);
    }
}


/// Whether none of the four texts of the line holds a line break.
pub open spec fn one_line_border(l: LineView) -> bool {
    one_line(l.begin) && one_line(l.hline) && one_line(l.sep) && one_line(l.end)
}

/// Whether none of the three texts of the row holds a line break.
pub open spec fn one_line_row(r: DataRowView) -> bool {
    one_line(r.begin) && one_line(r.sep) && one_line(r.end)
}

/// Whether the line, where there is one, holds no line break.
pub open spec fn one_line_option(l: Option<LineView>) -> bool {
    match l {
        Some(l) => one_line_border(l),
        None => true,
    }
}

/// Whether none of the texts of the format holds a line break.
pub open spec fn one_line_format(f: TableFormatView) -> bool {
    one_line_option(f.lineabove) && one_line_option(f.linebelowheader) && one_line_option(
        f.linebetweenrows,
    ) && one_line_option(f.linebelow) && one_line_row(f.headerrow) && one_line_row(f.datarow)
}

proof fn lemma_ascii_pieces()
    ensures
        one_line(""@),
        one_line(" "@),
        one_line("  "@),
        one_line("-"@),
        one_line("="@),
        one_line("|-"@),
        one_line("-|-"@),
        one_line("-|"@),
        one_line("| "@),
        one_line(" | "@),
        one_line(" |"@),
        one_line("+-"@),
        one_line("-+-"@),
        one_line("-+"@),
        one_line("+="@),
        one_line("=+="@),
        one_line("=+"@),
{
    reveal_strlit("");
    reveal_strlit(" ");
    reveal_strlit("  ");
    reveal_strlit("-");
    reveal_strlit("=");
    reveal_strlit("|-");
    reveal_strlit("-|-");
    reveal_strlit("-|");
    reveal_strlit("| ");
    reveal_strlit(" | ");
    reveal_strlit(" |");
    reveal_strlit("+-");
    reveal_strlit("-+-");
    reveal_strlit("-+");
    reveal_strlit("+=");
    reveal_strlit("=+=");
    reveal_strlit("=+");
}

proof fn lemma_box_pieces()
    ensures
        one_line("═"@),
        one_line("─"@),
        one_line("╒═"@),
        one_line("═╤═"@),
        one_line("═╕"@),
        one_line("╞═"@),
        one_line("═╪═"@),
        one_line("═╡"@),
        one_line("├─"@),
        one_line("─┼─"@),
        one_line("─┤"@),
        one_line("╘═"@),
        one_line("═╧═"@),
        one_line("═╛"@),
        one_line("│ "@),
        one_line(" │ "@),
        one_line(" │"@),
{
    reveal_strlit("═");
    reveal_strlit("─");
    reveal_strlit("╒═");
    reveal_strlit("═╤═");
    reveal_strlit("═╕");
    reveal_strlit("╞═");
    reveal_strlit("═╪═");
    reveal_strlit("═╡");
    reveal_strlit("├─");
    reveal_strlit("─┼─");
    reveal_strlit("─┤");
    reveal_strlit("╘═");
    reveal_strlit("═╧═");
    reveal_strlit("═╛");
    reveal_strlit("│ ");
    reveal_strlit(" │ ");
    reveal_strlit(" │");
}

/// No text of any style's format holds a line break.
pub proof fn lemma_format_is_one_line(style: Style)
    ensures
        one_line_format(format_of(style)),
{
    lemma_ascii_pieces();
    lemma_box_pieces();
}

/// Painting with texts that hold no line break leaves a format without line
/// breaks so.
pub proof fn lemma_painted_is_one_line(f: TableFormatView, b: BorderStyleView)
    requires
        one_line_format(f),
        one_line(b.prefix),
        one_line(b.suffix),
    ensures
        one_line_format(painted_format(f, b)),
{
}


} // verus!
