use stybulate::{Align, AsciiEscapedString, Cell, FloatText, Headers, Style, Table};

fn float(x: f64) -> Cell {
    Cell::Float(FloatText::new(&x.to_string(), &format!("{:.1074}", x)))
}

fn contents() -> Vec<Vec<Cell>> {
    vec![
        vec![Cell::from("spam"), float(41.9999)],
        vec![Cell::from("eggs"), Cell::Int(451)],
    ]
}

fn headerless(style: Style) -> Table {
    Table::new(style, contents(), None)
}

fn table(style: Style) -> Table {
    Table::new(
        style,
        contents(),
        Some(Headers::from(vec!["strings", "numbers"])),
    )
}

fn multiline_headerless(style: Style) -> Table {
    let mut table = Table::new(
        style,
        vec![
            vec![Cell::from("foo bar\nbaz\nbau"), Cell::from("hello")],
            vec![Cell::from(""), Cell::from("multiline\nworld")],
        ],
        None,
    );
    table.set_align(Align::Center, Align::Right);
    table
}

fn multiline(style: Style) -> Table {
    Table::new(
        style,
        vec![vec![Cell::Int(2), Cell::from("foo\nbar")]],
        Some(Headers::from(vec!["more\nspam eggs", "more spam\n& eggs"])),
    )
}

fn multiline_empty_cells(style: Style) -> Table {
    Table::new(
        style.clone(),
        vec![
            vec![Cell::Int(1), Cell::from(""), Cell::from("")],
            vec![
                Cell::Int(2),
                Cell::from("very long data"),
                Cell::from("fold\nthis"),
            ],
        ],
        Some(Headers::from(vec!["hdr", "data", "fold"])),
    )
}

fn multiline_empty_cells_headerless(style: Style) -> Table {
    Table::new(
        style,
        vec![
            vec![Cell::Int(0), Cell::from(""), Cell::from("")],
            vec![Cell::Int(1), Cell::from(""), Cell::from("")],
            vec![
                Cell::Int(2),
                Cell::from("very long data"),
                Cell::from("fold\nthis"),
            ],
        ],
        None,
    )
}

#[test]
fn plain() {
    //Output: plain with headers
    let result = table(Style::Plain).tabulate();
    let expected = vec![
        "strings      numbers",
        "spam         41.9999",
        "eggs        451",
    ]
    .join("\n");
    assert_eq!(expected, result);
}

#[test]
fn plain_headerless() {
    //Output: plain without headers
    let result = headerless(Style::Plain).tabulate();
    let expected = vec!["spam   41.9999", "eggs  451"].join("\n");
    assert_eq!(expected, result);
}

#[test]
fn plain_multiline_headerless() {
    //Output: plain with multiline cells without headers
    let result = multiline_headerless(Style::Plain).tabulate();
    let expected = vec![
        "foo bar    hello",
        "  baz",
        "  bau",
        "         multiline",
        "           world",
    ]
    .join("\n");
    assert_eq!(expected, result);
}

#[test]
fn plain_multiline() {
    //Output: plain with multiline cells with headers
    let result = multiline(Style::Plain).tabulate();
    let expected = vec![
        "       more  more spam",
        "  spam eggs  & eggs",
        "          2  foo",
        "             bar",
    ]
    .join("\n");
    assert_eq!(expected, result);
}

#[test]
fn plain_multiline_with_empty_cells() {
    //Output: plain with multiline cells and empty cells with headers
    let result = multiline_empty_cells(Style::Plain).tabulate();
    let expected = vec![
        "  hdr  data            fold",
        "    1",
        "    2  very long data  fold",
        "                       this",
    ]
    .join("\n");
    assert_eq!(expected, result);
}

#[test]
fn plain_multiline_with_empty_cells_headerless() {
    //Output: plain with multiline cells and empty cells without headers
    let result = multiline_empty_cells_headerless(Style::Plain).tabulate();
    let expected = vec![
        "0",
        "1",
        "2  very long data  fold",
        "                   this",
    ]
    .join("\n");
    assert_eq!(expected, result);
}

#[test]
fn simple() {
    //Output: simple with headers
    let result = table(Style::Simple).tabulate();
    let expected = vec![
        "strings      numbers",
        "---------  ---------",
        "spam         41.9999",
        "eggs        451",
    ]
    .join("\n");
    assert_eq!(expected, result);
}

#[test]
fn simple_multiline_2() {
    //Output: simple with multiline cells
    let mut table = Table::new(
        Style::Simple,
        vec![
            vec![Cell::from("foo"), Cell::from("bar")],
            vec![Cell::from("spam"), Cell::from("multiline\nworld")],
        ],
        Some(Headers::from(vec!["key", "value"])),
    );
    table.set_align(Align::Center, Align::Right);
    let result = table.tabulate();
    let expected = vec![
        " key     value",
        "-----  ---------",
        " foo      bar",
        "spam   multiline",
        "         world",
    ]
    .join("\n");
    assert_eq!(expected, result);
}

#[test]
fn simple_headerless() {
    //Output: simple without headers
    let result = headerless(Style::Simple).tabulate();
    let expected = vec![
        "----  --------",
        "spam   41.9999",
        "eggs  451",
        "----  --------",
    ]
    .join("\n");
    assert_eq!(expected, result);
}

#[test]
fn simple_multiline_headerless() {
    //Output: simple with multiline cells without headers
    let result = multiline_headerless(Style::Simple).tabulate();
    let expected = vec![
        "-------  ---------",
        "foo bar    hello",
        "  baz",
        "  bau",
        "         multiline",
        "           world",
        "-------  ---------",
    ]
    .join("\n");
    assert_eq!(expected, result);
}

#[test]
fn simple_multiline() {
    //Output: simple with multiline cells with headers
    let result = multiline(Style::Simple).tabulate();
    let expected = vec![
        "       more  more spam",
        "  spam eggs  & eggs",
        "-----------  -----------",
        "          2  foo",
        "             bar",
    ]
    .join("\n");
    assert_eq!(expected, result);
}

#[test]
fn simple_multiline_ascii_escaped() {
    //Output: simple with multiline headers and colors (ascii escape)
    let mut headers = Headers::with_capacity(2);
    headers
        .push(AsciiEscapedString::from("more\nspam \x1b[31meggs\x1b[0m"))
        .push(String::from("more spam\n& eggs"));
    let result = Table::new(
        Style::Simple,
        vec![vec![Cell::Int(2), Cell::from("foo\nbar")]],
        Some(headers),
    )
    .tabulate();
    let expected = vec![
        "       more  more spam",
        "  spam \x1b[31meggs\x1b[0m  & eggs",
        "-----------  -----------",
        "          2  foo",
        "             bar",
    ]
    .join("\n");
    assert_eq!(expected, result);
}

#[test]
fn simple_multiline_with_empty_cells() {
    //Output: simple with multiline cells and empty cells with headers
    let result = multiline_empty_cells(Style::Simple).tabulate();
    let expected = vec![
        "  hdr  data            fold",
        "-----  --------------  ------",
        "    1",
        "    2  very long data  fold",
        "                       this",
    ]
    .join("\n");
    assert_eq!(expected, result);
}

#[test]
fn simple_multiline_with_empty_cells_headerless() {
    //Output: simple with multiline cells and empty cells without headers
    let result = multiline_empty_cells_headerless(Style::Simple).tabulate();
    let expected = vec![
        "-  --------------  ----",
        "0",
        "1",
        "2  very long data  fold",
        "                   this",
        "-  --------------  ----",
    ]
    .join("\n");
    assert_eq!(expected, result);
}

#[test]
fn github() {
    //Output: github with headers
    let result = table(Style::Github).tabulate();
    let expected = vec![
        "| strings   |   numbers |",
        "|-----------|-----------|",
        "| spam      |   41.9999 |",
        "| eggs      |  451      |",
    ]
    .join("\n");
    assert_eq!(expected, result);
}

#[test]
fn grid() {
    //Output: grid with headers
    let result = table(Style::Grid).tabulate();
    let expected = vec![
        "+-----------+-----------+",
        "| strings   |   numbers |",
        "+===========+===========+",
        "| spam      |   41.9999 |",
        "+-----------+-----------+",
        "| eggs      |  451      |",
        "+-----------+-----------+",
    ]
    .join("\n");
    assert_eq!(expected, result);
}

#[test]
fn grid_wide_characters() {
    //Output: grid with wide characters in headers
    let headers = Headers::from(vec!["strings", "配列"]);
    let contents = vec![
        vec![
            Cell::from("Ответ на главный вопрос жизни, вселенной и всего такого"),
            Cell::Int(42),
        ],
        vec![Cell::from("pi"), float(3.1415)],
    ];
    let result = Table::new(Style::Grid, contents, Some(headers)).tabulate();
    let expected = vec![
        "+---------------------------------------------------------+---------+",
        "| strings                                                 |    配列 |",
        "+=========================================================+=========+",
        "| Ответ на главный вопрос жизни, вселенной и всего такого | 42      |",
        "+---------------------------------------------------------+---------+",
        "| pi                                                      |  3.1415 |",
        "+---------------------------------------------------------+---------+",
    ]
    .join("\n");
    assert_eq!(expected, result);
}

#[test]
fn grid_headerless() {
    //Output: grid without headers
    let result = headerless(Style::Grid).tabulate();
    let expected = vec![
        "+------+----------+",
        "| spam |  41.9999 |",
        "+------+----------+",
        "| eggs | 451      |",
        "+------+----------+",
    ]
    .join("\n");
    assert_eq!(expected, result);
}

#[test]
fn grid_multiline_headerless() {
    //Output: grid with multiline cells without headers
    let result = multiline_headerless(Style::Grid).tabulate();
    let expected = vec![
        "+---------+-----------+",
        "| foo bar |   hello   |",
        "|   baz   |           |",
        "|   bau   |           |",
        "+---------+-----------+",
        "|         | multiline |",
        "|         |   world   |",
        "+---------+-----------+",
    ]
    .join("\n");
    assert_eq!(expected, result);
}

#[test]
fn grid_multiline() {
    //Output: grid with multiline cells with headers
    let result = multiline(Style::Grid).tabulate();
    let expected = vec![
        "+-------------+-------------+",
        "|        more | more spam   |",
        "|   spam eggs | & eggs      |",
        "+=============+=============+",
        "|           2 | foo         |",
        "|             | bar         |",
        "+-------------+-------------+",
    ]
    .join("\n");
    assert_eq!(expected, result);
}

#[test]
fn grid_multiline_with_empty_cells() {
    //Output: grid with multiline cells and empty cells with headers
    let result = multiline_empty_cells(Style::Grid).tabulate();
    let expected = vec![
        "+-------+----------------+--------+",
        "|   hdr | data           | fold   |",
        "+=======+================+========+",
        "|     1 |                |        |",
        "+-------+----------------+--------+",
        "|     2 | very long data | fold   |",
        "|       |                | this   |",
        "+-------+----------------+--------+",
    ]
    .join("\n");
    assert_eq!(expected, result);
}

#[test]
fn grid_multiline_with_empty_cells_headerless() {
    //Output: grid with multiline cells and empty cells without headers
    let result = multiline_empty_cells_headerless(Style::Grid).tabulate();
    let expected = vec![
        "+---+----------------+------+",
        "| 0 |                |      |",
        "+---+----------------+------+",
        "| 1 |                |      |",
        "+---+----------------+------+",
        "| 2 | very long data | fold |",
        "|   |                | this |",
        "+---+----------------+------+",
    ]
    .join("\n");
    assert_eq!(expected, result);
}

#[test]
fn fancy_grid() {
    //Output: fancy_grid with headers
    let result = table(Style::Fancy).tabulate();
    let expected = vec![
        "╒═══════════╤═══════════╕",
        "│ strings   │   numbers │",
        "╞═══════════╪═══════════╡",
        "│ spam      │   41.9999 │",
        "├───────────┼───────────┤",
        "│ eggs      │  451      │",
        "╘═══════════╧═══════════╛",
    ]
    .join("\n");
    assert_eq!(expected, result);
}

#[test]
fn fancy_grid_headerless() {
    //Output: fancy_grid without headers
    let result = headerless(Style::Fancy).tabulate();
    let expected = vec![
        "╒══════╤══════════╕",
        "│ spam │  41.9999 │",
        "├──────┼──────────┤",
        "│ eggs │ 451      │",
        "╘══════╧══════════╛",
    ]
    .join("\n");
    assert_eq!(expected, result);
}

#[test]
fn fancy_grid_multiline_headerless() {
    //Output: fancy_grid with multiline cells without headers
    let result = multiline_headerless(Style::Fancy).tabulate();
    let expected = vec![
        "╒═════════╤═══════════╕",
        "│ foo bar │   hello   │",
        "│   baz   │           │",
        "│   bau   │           │",
        "├─────────┼───────────┤",
        "│         │ multiline │",
        "│         │   world   │",
        "╘═════════╧═══════════╛",
    ]
    .join("\n");
    assert_eq!(expected, result);
}

#[test]
fn fancy_grid_multiline() {
    //Output: fancy_grid with multiline cells with headers
    let result = multiline(Style::Fancy).tabulate();
    let expected = vec![
        "╒═════════════╤═════════════╕",
        "│        more │ more spam   │",
        "│   spam eggs │ & eggs      │",
        "╞═════════════╪═════════════╡",
        "│           2 │ foo         │",
        "│             │ bar         │",
        "╘═════════════╧═════════════╛",
    ]
    .join("\n");
    assert_eq!(expected, result);
}

#[test]
fn fancy_grid_multiline_with_empty_cells() {
    //Output: fancy_grid with multiline cells and empty cells with headers
    let result = multiline_empty_cells(Style::Fancy).tabulate();
    let expected = vec![
        "╒═══════╤════════════════╤════════╕",
        "│   hdr │ data           │ fold   │",
        "╞═══════╪════════════════╪════════╡",
        "│     1 │                │        │",
        "├───────┼────────────────┼────────┤",
        "│     2 │ very long data │ fold   │",
        "│       │                │ this   │",
        "╘═══════╧════════════════╧════════╛",
    ]
    .join("\n");
    assert_eq!(expected, result);
}

#[test]
fn fancy_grid_multiline_with_empty_cells_headerless() {
    //Output: fancy_grid with multiline cells and empty cells without headers
    let result = multiline_empty_cells_headerless(Style::Fancy).tabulate();
    let expected = vec![
        "╒═══╤════════════════╤══════╕",
        "│ 0 │                │      │",
        "├───┼────────────────┼──────┤",
        "│ 1 │                │      │",
        "├───┼────────────────┼──────┤",
        "│ 2 │ very long data │ fold │",
        "│   │                │ this │",
        "╘═══╧════════════════╧══════╛",
    ]
    .join("\n");
    assert_eq!(expected, result);
}

#[test]
fn presto() {
    //Output: presto with headers
    let result = table(Style::Presto).tabulate();
    let expected = vec![
        " strings   |   numbers",
        "-----------+-----------",
        " spam      |   41.9999",
        " eggs      |  451",
    ]
    .join("\n");
    assert_eq!(expected, result);
}

#[test]
fn presto_headerless() {
    //Output: presto without headers
    let result = headerless(Style::Presto).tabulate();
    let expected = vec![" spam |  41.9999", " eggs | 451"].join("\n");
    assert_eq!(expected, result);
}

#[test]
fn presto_multiline_headerless() {
    //Output: presto with multiline cells without headers
    let result = multiline_headerless(Style::Presto).tabulate();
    let expected = vec![
        " foo bar |   hello",
        "   baz   |",
        "   bau   |",
        "         | multiline",
        "         |   world",
    ]
    .join("\n");
    assert_eq!(expected, result);
}

#[test]
fn presto_multiline() {
    //Output: presto with multiline cells with headers
    let result = multiline(Style::Presto).tabulate();
    let expected = vec![
        "        more | more spam",
        "   spam eggs | & eggs",
        "-------------+-------------",
        "           2 | foo",
        "             | bar",
    ]
    .join("\n");
    assert_eq!(expected, result);
}

#[test]
fn presto_multiline_with_empty_cells() {
    //Output: presto with multiline cells and empty cells with headers
    let result = multiline_empty_cells(Style::Presto).tabulate();
    let expected = vec![
        "   hdr | data           | fold",
        "-------+----------------+--------",
        "     1 |                |",
        "     2 | very long data | fold",
        "       |                | this",
    ]
    .join("\n");
    assert_eq!(expected, result);
}

#[test]
fn presto_multiline_with_empty_cells_headerless() {
    //Output: presto with multiline cells and empty cells without headers
    let result = multiline_empty_cells_headerless(Style::Presto).tabulate();
    let expected = vec![
        " 0 |                |",
        " 1 |                |",
        " 2 | very long data | fold",
        "   |                | this",
    ]
    .join("\n");
    assert_eq!(expected, result);
}

#[test]
fn fancygithub_grid() {
    let result = table(Style::FancyGithub).tabulate();
    let expected = vec![
        "│ strings   │   numbers │",
        "├───────────┼───────────┤",
        "│ spam      │   41.9999 │",
        "│ eggs      │  451      │",
    ]
    .join("\n");
    assert_eq!(expected, result);
}

#[test]
fn fancygithub_grid_headerless() {
    let result = headerless(Style::FancyGithub).tabulate();
    let expected = vec!["│ spam │  41.9999 │", "│ eggs │ 451      │"].join("\n");
    assert_eq!(expected, result);
}

#[test]
fn fancygithub_grid_multiline_headerless() {
    let result = multiline_headerless(Style::FancyGithub).tabulate();
    let expected = vec![
        "│ foo bar │   hello   │",
        "│   baz   │           │",
        "│   bau   │           │",
        "│         │ multiline │",
        "│         │   world   │",
    ]
    .join("\n");
    assert_eq!(expected, result);
}

#[test]
fn fancygithub_grid_multiline() {
    let result = multiline(Style::FancyGithub).tabulate();
    let expected = vec![
        "│        more │ more spam   │",
        "│   spam eggs │ & eggs      │",
        "├─────────────┼─────────────┤",
        "│           2 │ foo         │",
        "│             │ bar         │",
    ]
    .join("\n");
    assert_eq!(expected, result);
}

#[test]
fn fancygithub_grid_multiline_with_empty_cells() {
    let result = multiline_empty_cells(Style::FancyGithub).tabulate();
    let expected = vec![
        "│   hdr │ data           │ fold   │",
        "├───────┼────────────────┼────────┤",
        "│     1 │                │        │",
        "│     2 │ very long data │ fold   │",
        "│       │                │ this   │",
    ]
    .join("\n");
    assert_eq!(expected, result);
}

#[test]
fn fancygithub_grid_multiline_with_empty_cells_headerless() {
    let result = multiline_empty_cells_headerless(Style::FancyGithub).tabulate();
    let expected = vec![
        "│ 0 │                │      │",
        "│ 1 │                │      │",
        "│ 2 │ very long data │ fold │",
        "│   │                │ this │",
    ]
    .join("\n");
    assert_eq!(expected, result);
}

#[test]
fn fancypresto_grid() {
    let result = table(Style::FancyPresto).tabulate();
    let expected = vec![
        "strings   │   numbers",
        "──────────┼──────────",
        "spam      │   41.9999",
        "eggs      │  451",
    ]
    .join("\n");
    assert_eq!(expected, result);
}

#[test]
fn fancypresto_grid_headerless() {
    let result = headerless(Style::FancyPresto).tabulate();
    let expected = vec!["spam │  41.9999", "eggs │ 451"].join("\n");
    assert_eq!(expected, result);
}

#[test]
fn fancypresto_grid_multiline_headerless() {
    let result = multiline_headerless(Style::FancyPresto).tabulate();
    let expected = vec![
        "foo bar │   hello",
        "  baz   │",
        "  bau   │",
        "        │ multiline",
        "        │   world",
    ]
    .join("\n");
    assert_eq!(expected, result);
}

#[test]
fn fancypresto_grid_multiline() {
    let result = multiline(Style::FancyPresto).tabulate();
    let expected = vec![
        "       more │ more spam",
        "  spam eggs │ & eggs",
        "────────────┼────────────",
        "          2 │ foo",
        "            │ bar",
    ]
    .join("\n");
    assert_eq!(expected, result);
}

#[test]
fn fancypresto_grid_multiline_with_empty_cells() {
    let result = multiline_empty_cells(Style::FancyPresto).tabulate();
    let expected = vec![
        "  hdr │ data           │ fold",
        "──────┼────────────────┼───────",
        "    1 │                │",
        "    2 │ very long data │ fold",
        "      │                │ this",
    ]
    .join("\n");
    assert_eq!(expected, result);
}

#[test]
fn fancypresto_grid_multiline_with_empty_cells_headerless() {
    let result = multiline_empty_cells_headerless(Style::FancyPresto).tabulate();
    let expected = vec![
        "0 │                │",
        "1 │                │",
        "2 │ very long data │ fold",
        "  │                │ this",
    ]
    .join("\n");
    assert_eq!(expected, result);
}
