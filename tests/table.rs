use table_formatter::error::TableError;
use table_formatter::table::{Align, Border, Cell, Content, Overflow, Table};

fn text(s: &str) -> Cell {
    Cell::default().with_content(Content::new(s))
}

fn text_aligned(s: &str, align: Align) -> Cell {
    text(s).with_align(align)
}

fn doc_table() -> Table {
    let table_header = vec![
        text("Cell Row").with_width(Some(20)),
        text_aligned("Left", Align::Left).with_width(Some(10)),
        text_aligned("Center", Align::Center).with_width(Some(10)),
        text_aligned("Right", Align::Right).with_width(Some(10)),
    ];
    let mut table_cells: Vec<Vec<Cell>> = (0..=3_u8)
        .map(|_| {
            vec![
                text("Cell Row"),
                text_aligned("Left", Align::Left),
                text_aligned("Center", Align::Center),
                text_aligned("Right", Align::Right),
            ]
        })
        .collect();
    table_cells.push(text_aligned("Cross Cell!", Align::Center).with_span(3));
    Table::create(table_header, table_cells, true).with_border(Border::all())
}

fn alternating_table() -> Table {
    Table::new(
        (0..=4)
            .map(|i1| {
                if i1 % 2 == 0 {
                    let mut v = vec![Cell::default().with_content(Content::Splitter)];
                    v.append(&mut text("123123123123123123123123123").with_span(1));
                    v.push(Cell::default().with_content(Content::Splitter));
                    v
                } else {
                    (0..4).map(|i2| text(&format!("{}-{}", i1, i2))).collect()
                }
            })
            .collect(),
    )
    .with_border(Border::all())
}

#[test]
fn test_merge_cell() {
    let table = Table::new(vec![
        (0..5)
            .map(|_| Cell::default().with_content(Content::Splitter).with_width(Some(5)))
            .collect(),
        vec![
            Cell::default().with_content(Content::Splitter),
            Cell::default().with_content(Content::new("123123123")).with_merge(Some(2)),
            Cell::default().with_content(Content::Empty),
            Cell::default().with_content(Content::Empty),
            Cell::default().with_content(Content::Splitter),
        ],
    ]);
    let out = table.render_raw().unwrap();
    let expected = format!(
        "{}\n{}{}{}\n",
        "━".repeat(39),
        "━".repeat(7),
        format!(" 123123123{} ", " ".repeat(14)),
        "━".repeat(7)
    );
    assert_eq!(out, expected);
}

#[test]
fn test_table_formatter() {
    let table = doc_table();
    let out = table.render_raw().unwrap();
    let lines: Vec<&str> = out.lines().collect();
    assert_eq!(lines.len(), 9);
    for l in &lines {
        assert_eq!(l.chars().count(), 60);
    }
    assert_eq!(lines[0], "━".repeat(60));
    assert_eq!(
        lines[1],
        format!("┃ Cell Row{} {}{}{}┃", " ".repeat(12), " Left       ", "   Center   ", "      Right ")
    );
    assert_eq!(lines[2], format!("┃{}┃", "━".repeat(58)));
    assert_eq!(
        lines[7],
        format!("┃ {}Cross Cell!{} ┃", " ".repeat(22), " ".repeat(23))
    );
    assert_eq!(lines[8], "━".repeat(60));
}

#[test]
fn test_table_formatter_raw() {
    let table = alternating_table();
    let out = table.render_raw().unwrap();
    let even = "┃━━━━━ 12312... ━━━━━┃";
    let expected = format!(
        "{rule}\n{even}\n┃ 1-0  1-1  1-2  1-3 ┃\n{even}\n┃ 3-0  3-1  3-2  3-3 ┃\n{even}\n{rule}\n",
        rule = "━".repeat(22),
        even = even
    );
    assert_eq!(out, expected);
}

#[test]
fn test_table_formatter_markdown() {
    let table = alternating_table();
    let out = table.render_markdown().unwrap();
    let even = "┃━━━┃123123123123123123123123123┃┃━━━┃";
    let expected = format!(
        "{even}\n┃:--┃:--┃:--┃:--┃\n┃1-0┃1-1┃1-2┃1-3┃\n{even}\n┃3-0┃3-1┃3-2┃3-3┃\n{even}\n",
        even = even
    );
    assert_eq!(out, expected);
}

#[test]
fn test_default() {
    let table_header = vec![
        vec![text("123"), text("444")],
        vec![Cell::default().with_content(Content::Empty), text("777")],
    ];
    let table = Table::new(table_header);
    assert_eq!(table.render_raw().unwrap(), " 123  444 \n      777 \n");
}

#[test]
fn doc_test() {
    let out = doc_table().render_raw().unwrap();
    assert_eq!(out.lines().count(), 9);
    assert!(out.lines().all(|l| l.chars().count() == 60));
}

#[test]
fn markdown_test() {
    let table_header = vec![
        text("Cell Row").with_width(Some(20)),
        text_aligned("Right", Align::Right).with_width(Some(10)),
    ];
    let table_cells: Vec<Vec<Cell>> = (0..=3_u8)
        .map(|_| vec![text("Cell Row"), text_aligned("Right", Align::Right)])
        .collect();
    let table = Table::create(table_header, table_cells, true).with_border(Border::all());
    let out = table.render_markdown().unwrap();
    let expected = "┃Cell Row┃Right┃\n┃:--┃--:┃\n┃━━━┃━━━┃\n".to_string()
        + &"┃Cell Row┃Right┃\n".repeat(4);
    assert_eq!(out, expected);
}

#[test]
fn rendering_twice_gives_the_same_output() {
    let table = doc_table();
    assert_eq!(table.render_raw().unwrap(), table.render_raw().unwrap());
    assert_eq!(table.render_markdown().unwrap(), table.render_markdown().unwrap());
}

#[test]
fn every_line_has_the_table_width() {
    for border in [Border::none(), Border::all(), Border::vertical(), Border::horizontal()] {
        let table = alternating_table().with_border(border);
        let widths = table.update_width(table.validate().unwrap()).unwrap();
        let expected = widths.iter().map(|w| w + 2).sum::<usize>()
            + usize::from(border.left)
            + usize::from(border.right);
        let out = table.render_raw().unwrap();
        for l in out.lines() {
            assert_eq!(l.chars().count(), expected);
        }
    }
}

#[test]
fn merge_over_text_is_refused() {
    let table = Table::new(vec![
        vec![text("a"), text("b"), text("c"), text("d")],
        vec![
            Cell::default().with_content(Content::Splitter),
            text("x").with_merge(Some(2)),
            Cell::default().with_content(Content::Empty),
            text("nonempty"),
        ],
    ]);
    assert!(matches!(table.render_raw(), Err(TableError::MergeOverwrite { x: 3, y: 1 })));
}

#[test]
fn merge_beyond_the_row_is_refused() {
    let table = Table::new(vec![vec![text("a"), text("b").with_merge(Some(2)), Cell::default()]]);
    assert!(matches!(
        table.render_raw(),
        Err(TableError::MergeOutOfTable { x: 1, y: 0, merge: 2, max: 1 })
    ));
}

#[test]
fn rows_of_unequal_length_are_refused() {
    let table = Table::new(vec![
        vec![text("a"), text("b"), text("c")],
        vec![text("a"), text("b"), text("c")],
        vec![text("a"), text("b"), text("c"), text("d")],
    ]);
    assert!(matches!(
        table.validate(),
        Err(TableError::InvalidTableSize { row: 2, expected: 3, actual: 4 })
    ));
    assert!(matches!(
        table.render_raw(),
        Err(TableError::InvalidTableSize { row: 2, expected: 3, actual: 4 })
    ));
    assert!(matches!(
        table.render_markdown(),
        Err(TableError::InvalidTableSize { row: 2, expected: 3, actual: 4 })
    ));
}

#[test]
fn markdown_alignment_comes_from_the_first_row() {
    let table = Table::new(vec![
        vec![text_aligned("a", Align::Center), text_aligned("b", Align::Right)],
        vec![text_aligned("c", Align::Right), text_aligned("d", Align::Left)],
    ]);
    assert_eq!(table.render_markdown().unwrap(), "┃a┃b┃\n┃:-:┃--:┃\n┃c┃d┃\n");
}

#[test]
fn empty_table_renders() {
    let table = Table::new(vec![]);
    assert_eq!(table.validate().unwrap(), 0);
    assert_eq!(table.render_markdown().unwrap(), "┃┃\n┃-┃\n");
    assert_eq!(table.render_raw().unwrap(), "");
    let table = Table::new(vec![]).with_border(Border::all());
    assert_eq!(table.render_raw().unwrap(), "━━\n━━\n");
}

#[test]
fn column_width_is_the_widest_cell() {
    let table = Table::new(vec![
        vec![text("abc"), text("x").with_width(Some(7))],
        vec![text("abcdef"), Cell::default()],
    ]);
    assert_eq!(table.update_width(2).unwrap(), vec![6, 7]);
    assert!(matches!(table.update_width(1), Err(TableError::Unexpected(_))));
}

#[test]
fn too_wide_table_is_refused() {
    let table = Table::new(vec![vec![text("a").with_width(Some(usize::MAX))]]);
    assert!(matches!(
        table.render_raw(),
        Err(TableError::Unexpected(m)) if m == "table width exceeds the machine word"
    ));
}

#[test]
fn overflow_is_overwritten_everywhere() {
    let mut table = Table::new(vec![
        vec![text("abcdef").with_width(Some(3)).with_overflow(Overflow::Ellipsis)],
    ]);
    assert_eq!(table.render_raw().unwrap(), " ... \n");
    table.overwrite_overflow(Overflow::Hidden);
    assert_eq!(table.render_raw().unwrap(), " abc \n");
    table.set_border(Border::vertical());
    assert_eq!(table.render_raw().unwrap(), "┃ abc ┃\n");
}

#[test]
fn layout_names_the_cells() {
    let table = Table::new(vec![vec![text("a").with_span(1), vec![text("b")]].concat()])
        .with_border(Border::new(true, false, false, false));
    let lines = table.layout().unwrap();
    assert_eq!(lines.len(), 1);
    let cells: Vec<Option<(usize, usize)>> = lines[0].iter().map(|p| p.cell).collect();
    assert_eq!(cells, vec![None, Some((0, 0)), Some((2, 0))]);
    assert_eq!(lines[0][1].text, " a  ");
    assert_eq!(lines[0][2].text, " b ");
}

#[test]
fn create_without_splitter() {
    let table = Table::create(vec![text("h")], vec![vec![text("v")]], false);
    assert_eq!(table.render_raw().unwrap(), " h \n v \n");
}
