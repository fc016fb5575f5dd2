use table_formatter::column::{Cell, CellOverflow, CellPadding, CellPosition, TableCell, TableColumn};

#[test]
fn test_render_tablecell() {
    let cell = TableCell::new(Cell::TextCell("123123".into()))
        .with_position(CellPosition::Middle)
        .with_padding(CellPadding::new(0, 0));
    assert_eq!(cell.render_raw(5), " 12... ");
    let cell = TableCell::new(Cell::TextCell("123123".into()))
        .with_position(CellPosition::Middle)
        .with_padding(CellPadding::new(1, 0));
    assert_eq!(cell.render_raw(5), "  1... ");
    let cell = TableCell::new(Cell::TextCell("123123".into()))
        .with_position(CellPosition::Middle)
        .with_padding(CellPadding::new(1, 1));
    assert_eq!(cell.render_raw(5), "  ...  ");
    let cell = TableCell::new(Cell::Splitter);
    assert_eq!(cell.render_raw(5), "───────");
}

#[test]
fn table_cell_test_render_cell() {
    let cell = Cell::TextCell("12123123343🍇".into());
    let render_res = cell.render_with_length(7, CellOverflow::Hide);
    assert_eq!(render_res, ("1212312".to_string(), 7));
    assert_eq!(cell.get_width(), Some(12));
}

#[test]
fn test_column_render() {
    let cells: Vec<Vec<TableCell>> = (0..=3_u8)
        .map(|r| {
            (0..=5_u8)
                .map(|i| TableCell::new(Cell::TextCell(format!("Cell: {}@{}", r, i))))
                .collect()
        })
        .collect();
    let columns = TableColumn::from_cells(cells);
    assert_eq!(columns.len(), 6);
    for (i, column) in columns.iter().enumerate() {
        assert_eq!(column.get_width(), 9);
        let rendered = column.render_raw();
        let expected: Vec<String> = (0..=3).map(|r| format!(" Cell: {}@{} ", r, i)).collect();
        assert_eq!(rendered, expected);
    }
}

#[test]
fn middle_puts_the_odd_blank_on_the_right() {
    let cell = TableCell::new(Cell::TextCell("123123".into())).with_position(CellPosition::Middle);
    assert_eq!(cell.render_raw(9), "  123123   ");
    let cell = TableCell::new(Cell::TextCell("ab".into())).with_position(CellPosition::Middle);
    assert_eq!(cell.render_raw(5), "  ab   ");
    let cell = cell.with_position(CellPosition::Right);
    assert_eq!(cell.render_raw(5), "    ab ");
}

#[test]
fn widths_below_three_use_one_dot() {
    let cell = Cell::TextCell("abcdef".into());
    assert_eq!(cell.render_with_length(2, CellOverflow::Ellipsis), ("a.".to_string(), 2));
    assert_eq!(cell.render_with_length(3, CellOverflow::Ellipsis), ("...".to_string(), 3));
    assert_eq!(cell.render_with_length(4, CellOverflow::Ellipsis), ("a...".to_string(), 4));
    assert_eq!(cell.render_with_length(6, CellOverflow::Ellipsis), ("abcdef".to_string(), 6));
    assert_eq!(cell.render_with_length(0, CellOverflow::Hide), (String::new(), 0));
}

#[test]
fn padding_that_fills_the_width_blanks_the_cell() {
    let cell = TableCell::new(Cell::TextCell("abc".into())).with_padding(CellPadding::new(2, 1));
    assert_eq!(cell.render_raw(3), "     ");
}

#[test]
fn padding_setters() {
    let p = CellPadding::none().set_left(2).set_right(5);
    assert_eq!((p.left(), p.right()), (2, 5));
    assert_eq!(CellPadding::default().left(), 0);
    assert_eq!(CellOverflow::default(), CellOverflow::Ellipsis);
}

#[test]
fn jagged_rows_make_uneven_columns() {
    let rows = vec![
        vec![TableCell::new(Cell::TextCell("a".into())), TableCell::new(Cell::Splitter)],
        vec![TableCell::new(Cell::TextCell("abcdefgh".into()))],
        vec![
            TableCell::new(Cell::TextCell("b".into())),
            TableCell::new(Cell::TextCell("c".into())),
            TableCell::new(Cell::TextCell("d".into())).with_width(5),
        ],
    ];
    let columns = TableColumn::from_cells(rows);
    assert_eq!(columns.len(), 3);
    assert_eq!(columns[0].get_width(), 8);
    assert_eq!(columns[0].render_raw().len(), 3);
    assert_eq!(columns[1].get_width(), 3);
    assert_eq!(columns[1].render_raw(), vec!["─────".to_string(), " c   ".to_string()]);
    assert_eq!(columns[2].get_width(), 5);
    assert_eq!(columns[2].get_render_width(), 7);
}

#[test]
fn column_overflow_is_set_on_every_cell() {
    let column = TableColumn::new(vec![TableCell::new(Cell::TextCell("abcdef".into()))], 4)
        .with_overflow(CellOverflow::Hide);
    assert_eq!(column.render_raw(), vec![" abcd ".to_string()]);
    let mut column = column.with_width(6);
    column.set_overflow(CellOverflow::Ellipsis);
    column.set_width(5);
    assert_eq!(column.render_raw(), vec![" ab... ".to_string()]);
}
