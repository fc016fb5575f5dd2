use table_formatter::table::{Align, Cell, Content, Overflow, Padding};

#[test]
fn cell_test_render_cell() {
    let cell = Cell::default()
        .with_content(Content::new("123"))
        .with_overflow(Overflow::Ellipsis);
    assert_eq!(" 1. ", cell.render_with_width_raw(2));

    let cell = Cell::default()
        .with_content(Content::new("123123"))
        .with_overflow(Overflow::Ellipsis);
    assert_eq!(" 1... ", cell.render_with_width_raw(4));

    let cell = Cell::default()
        .with_content(Content::new("123123"))
        .with_overflow(Overflow::Ellipsis);
    assert_eq!(" 123123 ", cell.render_with_width_raw(6));

    let cell = Cell::default()
        .with_content(Content::new("123123"))
        .with_overflow(Overflow::Hidden);
    assert_eq!(" 12312 ", cell.render_with_width_raw(5));

    let cell = Cell::default()
        .with_content(Content::new("123123"))
        .with_overflow(Overflow::Ellipsis)
        .with_padding(Padding::new(1, 1));
    assert_eq!("  1...  ", cell.render_with_width_raw(6));

    let cell = Cell::default()
        .with_content(Content::new("123123"))
        .with_overflow(Overflow::Ellipsis)
        .with_padding(Padding::new(1, 3));
    assert_eq!("  1.    ", cell.render_with_width_raw(6));

    let cell = Cell::default()
        .with_content(Content::new("123123"))
        .with_overflow(Overflow::Ellipsis)
        .with_align(Align::Center);
    assert_eq!("   123123   ", cell.render_with_width_raw(10));

    let cell = Cell::default()
        .with_content(Content::new("123123"))
        .with_overflow(Overflow::Ellipsis)
        .with_align(Align::Center);
    assert_eq!("  123123   ", cell.render_with_width_raw(9));

    let cell = Cell::default()
        .with_content(Content::new("123123"))
        .with_overflow(Overflow::Ellipsis)
        .with_align(Align::Right);
    assert_eq!("   123123 ", cell.render_with_width_raw(8));
}

#[test]
fn centering_puts_the_odd_blank_on_the_right() {
    let cell = Cell::default().with_content(Content::new("123123")).with_align(Align::Center);
    let s = cell.render_with_width_raw(9);
    assert_eq!(s, format!(" {}{}{} ", " ", "123123", "  "));
    assert_ne!(s, "   123123  ");
}

#[test]
fn padding_wider_than_the_column_gives_blanks() {
    let cell = Cell::default().with_content(Content::new("abc")).with_padding(Padding::new(3, 2));
    assert_eq!(cell.render_with_width_raw(4), "      ");
    let cell = Cell::default().with_content(Content::new("abc")).with_padding(Padding::new(2, 2));
    assert_eq!(cell.render_with_width_raw(4), "      ");
}

#[test]
fn splitter_and_empty_fill_the_margins() {
    let cell = Cell::default().with_content(Content::Splitter).with_padding(Padding::new(1, 1));
    assert_eq!(cell.render_with_width_raw(3), "━━━━━");
    let cell = Cell::default();
    assert_eq!(cell.render_with_width_raw(3), "     ");
}

#[test]
fn content_sets_the_width() {
    let cell = Cell::default().with_content(Content::new("hello"));
    assert_eq!(cell.get_width(), Some(5));
    let cell = cell.with_width(Some(9));
    assert_eq!(cell.get_width(), Some(9));
    let mut cell = cell;
    cell.set_content(Content::Splitter);
    assert_eq!(cell.get_width(), None);
    assert!(matches!(cell.get_content(), Content::Splitter));
}

#[test]
fn setters_change_one_setting() {
    let mut cell = Cell::default().with_content(Content::new("abcdef"));
    cell.set_align(Align::Right);
    assert_eq!(cell.get_align(), Align::Right);
    cell.set_merge(Some(2));
    assert_eq!(cell.get_merge(), Some(2));
    cell.set_width(Some(3));
    cell.set_overflow(Overflow::Hidden);
    assert_eq!(cell.render_with_width_raw(4), " abcd ");
    cell.set_padding(Padding::new(1, 0));
    assert_eq!(cell.render_with_width_raw(4), "  abc ");
}

#[test]
fn span_gives_the_spanning_cell_and_empty_cells() {
    let v = Cell::default().with_content(Content::new("wide")).with_span(2);
    assert_eq!(v.len(), 3);
    assert_eq!(v[0].get_merge(), Some(2));
    assert_eq!(v[0].get_width(), None);
    assert!(matches!(v[0].get_content(), Content::Text(t) if t == "wide"));
    for c in &v[1..] {
        assert!(matches!(c.get_content(), Content::Empty));
        assert_eq!(c.get_merge(), None);
    }
    assert_eq!(Cell::default().with_span(0).len(), 1);
}
