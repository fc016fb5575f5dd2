use table_formatter::table::{Content, Overflow};

#[test]
fn content_test_render_cell() {
    let cell = Content::new("123123123");
    let (t, w) = cell.render_with_width(2, Overflow::Ellipsis);
    assert_eq!("1.", t.as_str());
    assert_eq!(2, w);
    let (t, w) = cell.render_with_width(2, Overflow::Hidden);
    assert_eq!("12", t.as_str());
    assert_eq!(2, w);
    let (t, w) = cell.render_with_width(5, Overflow::Ellipsis);
    assert_eq!("12...", t.as_str());
    assert_eq!(5, w);
    let (t, w) = cell.render_with_width(5, Overflow::Hidden);
    assert_eq!("12312", t.as_str());
    assert_eq!(5, w);
    let (t, w) = cell.render_with_width(9, Overflow::Ellipsis);
    assert_eq!("123123123", t.as_str());
    assert_eq!(9, w);
    let (t, w) = cell.render_with_width(9, Overflow::Hidden);
    assert_eq!("123123123", t.as_str());
    assert_eq!(9, w);
    let (t, w) = cell.render_with_width(19, Overflow::Ellipsis);
    assert_eq!("123123123", t.as_str());
    assert_eq!(9, w);
    let (t, w) = cell.render_with_width(19, Overflow::Hidden);
    assert_eq!("123123123", t.as_str());
    assert_eq!(9, w);

    let cell = Content::Splitter;
    let (t, w) = cell.render_with_width(9, Overflow::Hidden);
    assert_eq!("━━━━━━━━━", t.as_str());
    assert_eq!(9, w);

    let cell = Content::Empty;
    let (t, w) = cell.render_with_width(9, Overflow::Hidden);
    assert_eq!("         ", t.as_str());
    assert_eq!(9, w);
}

#[test]
fn content_width_counts_characters() {
    assert_eq!(Content::new("一二三").get_width(), Some(3));
    assert_eq!(Content::new("").get_width(), Some(0));
    assert_eq!(Content::Splitter.get_width(), None);
    assert_eq!(Content::Empty.get_width(), None);
}

#[test]
fn content_padding_and_text() {
    assert!(Content::new("x").have_default_padding());
    assert!(!Content::Splitter.have_default_padding());
    assert!(!Content::Empty.have_default_padding());
    assert_eq!(Content::new("abc").get_content().map(|s| s.as_str()), Some("abc"));
    assert!(Content::Splitter.get_content().is_none());
}

#[test]
fn truncation_boundary_exact_width_is_whole() {
    let c = Content::new("abcde");
    assert_eq!(c.render_with_width(5, Overflow::Ellipsis), ("abcde".to_string(), 5));
    assert_eq!(c.render_with_width(5, Overflow::Hidden), ("abcde".to_string(), 5));
}

#[test]
fn truncation_boundary_one_over_is_cut() {
    let c = Content::new("abcdef");
    assert_eq!(c.render_with_width(5, Overflow::Ellipsis), ("ab...".to_string(), 5));
    assert_eq!(c.render_with_width(5, Overflow::Hidden), ("abcde".to_string(), 5));
    let c = Content::new("abc");
    assert_eq!(c.render_with_width(2, Overflow::Ellipsis), ("a.".to_string(), 2));
    assert_eq!(c.render_with_width(3, Overflow::Ellipsis), ("abc".to_string(), 3));
}

#[test]
fn truncation_keeps_whole_characters() {
    let c = Content::new("一二三四五");
    assert_eq!(c.render_with_width(3, Overflow::Hidden), ("一二三".to_string(), 3));
    assert_eq!(c.render_with_width(4, Overflow::Ellipsis), ("一...".to_string(), 4));
}

#[test]
fn truncation_at_width_zero_shows_nothing() {
    let c = Content::new("abc");
    assert_eq!(c.render_with_width(0, Overflow::Ellipsis), (String::new(), 0));
    assert_eq!(c.render_with_width(0, Overflow::Hidden), (String::new(), 0));
    assert_eq!(Content::new("").render_with_width(0, Overflow::Ellipsis), (String::new(), 0));
}
