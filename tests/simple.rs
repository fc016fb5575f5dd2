use table_formatter::format_error::FormatError;
use table_formatter::simple::{Table, TableAlign, TableCell, TableRow};

fn sample() -> Table {
    let title = [TableCell::new("Name"), TableCell::new("Qty").with_align(TableAlign::Right)];
    let content = [
        TableRow::Row(vec![TableCell::new("apple"), TableCell::new("3").with_align(TableAlign::Right)]),
        TableRow::PlainText("hello".to_string()),
        TableRow::Splitter,
        TableRow::BlankLine,
        TableRow::Row(vec![TableCell::new("kiwi"), TableCell::new("12").with_align(TableAlign::Right)]),
    ];
    Table::new(&title, &content).unwrap()
}

#[test]
fn simple_table_formats() {
    let rule = "─".repeat(14);
    let expected = [
        rule.as_str(),
        "| Name   Qty |",
        rule.as_str(),
        "| apple    3 |",
        "| hello      |",
        rule.as_str(),
        "|            |",
        "| kiwi    12 |",
        rule.as_str(),
    ]
    .iter()
    .map(|l| format!("{}\n", l))
    .collect::<String>();
    let out = sample().format().unwrap();
    assert_eq!(out, expected);
}

#[test]
fn simple_table_wraps_long_text() {
    let title = [TableCell::new("ab")];
    let content = [TableRow::PlainText("abcdefghij".to_string())];
    let table = Table::new(&title, &content).unwrap().with_table_width(8);
    let out = table.format().unwrap();
    assert_eq!(
        out,
        "────────\n| ab     |\n────────\n| abcd |\n| efgh |\n| ij   |\n────────\n"
    );
}

#[test]
fn simple_table_rejects_uneven_rows() {
    let title = [TableCell::new("a"), TableCell::new("b")];
    let content = [TableRow::Row(vec![TableCell::new("x")])];
    assert!(matches!(Table::new(&title, &content), Err(FormatError::InconsistentRowWidth)));
    let content = [TableRow::Row(vec![TableCell::new("x"), TableCell::new("y"), TableCell::new("z")])];
    assert!(matches!(Table::new(&title, &content), Err(FormatError::InconsistentRowWidth)));
}

#[test]
fn simple_table_validates() {
    assert!(sample().validate());
    let cell = TableCell::new("x").with_align(TableAlign::Right);
    assert_eq!(cell.content(), "x");
    assert_eq!(cell.align(), TableAlign::Right);
    assert!(TableAlign::Left < TableAlign::Right);
}

#[test]
fn simple_table_width_check() {
    let title = [TableCell::new("ab")];
    let content = [TableRow::PlainText("abcdefghij".to_string())];
    let table = Table::new(&title, &content).unwrap();
    assert!(table.fits_width());
    let narrow = table.clone().with_table_width(4);
    assert!(!narrow.fits_width());
    assert_eq!(table.clone().format().unwrap(), table.format().unwrap());
    let blank = Table::new(&[], &[TableRow::BlankLine]).unwrap();
    assert!(blank.fits_width());
    assert_eq!(blank.format().unwrap(), "──\n──\n||\n──\n");
}
