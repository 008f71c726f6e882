use text_to_table::lines::ParseError;
use text_to_table::table::{infer_column_count, Table, TableBuilder, TableContent};
use text_to_table::lines::LineSplitContiguous;

fn rows(v: &[&[&str]]) -> Vec<Vec<String>> {
    v.iter().map(|r| r.iter().map(|s| s.to_string()).collect()).collect()
}

#[test]
fn builder_defaults_split_on_spaces() {
    let t = TableBuilder::new().from_contents("a b\nc  d");
    assert!(matches!(t, Table::SplitContiguous(_)));
    assert_eq!(t.split().unwrap(), rows(&[&["a", "b"], &["c", "", "d"]]));
}

#[test]
fn builder_selects_variant_from_flags() {
    let mut b = TableBuilder::new();
    assert!(matches!(b.contiguous_delimiters(true).from_contents("x"), Table::IgnoreContiguous(_)));
    let mut b2 = TableBuilder::new();
    assert!(matches!(b2.quoted_fields(true).from_contents("x"), Table::QuotedSplitContiguous(_)));
    let mut b3 = TableBuilder::new();
    let t = b3.quoted_fields(true).contiguous_delimiters(true).from_contents("x");
    assert!(matches!(t, Table::QuotedIgnoreContiguous(_)));
}

#[test]
fn table_splits_every_line_in_order() {
    let t = TableBuilder::new()
        .delimiters(vec![',', ' '])
        .quoted_fields(true)
        .contiguous_delimiters(true)
        .from_contents("a, b\n\"c d\",e\r\n\nf");
    assert_eq!(
        t.split().unwrap(),
        rows(&[&["a", "b"], &["\"c d\"", "e"], &[], &["f"]])
    );
}

#[test]
fn lines_follow_standard_line_iteration() {
    let t = TableBuilder::new().delimiters(vec![',']).from_contents("a\r\nb\n\nc\n");
    assert_eq!(t.split().unwrap(), rows(&[&["a"], &["b"], &[""], &["c"]]));
    let empty = TableBuilder::new().from_contents("");
    assert_eq!(empty.split().unwrap(), Vec::<Vec<String>>::new());
    let tail_cr = TableBuilder::new().delimiters(vec![',']).from_contents("x\ny\r");
    assert_eq!(tail_cr.split().unwrap(), rows(&[&["x"], &["y\r"]]));
}

#[test]
fn split_fails_fast_on_unterminated_quote() {
    let t = TableBuilder::new()
        .delimiters(vec![','])
        .quoted_fields(true)
        .from_contents("a,b\n\"open,c\nd");
    assert_eq!(t.split().unwrap_err(), ParseError::CannotParseLine);
}

#[test]
fn split_is_repeatable() {
    let t = TableBuilder::new()
        .delimiters(vec![','])
        .quoted_fields(true)
        .from_contents("a,\"b,c\"\nd,,e");
    let first = t.split().unwrap();
    let second = t.split().unwrap();
    assert_eq!(first, second);
    assert_eq!(first.len(), 2);
}

#[test]
fn table_content_directly() {
    let c: TableContent<LineSplitContiguous> = TableContent::new("1 2\n3", &[' ']);
    assert_eq!(c.split().unwrap(), rows(&[&["1", "2"], &["3"]]));
    assert_eq!(c.column_count().unwrap(), 1);
}

#[test]
fn column_count_picks_most_frequent() {
    assert_eq!(infer_column_count(&vec![3, 3, 3, 4]).unwrap(), 3);
    let t = TableBuilder::new().from_contents("a b c\nd e f\ng h i\nj k l m");
    assert_eq!(t.column_count().unwrap(), 3);
}

#[test]
fn column_count_tie_takes_smallest() {
    assert_eq!(infer_column_count(&vec![4, 2, 4, 2]).unwrap(), 2);
    assert_eq!(infer_column_count(&vec![7]).unwrap(), 7);
}

#[test]
fn column_count_errors() {
    assert_eq!(infer_column_count(&vec![]).unwrap_err(), ParseError::ColumnCountError);
    let empty = TableBuilder::new().from_contents("");
    assert_eq!(empty.column_count().unwrap_err(), ParseError::ColumnCountError);
    let bad = TableBuilder::new().quoted_fields(true).from_contents("a \"b");
    assert_eq!(bad.column_count().unwrap_err(), ParseError::CannotParseLine);
}
