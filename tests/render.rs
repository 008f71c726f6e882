use text_to_table::lines::ParseError;
use text_to_table::markdown::{MarkdownError, MarkdownTable};
use text_to_table::options::{delimiter_chars, Delimiter, TableOutputFmt};
use text_to_table::output::{render, to_csv, to_html, RenderError};
use text_to_table::sqlddl::{SqlDdlError, SqlDdlTable};
use text_to_table::table::TableBuilder;

fn rows(v: &[&[&str]]) -> Vec<Vec<String>> {
    v.iter().map(|r| r.iter().map(|s| s.to_string()).collect()).collect()
}

#[test]
fn markdown_without_header() {
    let md = MarkdownTable::new(rows(&[&["a", "bb"], &["ccc", "d"]])).to_markdown().unwrap();
    assert_eq!(md, "| ??? | ??? |\n| --- | --- |\n| a   | bb  |\n| ccc | d   |\n");
}

#[test]
fn markdown_with_header_and_wide_column() {
    let md = MarkdownTable::new(rows(&[&["name", "n"], &["alexandra", "1"], &["b"]]))
        .has_header(true)
        .to_markdown()
        .unwrap();
    assert_eq!(
        md,
        "| name      | n   |\n| --------- | --- |\n| alexandra | 1   |\n| b         |\n"
    );
}

#[test]
fn markdown_width_counts_bytes() {
    let md = MarkdownTable::new(rows(&[&["éé"]])).to_markdown().unwrap();
    assert_eq!(md, "| ???? |\n| ---- |\n| éé   |\n");
}

#[test]
fn markdown_empty_contents() {
    let err = MarkdownTable::new(Vec::new()).has_header(true).to_markdown().unwrap_err();
    assert_eq!(err, MarkdownError::EmptyContents);
    assert_eq!(MarkdownTable::new(Vec::new()).to_markdown().unwrap(), "||\n||\n\n");
}

#[test]
fn sql_with_header() {
    let sql = SqlDdlTable::new(rows(&[&["id", "name"], &["1", "x"], &["2", "y"]]))
        .has_header(true)
        .to_sql()
        .unwrap();
    assert_eq!(sql, "INSERT INTO table_name\n(id,name)\nVALUES\n('1','x'),\n('2','y');\n");
}

#[test]
fn sql_without_header() {
    let sql = SqlDdlTable::new(rows(&[&["1", "x", "z"], &["2"]])).to_sql().unwrap();
    assert_eq!(sql, "INSERT INTO table_name\n(?,?,?)\nVALUES\n('1','x','z'),\n('2');\n");
}

#[test]
fn sql_empty_contents() {
    let err = SqlDdlTable::new(Vec::new()).has_header(true).to_sql().unwrap_err();
    assert_eq!(err, SqlDdlError::EmptyContents);
}

#[test]
fn html_renders_cells() {
    let html = to_html(&rows(&[&["a", "b"], &["c"]]));
    assert_eq!(
        html,
        "<table><thead/><tbody><tr><td>a</td><td>b</td></tr><tr><td>c</td></tr></tbody></table>"
    );
}

#[test]
fn html_empty_rows_and_tables() {
    assert_eq!(to_html(&Vec::new()), "<table><thead/><tbody/></table>");
    assert_eq!(
        to_html(&rows(&[&[], &["<b>"]])),
        "<table><thead/><tbody><tr/><tr><td><b></td></tr></tbody></table>"
    );
}

#[test]
fn csv_renders_records() {
    let csv = to_csv(&rows(&[&["a", "b c"], &["x,y"], &["q\"r"]]));
    assert_eq!(csv, "a,b c\n\"x,y\"\n\"q\"\"r\"\n");
}

#[test]
fn csv_empty_records_and_line_breaks() {
    let csv = to_csv(&rows(&[&[""], &[], &["", ""], &["a\rb"], &["c\nd", "é"]]));
    assert_eq!(csv, "\"\"\n\"\"\n,\n\"a\rb\"\n\"c\nd\",é\n");
    assert_eq!(to_csv(&Vec::new()), "");
}

#[test]
fn render_each_format() {
    let t = TableBuilder::new().delimiters(vec![',']).from_contents("h1,h2\n1,2");
    let md = render(&t, TableOutputFmt::Md, true).unwrap().unwrap();
    assert_eq!(md, "| h1  | h2  |\n| --- | --- |\n| 1   | 2   |\n");
    let sql = render(&t, TableOutputFmt::Sql, false).unwrap().unwrap();
    assert_eq!(sql, "INSERT INTO table_name\n(?,?)\nVALUES\n('h1','h2'),\n('1','2');\n");
    let csv = render(&t, TableOutputFmt::Csv, false).unwrap().unwrap();
    assert_eq!(csv, "h1,h2\n1,2\n");
    assert!(render(&t, TableOutputFmt::Html, false).unwrap().unwrap().contains("<td>h1</td>"));
    assert_eq!(render(&t, TableOutputFmt::Json, false).unwrap(), None);
}

#[test]
fn render_errors() {
    let bad = TableBuilder::new().quoted_fields(true).from_contents("\"x");
    assert_eq!(
        render(&bad, TableOutputFmt::Csv, false).unwrap_err(),
        RenderError::Parse(ParseError::CannotParseLine)
    );
    let empty = TableBuilder::new().from_contents("");
    assert_eq!(
        render(&empty, TableOutputFmt::Md, true).unwrap_err(),
        RenderError::Markdown(MarkdownError::EmptyContents)
    );
    assert_eq!(
        render(&empty, TableOutputFmt::Sql, true).unwrap_err(),
        RenderError::SqlDdl(SqlDdlError::EmptyContents)
    );
}

#[test]
fn delimiters_map_to_chars() {
    let all = vec![
        Delimiter::Space,
        Delimiter::Tab,
        Delimiter::Comma,
        Delimiter::Vbar,
        Delimiter::Period,
        Delimiter::Colon,
    ];
    assert_eq!(delimiter_chars(&all), vec![' ', '\t', ',', '|', '.', ':']);
    assert_eq!(Delimiter::Vbar.as_char(), '|');
    assert_eq!(Delimiter::Vbar.label(), "Vertical bar");
    assert_eq!(TableOutputFmt::Md.label(), "Markdown (.md)");
}
