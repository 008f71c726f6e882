//! Rendering split rows in the chosen output format.

use vstd::prelude::*;
use vstd::string::StringExecFns;
use crate::lines::ParseError;
use crate::markdown::{markdown_of, MarkdownError, MarkdownTable};
use crate::options::TableOutputFmt;
use crate::sqlddl::{sql_of, SqlDdlError, SqlDdlTable};
use crate::table::Table;
use crate::text::join;

verus! {

/// The HTML cells of a row: each value between `<td>` and `</td>`, as is.
pub open spec fn html_cells(row: Seq<Seq<char>>) -> Seq<char>
    decreases row.len(),
{
    if row.len() == 0 {
        Seq::empty()
    } else {
        html_cells(row.drop_last()) + "<td>"@ + row.last() + "</td>"@
    }
}

/// An HTML table row; a row without cells is the empty element `<tr/>`.
pub open spec fn html_row(row: Seq<Seq<char>>) -> Seq<char> {
    if row.len() == 0 {
        "<tr/>"@
    } else {
        "<tr>"@ + html_cells(row) + "</tr>"@
    }
}

/// The HTML rows of `rows`, in order.
pub open spec fn html_rows(rows: Seq<Seq<Seq<char>>>) -> Seq<char>
    decreases rows.len(),
{
    if rows.len() == 0 {
        Seq::empty()
    } else {
        html_rows(rows.drop_last()) + html_row(rows.last())
    }
}

/// The HTML table of `rows`: an empty head, then a body with one row per
/// row; a body without rows is the empty element `<tbody/>`.
pub open spec fn html_table_of(rows: Seq<Seq<Seq<char>>>) -> Seq<char> {
    "<table><thead/>"@ + (if rows.len() == 0 {
        "<tbody/>"@
    } else {
        "<tbody>"@ + html_rows(rows) + "</tbody>"@
    }) + "</table>"@
}

/// A CSV field must be quoted when it holds a comma, a quote, a carriage
/// return or a newline.
pub open spec fn csv_needs_quotes(f: Seq<char>) -> bool {
    exists|i: int|
        0 <= i < f.len() && (#[trigger] f[i] == ',' || f[i] == '"' || f[i] == '\r' || f[i]
            == '\n')
}

/// `f` with each quote doubled.
pub open spec fn double_quotes(f: Seq<char>) -> Seq<char>
    decreases f.len(),
{
    if f.len() == 0 {
        Seq::empty()
    } else {
        double_quotes(f.drop_last()) + if f.last() == '"' {
            seq!['"', '"']
        } else {
            seq![f.last()]
        }
    }
}

/// One CSV field: as is, or between quotes with its quotes doubled when it
/// must be quoted.
pub open spec fn csv_field(f: Seq<char>) -> Seq<char> {
    if csv_needs_quotes(f) {
        seq!['"'] + double_quotes(f) + seq!['"']
    } else {
        f
    }
}

/// One CSV record: the fields separated by commas, written `""` when that
/// text would be empty, and ended by a newline.
pub open spec fn csv_record_of(fields: Seq<Seq<char>>) -> Seq<char> {
    let text = join(fields.map_values(|f: Seq<char>| csv_field(f)), seq![',']);
    (if text.len() == 0 {
        seq!['"', '"']
    } else {
        text
    }) + seq!['\n']
}

/// Relies on build_html's `Table::from` and `Html::to_html_string`: each row
/// becomes a body row whose cells hold the values unescaped.
#[verifier::external_body]
fn html_table(rows: &Vec<Vec<String>>) -> (r: String)
    ensures
        r@ == html_table_of(rows.deep_view()),
{
    build_html::Html::to_html_string(&build_html::Table::from(rows))
}

/// Relies on csv's `Writer::write_record` and `Writer::into_inner`, on a
/// flexible writer without headers that writes into memory with the default
/// quoting: writing into a vector cannot fail, and the output is UTF-8.
#[verifier::external_body]
fn csv_record(fields: &Vec<String>) -> (r: Option<String>)
    ensures
        r is Some,
        r->0@ == csv_record_of(fields.deep_view()),
{
    let mut wtr = csv::WriterBuilder::new().flexible(true).has_headers(false).from_writer(
        Vec::new(),
    );
    wtr.write_record(fields).ok()?;
    String::from_utf8(wtr.into_inner().ok()?).ok()
}

/// The CSV text of `rows`: the record of each row, in order.
pub open spec fn csv_text_of(rows: Seq<Seq<Seq<char>>>) -> Seq<char>
    decreases rows.len(),
{
    if rows.len() == 0 {
        Seq::empty()
    } else {
        csv_text_of(rows.drop_last()) + csv_record_of(rows.last())
    }
}

/// Renders `rows` as an HTML table.
pub fn to_html(rows: &Vec<Vec<String>>) -> (r: String)
    ensures
        r@ == html_table_of(rows.deep_view()),
{
    html_table(rows)
}

/// Renders `rows` as CSV records, one per row.
pub fn to_csv(rows: &Vec<Vec<String>>) -> (r: String)
    ensures
        r@ == csv_text_of(rows.deep_view()),
{
    let ghost rv = rows.deep_view();
    let mut out = String::new();
    let mut i: usize = 0;
    while i < rows.len()
        invariant
            i <= rows@.len(),
            rv == rows.deep_view(),
            out@ == csv_text_of(rv.take(i as int)),
        decreases rows@.len() - i,
    {
        assert(rv.take(i + 1).drop_last() =~= rv.take(i as int));
        assert(rv[i as int] == rows@[i as int].deep_view());
        if let Some(record) = csv_record(&rows[i]) {
            out.append(record.as_str());
        }
        i = i + 1;
    }
    assert(rv.take(i as int) =~= rv);
    out
}

/// Errors raised while producing output from a table.
#[derive(Debug, Clone, Copy, PartialEq, Eq)]
pub enum RenderError {
    /// A line of the table could not be split.
    Parse(ParseError),
    /// The markdown table could not be rendered.
    Markdown(MarkdownError),
    /// The SQL statement could not be rendered.
    SqlDdl(SqlDdlError),
}

/// The text held by the result of an executable rendering.
pub open spec fn output_view(r: Result<Option<String>, RenderError>) -> Result<
    Option<Seq<char>>,
    RenderError,
> {
    match r {
        Ok(Some(s)) => Ok(Some(s@)),
        Ok(None) => Ok(None),
        Err(e) => Err(e),
    }
}

/// The output for `rows` in `format`: `None` for JSON, which has no
/// renderer.
pub open spec fn output_of(
    rows: Seq<Seq<Seq<char>>>,
    format: TableOutputFmt,
    has_header: bool,
) -> Result<Option<Seq<char>>, RenderError> {
    match format {
        TableOutputFmt::Md => match markdown_of(rows, has_header) {
            Ok(s) => Ok(Some(s)),
            Err(e) => Err(RenderError::Markdown(e)),
        },
        TableOutputFmt::Sql => match sql_of(rows, has_header) {
            Ok(s) => Ok(Some(s)),
            Err(e) => Err(RenderError::SqlDdl(e)),
        },
        TableOutputFmt::Html => Ok(Some(html_table_of(rows))),
        TableOutputFmt::Csv => Ok(Some(csv_text_of(rows))),
        TableOutputFmt::Json => Ok(None),
    }
}

/// Splits `table` and renders its rows in `format`, with the first row as
/// the header where `has_header` holds (Markdown and SQL only). `None` when
/// the format has no renderer.
pub fn render(table: &Table, format: TableOutputFmt, has_header: bool) -> (r: Result<
    Option<String>,
    RenderError,
>)
    ensures
        table.rows() is Err ==> r == Err::<Option<String>, RenderError>(
            RenderError::Parse(table.rows()->Err_0),
        ),
        table.rows() is Ok ==> output_view(r) == output_of(table.rows()->Ok_0, format, has_header),
{
    let rows = match table.split() {
        Ok(rows) => rows,
        Err(e) => return Err(RenderError::Parse(e)),
    };
    match format {
        TableOutputFmt::Csv => Ok(Some(to_csv(&rows))),
        TableOutputFmt::Md => {
            let mut md = MarkdownTable::new(rows);
            md.has_header(has_header);
            match md.to_markdown() {
                Ok(s) => Ok(Some(s)),
                Err(e) => Err(RenderError::Markdown(e)),
            }
        },
        TableOutputFmt::Html => Ok(Some(to_html(&rows))),
        TableOutputFmt::Json => Ok(None),
        TableOutputFmt::Sql => {
            let mut sql = SqlDdlTable::new(rows);
            sql.has_header(has_header);
            match sql.to_sql() {
                Ok(s) => Ok(Some(s)),
                Err(e) => Err(RenderError::SqlDdl(e)),
            }
        },
    }
}

} // verus!
