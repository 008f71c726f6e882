//! Markdown table generation.

use vstd::prelude::*;
use vstd::string::StringExecFns;
use crate::lines::push_char;
use crate::text::{
    append_padded, append_repeated, body_rows, byte_len, join, lemma_row_fits_columns,
    num_columns, pad_right, repeat,
};

verus! {

/// Minimum width of a single column in the markdown table.
pub const MIN_COLUMN_WIDTH: usize = 3;

/// Errors raised while rendering a markdown table.
#[derive(Debug, Clone, Copy, PartialEq, Eq)]
pub enum MarkdownError {
    /// A header was asked for, but the table has no rows.
    EmptyContents,
}

/// The width of column `j`: the byte length of its longest value, and at
/// least `MIN_COLUMN_WIDTH`.
pub open spec fn column_width(rows: Seq<Seq<Seq<char>>>, j: int) -> nat
    decreases rows.len(),
{
    if rows.len() == 0 {
        MIN_COLUMN_WIDTH as nat
    } else {
        let w = column_width(rows.drop_last(), j);
        if 0 <= j < rows.last().len() && byte_len(rows.last()[j]) > w {
            byte_len(rows.last()[j])
        } else {
            w
        }
    }
}

/// The width of every column of `rows`.
pub open spec fn column_widths(rows: Seq<Seq<Seq<char>>>) -> Seq<nat> {
    Seq::new(num_columns(rows), |j: int| column_width(rows, j))
}

/// The cells of a row of values, each padded to its column's width.
pub open spec fn value_cells(values: Seq<Seq<char>>, widths: Seq<nat>) -> Seq<Seq<char>> {
    Seq::new(values.len(), |i: int| seq![' '] + pad_right(values[i], widths[i]) + seq![' '])
}

/// A markdown row of `values`.
pub open spec fn values_row(values: Seq<Seq<char>>, widths: Seq<nat>) -> Seq<char> {
    seq!['|'] + join(value_cells(values, widths), seq!['|']) + seq!['|']
}

/// The cells of a row that fills each column with copies of `value`.
pub open spec fn repeated_cells(value: Seq<char>, widths: Seq<nat>) -> Seq<Seq<char>> {
    Seq::new(widths.len(), |i: int| seq![' '] + repeat(value, widths[i]) + seq![' '])
}

/// A markdown row that fills each column with copies of `value`.
pub open spec fn repeated_row(value: Seq<char>, widths: Seq<nat>) -> Seq<char> {
    seq!['|'] + join(repeated_cells(value, widths), seq!['|']) + seq!['|']
}

/// The markdown text of `rows`: a heading row (the first row, or `?` in
/// every column), a separator row, then the remaining rows, each column as
/// wide as its widest value.
pub open spec fn markdown_of(rows: Seq<Seq<Seq<char>>>, has_header: bool) -> Result<
    Seq<char>,
    MarkdownError,
> {
    if has_header && rows.len() == 0 {
        Err(MarkdownError::EmptyContents)
    } else {
        let widths = column_widths(rows);
        let heading = if has_header {
            values_row(rows[0], widths)
        } else {
            repeated_row(seq!['?'], widths)
        };
        let body = body_rows(rows, has_header);
        let rendered = join(
            Seq::new(body.len(), |i: int| values_row(body[i], widths)),
            seq!['\n'],
        );
        Ok(heading + seq!['\n'] + repeated_row(seq!['-'], widths) + seq!['\n'] + rendered + seq![
            '\n',
        ])
    }
}

/// The widths held by a vector of widths.
pub open spec fn widths_view(w: Seq<usize>) -> Seq<nat> {
    w.map_values(|x: usize| x as nat)
}

proof fn lemma_column_width_step(rows: Seq<Seq<Seq<char>>>, j: int)
    requires
        rows.len() > 0,
    ensures
        column_width(rows, j) == if 0 <= j < rows.last().len() && byte_len(rows.last()[j])
            > column_width(rows.drop_last(), j) {
            byte_len(rows.last()[j])
        } else {
            column_width(rows.drop_last(), j)
        },
{
}

/// Renders a row of values as markdown, each padded to its column's width.
fn values_to_markdown_row(values: &Vec<String>, col_widths: &Vec<usize>) -> (r: String)
    requires
        values@.len() <= col_widths@.len(),
    ensures
        r@ == values_row(values.deep_view(), widths_view(col_widths@)),
{
    let ghost vs = values.deep_view();
    let ghost ws = widths_view(col_widths@);
    let ghost cells = value_cells(vs, ws);
    let mut out = String::new();
    push_char(&mut out, '|');
    let mut i: usize = 0;
    while i < values.len()
        invariant
            i <= values@.len(),
            values@.len() <= col_widths@.len(),
            vs == values.deep_view(),
            ws == widths_view(col_widths@),
            cells == value_cells(vs, ws),
            out@ == seq!['|'] + join(cells.take(i as int), seq!['|']),
        decreases values@.len() - i,
    {
        let ghost before = out@;
        assert(cells.take(i + 1).drop_last() =~= cells.take(i as int));
        if i > 0 {
            push_char(&mut out, '|');
        } else {
            assert(cells.take(1) =~= seq![cells[0]]);
        }
        let ghost mid = out@;
        push_char(&mut out, ' ');
        append_padded(&mut out, values[i].as_str(), col_widths[i]);
        push_char(&mut out, ' ');
        assert(out@ =~= mid + cells[i as int]);
        i = i + 1;
    }
    assert(cells.take(i as int) =~= cells);
    push_char(&mut out, '|');
    out
}

/// Renders a row that fills each column with copies of `value`.
fn repeated_to_markdown_row(value: &str, col_widths: &Vec<usize>) -> (r: String)
    ensures
        r@ == repeated_row(value@, widths_view(col_widths@)),
{
    let ghost ws = widths_view(col_widths@);
    let ghost cells = repeated_cells(value@, ws);
    let mut out = String::new();
    push_char(&mut out, '|');
    let mut i: usize = 0;
    while i < col_widths.len()
        invariant
            i <= col_widths@.len(),
            ws == widths_view(col_widths@),
            cells == repeated_cells(value@, ws),
            out@ == seq!['|'] + join(cells.take(i as int), seq!['|']),
        decreases col_widths@.len() - i,
    {
        assert(cells.take(i + 1).drop_last() =~= cells.take(i as int));
        if i > 0 {
            push_char(&mut out, '|');
        } else {
            assert(cells.take(1) =~= seq![cells[0]]);
        }
        let ghost mid = out@;
        push_char(&mut out, ' ');
        append_repeated(&mut out, value, col_widths[i]);
        push_char(&mut out, ' ');
        assert(out@ =~= mid + cells[i as int]);
        i = i + 1;
    }
    assert(cells.take(i as int) =~= cells);
    push_char(&mut out, '|');
    out
}

/// The markdown text held by the result of an executable rendering.
pub open spec fn markdown_view(r: Result<String, MarkdownError>) -> Result<Seq<char>, MarkdownError> {
    match r {
        Ok(s) => Ok(s@),
        Err(e) => Err(e),
    }
}

/// A table of string fields to be rendered as markdown.
#[derive(Debug)]
pub struct MarkdownTable {
    contents: Vec<Vec<String>>,
    has_header: bool,
}

impl MarkdownTable {
    /// The rows of the table.
    pub closed spec fn contents_view(&self) -> Seq<Seq<Seq<char>>> {
        self.contents.deep_view()
    }

    /// Whether the first row is the header.
    pub closed spec fn header_view(&self) -> bool {
        self.has_header
    }

    /// Makes a table of `contents`, without a header.
    pub fn new(contents: Vec<Vec<String>>) -> (r: Self)
        ensures
            r.contents_view() == contents.deep_view(),
            !r.header_view(),
    {
        MarkdownTable { contents, has_header: false }
    }

    /// Sets whether the first row is the header.
    pub fn has_header(&mut self, has_header: bool) -> (r: &mut Self)
        ensures
            *final(self) == *final(r),
            r.contents_view() == old(self).contents_view(),
            r.header_view() == has_header,
    {
        self.has_header = has_header;
        self
    }

    /// The largest number of fields in any row.
    fn get_num_columns(&self) -> (r: usize)
        ensures
            r == num_columns(self.contents_view()),
    {
        let ghost rows = self.contents.deep_view();
        let mut n: usize = 0;
        let mut i: usize = 0;
        while i < self.contents.len()
            invariant
                i <= self.contents@.len(),
                rows == self.contents.deep_view(),
                n == num_columns(rows.take(i as int)),
            decreases self.contents@.len() - i,
        {
            assert(rows.take(i + 1).drop_last() =~= rows.take(i as int));
            assert(rows[i as int].len() == self.contents@[i as int]@.len());
            if self.contents[i].len() > n {
                n = self.contents[i].len();
            }
            i = i + 1;
        }
        assert(rows.take(i as int) =~= rows);
        n
    }

    /// The width of every column: the byte length of its longest value, and
    /// at least `MIN_COLUMN_WIDTH`.
    fn get_column_widths(&self) -> (r: Vec<usize>)
        ensures
            widths_view(r@) == column_widths(self.contents_view()),
    {
        let ghost rows = self.contents.deep_view();
        let n = self.get_num_columns();
        let mut widths: Vec<usize> = Vec::new();
        while widths.len() < n
            invariant
                widths@.len() <= n,
                forall|j: int| 0 <= j < widths@.len() ==> widths@[j] == MIN_COLUMN_WIDTH,
            decreases n - widths@.len(),
        {
            widths.push(MIN_COLUMN_WIDTH);
        }
        let mut i: usize = 0;
        while i < self.contents.len()
            invariant
                i <= self.contents@.len(),
                rows == self.contents.deep_view(),
                n == num_columns(rows),
                widths@.len() == n,
                forall|j: int| 0 <= j < n ==> widths@[j] == column_width(rows.take(i as int), j),
            decreases self.contents@.len() - i,
        {
            let ghost prev = rows.take(i as int);
            let ghost next = rows.take(i + 1);
            assert(next.drop_last() =~= prev);
            assert(next.last() == rows[i as int]);
            proof {
                lemma_row_fits_columns(rows, i as int);
            }
            let line = &self.contents[i];
            assert(rows[i as int] == line.deep_view());
            assert(next.last().len() == line@.len());
            let mut k: usize = 0;
            while k < line.len()
                invariant
                    k <= line@.len(),
                    line@.len() <= n,
                    i < self.contents@.len(),
                    rows == self.contents.deep_view(),
                    rows.len() == self.contents@.len(),
                    next.len() == i + 1,
                    next.last().len() == line@.len(),
                    rows[i as int] == line.deep_view(),
                    next.last() == rows[i as int],
                    next.drop_last() == prev,
                    widths@.len() == n,
                    forall|j: int| 0 <= j < k ==> widths@[j] == column_width(next, j),
                    forall|j: int| k <= j < n ==> widths@[j] == column_width(prev, j),
                decreases line@.len() - k,
            {
                assert(rows[i as int][k as int] == line@[k as int]@);
                let len = line[k].as_str().as_bytes().len();
                assert(len == byte_len(rows[i as int][k as int]));
                assert(next.last()[k as int] == rows[i as int][k as int]);
                proof {
                    lemma_column_width_step(next, k as int);
                }
                if len > widths[k] {
                    widths.set(k, len);
                }
                assert(widths@[k as int] == column_width(next, k as int));
                k = k + 1;
            }
            assert forall|j: int| 0 <= j < n implies widths@[j] == column_width(next, j) by {
                lemma_column_width_step(next, j);
            }
            i = i + 1;
        }
        assert(rows.take(i as int) =~= rows);
        assert(widths_view(widths@) =~= column_widths(rows));
        widths
    }

    /// Renders the table as markdown text. Fails with `EmptyContents` when a
    /// header is asked for and the table has no rows.
    pub fn to_markdown(&self) -> (r: Result<String, MarkdownError>)
        ensures
            markdown_view(r) == markdown_of(self.contents_view(), self.header_view()),
    {
        let ghost rows = self.contents.deep_view();
        let col_widths = self.get_column_widths();
        let ghost ws = widths_view(col_widths@);
        let mut out = if self.has_header {
            if self.contents.len() == 0 {
                return Err(MarkdownError::EmptyContents);
            }
            proof {
                lemma_row_fits_columns(rows, 0);
            }
            values_to_markdown_row(&self.contents[0], &col_widths)
        } else {
            repeated_to_markdown_row("?", &col_widths)
        };
        proof {
            reveal_strlit("?");
            reveal_strlit("-");
        }
        let ghost heading = out@;
        push_char(&mut out, '\n');
        out.append(repeated_to_markdown_row("-", &col_widths).as_str());
        push_char(&mut out, '\n');
        let ghost head = out@;
        let ghost body = body_rows(rows, self.has_header);
        let ghost parts = Seq::new(body.len(), |j: int| values_row(body[j], ws));
        let start: usize = if self.has_header {
            1
        } else {
            0
        };
        let ghost first = start as int;
        let mut i: usize = start;
        while i < self.contents.len()
            invariant
                first <= i <= self.contents@.len(),
                first == start,
                rows == self.contents.deep_view(),
                ws == widths_view(col_widths@),
                ws.len() == num_columns(rows),
                body == rows.subrange(first, rows.len() as int),
                parts == Seq::new(body.len(), |j: int| values_row(body[j], ws)),
                out@ == head + join(parts.take(i - first), seq!['\n']),
            decreases self.contents@.len() - i,
        {
            assert(parts.take(i - first + 1).drop_last() =~= parts.take(i - first));
            if i > start {
                push_char(&mut out, '\n');
            } else {
                assert(parts.take(1) =~= seq![parts[0]]);
            }
            proof {
                lemma_row_fits_columns(rows, i as int);
            }
            let row = values_to_markdown_row(&self.contents[i], &col_widths);
            out.append(row.as_str());
            i = i + 1;
        }
        assert(parts.take(i - first) =~= parts);
        push_char(&mut out, '\n');
        proof {
            let widths = column_widths(rows);
            assert(ws == widths);
            assert(body == body_rows(rows, self.has_header));
            assert("?"@ =~= seq!['?']);
            assert("-"@ =~= seq!['-']);
            let heading = if self.has_header {
                values_row(rows[0], widths)
            } else {
                repeated_row(seq!['?'], widths)
            };
            assert(head == heading + seq!['\n'] + repeated_row(seq!['-'], widths) + seq!['\n']);
            let rendered = join(
                Seq::new(body.len(), |j: int| values_row(body[j], widths)),
                seq!['\n'],
            );
            assert(parts =~= Seq::new(body.len(), |j: int| values_row(body[j], widths)));
            assert(out@ =~= heading + seq!['\n'] + repeated_row(seq!['-'], widths) + seq!['\n']
                + rendered + seq!['\n']);
            assert(rows == self.contents_view());
        }
        Ok(out)
    }
}

} // verus!
