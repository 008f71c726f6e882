//! SQL insert statement generation.

use vstd::prelude::*;
use vstd::string::StringExecFns;
use crate::text::{append_joined, body_rows, join, num_columns};

verus! {

/// Errors raised while rendering a SQL statement.
#[derive(Debug, Clone, Copy, PartialEq, Eq)]
pub enum SqlDdlError {
    /// A header was asked for, but the table has no rows.
    EmptyContents,
}

/// The column names used when the table has no header: `?` for each column.
pub open spec fn placeholder_names(n: nat) -> Seq<Seq<char>> {
    Seq::new(n, |_i: int| seq!['?'])
}

/// One row of values, quoted: `('a','b')`.
pub open spec fn sql_values(row: Seq<Seq<char>>) -> Seq<char> {
    "('"@ + join(row, "','"@) + "')"@
}

/// The SQL text of `rows`: an `INSERT` statement whose column names are the
/// first row, or `?` for each column, and whose values are the remaining
/// rows.
pub open spec fn sql_of(rows: Seq<Seq<Seq<char>>>, has_header: bool) -> Result<
    Seq<char>,
    SqlDdlError,
> {
    if has_header && rows.len() == 0 {
        Err(SqlDdlError::EmptyContents)
    } else {
        let names = if has_header {
            rows[0]
        } else {
            placeholder_names(num_columns(rows))
        };
        let body = body_rows(rows, has_header);
        Ok("INSERT INTO table_name\n("@ + join(names, ","@) + ")\nVALUES\n"@ + join(
            Seq::new(body.len(), |i: int| sql_values(body[i])),
            ",\n"@,
        ) + ";\n"@)
    }
}

/// The SQL text held by the result of an executable rendering.
pub open spec fn sql_view(r: Result<String, SqlDdlError>) -> Result<Seq<char>, SqlDdlError> {
    match r {
        Ok(s) => Ok(s@),
        Err(e) => Err(e),
    }
}

/// A table of string fields to be rendered as a SQL insert statement.
#[derive(Debug)]
pub struct SqlDdlTable {
    contents: Vec<Vec<String>>,
    has_header: bool,
}

impl SqlDdlTable {
    /// The rows of the table.
    pub closed spec fn contents_view(&self) -> Seq<Seq<Seq<char>>> {
        self.contents.deep_view()
    }

    /// Whether the first row is the header.
    pub closed spec fn header_view(&self) -> bool {
        self.has_header
    }

    /// Makes a table of `contents`, without a header.
    pub fn new(contents: Vec<Vec<String>>) -> (r: Self)
        ensures
            r.contents_view() == contents.deep_view(),
            !r.header_view(),
    {
        SqlDdlTable { contents, has_header: false }
    }

    /// Sets whether the first row is the header.
    pub fn has_header(&mut self, has_header: bool) -> (r: &mut Self)
        ensures
            *final(self) == *final(r),
            r.contents_view() == old(self).contents_view(),
            r.header_view() == has_header,
    {
        self.has_header = has_header;
        self
    }

    /// The largest number of fields in any row.
    fn get_num_columns(&self) -> (r: usize)
        ensures
            r == num_columns(self.contents_view()),
    {
        let ghost rows = self.contents.deep_view();
        let mut n: usize = 0;
        let mut i: usize = 0;
        while i < self.contents.len()
            invariant
                i <= self.contents@.len(),
                rows == self.contents.deep_view(),
                n == num_columns(rows.take(i as int)),
            decreases self.contents@.len() - i,
        {
            assert(rows.take(i + 1).drop_last() =~= rows.take(i as int));
            assert(rows[i as int].len() == self.contents@[i as int]@.len());
            if self.contents[i].len() > n {
                n = self.contents[i].len();
            }
            i = i + 1;
        }
        assert(rows.take(i as int) =~= rows);
        n
    }

    /// Renders the table as a SQL insert statement. Fails with
    /// `EmptyContents` when a header is asked for and the table has no rows.
    pub fn to_sql(&self) -> (r: Result<String, SqlDdlError>)
        ensures
            sql_view(r) == sql_of(self.contents_view(), self.header_view()),
    {
        proof {
            reveal_strlit("INSERT INTO table_name\n(");
            reveal_strlit(")\nVALUES\n");
            reveal_strlit(",");
            reveal_strlit(",\n");
            reveal_strlit("('");
            reveal_strlit("','");
            reveal_strlit("')");
            reveal_strlit(";\n");
            reveal_strlit("?");
        }
        let ghost rows = self.contents.deep_view();
        if self.has_header && self.contents.len() == 0 {
            return Err(SqlDdlError::EmptyContents);
        }
        let mut out = String::from_str("INSERT INTO table_name\n(");
        if self.has_header {
            append_joined(&mut out, &self.contents[0], ",");
        } else {
            let n = self.get_num_columns();
            let mut names: Vec<String> = Vec::new();
            while names.len() < n
                invariant
                    names@.len() <= n,
                    names.deep_view() =~= placeholder_names(names@.len()),
                decreases n - names@.len(),
            {
                let ghost before = names.deep_view();
                let q = "?".to_owned();
                proof {
                    reveal_strlit("?");
                }
                assert(q@ =~= seq!['?']);
                names.push(q);
                assert(names.deep_view() =~= before.push(seq!['?']));
            }
            append_joined(&mut out, &names, ",");
        }
        out.append(")\nVALUES\n");
        let ghost head = out@;
        let ghost body = body_rows(rows, self.has_header);
        let ghost parts = Seq::new(body.len(), |j: int| sql_values(body[j]));
        let start: usize = if self.has_header {
            1
        } else {
            0
        };
        let ghost first = start as int;
        let mut i: usize = start;
        while i < self.contents.len()
            invariant
                first <= i <= self.contents@.len(),
                first == start,
                rows == self.contents.deep_view(),
                body == rows.subrange(first, rows.len() as int),
                parts == Seq::new(body.len(), |j: int| sql_values(body[j])),
                out@ == head + join(parts.take(i - first), ",\n"@),
            decreases self.contents@.len() - i,
        {
            assert(parts.take(i - first + 1).drop_last() =~= parts.take(i - first));
            proof {
                reveal_strlit(",\n");
                reveal_strlit("('");
                reveal_strlit("')");
            }
            if i > start {
                out.append(",\n");
            } else {
                assert(parts.take(1) =~= seq![parts[0]]);
            }
            let ghost mid = out@;
            out.append("('");
            append_joined(&mut out, &self.contents[i], "','");
            out.append("')");
            assert(out@ =~= mid + parts[i - first]);
            i = i + 1;
        }
        assert(parts.take(i - first) =~= parts);
        out.append(";\n");
        proof {
            assert(rows == self.contents_view());
        }
        Ok(out)
    }
}

} // verus!
