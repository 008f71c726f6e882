//! Tables of lines that share one set of delimiters and one policy.

use vstd::prelude::*;
use vstd::std_specs::iter::IteratorSpec;
use vstd::string::{axiom_spec_iter, next_postcondition};
use crate::lines::{
    push_char, split_spec, Line, LineIgnoreContiguous, LineQuotedIgnoreContiguous,
    LineQuotedSplitContiguous, LineSplitContiguous, ParseError, Policy,
};

verus! {

/// `l` without one trailing carriage return, if it has one.
pub open spec fn strip_cr(l: Seq<char>) -> Seq<char> {
    if l.len() > 0 && l.last() == '\r' {
        l.drop_last()
    } else {
        l
    }
}

/// The lines completed within `text`, and the text after the last newline.
pub open spec fn scan_lines(text: Seq<char>) -> (Seq<Seq<char>>, Seq<char>)
    decreases text.len(),
{
    if text.len() == 0 {
        (Seq::empty(), Seq::empty())
    } else {
        let (done, cur) = scan_lines(text.drop_last());
        if text.last() == '\n' {
            (done.push(strip_cr(cur)), Seq::empty())
        } else {
            (done, cur.push(text.last()))
        }
    }
}

/// The lines of `text`: split at each newline, with a carriage return just
/// before a newline dropped, and with no empty line after a final newline.
pub open spec fn text_lines(text: Seq<char>) -> Seq<Seq<char>> {
    let (done, cur) = scan_lines(text);
    if cur.len() == 0 {
        done
    } else {
        done.push(cur)
    }
}

/// The rows of `lines`, each split under `delims` and `p`, or the error of
/// the first line that cannot be split.
pub open spec fn split_rows(lines: Seq<Seq<char>>, delims: Seq<char>, p: Policy) -> Result<
    Seq<Seq<Seq<char>>>,
    ParseError,
>
    decreases lines.len(),
{
    if lines.len() == 0 {
        Ok(Seq::empty())
    } else {
        match split_rows(lines.drop_last(), delims, p) {
            Err(e) => Err(e),
            Ok(rows) => match split_spec(lines.last(), delims, p) {
                Err(e) => Err(e),
                Ok(fields) => Ok(rows.push(fields)),
            },
        }
    }
}

/// The rows held by the result of an executable table split.
pub open spec fn rows_view(r: Result<Vec<Vec<String>>, ParseError>) -> Result<
    Seq<Seq<Seq<char>>>,
    ParseError,
> {
    match r {
        Ok(v) => Ok(v.deep_view()),
        Err(e) => Err(e),
    }
}

/// A successful split yields exactly one row per line.
pub proof fn lemma_one_row_per_line(lines: Seq<Seq<char>>, delims: Seq<char>, p: Policy)
    ensures
        split_rows(lines, delims, p) is Ok ==> split_rows(lines, delims, p)->Ok_0.len()
            == lines.len(),
    decreases lines.len(),
{
    if lines.len() > 0 {
        lemma_one_row_per_line(lines.drop_last(), delims, p);
    }
}

proof fn lemma_split_rows_err_persists(
    lines: Seq<Seq<char>>,
    n: int,
    delims: Seq<char>,
    p: Policy,
)
    requires
        0 <= n <= lines.len(),
        split_rows(lines.take(n), delims, p) is Err,
    ensures
        split_rows(lines, delims, p) == split_rows(lines.take(n), delims, p),
    decreases lines.len() - n,
{
    if n < lines.len() {
        assert(lines.take(n + 1).drop_last() =~= lines.take(n));
        lemma_split_rows_err_persists(lines, n + 1, delims, p);
    } else {
        assert(lines.take(n) =~= lines);
    }
}

/// How many times `v` occurs in `s`.
pub open spec fn occurrences(s: Seq<int>, v: int) -> nat
    decreases s.len(),
{
    if s.len() == 0 {
        0
    } else {
        occurrences(s.drop_last(), v) + if s.last() == v {
            1nat
        } else {
            0nat
        }
    }
}

/// `c` is the most frequent value of `counts`, the smallest such value when
/// several are equally frequent.
pub open spec fn is_column_count(counts: Seq<int>, c: int) -> bool {
    &&& counts.contains(c)
    &&& forall|d: int|
        #![trigger counts.contains(d)]
        counts.contains(d) ==> occurrences(counts, d) < occurrences(counts, c) || (
        occurrences(counts, d) == occurrences(counts, c) && c <= d)
}

/// The number of fields of each row.
pub open spec fn field_counts(rows: Seq<Seq<Seq<char>>>) -> Seq<int> {
    rows.map_values(|r: Seq<Seq<char>>| r.len() as int)
}

/// The lengths in `v`, as integers.
pub open spec fn counts_view(v: Seq<usize>) -> Seq<int> {
    v.map_values(|n: usize| n as int)
}

/// Infers a column count from the field count of each line: the most
/// frequent count, the smallest one on a tie. Fails with `ColumnCountError`
/// when there are no counts.
pub fn infer_column_count(counts: &Vec<usize>) -> (r: Result<usize, ParseError>)
    ensures
        counts@.len() == 0 ==> r == Err::<usize, ParseError>(ParseError::ColumnCountError),
        counts@.len() > 0 ==> r is Ok && is_column_count(counts_view(counts@), r->Ok_0 as int),
{
    let ghost cs = counts_view(counts@);
    if counts.len() == 0 {
        return Err(ParseError::ColumnCountError);
    }
    let mut best: usize = counts[0];
    let mut best_freq: usize = 0;
    let mut i: usize = 0;
    assert(cs[0] == best as int);
    while i < counts.len()
        invariant
            0 < counts@.len(),
            i <= counts@.len(),
            cs == counts_view(counts@),
            cs.contains(best as int),
            i == 0 ==> best == counts@[0],
            i > 0 ==> best_freq == occurrences(cs, best as int),
            forall|k: int|
                0 <= k < i ==> occurrences(cs, #[trigger] cs[k]) < best_freq || (occurrences(
                    cs,
                    cs[k],
                ) == best_freq && best <= cs[k]),
        decreases counts@.len() - i,
    {
        let v = counts[i];
        assert(cs[i as int] == v as int);
        let mut freq: usize = 0;
        let mut j: usize = 0;
        while j < counts.len()
            invariant
                j <= counts@.len(),
                cs == counts_view(counts@),
                freq == occurrences(cs.take(j as int), v as int),
                freq <= j,
            decreases counts@.len() - j,
        {
            assert(cs.take(j + 1).drop_last() =~= cs.take(j as int));
            if counts[j] == v {
                freq = freq + 1;
            }
            j = j + 1;
        }
        assert(cs.take(j as int) =~= cs);
        if i == 0 || freq > best_freq || (freq == best_freq && v < best) {
            best = v;
            best_freq = freq;
        }
        i = i + 1;
    }
    assert forall|d: int| #![trigger cs.contains(d)]
        cs.contains(d) implies occurrences(cs, d) < occurrences(cs, best as int) || (
        occurrences(cs, d) == occurrences(cs, best as int) && best <= d) by {
        let k = choose|k: int| 0 <= k < cs.len() && cs[k] == d;
        assert(occurrences(cs, cs[k]) < best_freq || (occurrences(cs, cs[k]) == best_freq && best <= cs[k]));
    }
    Ok(best)
}

/// Lines of one kind together with the delimiters they are split on.
pub struct TableContent<T: Line> {
    lines: Vec<T>,
    delimiters: Vec<char>,
}

impl<T: Line> TableContent<T> {
    /// The text of each line, in order.
    pub closed spec fn lines_view(&self) -> Seq<Seq<char>> {
        self.lines@.map_values(|l: T| l.text())
    }

    /// The delimiters the lines are split on.
    pub closed spec fn delimiters_view(&self) -> Seq<char> {
        self.delimiters@
    }

    /// Makes a table of the lines of `contents`.
    pub fn new(contents: &str, delimiters: &[char]) -> (r: Self)
        ensures
            r.lines_view() == text_lines(contents@),
            r.delimiters_view() == delimiters@,
    {
        let mut lines: Vec<T> = Vec::new();
        let mut cur = String::new();
        let mut pending_cr = false;
        let mut chars = contents.chars();
        let ghost mut seen: Seq<char> = Seq::empty();
        proof {
            axiom_spec_iter(contents);
        }
        loop
            invariant
                seen + chars.remaining() == contents@,
                chars.decrease() is Some,
                scan_lines(seen) == (
                    lines@.map_values(|l: T| l.text()),
                    if pending_cr { cur@.push('\r') } else { cur@ },
                ),
                !pending_cr ==> cur@.len() == 0 || cur@.last() != '\r',
            ensures
                seen == contents@,
                scan_lines(seen) == (
                    lines@.map_values(|l: T| l.text()),
                    if pending_cr { cur@.push('\r') } else { cur@ },
                ),
            decreases chars.decrease()->0,
        {
            let ghost prior_chars = chars;
            let ghost old_seen = seen;
            let next = chars.next();
            proof {
                next_postcondition(&prior_chars, &chars, next);
            }
            let c = match next {
                None => {
                    assert(seen =~= contents@);
                    break;
                },
                Some(c) => c,
            };
            let ghost old_cur = if pending_cr { cur@.push('\r') } else { cur@ };
            proof {
                seen = seen.push(c);
                assert(seen.drop_last() =~= old_seen);
                if pending_cr {
                    assert(old_cur.drop_last() =~= cur@);
                }
            }
            if c == '\n' {
                let ghost before = lines@.map_values(|l: T| l.text());
                let line = T::new(cur.as_str());
                lines.push(line);
                cur = String::new();
                pending_cr = false;
                assert(lines@.map_values(|l: T| l.text()) =~= before.push(line.text()));
                assert(cur@ =~= Seq::<char>::empty());
            } else if c == '\r' {
                if pending_cr {
                    push_char(&mut cur, '\r');
                }
                pending_cr = true;
            } else {
                if pending_cr {
                    push_char(&mut cur, '\r');
                    pending_cr = false;
                }
                push_char(&mut cur, c);
            }
        }
        if pending_cr {
            push_char(&mut cur, '\r');
        }
        if cur.as_str().is_empty() {
        } else {
            let ghost before = lines@.map_values(|l: T| l.text());
            let line = T::new(cur.as_str());
            lines.push(line);
            assert(lines@.map_values(|l: T| l.text()) =~= before.push(line.text()));
        }
        TableContent { lines, delimiters: vstd::slice::slice_to_vec(delimiters) }
    }

    /// Splits every line into fields, stopping at the first line that cannot
    /// be split.
    pub fn split(&self) -> (r: Result<Vec<Vec<String>>, ParseError>)
        ensures
            rows_view(r) == split_rows(self.lines_view(), self.delimiters_view(), T::policy()),
    {
        let ghost lines = self.lines_view();
        let ghost delims = self.delimiters@;
        let mut rows: Vec<Vec<String>> = Vec::new();
        let mut i: usize = 0;
        assert(lines.take(0) =~= Seq::<Seq<char>>::empty());
        assert(rows.deep_view() =~= Seq::<Seq<Seq<char>>>::empty());
        while i < self.lines.len()
            invariant
                i <= self.lines@.len(),
                lines == self.lines_view(),
                delims == self.delimiters@,
                split_rows(lines.take(i as int), delims, T::policy()) == Ok::<
                    Seq<Seq<Seq<char>>>,
                    ParseError,
                >(rows.deep_view()),
            decreases self.lines@.len() - i,
        {
            proof {
                assert(lines.take(i + 1).drop_last() =~= lines.take(i as int));
                assert(lines.take(i + 1).last() == self.lines@[i as int].text());
            }
            match self.lines[i].split(&self.delimiters) {
                Ok(fields) => {
                    let ghost before = rows.deep_view();
                    rows.push(fields);
                    assert(rows.deep_view() =~= before.push(fields.deep_view()));
                },
                Err(e) => {
                    proof {
                        lemma_split_rows_err_persists(lines, i + 1, delims, T::policy());
                    }
                    return Err(e);
                },
            }
            i = i + 1;
        }
        assert(lines.take(i as int) =~= lines);
        Ok(rows)
    }

    /// Infers the table's column count: the most frequent number of fields
    /// per line, the smallest one on a tie.
    pub fn column_count(&self) -> (r: Result<usize, ParseError>)
        ensures
            self.lines_view().len() == 0 ==> r == Err::<usize, ParseError>(
                ParseError::ColumnCountError,
            ),
            self.lines_view().len() > 0 ==> match split_rows(
                self.lines_view(),
                self.delimiters_view(),
                T::policy(),
            ) {
                Err(e) => r == Err::<usize, ParseError>(e),
                Ok(rows) => r is Ok && is_column_count(field_counts(rows), r->Ok_0 as int),
            },
    {
        if self.lines.len() == 0 {
            return Err(ParseError::ColumnCountError);
        }
        let rows = match self.split() {
            Ok(rows) => rows,
            Err(e) => return Err(e),
        };
        proof {
            lemma_one_row_per_line(self.lines_view(), self.delimiters_view(), T::policy());
        }
        let ghost rv = rows.deep_view();
        let mut counts: Vec<usize> = Vec::new();
        let mut k: usize = 0;
        while k < rows.len()
            invariant
                k <= rows@.len(),
                rv == rows.deep_view(),
                counts_view(counts@) == field_counts(rv.take(k as int)),
            decreases rows@.len() - k,
        {
            assert(rv[k as int] == rows@[k as int].deep_view());
            assert(rv[k as int].len() == rows@[k as int]@.len());
            let ghost before = counts@;
            counts.push(rows[k].len());
            assert(counts@ =~= before.push(rows@[k as int]@.len() as usize));
            assert(rv.take(k + 1) =~= rv.take(k as int).push(rv[k as int]));
            assert(counts_view(counts@) =~= counts_view(before).push(rv[k as int].len() as int));
            assert(field_counts(rv.take(k + 1)) =~= field_counts(rv.take(k as int)).push(
                rv[k as int].len() as int,
            ));
            k = k + 1;
        }
        assert(rv.take(k as int) =~= rv);
        infer_column_count(&counts)
    }
}

/// A table whose lines are all of one kind, chosen by the policy.
pub enum Table {
    SplitContiguous(TableContent<LineSplitContiguous>),
    IgnoreContiguous(TableContent<LineIgnoreContiguous>),
    QuotedSplitContiguous(TableContent<LineQuotedSplitContiguous>),
    QuotedIgnoreContiguous(TableContent<LineQuotedIgnoreContiguous>),
}

impl Table {
    /// The text of each line, in order.
    pub open spec fn lines_view(&self) -> Seq<Seq<char>> {
        match self {
            Table::SplitContiguous(t) => t.lines_view(),
            Table::IgnoreContiguous(t) => t.lines_view(),
            Table::QuotedSplitContiguous(t) => t.lines_view(),
            Table::QuotedIgnoreContiguous(t) => t.lines_view(),
        }
    }

    /// The delimiters the lines are split on.
    pub open spec fn delimiters_view(&self) -> Seq<char> {
        match self {
            Table::SplitContiguous(t) => t.delimiters_view(),
            Table::IgnoreContiguous(t) => t.delimiters_view(),
            Table::QuotedSplitContiguous(t) => t.delimiters_view(),
            Table::QuotedIgnoreContiguous(t) => t.delimiters_view(),
        }
    }

    /// The policy the lines are split under.
    pub open spec fn policy(&self) -> Policy {
        match self {
            Table::SplitContiguous(_) => LineSplitContiguous::policy(),
            Table::IgnoreContiguous(_) => LineIgnoreContiguous::policy(),
            Table::QuotedSplitContiguous(_) => LineQuotedSplitContiguous::policy(),
            Table::QuotedIgnoreContiguous(_) => LineQuotedIgnoreContiguous::policy(),
        }
    }

    /// The rows of the table, or the error of its first line that cannot be
    /// split.
    pub open spec fn rows(&self) -> Result<Seq<Seq<Seq<char>>>, ParseError> {
        split_rows(self.lines_view(), self.delimiters_view(), self.policy())
    }

    /// Splits every line into fields, stopping at the first line that cannot
    /// be split.
    pub fn split(&self) -> (r: Result<Vec<Vec<String>>, ParseError>)
        ensures
            rows_view(r) == self.rows(),
    {
        match self {
            Table::SplitContiguous(t) => t.split(),
            Table::IgnoreContiguous(t) => t.split(),
            Table::QuotedSplitContiguous(t) => t.split(),
            Table::QuotedIgnoreContiguous(t) => t.split(),
        }
    }

    /// Infers the table's column count: the most frequent number of fields
    /// per line, the smallest one on a tie.
    pub fn column_count(&self) -> (r: Result<usize, ParseError>)
        ensures
            self.lines_view().len() == 0 ==> r == Err::<usize, ParseError>(
                ParseError::ColumnCountError,
            ),
            self.lines_view().len() > 0 ==> match self.rows() {
                Err(e) => r == Err::<usize, ParseError>(e),
                Ok(rows) => r is Ok && is_column_count(field_counts(rows), r->Ok_0 as int),
            },
    {
        match self {
            Table::SplitContiguous(t) => t.column_count(),
            Table::IgnoreContiguous(t) => t.column_count(),
            Table::QuotedSplitContiguous(t) => t.column_count(),
            Table::QuotedIgnoreContiguous(t) => t.column_count(),
        }
    }
}

/// Splitting holds no hidden state: two tables with the same lines,
/// delimiters and policy (among them one table split twice) yield the same
/// rows, and a table yields one row per line.
pub proof fn lemma_split_is_repeatable(a: &Table, b: &Table)
    requires
        a.lines_view() == b.lines_view(),
        a.delimiters_view() == b.delimiters_view(),
        a.policy() == b.policy(),
    ensures
        a.rows() == b.rows(),
        a.rows() is Ok ==> a.rows()->Ok_0.len() == a.lines_view().len(),
{
    lemma_one_row_per_line(a.lines_view(), a.delimiters_view(), a.policy());
}

/// Collects the delimiters and the policy, then makes a `Table` of text.
pub struct TableBuilder {
    delimiters: Vec<char>,
    contiguous_delimiters: bool,
    quoted_fields: bool,
}

impl Default for TableBuilder {
    fn default() -> (r: Self)
        ensures
            r.delimiters_view() == seq![' '],
            r.policy() == (Policy { quoted_fields: false, contiguous_delimiters: false }),
    {
        TableBuilder { delimiters: vec![' '], contiguous_delimiters: false, quoted_fields: false }
    }
}

impl TableBuilder {
    /// The delimiters that tables are made with.
    pub closed spec fn delimiters_view(&self) -> Seq<char> {
        self.delimiters@
    }

    /// The policy that tables are made with.
    pub closed spec fn policy(&self) -> Policy {
        Policy {
            quoted_fields: self.quoted_fields,
            contiguous_delimiters: self.contiguous_delimiters,
        }
    }

    /// A builder for space-delimited tables without quoted fields, where
    /// each delimiter separates two fields.
    pub fn new() -> (r: Self)
        ensures
            r.delimiters_view() == seq![' '],
            r.policy() == (Policy { quoted_fields: false, contiguous_delimiters: false }),
    {
        TableBuilder::default()
    }

    /// Sets the delimiters.
    pub fn delimiters(&mut self, delimiters: Vec<char>) -> (r: &mut Self)
        ensures
            *final(self) == *final(r),
            r.delimiters_view() == delimiters@,
            r.policy() == old(self).policy(),
    {
        self.delimiters = delimiters;
        self
    }

    /// Sets whether a run of delimiters counts as a single delimiter.
    pub fn contiguous_delimiters(&mut self, contiguous_delimiters: bool) -> (r: &mut Self)
        ensures
            *final(self) == *final(r),
            r.delimiters_view() == old(self).delimiters_view(),
            r.policy() == (Policy { contiguous_delimiters, ..old(self).policy() }),
    {
        self.contiguous_delimiters = contiguous_delimiters;
        self
    }

    /// Sets whether text between double quotes forms part of a single field.
    pub fn quoted_fields(&mut self, quoted_fields: bool) -> (r: &mut Self)
        ensures
            *final(self) == *final(r),
            r.delimiters_view() == old(self).delimiters_view(),
            r.policy() == (Policy { quoted_fields, ..old(self).policy() }),
    {
        self.quoted_fields = quoted_fields;
        self
    }

    /// Makes a table of the lines of `contents`, split under the builder's
    /// delimiters and policy.
    pub fn from_contents(&self, contents: &str) -> (r: Table)
        ensures
            r.lines_view() == text_lines(contents@),
            r.delimiters_view() == self.delimiters_view(),
            r.policy() == self.policy(),
    {
        let delimiters = self.delimiters.as_slice();
        match (self.contiguous_delimiters, self.quoted_fields) {
            (false, false) => Table::SplitContiguous(TableContent::new(contents, delimiters)),
            (true, false) => Table::IgnoreContiguous(TableContent::new(contents, delimiters)),
            (false, true) => Table::QuotedSplitContiguous(TableContent::new(contents, delimiters)),
            (true, true) => Table::QuotedIgnoreContiguous(TableContent::new(contents, delimiters)),
        }
    }
}

} // verus!
