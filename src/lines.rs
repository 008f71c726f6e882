//! Splitting a single line of text into fields.

use vstd::prelude::*;
use vstd::std_specs::iter::IteratorSpec;
use vstd::string::{axiom_spec_iter, next_postcondition};

verus! {

/// The quote character that opens and closes a quoted field.
pub const DOUBLE_QUOTE: char = '"';

/// Errors raised while splitting lines into fields.
#[derive(Debug, Clone, Copy, PartialEq, Eq)]
pub enum ParseError {
    /// A quoted field was still open when the line ended.
    CannotParseLine,
    /// There were no lines to infer a column count from.
    ColumnCountError,
}

/// The two switches that select how a line is split.
#[derive(Debug, Clone, Copy, PartialEq, Eq)]
pub struct Policy {
    /// Text between double quotes forms part of a single field.
    pub quoted_fields: bool,
    /// A run of delimiters counts as a single delimiter.
    pub contiguous_delimiters: bool,
}

/// Where the scanner stands within a line.
#[derive(Debug, Clone, Copy, PartialEq, Eq)]
pub enum CharState {
    /// Between fields: at the start of the line or just after a delimiter.
    Delimiter,
    /// Inside a field, outside any quotes.
    Unquoted,
    /// Inside a double-quoted span of a field.
    Quoted,
}

/// The scanner's state after a prefix of a line: where it stands, the fields
/// completed so far, and the field being read.
pub type ScanState = (CharState, Seq<Seq<char>>, Seq<char>);

/// One transition of the scanner on the character `c`.
pub open spec fn step(s: ScanState, c: char, delims: Seq<char>, p: Policy) -> ScanState {
    let (state, fields, field) = s;
    match state {
        CharState::Delimiter => {
            if p.quoted_fields && c == DOUBLE_QUOTE {
                (CharState::Quoted, fields, field.push(c))
            } else if delims.contains(c) {
                if p.contiguous_delimiters {
                    (CharState::Delimiter, fields, field)
                } else {
                    (CharState::Delimiter, fields.push(Seq::empty()), field)
                }
            } else {
                (CharState::Unquoted, fields, field.push(c))
            }
        },
        CharState::Unquoted => {
            if p.quoted_fields && c == DOUBLE_QUOTE {
                (CharState::Quoted, fields, field.push(c))
            } else if delims.contains(c) {
                (CharState::Delimiter, fields.push(field), Seq::empty())
            } else {
                (CharState::Unquoted, fields, field.push(c))
            }
        },
        CharState::Quoted => {
            if c == DOUBLE_QUOTE {
                (CharState::Unquoted, fields, field.push(c))
            } else {
                (CharState::Quoted, fields, field.push(c))
            }
        },
    }
}

/// The scanner's state after reading all of `text`.
pub open spec fn scan(text: Seq<char>, delims: Seq<char>, p: Policy) -> ScanState
    decreases text.len(),
{
    if text.len() == 0 {
        (CharState::Delimiter, Seq::empty(), Seq::empty())
    } else {
        step(scan(text.drop_last(), delims, p), text.last(), delims, p)
    }
}

/// What the scanner yields when the line ends in state `s`.
pub open spec fn finish(s: ScanState, p: Policy) -> Result<Seq<Seq<char>>, ParseError> {
    let (state, fields, field) = s;
    match state {
        CharState::Delimiter => {
            if !p.quoted_fields && !p.contiguous_delimiters {
                Ok(fields.push(field))
            } else {
                Ok(fields)
            }
        },
        CharState::Unquoted => Ok(fields.push(field)),
        CharState::Quoted => Err(ParseError::CannotParseLine),
    }
}

/// The fields of `line` under the delimiters `delims` and the policy `p`.
pub open spec fn split_spec(line: Seq<char>, delims: Seq<char>, p: Policy) -> Result<
    Seq<Seq<char>>,
    ParseError,
> {
    finish(scan(line, delims, p), p)
}

/// The fields held by the result of an executable split.
pub open spec fn fields_view(r: Result<Vec<String>, ParseError>) -> Result<
    Seq<Seq<char>>,
    ParseError,
> {
    match r {
        Ok(v) => Ok(v.deep_view()),
        Err(e) => Err(e),
    }
}

/// Relies on String::push: appends one character to the string.
#[verifier::external_body]
pub(crate) fn push_char(s: &mut String, c: char)
    ensures
        final(s)@ == old(s)@.push(c),
{
    s.push(c);
}

/// Tells whether `c` is one of `delimiters`.
pub fn is_delimiter(c: char, delimiters: &[char]) -> (r: bool)
    ensures
        r == delimiters@.contains(c),
{
    let mut i: usize = 0;
    while i < delimiters.len()
        invariant
            i <= delimiters@.len(),
            forall|j: int| 0 <= j < i ==> delimiters@[j] != c,
        decreases delimiters@.len() - i,
    {
        if delimiters[i] == c {
            return true;
        }
        i = i + 1;
    }
    false
}

/// Splits `line` into fields under `policy`, with the characters of
/// `delimiters` as separators.
pub fn split_fields(line: &str, delimiters: &[char], policy: Policy) -> (r: Result<
    Vec<String>,
    ParseError,
>)
    ensures
        fields_view(r) == split_spec(line@, delimiters@, policy),
{
    let mut fields: Vec<String> = Vec::new();
    let mut field = String::new();
    let mut state = CharState::Delimiter;
    let mut chars = line.chars();
    let ghost mut seen: Seq<char> = Seq::empty();
    proof {
        axiom_spec_iter(line);
    }
    loop
        invariant
            seen + chars.remaining() == line@,
            scan(seen, delimiters@, policy) == (state, fields.deep_view(), field@),
            chars.decrease() is Some,
        ensures
            seen == line@,
            scan(seen, delimiters@, policy) == (state, fields.deep_view(), field@),
        decreases chars.decrease()->0,
    {
        let ghost prior_chars = chars;
        let ghost old_seen = seen;
        let next = chars.next();
        proof {
            next_postcondition(&prior_chars, &chars, next);
        }
        let c = match next {
            None => {
                assert(seen =~= line@);
                break;
            },
            Some(c) => c,
        };
        proof {
            seen = seen.push(c);
            assert(seen.drop_last() =~= old_seen);
        }
        match state {
            CharState::Delimiter => {
                if policy.quoted_fields && c == DOUBLE_QUOTE {
                    push_char(&mut field, c);
                    state = CharState::Quoted;
                } else if is_delimiter(c, delimiters) {
                    if !policy.contiguous_delimiters {
                        let ghost before = fields.deep_view();
                        fields.push(String::new());
                        assert(fields.deep_view() =~= before.push(Seq::empty()));
                    }
                } else {
                    push_char(&mut field, c);
                    state = CharState::Unquoted;
                }
            },
            CharState::Unquoted => {
                if policy.quoted_fields && c == DOUBLE_QUOTE {
                    push_char(&mut field, c);
                    state = CharState::Quoted;
                } else if is_delimiter(c, delimiters) {
                    let ghost before = fields.deep_view();
                    let ghost done = field@;
                    fields.push(field);
                    field = String::new();
                    assert(fields.deep_view() =~= before.push(done));
                    state = CharState::Delimiter;
                } else {
                    push_char(&mut field, c);
                }
            },
            CharState::Quoted => {
                push_char(&mut field, c);
                if c == DOUBLE_QUOTE {
                    state = CharState::Unquoted;
                }
            },
        }
    }
    match state {
        CharState::Delimiter => {
            if !policy.quoted_fields && !policy.contiguous_delimiters {
                let ghost before = fields.deep_view();
                let ghost done = field@;
                fields.push(field);
                assert(fields.deep_view() =~= before.push(done));
            }
            Ok(fields)
        },
        CharState::Unquoted => {
            let ghost before = fields.deep_view();
            let ghost done = field@;
            fields.push(field);
            assert(fields.deep_view() =~= before.push(done));
            Ok(fields)
        },
        CharState::Quoted => Err(ParseError::CannotParseLine),
    }
}

/// The number of fields of `line`, or the error that splitting it yields.
pub open spec fn num_fields_spec(line: Seq<char>, delims: Seq<char>, p: Policy) -> Result<
    nat,
    ParseError,
> {
    match split_spec(line, delims, p) {
        Ok(fields) => Ok(fields.len()),
        Err(e) => Err(e),
    }
}

/// `line` holds neither a quote nor any of `delims`.
pub open spec fn is_plain(line: Seq<char>, delims: Seq<char>) -> bool {
    forall|i: int| 0 <= i < line.len() ==> line[i] != DOUBLE_QUOTE && !delims.contains(#[trigger] line[i])
}

proof fn lemma_scan_plain(line: Seq<char>, delims: Seq<char>, p: Policy)
    requires
        line.len() > 0,
        is_plain(line, delims),
    ensures
        scan(line, delims, p) == (CharState::Unquoted, Seq::<Seq<char>>::empty(), line),
    decreases line.len(),
{
    let c = line.last();
    assert(line[line.len() - 1] == c);
    assert(c != DOUBLE_QUOTE && !delims.contains(c));
    if line.len() == 1 {
        assert(line.drop_last() =~= Seq::<char>::empty());
        assert(scan(line.drop_last(), delims, p) == (
            CharState::Delimiter,
            Seq::<Seq<char>>::empty(),
            Seq::<char>::empty(),
        ));
        assert(line =~= Seq::<char>::empty().push(c));
    } else {
        let rest = line.drop_last();
        assert(is_plain(rest, delims)) by {
            assert forall|i: int| 0 <= i < rest.len() implies rest[i] != DOUBLE_QUOTE
                && !delims.contains(#[trigger] rest[i]) by {
                assert(rest[i] == line[i]);
            }
        }
        lemma_scan_plain(rest, delims, p);
        assert(line =~= rest.push(c));
    }
}

/// Under every policy, a non-empty line with no quote and no delimiter is a
/// single field equal to the whole line.
pub proof fn lemma_plain_line_is_one_field(line: Seq<char>, delims: Seq<char>, p: Policy)
    requires
        line.len() > 0,
        is_plain(line, delims),
    ensures
        split_spec(line, delims, p) == Ok::<Seq<Seq<char>>, ParseError>(seq![line]),
{
    lemma_scan_plain(line, delims, p);
    assert(Seq::<Seq<char>>::empty().push(line) =~= seq![line]);
}

proof fn lemma_scan_never_quoted(text: Seq<char>, delims: Seq<char>, p: Policy)
    requires
        !p.quoted_fields,
    ensures
        scan(text, delims, p).0 != CharState::Quoted,
    decreases text.len(),
{
    if text.len() > 0 {
        lemma_scan_never_quoted(text.drop_last(), delims, p);
    }
}

/// Without quote handling, splitting never fails: a quote is an ordinary
/// character.
pub proof fn lemma_unquoted_split_succeeds(line: Seq<char>, delims: Seq<char>, p: Policy)
    requires
        !p.quoted_fields,
    ensures
        split_spec(line, delims, p) is Ok,
{
    lemma_scan_never_quoted(line, delims, p);
}

/// With quote handling, splitting fails exactly when the line ends inside a
/// quoted span, and the failure is `CannotParseLine`.
pub proof fn lemma_quoted_split_fails_on_open_quote(line: Seq<char>, delims: Seq<char>, p: Policy)
    requires
        p.quoted_fields,
    ensures
        split_spec(line, delims, p) is Err <==> scan(line, delims, p).0 == CharState::Quoted,
        split_spec(line, delims, p) is Err ==> split_spec(line, delims, p)
            == Err::<Seq<Seq<char>>, ParseError>(ParseError::CannotParseLine),
{
}

/// The field count of a line is the length of its split, and counting fails
/// exactly as splitting does.
pub proof fn lemma_num_fields_is_split_len(line: Seq<char>, delims: Seq<char>, p: Policy)
    ensures
        num_fields_spec(line, delims, p) is Ok <==> split_spec(line, delims, p) is Ok,
        split_spec(line, delims, p) is Ok ==> num_fields_spec(line, delims, p)->Ok_0
            == split_spec(line, delims, p)->Ok_0.len(),
        split_spec(line, delims, p) is Err ==> num_fields_spec(line, delims, p)->Err_0
            == split_spec(line, delims, p)->Err_0,
{
}

/// Every completed field is non-empty, and the field being read is empty
/// exactly between fields.
pub open spec fn no_empty_fields(s: ScanState) -> bool {
    let (state, fields, field) = s;
    &&& forall|i: int| 0 <= i < fields.len() ==> #[trigger] fields[i].len() > 0
    &&& (state == CharState::Delimiter <==> field.len() == 0)
}

proof fn lemma_scan_no_empty_fields(text: Seq<char>, delims: Seq<char>, p: Policy)
    requires
        p.contiguous_delimiters,
    ensures
        no_empty_fields(scan(text, delims, p)),
    decreases text.len(),
{
    if text.len() > 0 {
        let prev = scan(text.drop_last(), delims, p);
        lemma_scan_no_empty_fields(text.drop_last(), delims, p);
        let next = step(prev, text.last(), delims, p);
        assert forall|i: int| 0 <= i < next.1.len() implies #[trigger] next.1[i].len() > 0 by {
            if i < prev.1.len() {
                assert(next.1[i] == prev.1[i]);
            }
        }
    }
}

/// With a run of delimiters counting as one delimiter, splitting never yields
/// an empty field.
pub proof fn lemma_collapsed_split_has_no_empty_field(line: Seq<char>, delims: Seq<char>, p: Policy)
    requires
        p.contiguous_delimiters,
        split_spec(line, delims, p) is Ok,
    ensures
        forall|i: int|
            0 <= i < split_spec(line, delims, p)->Ok_0.len() ==> #[trigger] split_spec(
                line,
                delims,
                p,
            )->Ok_0[i].len() > 0,
{
    let s = scan(line, delims, p);
    lemma_scan_no_empty_fields(line, delims, p);
    let fields = split_spec(line, delims, p)->Ok_0;
    assert forall|i: int| 0 <= i < fields.len() implies #[trigger] fields[i].len() > 0 by {
        if i < s.1.len() {
            assert(fields[i] == s.1[i]);
        }
    }
}

/// The number of double quotes in `s`.
pub open spec fn quote_count(s: Seq<char>) -> nat
    decreases s.len(),
{
    if s.len() == 0 {
        0
    } else {
        quote_count(s.drop_last()) + if s.last() == DOUBLE_QUOTE {
            1nat
        } else {
            0nat
        }
    }
}

/// Completed fields hold an even number of quotes, and the scanner is inside
/// a quoted span exactly when the field being read holds an odd number.
pub open spec fn quotes_balanced(s: ScanState) -> bool {
    let (state, fields, field) = s;
    &&& forall|i: int| 0 <= i < fields.len() ==> #[trigger] quote_count(fields[i]) % 2 == 0
    &&& (state == CharState::Quoted <==> quote_count(field) % 2 == 1)
    &&& (state == CharState::Delimiter ==> field.len() == 0)
}

proof fn lemma_quote_count_push(s: Seq<char>, c: char)
    ensures
        quote_count(s.push(c)) == quote_count(s) + if c == DOUBLE_QUOTE {
            1nat
        } else {
            0nat
        },
{
    assert(s.push(c).drop_last() =~= s);
}

proof fn lemma_scan_quotes_balanced(text: Seq<char>, delims: Seq<char>, p: Policy)
    requires
        p.quoted_fields,
    ensures
        quotes_balanced(scan(text, delims, p)),
    decreases text.len(),
{
    if text.len() > 0 {
        let prev = scan(text.drop_last(), delims, p);
        let c = text.last();
        lemma_scan_quotes_balanced(text.drop_last(), delims, p);
        lemma_quote_count_push(prev.2, c);
        assert(quote_count(Seq::<char>::empty()) == 0);
        assert(Seq::<char>::empty().push(c).drop_last() =~= Seq::<char>::empty());
        let next = step(prev, c, delims, p);
        assert forall|i: int| 0 <= i < next.1.len() implies #[trigger] quote_count(next.1[i]) % 2
            == 0 by {
            if i < prev.1.len() {
                assert(next.1[i] == prev.1[i]);
            }
        }
    } else {
        assert(quote_count(Seq::<char>::empty()) == 0);
    }
}

/// With quote handling, no field ends inside a quoted span: every field of
/// a successful split holds an even number of quotes.
pub proof fn lemma_quoted_split_keeps_spans_whole(line: Seq<char>, delims: Seq<char>, p: Policy)
    requires
        p.quoted_fields,
        split_spec(line, delims, p) is Ok,
    ensures
        forall|i: int|
            0 <= i < split_spec(line, delims, p)->Ok_0.len() ==> #[trigger] quote_count(
                split_spec(line, delims, p)->Ok_0[i],
            ) % 2 == 0,
{
    let s = scan(line, delims, p);
    lemma_scan_quotes_balanced(line, delims, p);
    let fields = split_spec(line, delims, p)->Ok_0;
    assert forall|i: int| 0 <= i < fields.len() implies #[trigger] quote_count(fields[i]) % 2
        == 0 by {
        if i < s.1.len() {
            assert(fields[i] == s.1[i]);
        }
    }
}

/// Every delimiter in `f` has an odd number of quotes before it: it lies
/// inside a quoted span.
pub open spec fn delimiters_quoted(f: Seq<char>, delims: Seq<char>) -> bool {
    forall|j: int|
        0 <= j < f.len() && delims.contains(#[trigger] f[j]) ==> quote_count(f.take(j)) % 2 == 1
}

/// Every completed field, and the field being read, has each of its
/// delimiters inside a quoted span.
pub open spec fn fields_delimiters_quoted(s: ScanState, delims: Seq<char>) -> bool {
    let (state, fields, field) = s;
    &&& forall|i: int| 0 <= i < fields.len() ==> delimiters_quoted(#[trigger] fields[i], delims)
    &&& delimiters_quoted(field, delims)
}

proof fn lemma_scan_delimiters_quoted(text: Seq<char>, delims: Seq<char>, p: Policy)
    requires
        p.quoted_fields,
        !delims.contains(DOUBLE_QUOTE),
    ensures
        fields_delimiters_quoted(scan(text, delims, p), delims),
    decreases text.len(),
{
    if text.len() > 0 {
        let prev = scan(text.drop_last(), delims, p);
        let c = text.last();
        lemma_scan_delimiters_quoted(text.drop_last(), delims, p);
        lemma_scan_quotes_balanced(text.drop_last(), delims, p);
        let next = step(prev, c, delims, p);
        let f = prev.2;
        let g = f.push(c);
        assert(g.take(f.len() as int) =~= f);
        if prev.0 == CharState::Quoted || !delims.contains(c) {
            assert forall|j: int| 0 <= j < g.len() && delims.contains(#[trigger] g[j]) implies quote_count(
                g.take(j),
            ) % 2 == 1 by {
                if j < f.len() {
                    assert(g.take(j) =~= f.take(j));
                    assert(g[j] == f[j]);
                } else {
                    assert(g[j] == c);
                }
            }
        }
        assert forall|i: int| 0 <= i < next.1.len() implies delimiters_quoted(
            #[trigger] next.1[i],
            delims,
        ) by {
            if i < prev.1.len() {
                assert(next.1[i] == prev.1[i]);
            }
        }
        assert(delimiters_quoted(Seq::<char>::empty(), delims));
    } else {
        assert(delimiters_quoted(Seq::<char>::empty(), delims));
    }
}

/// With quote handling, and a quote that is not itself a delimiter, a line
/// is never split inside a quoted span: every field of a successful split
/// holds an even number of quotes, and each delimiter within a field has an
/// odd number of quotes before it.
pub proof fn lemma_quoted_split_never_splits_inside_quotes(
    line: Seq<char>,
    delims: Seq<char>,
    p: Policy,
)
    requires
        p.quoted_fields,
        !delims.contains(DOUBLE_QUOTE),
        split_spec(line, delims, p) is Ok,
    ensures
        forall|i: int|
            0 <= i < split_spec(line, delims, p)->Ok_0.len() ==> {
                let f = #[trigger] split_spec(line, delims, p)->Ok_0[i];
                quote_count(f) % 2 == 0 && delimiters_quoted(f, delims)
            },
{
    let s = scan(line, delims, p);
    lemma_scan_delimiters_quoted(line, delims, p);
    lemma_quoted_split_keeps_spans_whole(line, delims, p);
    let fields = split_spec(line, delims, p)->Ok_0;
    assert forall|i: int| 0 <= i < fields.len() implies delimiters_quoted(
        #[trigger] fields[i],
        delims,
    ) by {
        if i < s.1.len() {
            assert(fields[i] == s.1[i]);
        }
    }
}

/// The count held by the result of an executable field count.
pub open spec fn count_view(r: Result<usize, ParseError>) -> Result<nat, ParseError> {
    match r {
        Ok(n) => Ok(n as nat),
        Err(e) => Err(e),
    }
}

/// A line of text that can be split into fields.
pub trait Line: Sized {
    /// The text of the line.
    spec fn text(&self) -> Seq<char>;

    /// The policy under which lines of this kind are split.
    spec fn policy() -> Policy;

    /// Splits the line into fields, with the characters of `delimiters` as
    /// separators.
    fn split(&self, delimiters: &[char]) -> (r: Result<Vec<String>, ParseError>)
        ensures
            fields_view(r) == split_spec(self.text(), delimiters@, Self::policy()),
    ;

    /// The number of fields that `split` yields, or its error.
    fn num_fields(&self, delimiters: &[char]) -> (r: Result<usize, ParseError>)
        ensures
            count_view(r) == num_fields_spec(self.text(), delimiters@, Self::policy()),
    {
        match self.split(delimiters) {
            Ok(fields) => Ok(fields.len()),
            Err(e) => Err(e),
        }
    }

    /// Makes a line that holds `line`.
    fn new(line: &str) -> (r: Self)
        ensures
            r.text() == line@,
    ;
}

/// No double-quoted fields; each delimiter separates two fields.
#[derive(Debug)]
pub struct LineSplitContiguous {
    line: String,
}

impl Line for LineSplitContiguous {
    closed spec fn text(&self) -> Seq<char> {
        self.line@
    }

    open spec fn policy() -> Policy {
        Policy { quoted_fields: false, contiguous_delimiters: false }
    }

    fn split(&self, delimiters: &[char]) -> (r: Result<Vec<String>, ParseError>) {
        split_fields(
            self.line.as_str(),
            delimiters,
            Policy { quoted_fields: false, contiguous_delimiters: false },
        )
    }

    fn new(line: &str) -> (r: Self) {
        LineSplitContiguous { line: line.to_owned() }
    }
}

/// No double-quoted fields; a run of delimiters counts as one delimiter.
#[derive(Debug)]
pub struct LineIgnoreContiguous {
    line: String,
}

impl Line for LineIgnoreContiguous {
    closed spec fn text(&self) -> Seq<char> {
        self.line@
    }

    open spec fn policy() -> Policy {
        Policy { quoted_fields: false, contiguous_delimiters: true }
    }

    fn split(&self, delimiters: &[char]) -> (r: Result<Vec<String>, ParseError>) {
        split_fields(
            self.line.as_str(),
            delimiters,
            Policy { quoted_fields: false, contiguous_delimiters: true },
        )
    }

    fn new(line: &str) -> (r: Self) {
        LineIgnoreContiguous { line: line.to_owned() }
    }
}

/// Double-quoted fields allowed; each delimiter outside quotes separates two fields.
#[derive(Debug)]
pub struct LineQuotedSplitContiguous {
    line: String,
}

impl Line for LineQuotedSplitContiguous {
    closed spec fn text(&self) -> Seq<char> {
        self.line@
    }

    open spec fn policy() -> Policy {
        Policy { quoted_fields: true, contiguous_delimiters: false }
    }

    fn split(&self, delimiters: &[char]) -> (r: Result<Vec<String>, ParseError>) {
        split_fields(
            self.line.as_str(),
            delimiters,
            Policy { quoted_fields: true, contiguous_delimiters: false },
        )
    }

    fn new(line: &str) -> (r: Self) {
        LineQuotedSplitContiguous { line: line.to_owned() }
    }
}

/// Double-quoted fields allowed; a run of delimiters outside quotes counts as one
/// delimiter.
#[derive(Debug)]
pub struct LineQuotedIgnoreContiguous {
    line: String,
}

impl Line for LineQuotedIgnoreContiguous {
    closed spec fn text(&self) -> Seq<char> {
        self.line@
    }

    open spec fn policy() -> Policy {
        Policy { quoted_fields: true, contiguous_delimiters: true }
    }

    fn split(&self, delimiters: &[char]) -> (r: Result<Vec<String>, ParseError>) {
        split_fields(
            self.line.as_str(),
            delimiters,
            Policy { quoted_fields: true, contiguous_delimiters: true },
        )
    }

    fn new(line: &str) -> (r: Self) {
        LineQuotedIgnoreContiguous { line: line.to_owned() }
    }
}

} // verus!
