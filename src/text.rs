//! Building blocks for rendered text: joining, repeating and padding.

use vstd::prelude::*;
use vstd::string::StringExecFns;
use vstd::utf8::encode_utf8;
use crate::lines::push_char;

verus! {

/// `parts` with `sep` between each two neighbours.
pub open spec fn join(parts: Seq<Seq<char>>, sep: Seq<char>) -> Seq<char>
    decreases parts.len(),
{
    if parts.len() == 0 {
        Seq::empty()
    } else if parts.len() == 1 {
        parts[0]
    } else {
        join(parts.drop_last(), sep) + sep + parts.last()
    }
}

/// `v` written `n` times in a row.
pub open spec fn repeat(v: Seq<char>, n: nat) -> Seq<char>
    decreases n,
{
    if n == 0 {
        Seq::empty()
    } else {
        repeat(v, (n - 1) as nat) + v
    }
}

/// `s` followed by as many spaces as make it `width` characters long.
pub open spec fn pad_right(s: Seq<char>, width: nat) -> Seq<char> {
    if s.len() >= width {
        s
    } else {
        s + Seq::new((width - s.len()) as nat, |_i: int| ' ')
    }
}

/// The number of bytes of the UTF-8 encoding of `s`.
pub open spec fn byte_len(s: Seq<char>) -> nat {
    encode_utf8(s).len()
}

/// Appends `parts` to `out`, with `sep` between each two neighbours.
pub fn append_joined(out: &mut String, parts: &Vec<String>, sep: &str)
    ensures
        final(out)@ == old(out)@ + join(parts.deep_view(), sep@),
{
    let ghost start = out@;
    let ghost ps = parts.deep_view();
    let mut i: usize = 0;
    while i < parts.len()
        invariant
            i <= parts@.len(),
            ps == parts.deep_view(),
            out@ == start + join(ps.take(i as int), sep@),
        decreases parts@.len() - i,
    {
        assert(ps.take(i + 1).drop_last() =~= ps.take(i as int));
        assert(ps.take(i + 1).last() == parts@[i as int]@);
        if i > 0 {
            out.append(sep);
        } else {
            assert(ps.take(1) =~= seq![ps[0]]);
        }
        out.append(parts[i].as_str());
        i = i + 1;
    }
    assert(ps.take(i as int) =~= ps);
}

/// Appends `value` to `out` `n` times.
pub fn append_repeated(out: &mut String, value: &str, n: usize)
    ensures
        final(out)@ == old(out)@ + repeat(value@, n as nat),
{
    let ghost start = out@;
    let mut i: usize = 0;
    while i < n
        invariant
            i <= n,
            out@ == start + repeat(value@, i as nat),
        decreases n - i,
    {
        out.append(value);
        i = i + 1;
        assert(out@ =~= start + repeat(value@, i as nat));
    }
}

/// Appends `value` to `out`, followed by spaces up to `width` characters.
pub fn append_padded(out: &mut String, value: &str, width: usize)
    ensures
        final(out)@ == old(out)@ + pad_right(value@, width as nat),
{
    let ghost start = out@;
    out.append(value);
    let mut len = value.unicode_len();
    while len < width
        invariant
            value@.len() <= len <= width || (len == value@.len() && len >= width),
            out@ == start + value@ + Seq::new((len - value@.len()) as nat, |_i: int| ' '),
        decreases width - len,
    {
        let ghost before = out@;
        push_char(out, ' ');
        assert(Seq::new((len + 1 - value@.len()) as nat, |_i: int| ' ') =~= Seq::new(
            (len - value@.len()) as nat,
            |_i: int| ' ',
        ).push(' '));
        len = len + 1;
    }
    proof {
        if value@.len() >= width {
            assert(out@ =~= start + value@);
        } else {
            assert(out@ =~= start + pad_right(value@, width as nat));
        }
    }
}

/// The largest number of fields in any row of `rows`.
pub open spec fn num_columns(rows: Seq<Seq<Seq<char>>>) -> nat
    decreases rows.len(),
{
    if rows.len() == 0 {
        0
    } else {
        let n = num_columns(rows.drop_last());
        if rows.last().len() > n {
            rows.last().len()
        } else {
            n
        }
    }
}

/// The rows below the heading: all rows but the first when the first is the
/// header.
pub open spec fn body_rows(rows: Seq<Seq<Seq<char>>>, has_header: bool) -> Seq<Seq<Seq<char>>> {
    if has_header {
        rows.subrange(1, rows.len() as int)
    } else {
        rows
    }
}

pub(crate) proof fn lemma_row_fits_columns(rows: Seq<Seq<Seq<char>>>, i: int)
    requires
        0 <= i < rows.len(),
    ensures
        rows[i].len() <= num_columns(rows),
    decreases rows.len(),
{
    if i < rows.len() - 1 {
        lemma_row_fits_columns(rows.drop_last(), i);
    }
}

} // verus!
