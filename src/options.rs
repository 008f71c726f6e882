//! The choices a caller makes: output format and delimiters.

use vstd::prelude::*;

verus! {

/// Possible table output formats.
#[derive(Debug, Clone, Copy, PartialEq, Eq)]
pub enum TableOutputFmt {
    /// Comma separated values
    Csv,
    /// Markdown
    Md,
    /// HTML
    Html,
    /// JSON
    Json,
    /// SQL insert statement
    Sql,
}

impl TableOutputFmt {
    /// A human-readable name of the format.
    pub fn label(&self) -> (r: &'static str)
        ensures
            r@ == format_label(*self),
    {
        proof {
            reveal_strlit("Comma Separated Variable (.csv)");
            reveal_strlit("Markdown (.md)");
            reveal_strlit("HTML (.html)");
            reveal_strlit("JSON (.json)");
            reveal_strlit("SQL DDL file (.sql)");
        }
        match self {
            TableOutputFmt::Csv => "Comma Separated Variable (.csv)",
            TableOutputFmt::Md => "Markdown (.md)",
            TableOutputFmt::Html => "HTML (.html)",
            TableOutputFmt::Json => "JSON (.json)",
            TableOutputFmt::Sql => "SQL DDL file (.sql)",
        }
    }
}

/// The name shown for an output format.
pub open spec fn format_label(f: TableOutputFmt) -> Seq<char> {
    match f {
        TableOutputFmt::Csv => "Comma Separated Variable (.csv)"@,
        TableOutputFmt::Md => "Markdown (.md)"@,
        TableOutputFmt::Html => "HTML (.html)"@,
        TableOutputFmt::Json => "JSON (.json)"@,
        TableOutputFmt::Sql => "SQL DDL file (.sql)"@,
    }
}

/// Possible text field delimiters.
#[derive(Debug, Clone, Copy, PartialEq, Eq)]
pub enum Delimiter {
    /// Space
    Space,
    /// Tab
    Tab,
    /// Comma (,)
    Comma,
    /// Vertical bar (|)
    Vbar,
    /// Period (.)
    Period,
    /// Colon (:)
    Colon,
}

/// The character a delimiter stands for.
pub open spec fn delimiter_char(d: Delimiter) -> char {
    match d {
        Delimiter::Space => ' ',
        Delimiter::Tab => '\t',
        Delimiter::Comma => ',',
        Delimiter::Vbar => '|',
        Delimiter::Period => '.',
        Delimiter::Colon => ':',
    }
}

/// The name shown for a delimiter.
pub open spec fn delimiter_label(d: Delimiter) -> Seq<char> {
    match d {
        Delimiter::Space => "Space"@,
        Delimiter::Tab => "Tab"@,
        Delimiter::Comma => "Comma"@,
        Delimiter::Vbar => "Vertical bar"@,
        Delimiter::Period => "Period"@,
        Delimiter::Colon => "Colon"@,
    }
}

impl Delimiter {
    /// The character this delimiter stands for.
    pub fn as_char(&self) -> (r: char)
        ensures
            r == delimiter_char(*self),
    {
        match self {
            Delimiter::Space => ' ',
            Delimiter::Tab => '\t',
            Delimiter::Comma => ',',
            Delimiter::Vbar => '|',
            Delimiter::Period => '.',
            Delimiter::Colon => ':',
        }
    }

    /// A human-readable name of the delimiter.
    pub fn label(&self) -> (r: &'static str)
        ensures
            r@ == delimiter_label(*self),
    {
        proof {
            reveal_strlit("Space");
            reveal_strlit("Tab");
            reveal_strlit("Comma");
            reveal_strlit("Vertical bar");
            reveal_strlit("Period");
            reveal_strlit("Colon");
        }
        match self {
            Delimiter::Space => "Space",
            Delimiter::Tab => "Tab",
            Delimiter::Comma => "Comma",
            Delimiter::Vbar => "Vertical bar",
            Delimiter::Period => "Period",
            Delimiter::Colon => "Colon",
        }
    }
}

/// The characters of a list of delimiters, in order.
pub fn delimiter_chars(delimiters: &Vec<Delimiter>) -> (r: Vec<char>)
    ensures
        r@ == delimiters@.map_values(|d: Delimiter| delimiter_char(d)),
{
    let mut r: Vec<char> = Vec::new();
    let mut i: usize = 0;
    while i < delimiters.len()
        invariant
            i <= delimiters@.len(),
            r@ == delimiters@.take(i as int).map_values(|d: Delimiter| delimiter_char(d)),
        decreases delimiters@.len() - i,
    {
        r.push(delimiters[i].as_char());
        assert(delimiters@.take(i + 1) =~= delimiters@.take(i as int).push(delimiters@[i as int]));
        i = i + 1;
    }
    assert(delimiters@.take(i as int) =~= delimiters@);
    r
}

} // verus!
