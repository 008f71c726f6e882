use text_to_table::lines::{
    split_fields, Line, LineIgnoreContiguous, LineQuotedIgnoreContiguous,
    LineQuotedSplitContiguous, LineSplitContiguous, ParseError, Policy,
};

fn strings(v: &[&str]) -> Vec<String> {
    v.iter().map(|s| s.to_string()).collect()
}

fn all_policies() -> Vec<Policy> {
    vec![
        Policy { quoted_fields: false, contiguous_delimiters: false },
        Policy { quoted_fields: false, contiguous_delimiters: true },
        Policy { quoted_fields: true, contiguous_delimiters: false },
        Policy { quoted_fields: true, contiguous_delimiters: true },
    ]
}

#[test]
fn test_line_split_space_comma() {
    let s = r#"asdklsaj,,,alskjd,"kas  jd",,ksjd,sk,d"#;

    let delims = &[' ', ','];
    let ln1 = LineSplitContiguous::new(s);
    let ln2 = LineIgnoreContiguous::new(s);
    let ln3 = LineQuotedSplitContiguous::new(s);
    let ln4 = LineQuotedIgnoreContiguous::new(s);

    assert_eq!(ln1.num_fields(delims).unwrap(), 11);
    assert_eq!(ln2.num_fields(delims).unwrap(), 7);
    assert_eq!(ln3.num_fields(delims).unwrap(), 9);
    assert_eq!(ln4.num_fields(delims).unwrap(), 6);
}

#[test]
fn test_line_split_comma() {
    let s = r#"asdklsaj,,,alskjd,"kas  jd",,ksjd,sk,d"#;

    let delims = &[','];
    let ln1 = LineSplitContiguous::new(s);
    let ln2 = LineIgnoreContiguous::new(s);
    let ln3 = LineQuotedSplitContiguous::new(s);
    let ln4 = LineQuotedIgnoreContiguous::new(s);

    assert_eq!(ln1.num_fields(delims).unwrap(), 9);
    assert_eq!(ln2.num_fields(delims).unwrap(), 6);
    assert_eq!(ln3.num_fields(delims).unwrap(), 9);
    assert_eq!(ln4.num_fields(delims).unwrap(), 6);
}

#[test]
fn space_comma_fields_exact() {
    let s = r#"asdklsaj,,,alskjd,"kas  jd",,ksjd,sk,d"#;
    let delims = &[' ', ','];
    assert_eq!(
        LineSplitContiguous::new(s).split(delims).unwrap(),
        strings(&["asdklsaj", "", "", "alskjd", "\"kas", "", "jd\"", "", "ksjd", "sk", "d"])
    );
    assert_eq!(
        LineIgnoreContiguous::new(s).split(delims).unwrap(),
        strings(&["asdklsaj", "alskjd", "\"kas", "jd\"", "ksjd", "sk", "d"])
    );
    assert_eq!(
        LineQuotedSplitContiguous::new(s).split(delims).unwrap(),
        strings(&["asdklsaj", "", "", "alskjd", "\"kas  jd\"", "", "ksjd", "sk", "d"])
    );
    assert_eq!(
        LineQuotedIgnoreContiguous::new(s).split(delims).unwrap(),
        strings(&["asdklsaj", "alskjd", "\"kas  jd\"", "ksjd", "sk", "d"])
    );
}

#[test]
fn plain_line_is_one_field_under_every_policy() {
    for p in all_policies() {
        assert_eq!(split_fields("hello", &[' ', ','], p).unwrap(), strings(&["hello"]));
    }
    assert_eq!(LineSplitContiguous::new("abc").split(&[',']).unwrap(), strings(&["abc"]));
    assert_eq!(LineIgnoreContiguous::new("abc").split(&[',']).unwrap(), strings(&["abc"]));
    assert_eq!(LineQuotedSplitContiguous::new("abc").split(&[',']).unwrap(), strings(&["abc"]));
    assert_eq!(LineQuotedIgnoreContiguous::new("abc").split(&[',']).unwrap(), strings(&["abc"]));
}

#[test]
fn empty_line_per_policy() {
    assert_eq!(LineSplitContiguous::new("").split(&[',']).unwrap(), strings(&[""]));
    assert_eq!(LineIgnoreContiguous::new("").split(&[',']).unwrap(), Vec::<String>::new());
    assert_eq!(LineQuotedSplitContiguous::new("").split(&[',']).unwrap(), Vec::<String>::new());
    assert_eq!(LineQuotedIgnoreContiguous::new("").split(&[',']).unwrap(), Vec::<String>::new());
}

#[test]
fn doubled_delimiter_yields_empty_field_unless_collapsed() {
    assert_eq!(LineSplitContiguous::new("a,,b").split(&[',']).unwrap(), strings(&["a", "", "b"]));
    assert_eq!(LineIgnoreContiguous::new("a,,b").split(&[',']).unwrap(), strings(&["a", "b"]));
}

#[test]
fn quoted_span_is_not_split() {
    let s = "a,\"b,c\",d";
    let expected = strings(&["a", "\"b,c\"", "d"]);
    assert_eq!(LineQuotedSplitContiguous::new(s).split(&[',']).unwrap(), expected);
    assert_eq!(LineQuotedIgnoreContiguous::new(s).split(&[',']).unwrap(), expected);
    assert_eq!(
        LineSplitContiguous::new(s).split(&[',']).unwrap(),
        strings(&["a", "\"b", "c\"", "d"])
    );
}

#[test]
fn unterminated_quote_fails_only_when_quote_aware() {
    let s = "a,\"unterminated";
    assert_eq!(
        LineQuotedSplitContiguous::new(s).split(&[',']).unwrap_err(),
        ParseError::CannotParseLine
    );
    assert_eq!(
        LineQuotedIgnoreContiguous::new(s).split(&[',']).unwrap_err(),
        ParseError::CannotParseLine
    );
    assert_eq!(
        LineQuotedSplitContiguous::new(s).num_fields(&[',']).unwrap_err(),
        ParseError::CannotParseLine
    );
    assert_eq!(
        LineSplitContiguous::new(s).split(&[',']).unwrap(),
        strings(&["a", "\"unterminated"])
    );
    assert_eq!(
        LineIgnoreContiguous::new(s).split(&[',']).unwrap(),
        strings(&["a", "\"unterminated"])
    );
}

#[test]
fn doubled_quote_stays_in_field() {
    let s = "\"say \"\"hi\"\"\",x";
    assert_eq!(
        LineQuotedSplitContiguous::new(s).split(&[',']).unwrap(),
        strings(&["\"say \"\"hi\"\"\"", "x"])
    );
}

#[test]
fn trailing_and_leading_delimiters() {
    assert_eq!(LineSplitContiguous::new(",a,").split(&[',']).unwrap(), strings(&["", "a", ""]));
    assert_eq!(LineIgnoreContiguous::new(",a,").split(&[',']).unwrap(), strings(&["a"]));
    assert_eq!(LineQuotedSplitContiguous::new(",a,").split(&[',']).unwrap(), strings(&["", "a"]));
    assert_eq!(LineQuotedIgnoreContiguous::new(",a,").split(&[',']).unwrap(), strings(&["a"]));
}

#[test]
fn num_fields_matches_split_length() {
    let lines = ["a b  c", "  x", "\"q r\" s", "", "one"];
    for s in lines.iter() {
        for p in all_policies() {
            let n = split_fields(s, &[' '], p).unwrap().len();
            match (p.quoted_fields, p.contiguous_delimiters) {
                (false, false) => assert_eq!(LineSplitContiguous::new(s).num_fields(&[' ']).unwrap(), n),
                (false, true) => assert_eq!(LineIgnoreContiguous::new(s).num_fields(&[' ']).unwrap(), n),
                (true, false) => {
                    assert_eq!(LineQuotedSplitContiguous::new(s).num_fields(&[' ']).unwrap(), n)
                }
                (true, true) => {
                    assert_eq!(LineQuotedIgnoreContiguous::new(s).num_fields(&[' ']).unwrap(), n)
                }
            }
        }
    }
}

#[test]
fn tab_and_other_delimiters() {
    assert_eq!(
        LineSplitContiguous::new("a\tb|c:d.e").split(&['\t', '|', ':', '.']).unwrap(),
        strings(&["a", "b", "c", "d", "e"])
    );
}
