use baidu_fanyi::mini_fmt::{format_rows, BuildError, FmtStyle, FmtType, Fmtter};

fn render(t: &str, vals: &[&str]) -> String {
    let f = Fmtter::build(t).unwrap();
    assert!(f.fits(vals.len()));
    f.fmt_str(vals)
}

#[test]
fn substitutes_in_the_middle() {
    assert_eq!(render("ab%sde", &["c"]), "abcde");
}

#[test]
fn mixes_cursor_and_indexed_references() {
    assert_eq!(render("%s,%s,%0s,%1r,%s", &["a", "b", "c"]), "a,b,a,\"b\",c");
}

#[test]
fn hex_escapes() {
    assert_eq!(render("%x1b", &[]), "\x1b");
    assert_eq!(render("%x1C", &[]), "\x1c");
    assert_eq!(render("%u0879", &[]), "\u{0879}");
    assert_eq!(render("%U10ffff", &[]), "\u{10ffff}");
}

#[test]
fn code_point_above_range_is_refused() {
    assert_eq!(Fmtter::build("%U110000").unwrap_err(), BuildError::InvalidCodePoint(0x110000));
}

#[test]
fn surrogate_is_refused() {
    assert_eq!(Fmtter::build("%uD800").unwrap_err(), BuildError::InvalidCodePoint(0xd800));
}

#[test]
fn plain_text_is_unchanged() {
    assert_eq!(render("hello, world", &[]), "hello, world");
    assert_eq!(render("hello, world", &["x", "y"]), "hello, world");
    assert_eq!(render("", &["x"]), "");
}

#[test]
fn percent_escape_reads_no_value() {
    assert_eq!(render("%%", &[]), "%");
    assert_eq!(render("100%% sure", &[]), "100% sure");
    assert_eq!(render("%%%s", &["v"]), "%v");
}

#[test]
fn cursor_advances_once_per_reference() {
    assert_eq!(render("%s,%s", &["a", "b"]), "a,b");
}

#[test]
fn indexed_reference_keeps_cursor() {
    assert_eq!(render("%0s,%s", &["a", "b"]), "a,a");
    assert_eq!(render("%1s%s%s", &["a", "b"]), "bab");
}

#[test]
fn styles() {
    assert_eq!(FmtStyle::Repr.fmt_str("b"), "\"b\"");
    assert_eq!(FmtStyle::Str.fmt_str("b"), "b");
    assert_eq!(FmtStyle::ERepr.fmt_str("b"), "\"b\"");
    assert_eq!(FmtStyle::Repr.fmt_str("a\"b\n"), "\"a\\\"b\\n\"");
    assert_eq!(render("%r|%R|%s", &["b", "b", "b"]), "\"b\"|\"b\"|b");
}

#[test]
fn simple_escapes() {
    assert_eq!(render("a%nb%Nc%td%e", &[]), "a\nb\rc\td\x1b");
}

#[test]
fn truncated_sequences() {
    assert_eq!(Fmtter::build("abc%").unwrap_err(), BuildError::TruncatedSequence);
    assert_eq!(Fmtter::build("ab%x1").unwrap_err(), BuildError::TruncatedSequence);
    assert_eq!(Fmtter::build("%0").unwrap_err(), BuildError::TruncatedSequence);
    assert_eq!(Fmtter::build("%U10ff").unwrap_err(), BuildError::TruncatedSequence);
}

#[test]
fn unknown_sequences() {
    assert_eq!(Fmtter::build("%q").unwrap_err(), BuildError::UnknownSequence('q'));
    assert_eq!(Fmtter::build("%0q").unwrap_err(), BuildError::UnknownSequence('q'));
    assert_eq!(Fmtter::build("%S").unwrap_err(), BuildError::UnknownSequence('S'));
}

#[test]
fn malformed_hex() {
    assert_eq!(
        Fmtter::build("%xzz").unwrap_err(),
        BuildError::InvalidHexDigits("zz".to_string())
    );
    assert_eq!(
        Fmtter::build("%x+1").unwrap_err(),
        BuildError::InvalidHexDigits("+1".to_string())
    );
    assert_eq!(
        Fmtter::build("%u12g4").unwrap_err(),
        BuildError::InvalidHexDigits("12g4".to_string())
    );
}

#[test]
fn compiling_twice_renders_alike() {
    let a = Fmtter::build("%s=%1r%%%n").unwrap();
    let b = Fmtter::build("%s=%1r%%%n").unwrap();
    assert_eq!(a.fmt_str(&["k", "v"]), b.fmt_str(&["k", "v"]));
    assert_eq!(a.fmt_str(&["k", "v"]), "k=\"v\"%\n");
}

#[test]
fn templates_then_rows() {
    let fmtters = vec![Fmtter::build("1:%s;").unwrap(), Fmtter::build("2:%1s;").unwrap()];
    let rows = vec![vec!["a", "A"], vec!["b", "B"]];
    let out = format_rows(&fmtters, &rows);
    assert_eq!(out, vec!["1:a;", "1:b;", "2:A;", "2:B;"]);
    assert_eq!(out.concat(), "1:a;1:b;2:A;2:B;");
}

#[test]
fn default_output_template() {
    let f = Fmtter::build("%s\n%s\n").unwrap();
    assert_eq!(f.fmt_str(&["hello", "bonjour"]), "hello\nbonjour\n");
}

#[test]
fn fits_counts_values() {
    let f = Fmtter::build("%s%s%5r").unwrap();
    assert!(!f.fits(2));
    assert!(!f.fits(5));
    assert!(f.fits(6));
    assert!(Fmtter::build("%3s").unwrap().fits(4));
    assert!(!Fmtter::build("%3s").unwrap().fits(3));
    assert!(Fmtter::new().fits(0));
}

#[test]
fn empty_template_renders_nothing() {
    assert_eq!(Fmtter::new().fmt_str(&[]), "");
}

#[test]
fn default_instruction_is_empty_text() {
    match FmtType::default() {
        FmtType::Const(s) => assert_eq!(s, ""),
        _ => panic!("not a literal"),
    }
}
