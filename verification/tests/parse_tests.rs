use ptfl_reader::catalog::Catalog;
use ptfl_reader::fixed::{parse_count, parse_fixed, parse_u32};
use ptfl_reader::ptfl_parse::{FormatError, PtflParser};

#[test]
fn fixed_point_literals() {
    assert_eq!(parse_fixed("1.5708"), Some(1_570_800));
    assert_eq!(parse_fixed("0.0"), Some(0));
    assert_eq!(parse_fixed("-2.5"), Some(-2_500_000));
    assert_eq!(parse_fixed("+.5"), Some(500_000));
    assert_eq!(parse_fixed("1."), Some(1_000_000));
    assert_eq!(parse_fixed("42"), Some(42_000_000));
    // the seventh fractional digit is dropped, toward zero
    assert_eq!(parse_fixed("0.1234567"), Some(123_456));
    assert_eq!(parse_fixed(""), None);
    assert_eq!(parse_fixed("."), None);
    assert_eq!(parse_fixed("1.2.3"), None);
    assert_eq!(parse_fixed("1e3"), None);
    assert_eq!(parse_fixed("abc"), None);
    assert_eq!(parse_fixed("99999999999999999999"), None);
}

#[test]
fn count_and_u32_literals() {
    assert_eq!(parse_count("17"), Some(17));
    assert_eq!(parse_count("+3"), Some(3));
    assert_eq!(parse_count("0"), Some(0));
    assert_eq!(parse_count(""), None);
    assert_eq!(parse_count("-1"), None);
    assert_eq!(parse_count("1.5"), None);
    assert_eq!(parse_u32("4294967295"), Some(u32::MAX));
    assert_eq!(parse_u32("4294967296"), None);
}

#[test]
fn single_block_file() {
    let mut catalog = Catalog::new();
    let mut parser = PtflParser::new();
    let r = parser.parse("a.ptfl", "2\n0.0, 1.0\n1.5708, 2.0\n", &mut catalog);
    assert_eq!(r.unwrap(), 1);
    assert_eq!(catalog.len(), 1);
    let key = (String::from("a.ptfl"), 0u32);
    assert!(catalog.contains(&key));
    let samples = catalog.get(&key).unwrap();
    assert_eq!(samples.len(), 2);
    assert_eq!(samples[0], (0, 1_000_000));
    assert_eq!(samples[1], (1_570_800, 2_000_000));
}

#[test]
fn multi_block_file_counts_match_headers() {
    let mut catalog = Catalog::new();
    let mut parser = PtflParser::new();
    let text = "1\n0,1\n\n\n3\n0.1,2\n0.2,3\n0.3,4\n";
    let r = parser.parse("scan", text, &mut catalog);
    assert_eq!(r.unwrap(), 2);
    assert_eq!(catalog.len(), 2);
    let k0 = (String::from("scan"), 0u32);
    let k1 = (String::from("scan"), 1u32);
    assert_eq!(catalog.get(&k0).unwrap().len(), 1);
    assert_eq!(catalog.get(&k1).unwrap().len(), 3);
}

#[test]
fn header_errors() {
    let mut catalog = Catalog::new();
    let mut parser = PtflParser::new();
    let r = parser.parse("f", "abc\n", &mut catalog);
    assert!(matches!(r, Err(FormatError::HeaderNotNumber(t)) if t == "abc"));
    assert_eq!(catalog.len(), 0);

    parser.renew();
    let r = parser.parse("f", "0\n", &mut catalog);
    assert!(matches!(r, Err(FormatError::HeaderZero)));
    assert_eq!(catalog.len(), 0);
}

#[test]
fn sample_line_errors() {
    let mut catalog = Catalog::new();
    let mut parser = PtflParser::new();
    let r = parser.parse("f", "1\n1,2,3\n", &mut catalog);
    assert!(matches!(r, Err(FormatError::WrongFields(3))));
    assert_eq!(catalog.len(), 0);

    parser.renew();
    let r = parser.parse("f", "1\nx, 1\n", &mut catalog);
    assert!(matches!(r, Err(FormatError::BadNumber(t)) if t == "x"));
    assert_eq!(catalog.len(), 0);
}

#[test]
fn mismatched_count_is_error_not_entry() {
    // the block declares two samples but the next line is a header
    let mut catalog = Catalog::new();
    let mut parser = PtflParser::new();
    let r = parser.parse("f", "2\n0,1\n5\n0,2\n", &mut catalog);
    assert!(r.is_err());
    assert_eq!(catalog.len(), 0);
}

#[test]
fn blocks_before_error_are_kept() {
    let mut catalog = Catalog::new();
    let mut parser = PtflParser::new();
    let r = parser.parse("f", "1\n0,1\n\nbad\n", &mut catalog);
    assert!(r.is_err());
    assert_eq!(catalog.len(), 1);
    assert!(catalog.contains(&(String::from("f"), 0u32)));
}

#[test]
fn truncated_block_spans_calls_until_renewed() {
    // a file ending mid-block is no error and emits no entry; the
    // parser state persists, so the next call keeps collecting unless
    // renew is called first
    let mut catalog = Catalog::new();
    let mut parser = PtflParser::new();
    let r = parser.parse("f", "3\n0,1\n", &mut catalog);
    assert_eq!(r.unwrap(), 0);
    assert_eq!(catalog.len(), 0);

    // two more sample lines finish the count started above, keyed by
    // the second call's label; the first call's sample is not carried
    // over (each call collects into a fresh buffer)
    let r = parser.parse("g", "0,2\n0,3\n", &mut catalog);
    assert_eq!(r.unwrap(), 1);
    assert_eq!(catalog.get(&(String::from("g"), 0u32)).unwrap().len(), 2);

    // after renew, a fresh header is expected again
    parser.renew();
    let r = parser.parse("h", "1\n0,4\n", &mut catalog);
    assert_eq!(r.unwrap(), 1);
}

#[test]
fn crlf_lines_are_accepted() {
    let mut catalog = Catalog::new();
    let mut parser = PtflParser::new();
    let r = parser.parse("w", "1\r\n0.5, 1.5\r\n", &mut catalog);
    assert_eq!(r.unwrap(), 1);
    let samples = catalog.get(&(String::from("w"), 0u32)).unwrap();
    assert_eq!(samples[0], (500_000, 1_500_000));
}

#[test]
fn reloading_a_file_overwrites_in_place() {
    let mut catalog = Catalog::new();
    let mut parser = PtflParser::new();
    parser.parse("f", "1\n0,1\n", &mut catalog).unwrap();
    parser.parse("g", "1\n0,2\n", &mut catalog).unwrap();
    // a second load of `f` reuses sequence number zero
    parser.parse("f", "1\n0,9\n", &mut catalog).unwrap();
    assert_eq!(catalog.len(), 2);
    let (k, v) = catalog.at(0);
    assert_eq!(k.0, "f");
    assert_eq!(v[0], (0, 9_000_000));
    let (k, _) = catalog.at(1);
    assert_eq!(k.0, "g");
}
