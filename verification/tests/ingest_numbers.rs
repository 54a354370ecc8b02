use olap_engine::numbers::{fmt_i128, fmt_u128, parse_int_str};
use olap_engine::table::{IngestionError, Table};

fn strings(vs: &[&str]) -> Vec<String> {
    vs.iter().map(|s| s.to_string()).collect()
}

#[test]
fn from_rows_builds_table() {
    let t = Table::from_rows(
        strings(&["region", "sales"]),
        vec![strings(&["East", "100"]), strings(&["West", "200"])],
    )
    .expect("well-formed input");

    assert_eq!(t.columns.len(), 2);
    assert_eq!(t.columns[0].name, "region");
    assert_eq!(t.columns[0].data, vec!["East", "West"]);
    assert_eq!(t.columns[1].name, "sales");
    assert_eq!(t.columns[1].data, vec!["100", "200"]);
}

#[test]
fn from_rows_rejects_duplicate_header() {
    let r = Table::from_rows(
        strings(&["region", "region"]),
        vec![strings(&["East", "West"])],
    );
    assert_eq!(r.err(), Some(IngestionError::DuplicateHeader));
}

#[test]
fn from_rows_rejects_arity_mismatch() {
    let r = Table::from_rows(
        strings(&["region", "sales"]),
        vec![strings(&["East", "100"]), strings(&["West"])],
    );
    assert_eq!(r.err(), Some(IngestionError::ArityMismatch));
}

#[test]
fn format_decimal_text() {
    assert_eq!(fmt_u128(0), "0");
    assert_eq!(fmt_u128(905), "905");
    assert_eq!(fmt_i128(-5), "-5");
    assert_eq!(fmt_i128(400), "400");
    assert_eq!(fmt_i128(-1200), "-1200");
}

#[test]
fn parse_decimal_text() {
    assert_eq!(parse_int_str("12"), Some(12));
    assert_eq!(parse_int_str("-7"), Some(-7));
    assert_eq!(parse_int_str("007"), Some(7));
    assert_eq!(parse_int_str(""), None);
    assert_eq!(parse_int_str("-"), None);
    assert_eq!(parse_int_str("abc"), None);
    assert_eq!(parse_int_str("12.5"), None);
    assert_eq!(parse_int_str("1e5"), None);
    assert_eq!(parse_int_str("9223372036854775807"), Some(i64::MAX));
    assert_eq!(parse_int_str("9223372036854775808"), None);
    assert_eq!(parse_int_str("-9223372036854775808"), Some(i64::MIN));
    assert_eq!(parse_int_str("-9223372036854775809"), None);
}
