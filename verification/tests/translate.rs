use olap_engine::chunk::DataChunk;
use olap_engine::plan::Executable;
use olap_engine::sql::{parse_sql_to_plan, TranslationError};
use olap_engine::table::{Column, Table};

fn sample_table() -> Table {
    Table {
        columns: vec![
            Column {
                name: "region".to_string(),
                data: vec!["East".to_string(), "West".to_string(), "East".to_string()],
            },
            Column {
                name: "sales".to_string(),
                data: vec!["100".to_string(), "200".to_string(), "300".to_string()],
            },
        ],
    }
}

fn col_values(output: &DataChunk, name: &str) -> Vec<String> {
    let idx = output.find_column(&name.to_string()).expect("column absent");
    output.columns[idx].data.clone()
}

#[test]
fn translate_select_where() {
    let table = sample_table();
    let plan = parse_sql_to_plan("SELECT region FROM t WHERE region = 'East'", &table)
        .expect("query should translate");
    let output = plan.execute();

    assert_eq!(output.columns.len(), 1);
    assert_eq!(col_values(&output, "region"), vec!["East", "East"]);
}

#[test]
fn translate_group_by_sum() {
    let table = sample_table();
    let plan = parse_sql_to_plan("SELECT sum(sales) FROM t GROUP BY region", &table)
        .expect("query should translate");
    let output = plan.execute();

    let regions = col_values(&output, "region");
    let sales = col_values(&output, "sales");
    let east = regions.iter().position(|r| r == "East").unwrap();
    let west = regions.iter().position(|r| r == "West").unwrap();
    assert_eq!(sales[east], "400");
    assert_eq!(sales[west], "200");
}

#[test]
fn translate_upper_case_aggregate_name() {
    let table = sample_table();
    let plan = parse_sql_to_plan("SELECT COUNT(sales) FROM t GROUP BY region", &table)
        .expect("query should translate");
    let output = plan.execute();

    let regions = col_values(&output, "region");
    let counts = col_values(&output, "sales");
    let east = regions.iter().position(|r| r == "East").unwrap();
    assert_eq!(counts[east], "2");
}

#[test]
fn translate_rejects_avg() {
    let table = sample_table();
    let r = parse_sql_to_plan("SELECT avg(sales) FROM t GROUP BY region", &table);
    assert_eq!(r.err(), Some(TranslationError::AvgUnsupported));
}

#[test]
fn translate_rejects_avg_without_group_by() {
    let table = sample_table();
    let r = parse_sql_to_plan("SELECT avg(sales) FROM t", &table);
    assert_eq!(r.err(), Some(TranslationError::AvgUnsupported));
}

#[test]
fn translate_rejects_range_predicate() {
    let table = sample_table();
    let r = parse_sql_to_plan("SELECT region FROM t WHERE sales > '100'", &table);
    assert_eq!(r.err(), Some(TranslationError::UnsupportedPredicate));
}

#[test]
fn translate_rejects_and_predicate() {
    let table = sample_table();
    let r = parse_sql_to_plan(
        "SELECT region FROM t WHERE region = 'East' AND sales = '100'",
        &table,
    );
    assert_eq!(r.err(), Some(TranslationError::UnsupportedPredicate));
}

#[test]
fn translate_rejects_unknown_aggregate() {
    let table = sample_table();
    let r = parse_sql_to_plan("SELECT median(sales) FROM t GROUP BY region", &table);
    assert_eq!(r.err(), Some(TranslationError::UnsupportedAggregate));
}

#[test]
fn translate_rejects_group_by_expression() {
    let table = sample_table();
    let r = parse_sql_to_plan("SELECT count(sales) FROM t GROUP BY region || 'x'", &table);
    assert_eq!(r.err(), Some(TranslationError::UnsupportedGroupBy));
}

#[test]
fn translate_rejects_non_select() {
    let table = sample_table();
    let r = parse_sql_to_plan("INSERT INTO t (region) VALUES ('East')", &table);
    assert_eq!(r.err(), Some(TranslationError::NotSelect));
}

#[test]
fn translate_rejects_multiple_statements() {
    let table = sample_table();
    let r = parse_sql_to_plan("SELECT region FROM t; SELECT sales FROM t", &table);
    assert_eq!(r.err(), Some(TranslationError::MultipleStatements));
}

#[test]
fn translate_rejects_wildcard_aggregate_argument() {
    let table = sample_table();
    let r = parse_sql_to_plan("SELECT count(*) FROM t GROUP BY region", &table);
    assert_eq!(r.err(), Some(TranslationError::UnsupportedAggregate));
}

#[test]
fn translate_rejects_expression_aggregate_argument() {
    let table = sample_table();
    let r = parse_sql_to_plan("SELECT sum(sales * 2) FROM t GROUP BY region", &table);
    assert_eq!(r.err(), Some(TranslationError::UnsupportedAggregate));
}

#[test]
fn translate_rejects_garbage() {
    let table = sample_table();
    let r = parse_sql_to_plan("THIS IS NOT SQL @@@", &table);
    assert_eq!(r.err(), Some(TranslationError::Parse));
}

#[test]
fn translate_plain_select_is_scan() {
    let table = sample_table();
    let plan = parse_sql_to_plan("SELECT region, sales FROM t", &table)
        .expect("query should translate");
    let output = plan.execute();

    assert_eq!(output.columns.len(), 2);
    assert_eq!(col_values(&output, "region"), vec!["East", "West", "East"]);
    assert_eq!(col_values(&output, "sales"), vec!["100", "200", "300"]);
}
