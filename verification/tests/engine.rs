use olap_engine::chunk::DataChunk;
use olap_engine::plan::{check_plan, table_wf_check, AggregateFunction, AggregateNode, Executable, FilterNode, PlanNode, Predicate, ProjectNode, ScanNode};
use olap_engine::table::{Column, Table};

fn sample_table() -> Table {
    Table {
        columns: vec![
            Column {
                name: "region".to_string(),
                data: vec!["East".to_string(), "West".to_string(), "East".to_string()],
            },
            Column {
                name: "sales".to_string(),
                data: vec!["100".to_string(), "200".to_string(), "300".to_string()],
            },
        ],
    }
}

fn col_values(output: &DataChunk, name: &str) -> Vec<String> {
    let idx = output.find_column(&name.to_string()).expect("column absent");
    output.columns[idx].data.clone()
}

#[test]
fn test_scan_node() {
    let table = sample_table();
    let scan = ScanNode { table: &table };
    let output = scan.execute();

    assert_eq!(col_values(&output, "region"), vec!["East", "West", "East"]);
    assert_eq!(col_values(&output, "sales"), vec!["100", "200", "300"]);
}

#[test]
fn test_project_node() {
    let table = sample_table();
    let scan = PlanNode::Scan(ScanNode { table: &table });
    let project = ProjectNode {
        input: Box::new(scan),
        columns: vec!["sales".to_string()],
    };
    let output = project.execute();

    assert_eq!(output.columns.len(), 1);
    assert_eq!(col_values(&output, "sales"), vec!["100", "200", "300"]);
}

#[test]
fn test_filter_node() {
    let table = sample_table();
    let scan = PlanNode::Scan(ScanNode { table: &table });
    let filter = FilterNode {
        input: Box::new(scan),
        predicate: Predicate { column: "region".to_string(), literal: "East".to_string() },
    };
    let output = filter.execute();

    assert_eq!(col_values(&output, "region"), vec!["East", "East"]);
    assert_eq!(col_values(&output, "sales"), vec!["100", "300"]);
}

#[test]
fn test_aggregate_node_sum() {
    let table = sample_table();
    let scan = PlanNode::Scan(ScanNode { table: &table });
    let aggregate = AggregateNode {
        input: Box::new(scan),
        group_by: vec!["region".to_string()],
        aggregates: vec![("sales".to_string(), AggregateFunction::Sum)],
    };
    let output = aggregate.execute();

    let regions = col_values(&output, "region");
    let sales = col_values(&output, "sales");
    assert_eq!(regions.len(), 2);
    assert!(regions.contains(&"East".to_string()));
    assert!(regions.contains(&"West".to_string()));

    let east_index = regions.iter().position(|r| r == "East").unwrap();
    let west_index = regions.iter().position(|r| r == "West").unwrap();

    assert_eq!(sales[east_index], "400");
    assert_eq!(sales[west_index], "200");
}

#[test]
fn test_aggregate_node_count() {
    let table = sample_table();
    let scan = PlanNode::Scan(ScanNode { table: &table });
    let aggregate = AggregateNode {
        input: Box::new(scan),
        group_by: vec!["region".to_string()],
        aggregates: vec![("sales".to_string(), AggregateFunction::Count)],
    };
    let output = aggregate.execute();

    let regions = col_values(&output, "region");
    let sales = col_values(&output, "sales");
    assert_eq!(regions.len(), 2);
    assert!(regions.contains(&"East".to_string()));
    assert!(regions.contains(&"West".to_string()));

    let east_index = regions.iter().position(|r| r == "East").unwrap();
    let west_index = regions.iter().position(|r| r == "West").unwrap();

    assert_eq!(sales[east_index], "2");
    assert_eq!(sales[west_index], "1");
}

#[test]
fn scan_filter_project_pipeline() {
    let table = sample_table();
    let plan = PlanNode::Project(ProjectNode {
        input: Box::new(PlanNode::Filter(FilterNode {
            input: Box::new(PlanNode::Scan(ScanNode { table: &table })),
            predicate: Predicate { column: "region".to_string(), literal: "East".to_string() },
        })),
        columns: vec!["sales".to_string()],
    });
    let output = plan.execute();

    assert_eq!(output.columns.len(), 1);
    assert_eq!(col_values(&output, "sales"), vec!["100", "300"]);
}

#[test]
fn filter_false_keeps_headers() {
    let table = sample_table();
    let filter = FilterNode {
        input: Box::new(PlanNode::Scan(ScanNode { table: &table })),
        predicate: Predicate { column: "region".to_string(), literal: "North".to_string() },
    };
    let output = filter.execute();

    assert_eq!(output.columns.len(), 2);
    assert_eq!(col_values(&output, "region").len(), 0);
    assert_eq!(col_values(&output, "sales").len(), 0);
}

#[test]
fn filter_on_absent_column_keeps_nothing() {
    let table = sample_table();
    let filter = FilterNode {
        input: Box::new(PlanNode::Scan(ScanNode { table: &table })),
        predicate: Predicate { column: "missing".to_string(), literal: "East".to_string() },
    };
    let output = filter.execute();

    assert_eq!(output.columns.len(), 2);
    assert_eq!(col_values(&output, "region").len(), 0);
}

#[test]
fn project_absent_and_duplicate_names() {
    let table = sample_table();
    let project = ProjectNode {
        input: Box::new(PlanNode::Scan(ScanNode { table: &table })),
        columns: vec![
            "sales".to_string(),
            "sales".to_string(),
            "nope".to_string(),
        ],
    };
    let output = project.execute();

    assert_eq!(output.columns.len(), 1);
    assert_eq!(col_values(&output, "sales"), vec!["100", "200", "300"]);
}

#[test]
fn project_is_idempotent() {
    let table = sample_table();
    let once = ProjectNode {
        input: Box::new(PlanNode::Scan(ScanNode { table: &table })),
        columns: vec!["region".to_string()],
    };
    let twice = ProjectNode {
        input: Box::new(PlanNode::Project(ProjectNode {
            input: Box::new(PlanNode::Scan(ScanNode { table: &table })),
            columns: vec!["region".to_string()],
        })),
        columns: vec!["region".to_string()],
    };
    let a = once.execute();
    let b = twice.execute();

    assert_eq!(a.columns.len(), b.columns.len());
    assert_eq!(col_values(&a, "region"), col_values(&b, "region"));
}

#[test]
fn count_total_equals_row_count() {
    let table = sample_table();
    let aggregate = AggregateNode {
        input: Box::new(PlanNode::Scan(ScanNode { table: &table })),
        group_by: vec!["region".to_string()],
        aggregates: vec![("sales".to_string(), AggregateFunction::Count)],
    };
    let output = aggregate.execute();

    let total: i64 = col_values(&output, "sales")
        .iter()
        .map(|v| v.parse::<i64>().unwrap())
        .sum();
    assert_eq!(total, 3);
}

#[test]
fn check_plan_accepts_well_formed_aggregate() {
    let table = sample_table();
    let plan = PlanNode::Aggregate(AggregateNode {
        input: Box::new(PlanNode::Scan(ScanNode { table: &table })),
        group_by: vec!["region".to_string()],
        aggregates: vec![("sales".to_string(), AggregateFunction::Sum)],
    });
    let names = check_plan(&plan).expect("plan should be well-formed");
    assert_eq!(names, vec!["region", "sales"]);
}

#[test]
fn check_plan_rejects_absent_aggregate_column() {
    let table = sample_table();
    let plan = PlanNode::Aggregate(AggregateNode {
        input: Box::new(PlanNode::Scan(ScanNode { table: &table })),
        group_by: vec!["region".to_string()],
        aggregates: vec![("profit".to_string(), AggregateFunction::Sum)],
    });
    assert!(check_plan(&plan).is_none());
}

#[test]
fn check_plan_rejects_duplicate_group_by() {
    let table = sample_table();
    let plan = PlanNode::Aggregate(AggregateNode {
        input: Box::new(PlanNode::Scan(ScanNode { table: &table })),
        group_by: vec!["region".to_string(), "region".to_string()],
        aggregates: vec![("sales".to_string(), AggregateFunction::Count)],
    });
    assert!(check_plan(&plan).is_none());
}

#[test]
fn check_plan_tracks_projected_names() {
    let table = sample_table();
    let plan = PlanNode::Project(ProjectNode {
        input: Box::new(PlanNode::Scan(ScanNode { table: &table })),
        columns: vec!["sales".to_string(), "nope".to_string()],
    });
    let names = check_plan(&plan).expect("plan should be well-formed");
    assert_eq!(names, vec!["sales"]);
}

#[test]
fn table_wf_check_decides_invariant() {
    assert!(table_wf_check(&sample_table()));
    let ragged = Table {
        columns: vec![
            Column { name: "a".to_string(), data: vec!["1".to_string()] },
            Column { name: "b".to_string(), data: vec![] },
        ],
    };
    assert!(!table_wf_check(&ragged));
    let duplicated = Table {
        columns: vec![
            Column { name: "a".to_string(), data: vec!["1".to_string()] },
            Column { name: "a".to_string(), data: vec!["2".to_string()] },
        ],
    };
    assert!(!table_wf_check(&duplicated));
}

#[test]
fn sum_treats_non_numeric_as_zero() {
    let table = Table {
        columns: vec![
            Column {
                name: "region".to_string(),
                data: vec!["A".to_string(), "A".to_string(), "A".to_string()],
            },
            Column {
                name: "sales".to_string(),
                data: vec!["10".to_string(), "xyz".to_string(), "-3".to_string()],
            },
        ],
    };
    let aggregate = AggregateNode {
        input: Box::new(PlanNode::Scan(ScanNode { table: &table })),
        group_by: vec!["region".to_string()],
        aggregates: vec![("sales".to_string(), AggregateFunction::Sum)],
    };
    let output = aggregate.execute();

    assert_eq!(col_values(&output, "region"), vec!["A"]);
    assert_eq!(col_values(&output, "sales"), vec!["7"]);
}
