use salary_stats::{group_by_title, ContingencyTable, DistributionSpec, JobTitle, StatsError};

fn s(x: &str) -> String {
    x.to_string()
}

fn scenario_table() -> ContingencyTable {
    let mut t = ContingencyTable::new();
    t.add(s("A"), s("Jr"), 10);
    t.add(s("A"), s("Sr"), 5);
    t.add(s("B"), s("Jr"), 5);
    t.add(s("B"), s("Sr"), 10);
    t
}

#[test]
fn chi_square_two_by_two() {
    let t = scenario_table();
    assert_eq!(t.row_total(&s("A")), 15);
    assert_eq!(t.row_total(&s("B")), 15);
    assert_eq!(t.col_total(&s("Jr")), 15);
    assert_eq!(t.col_total(&s("Sr")), 15);
    assert_eq!(t.grand_total(), 30);
    let d = t.chi_square_design().unwrap();
    assert_eq!(d.rows, vec![s("A"), s("B")]);
    assert_eq!(d.cols, vec![s("Jr"), s("Sr")]);
    assert_eq!(d.grand_total, 30);
    assert_eq!(d.distribution, DistributionSpec::ChiSquared { df: 1 });
    let mut statistic = 0.0f64;
    for line in &d.cells {
        for cell in line {
            assert_eq!(cell.row_total, 15);
            assert_eq!(cell.col_total, 15);
            let expected = cell.row_total as f64 * cell.col_total as f64 / d.grand_total as f64;
            assert!((expected - 7.5).abs() < 1e-12);
            let diff = cell.observed as f64 - expected;
            statistic += diff * diff / expected;
        }
    }
    assert_eq!(d.cells[0][0].observed, 10);
    assert_eq!(d.cells[0][1].observed, 5);
    assert_eq!(d.cells[1][0].observed, 5);
    assert_eq!(d.cells[1][1].observed, 10);
    assert!((statistic - 10.0 / 3.0).abs() < 1e-9);
}

#[test]
fn chi_square_cells_do_not_depend_on_insertion_order() {
    let a = scenario_table();
    let mut b = ContingencyTable::new();
    b.add(s("B"), s("Sr"), 10);
    b.add(s("A"), s("Sr"), 5);
    b.add(s("B"), s("Jr"), 5);
    b.add(s("A"), s("Jr"), 10);
    let da = a.chi_square_design().unwrap();
    let db = b.chi_square_design().unwrap();
    assert_eq!(db.rows, vec![s("B"), s("A")]);
    assert_eq!(db.cols, vec![s("Sr"), s("Jr")]);
    let flat = |d: &salary_stats::ChiSquareDesign| {
        let mut v = Vec::new();
        for (i, line) in d.cells.iter().enumerate() {
            for (j, c) in line.iter().enumerate() {
                v.push((d.rows[i].clone(), d.cols[j].clone(), c.observed, c.row_total, c.col_total));
            }
        }
        v.sort();
        v
    };
    assert_eq!(flat(&da), flat(&db));
    assert_eq!(da.distribution, db.distribution);
    assert_eq!(da.grand_total, db.grand_total);
}

#[test]
fn chi_square_fills_missing_cells_with_zero() {
    let mut t = ContingencyTable::new();
    t.add(s("A"), s("Jr"), 3);
    t.add(s("B"), s("Sr"), 4);
    t.add(s("C"), s("Mid"), 2);
    assert_eq!(t.count(&s("A"), &s("Sr")), 0);
    let d = t.chi_square_design().unwrap();
    assert_eq!(d.cells.len(), 3);
    assert_eq!(d.cells[0].len(), 3);
    assert_eq!(d.cells[0][1].observed, 0);
    assert_eq!(d.cells[0][1].row_total, 3);
    assert_eq!(d.cells[0][1].col_total, 4);
    assert_eq!(d.distribution, DistributionSpec::ChiSquared { df: 4 });
}

#[test]
fn chi_square_empty_table() {
    let t = ContingencyTable::new();
    assert!(matches!(t.chi_square_design(), Err(StatsError::EmptyContingencyTable)));
    let mut z = ContingencyTable::new();
    z.add(s("A"), s("Jr"), 0);
    z.add(s("B"), s("Sr"), 0);
    assert!(matches!(z.chi_square_design(), Err(StatsError::EmptyContingencyTable)));
}

#[test]
fn chi_square_single_row_or_column() {
    let mut t = ContingencyTable::new();
    t.add(s("A"), s("Jr"), 3);
    t.add(s("A"), s("Sr"), 4);
    assert!(matches!(t.chi_square_design(), Err(StatsError::InvalidParameter)));
    let mut u = ContingencyTable::new();
    u.add(s("A"), s("Jr"), 3);
    u.add(s("B"), s("Jr"), 4);
    assert!(matches!(u.chi_square_design(), Err(StatsError::InvalidParameter)));
}

#[test]
fn add_accumulates_counts() {
    let mut t = ContingencyTable::new();
    t.add(s("A"), s("Jr"), 1);
    t.add(s("A"), s("Jr"), 1);
    t.add(s("B"), s("Jr"), 1);
    t.add(s("A"), s("Jr"), 2);
    assert_eq!(t.count(&s("A"), &s("Jr")), 4);
    assert_eq!(t.count(&s("B"), &s("Jr")), 1);
    assert_eq!(t.grand_total(), 5);
    assert_eq!(t.row_categories(), vec![s("A"), s("B")]);
    assert_eq!(t.col_categories(), vec![s("Jr")]);
}

#[test]
fn job_titles_from_names() {
    assert_eq!(JobTitle::from_name(&s("Data Analyst")), JobTitle::DataAnalyst);
    assert_eq!(JobTitle::from_name(&s("Data Scientist")), JobTitle::DataScientist);
    assert_eq!(JobTitle::from_name(&s("Data Engineer")), JobTitle::DataEngineer);
    assert_eq!(JobTitle::from_name(&s("ML Engineer")), JobTitle::Other);
    assert_eq!(JobTitle::from_name(&s("data analyst")), JobTitle::Other);
}

#[test]
fn job_title_labels() {
    assert_eq!(JobTitle::DataAnalyst.label(), "DataAnalyst");
    assert_eq!(JobTitle::DataScientist.label(), "DataScientist");
    assert_eq!(JobTitle::DataEngineer.label(), "DataEngineer");
    assert_eq!(JobTitle::Other.label(), "Other");
}

#[test]
fn grouping_keeps_record_order() {
    let records = vec![
        (JobTitle::DataAnalyst, 50.0),
        (JobTitle::DataScientist, 90.0),
        (JobTitle::Other, 10.0),
        (JobTitle::DataAnalyst, 60.0),
        (JobTitle::DataEngineer, 80.0),
        (JobTitle::DataScientist, 95.0),
    ];
    let (scientists, analysts, engineers) = group_by_title(&records);
    assert_eq!(scientists, vec![90.0, 95.0]);
    assert_eq!(analysts, vec![50.0, 60.0]);
    assert_eq!(engineers, vec![80.0]);
}
