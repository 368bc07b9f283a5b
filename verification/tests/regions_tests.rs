use netkit::regions::{aggregate_scan, default_regions};

#[test]
fn one_failed_region_contributes_nothing() {
    // Ten regions; the fourth fails; the worst among the other nine wins.
    let outcomes = vec![
        Some(0),
        Some(1),
        Some(0),
        None,
        Some(2),
        Some(0),
        Some(1),
        Some(0),
        Some(0),
        Some(0),
    ];
    let (worst, with_issues) = aggregate_scan(&outcomes);
    assert_eq!(worst, 2);
    assert_eq!(with_issues, 3);

    let without_failed: Vec<Option<i32>> = outcomes
        .iter()
        .filter(|o| o.is_some())
        .cloned()
        .collect();
    let (worst9, with_issues9) = aggregate_scan(&without_failed);
    assert_eq!(worst, worst9);
    assert_eq!(with_issues, with_issues9);
}

#[test]
fn all_failed_regions_aggregate_to_zero() {
    let outcomes: Vec<Option<i32>> = vec![None; 10];
    assert_eq!(aggregate_scan(&outcomes), (0, 0));
}

#[test]
fn clean_scan_aggregates_to_zero() {
    let outcomes = vec![Some(0), Some(0), Some(0)];
    assert_eq!(aggregate_scan(&outcomes), (0, 0));
}

#[test]
fn empty_scan_aggregates_to_zero() {
    let outcomes: Vec<Option<i32>> = Vec::new();
    assert_eq!(aggregate_scan(&outcomes), (0, 0));
}

#[test]
fn worst_code_wins_and_issue_regions_are_counted() {
    let outcomes = vec![Some(1), Some(1), Some(0), Some(1)];
    assert_eq!(aggregate_scan(&outcomes), (1, 3));
}

#[test]
fn region_list_is_the_fixed_ten() {
    let regions = default_regions();
    assert_eq!(
        regions,
        vec![
            "us-east-1",
            "us-east-2",
            "us-west-1",
            "us-west-2",
            "eu-west-1",
            "eu-west-2",
            "eu-central-1",
            "ap-southeast-1",
            "ap-southeast-2",
            "ap-northeast-1",
        ]
    );
}
