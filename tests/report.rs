use nm_sizer::report::{header_line, render, report, row_line, sort_by_size, total_line, total_size, Row};

fn row(size: u128, name: &str, last_modified: &str) -> Row {
    Row { size, name: name.to_string(), last_modified: last_modified.to_string() }
}

fn expected_header() -> String {
    format!("{:>15} {:<30} {:<20}", "Size (MB)", "Project", "Last Modified")
}

fn expected_row(size: u128, name: &str, last_modified: &str) -> String {
    format!("{:>15.2} {:<30} {:<20}", size as f64 / 1_000_000.0, name, last_modified)
}

#[test]
fn header_matches_fixed_columns() {
    assert_eq!(header_line(), expected_header());
    assert_eq!(header_line().chars().count(), 15 + 1 + 30 + 1 + 20);
}

#[test]
fn row_line_matches_fixed_columns() {
    assert_eq!(row_line(&row(1_500_000, "alpha", "3 days ago")), expected_row(1_500_000, "alpha", "3 days ago"));
    assert_eq!(row_line(&row(0, "b", "Time Error")), expected_row(0, "b", "Time Error"));
    assert_eq!(row_line(&row(123_456_789_012, "big", "0 days ago")), expected_row(123_456_789_012, "big", "0 days ago"));
}

#[test]
fn long_project_name_is_not_truncated() {
    let name = "a-project-name-that-is-longer-than-thirty-characters";
    assert_eq!(row_line(&row(2_000_000, name, "1 days ago")), expected_row(2_000_000, name, "1 days ago"));
}

#[test]
fn non_ascii_name_is_padded_by_characters() {
    assert_eq!(row_line(&row(10_000, "café-ü", "2 days ago")), expected_row(10_000, "café-ü", "2 days ago"));
}

#[test]
fn megabytes_round_to_two_decimals() {
    assert_eq!(total_line(0), "Total Size: 0.00 MB");
    assert_eq!(total_line(4_999), "Total Size: 0.00 MB");
    assert_eq!(total_line(5_000), "Total Size: 0.01 MB");
    assert_eq!(total_line(1_234_567), "Total Size: 1.23 MB");
    assert_eq!(total_line(1_235_000), "Total Size: 1.24 MB");
    assert_eq!(total_line(999_995_000), "Total Size: 1000.00 MB");
    assert_eq!(total_line(12_000_000), "Total Size: 12.00 MB");
}

#[test]
fn total_sums_every_row() {
    let rows = vec![row(1_500_000, "a", "x"), row(250_000, "b", "y"), row(0, "c", "z")];
    assert_eq!(total_size(&rows), Some(1_750_000));
    assert_eq!(total_size(&vec![]), Some(0));
}

#[test]
fn total_that_does_not_fit_is_refused() {
    let rows = vec![row(u128::MAX, "a", "x"), row(1, "b", "y")];
    assert_eq!(total_size(&rows), None);
    assert!(render(&rows).is_none());
    assert!(report(rows).is_none());
}

#[test]
fn rows_are_sorted_largest_first() {
    let rows = vec![row(10, "small", "1 days ago"), row(300, "large", "2 days ago"), row(20, "mid", "3 days ago"), row(300, "large2", "4 days ago")];
    let sorted = sort_by_size(rows);
    let sizes: Vec<u128> = sorted.iter().map(|r| r.size).collect();
    assert_eq!(sizes, vec![300, 300, 20, 10]);
    let mut names: Vec<String> = sorted.iter().map(|r| r.name.clone()).collect();
    names.sort();
    assert_eq!(names, vec!["large", "large2", "mid", "small"]);
    assert_eq!(sorted[2].last_modified, "3 days ago");
}

#[test]
fn sorting_nothing_gives_nothing() {
    assert!(sort_by_size(vec![]).is_empty());
}

#[test]
fn empty_tree_gives_empty_table_and_zero_total() {
    let lines = report(vec![]).unwrap();
    assert_eq!(lines, vec![expected_header(), String::new(), "Total Size: 0.00 MB".to_string()]);
}

#[test]
fn two_sibling_projects_are_reported_with_their_total() {
    let s1: u128 = 1_500_000;
    let s2: u128 = 2_750_000;
    let lines = report(vec![row(s1, "alpha", "3 days ago"), row(s2, "beta", "10 days ago")]).unwrap();
    assert_eq!(lines.len(), 5);
    assert_eq!(lines[0], expected_header());
    assert_eq!(lines[1], expected_row(s2, "beta", "10 days ago"));
    assert_eq!(lines[2], expected_row(s1, "alpha", "3 days ago"));
    assert_eq!(lines[3], "");
    assert_eq!(lines[4], format!("Total Size: {:.2} MB", (s1 + s2) as f64 / 1_000_000.0));
    assert_eq!(lines[4], "Total Size: 4.25 MB");
}

#[test]
fn render_keeps_the_given_order() {
    let rows = vec![row(1, "first", "a"), row(2_000_000, "second", "b")];
    let lines = render(&rows).unwrap();
    assert_eq!(lines[1], expected_row(1, "first", "a"));
    assert_eq!(lines[2], expected_row(2_000_000, "second", "b"));
    assert_eq!(lines[4], "Total Size: 2.00 MB");
}

#[test]
fn report_rows_never_increase_in_size() {
    let sizes: Vec<u128> = vec![5, 9_000_000, 70_000, 9_000_000, 0, 123_456];
    let rows: Vec<Row> = sizes.iter().enumerate().map(|(i, s)| row(*s, &format!("p{}", i), "0 days ago")).collect();
    let lines = report(rows).unwrap();
    let shown: Vec<f64> = lines[1..lines.len() - 2].iter().map(|l| l[..15].trim().parse::<f64>().unwrap()).collect();
    assert_eq!(shown.len(), sizes.len());
    for w in shown.windows(2) {
        assert!(w[0] >= w[1]);
    }
    assert_eq!(lines[lines.len() - 1], "Total Size: 18.19 MB");
}
