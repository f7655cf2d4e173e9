use nm_sizer::age::{age_in_days, age_label, last_modified_label, Timestamp};
use nm_sizer::size::calculate_dir_size;

fn at(secs: i64, nanos: u32) -> Timestamp {
    Timestamp { secs, nanos }
}

#[test]
fn empty_tree_has_size_zero() {
    assert_eq!(calculate_dir_size(&vec![]), 0);
}

#[test]
fn sizes_of_all_entries_are_summed() {
    assert_eq!(calculate_dir_size(&vec![Some(4096), Some(1000), Some(2500)]), 7596);
}

#[test]
fn unreadable_entry_is_left_out_of_the_sum() {
    let all = calculate_dir_size(&vec![Some(4096), Some(1000), Some(2500)]);
    let one_lost = calculate_dir_size(&vec![Some(4096), None, Some(2500)]);
    assert_eq!(one_lost, 6596);
    assert_eq!(all - one_lost, 1000);
    assert_eq!(calculate_dir_size(&vec![None, None]), 0);
}

#[test]
fn sum_beyond_u64_does_not_overflow() {
    let lens = vec![Some(u64::MAX), Some(u64::MAX), Some(2)];
    assert_eq!(calculate_dir_size(&lens), 2 * (u64::MAX as u128) + 2);
}

#[test]
fn age_counts_whole_days() {
    assert_eq!(age_in_days(at(86_400, 0), at(0, 0)), Some(1));
    assert_eq!(age_in_days(at(86_399, 999_999_999), at(0, 0)), Some(0));
    assert_eq!(age_in_days(at(1_700_000_000, 0), at(1_700_000_000 - 10 * 86_400 - 5, 7)), Some(10));
}

#[test]
fn age_of_same_instant_is_zero_days() {
    assert_eq!(age_in_days(at(1_000, 500), at(1_000, 500)), Some(0));
}

#[test]
fn age_before_the_epoch() {
    assert_eq!(age_in_days(at(86_400, 0), at(-2 * 86_400, 0)), Some(3));
}

#[test]
fn future_modification_has_no_age() {
    assert_eq!(age_in_days(at(1_000, 0), at(1_000, 1)), None);
    assert_eq!(age_in_days(at(1_000, 0), at(90_000, 0)), None);
}

#[test]
fn widest_timestamps_do_not_overflow() {
    let days = age_in_days(at(i64::MAX, 999_999_999), at(i64::MIN, 0)).unwrap();
    let exact = ((i64::MAX as i128 - i64::MIN as i128) * 1_000_000_000 + 999_999_999) / 86_400_000_000_000;
    assert_eq!(days as i128, exact);
}

#[test]
fn age_labels() {
    assert_eq!(age_label(Some(0)), "0 days ago");
    assert_eq!(age_label(Some(7)), "7 days ago");
    assert_eq!(age_label(Some(1234)), "1234 days ago");
    assert_eq!(age_label(Some(u64::MAX)), format!("{} days ago", u64::MAX));
    assert_eq!(age_label(None), "Time Error");
}

#[test]
fn last_modified_labels() {
    let now = at(10 * 86_400, 0);
    assert_eq!(last_modified_label(now, Some(at(3 * 86_400, 0))), "7 days ago");
    assert_eq!(last_modified_label(now, Some(at(11 * 86_400, 0))), "Time Error");
    assert_eq!(last_modified_label(now, None), "Time Error");
}
