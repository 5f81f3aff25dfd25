use range_fetch::errors::DownloadError;
use range_fetch::planner::plan_ranges;
use range_fetch::planner::PartialRangeIterator;

#[test]
fn three_ranges_for_length_25_step_10() {
    let plan = plan_ranges(0, 25, 10).unwrap();
    assert_eq!(plan, vec![(0, 10), (10, 20), (20, 25)]);
}

#[test]
fn single_range_for_length_10_step_10() {
    let plan = plan_ranges(0, 10, 10).unwrap();
    assert_eq!(plan, vec![(0, 10)]);
}

#[test]
fn empty_when_end_equals_start() {
    let plan = plan_ranges(5, 5, 3).unwrap();
    assert!(plan.is_empty());
}

#[test]
fn empty_when_end_before_start() {
    let plan = plan_ranges(7, 3, 2).unwrap();
    assert!(plan.is_empty());
}

#[test]
fn zero_step_is_configuration_error() {
    assert_eq!(plan_ranges(0, 100, 0), Err(DownloadError::Configuration));
    assert!(matches!(
        PartialRangeIterator::new(0, 100, 0),
        Err(DownloadError::Configuration)
    ));
}

#[test]
fn covers_interval_without_gaps_or_overlaps() {
    for &(start, end, step) in &[
        (0u64, 25u64, 10u64),
        (0, 1, 1),
        (3, 9, 2),
        (10, 1000, 7),
        (0, 1024, 1024),
        (5, 6, 100),
    ] {
        let plan = plan_ranges(start, end, step).unwrap();
        let expected_count = ((end - start) + step - 1) / step;
        assert_eq!(plan.len() as u64, expected_count);
        assert_eq!(plan.first().unwrap().0, start);
        assert_eq!(plan.last().unwrap().1, end);
        let mut cursor = start;
        let mut total = 0;
        for &(lo, hi) in &plan {
            assert_eq!(lo, cursor, "range must start where the last one stopped");
            assert!(lo < hi, "no empty range may be emitted");
            total += hi - lo;
            cursor = hi;
        }
        assert_eq!(cursor, end);
        assert_eq!(total, end - start);
    }
}

#[test]
fn rerun_with_same_inputs_is_identical() {
    let first = plan_ranges(2, 77, 9).unwrap();
    let second = plan_ranges(2, 77, 9).unwrap();
    assert_eq!(first, second);

    let mut it_a = PartialRangeIterator::new(2, 77, 9).unwrap();
    let mut it_b = PartialRangeIterator::new(2, 77, 9).unwrap();
    loop {
        let a = it_a.next();
        let b = it_b.next();
        assert_eq!(a, b);
        if a.is_none() {
            break;
        }
    }
}

#[test]
fn step_spanning_the_interval_gives_one_range() {
    assert_eq!(plan_ranges(3, 9, 100).unwrap(), vec![(3, 9)]);
    assert_eq!(plan_ranges(0, 10, 10).unwrap(), vec![(0, 10)]);
    assert_eq!(plan_ranges(4, 5, 1).unwrap(), vec![(4, 5)]);
}

#[test]
fn chunk_sizes_divide_evenly_or_leave_short_tail() {
    // step divides the interval: every range spans exactly step bytes
    let even = plan_ranges(0, 30, 10).unwrap();
    assert!(even.iter().all(|&(lo, hi)| hi - lo == 10));

    // otherwise every range but the last spans step bytes and the
    // last spans the remainder
    let uneven = plan_ranges(0, 25, 10).unwrap();
    let (last, head) = uneven.split_last().unwrap();
    assert!(head.iter().all(|&(lo, hi)| hi - lo == 10));
    assert_eq!(last.1 - last.0, 25 % 10);
    assert!(last.1 - last.0 < 10);
}

#[test]
fn iterator_walks_the_plan_and_stays_exhausted() {
    let mut it = PartialRangeIterator::new(0, 25, 10).unwrap();
    assert_eq!(it.next(), Some((0, 10)));
    assert_eq!(it.next(), Some((10, 20)));
    assert_eq!(it.next(), Some((20, 25)));
    assert_eq!(it.next(), None);
    assert_eq!(it.next(), None);
}
