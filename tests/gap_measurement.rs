use adaptive_grid::GapMeasurement;

fn gap_measurment_fixture(elements: Vec<usize>, expected_gap: usize) {
    let mut gap_measurment = GapMeasurement::default();
    for element in elements {
        gap_measurment.add(element);
    }

    assert_eq!(gap_measurment.max_gap(), expected_gap);
}

#[test]
fn gap_measurment_1() {
    gap_measurment_fixture(vec![1], 0);
}

#[test]
fn gap_measurment_2() {
    gap_measurment_fixture(vec![1, 10], 9);
}

#[test]
fn gap_measurment_ooo() {
    gap_measurment_fixture(vec![10, 5, 1], 5);
}

#[test]
fn gap_empty_is_zero() {
    gap_measurment_fixture(vec![], 0);
}

#[test]
fn gap_duplicates_change_nothing() {
    gap_measurment_fixture(vec![4, 4, 4], 0);
    gap_measurment_fixture(vec![3, 7, 3, 7], 4);
}

#[test]
fn gap_ascending_is_largest_consecutive_difference() {
    gap_measurment_fixture(vec![0, 2, 9, 10, 14], 7);
}

#[test]
fn gap_split_by_later_value() {
    // 5 lands between 1 and 10: the gaps are now 4 and 5.
    gap_measurment_fixture(vec![1, 10, 5], 5);
}

#[test]
fn gap_order_does_not_matter() {
    let orders = [
        vec![1, 5, 10, 30, 31],
        vec![31, 30, 10, 5, 1],
        vec![10, 1, 31, 5, 30],
        vec![30, 1, 31, 10, 5, 10, 1],
    ];
    for o in orders.iter() {
        gap_measurment_fixture(o.clone(), 20);
    }
}

#[test]
fn gap_gaps_open_on_both_sides() {
    // 6 sits 5 above 1 and 94 below 100.
    gap_measurment_fixture(vec![100, 1, 6], 94);
    let mut g = GapMeasurement::default();
    g.add(1);
    g.add(100);
    assert_eq!(g.max_gap(), 99);
}
