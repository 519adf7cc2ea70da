use sensor_plot::binning::{group_runs, Run};

fn runs(pairs: &[(usize, usize)]) -> Vec<Run> {
    pairs.iter().map(|&(start, end)| Run { start, end }).collect()
}

#[test]
fn no_rows_no_bins() {
    assert_eq!(group_runs(&Vec::new()), Vec::<Run>::new());
}

#[test]
fn rows_with_one_x_value_form_one_bin() {
    assert_eq!(group_runs(&vec![7]), runs(&[(0, 1)]));
    assert_eq!(group_runs(&vec![7, 7, 7, 7]), runs(&[(0, 4)]));
}

#[test]
fn neighbours_with_the_same_x_share_a_bin() {
    assert_eq!(
        group_runs(&vec![1, 1, 2, 2, 2, 5]),
        runs(&[(0, 2), (2, 5), (5, 6)])
    );
    assert_eq!(
        group_runs(&vec![-3, -2, -2, i64::MAX]),
        runs(&[(0, 1), (1, 3), (3, 4)])
    );
}

#[test]
fn sorted_rows_have_one_bin_per_value() {
    let xs: Vec<i64> = vec![0, 0, 1, 3, 3, 3, 4, 9, 9];
    let mut distinct = xs.clone();
    distinct.dedup();
    assert_eq!(group_runs(&xs).len(), distinct.len());
    assert_eq!(group_runs(&xs).len(), 5);
}

#[test]
fn rows_out_of_order_are_not_brought_together() {
    assert_eq!(group_runs(&vec![1, 2, 1]), runs(&[(0, 1), (1, 2), (2, 3)]));
}
