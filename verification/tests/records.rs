use select_ball::records::transpose_records;

#[test]
fn transposes_a_full_table() {
    let records = vec![vec![1, 2, 3], vec![4, 5, 6]];
    assert_eq!(transpose_records(&records, 3), vec![vec![1, 4], vec![2, 5], vec![3, 6]]);
}

#[test]
fn transposing_twice_gives_the_table_back() {
    let records = vec![vec![1u8, 2, 3], vec![4, 5, 6], vec![7, 8, 9], vec![10, 11, 12]];
    let once = transpose_records(&records, 3);
    assert_eq!(transpose_records(&once, 4), records);
}

#[test]
fn short_records_leave_gaps_in_no_column() {
    let records = vec![vec![10, 11, 12], vec![], vec![20], vec![30, 31]];
    assert_eq!(
        transpose_records(&records, 4),
        vec![vec![10, 20, 30], vec![11, 31], vec![12], vec![]]
    );
}

#[test]
fn no_records_give_empty_columns() {
    let records: Vec<Vec<u32>> = Vec::new();
    assert_eq!(transpose_records(&records, 2), vec![Vec::<u32>::new(), Vec::new()]);
    assert_eq!(transpose_records(&records, 0), Vec::<Vec<u32>>::new());
}

#[test]
fn empty_records_give_empty_columns() {
    let records: Vec<Vec<char>> = vec![Vec::new(), Vec::new(), Vec::new(), Vec::new()];
    assert_eq!(transpose_records(&records, 3), vec![Vec::<char>::new(); 3]);
}
