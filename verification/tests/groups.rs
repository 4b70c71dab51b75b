use each_cons::ConsGroup;
use each_cons::ConsGroupExt;

#[test]
fn groups_by_identical_values() {
    let slice = [1, 1, 2, 3, 3, 3, 4, 5];
    let mut cons = slice.cons_group();
    assert!(matches!(cons.next(), Some(&[1, 1])));
    assert!(matches!(cons.next(), Some(&[2])));
    assert!(matches!(cons.next(), Some(&[3, 3, 3])));
    assert!(matches!(cons.next(), Some(&[4])));
    assert!(matches!(cons.next(), Some(&[5])));
    assert!(matches!(cons.next(), None));
    assert!(matches!(cons.next(), None));
}

#[test]
fn groups_empty_slice_is_exhausted() {
    let slice: [i32; 0] = [];
    let mut cons = slice.cons_group();
    assert!(matches!(cons.next(), None));
    assert!(matches!(cons.next(), None));
}

#[test]
fn groups_single_element() {
    let slice = [5];
    let mut cons = slice.cons_group();
    assert!(matches!(cons.next(), Some(&[5])));
    assert!(matches!(cons.next(), None));
}

#[test]
fn groups_all_equal_is_one_run() {
    let slice = [9, 9, 9];
    let mut cons = slice.cons_group();
    assert!(matches!(cons.next(), Some(&[9, 9, 9])));
    assert!(matches!(cons.next(), None));
}

#[test]
fn groups_run_reaches_the_tail() {
    let slice = [1, 2, 2];
    let mut cons = slice.cons_group();
    assert!(matches!(cons.next(), Some(&[1])));
    assert!(matches!(cons.next(), Some(&[2, 2])));
    assert!(matches!(cons.next(), None));
}

#[test]
fn groups_via_new() {
    let slice = ["a", "a", "b"];
    let mut cons = ConsGroup::new(&slice);
    assert!(matches!(cons.next(), Some(&["a", "a"])));
    assert!(matches!(cons.next(), Some(&["b"])));
    assert!(matches!(cons.next(), None));
}

#[test]
fn collect_runs_reconstructs_the_slice() {
    let slice = [1, 1, 2, 3, 3, 3, 4, 5];
    let runs = slice.cons_group().collect_runs();
    assert_eq!(runs.len(), 5);
    assert_eq!(runs[0], &[1, 1][..]);
    assert_eq!(runs[1], &[2][..]);
    assert_eq!(runs[2], &[3, 3, 3][..]);
    assert_eq!(runs[3], &[4][..]);
    assert_eq!(runs[4], &[5][..]);
    let mut rebuilt: Vec<i32> = Vec::new();
    for run in runs {
        rebuilt.extend_from_slice(run);
    }
    assert_eq!(rebuilt, slice.to_vec());
}

#[test]
fn collect_runs_of_empty_slice_is_empty() {
    let slice: [u8; 0] = [];
    let runs = slice.cons_group().collect_runs();
    assert_eq!(runs.len(), 0);
}
