use each_cons::Cons;
use each_cons::EachConsExt;
use each_cons::InvalidSize;
use each_cons::Producer;
use each_cons::SliceSource;
use each_cons::each_cons;

#[test]
fn windows_of_two_over_three_elements() {
    let slice = [1, 2, 3];
    let mut cons = slice.each_cons(2).unwrap();
    assert_eq!(cons.next(), Some(vec![1, 2]));
    assert_eq!(cons.next(), Some(vec![2, 3]));
    assert_eq!(cons.next(), None);
    assert_eq!(cons.next(), None);
}

#[test]
fn windows_of_three_over_three_strings() {
    let words = vec!["foo".to_string(), "bar".to_string(), "baz".to_string()];
    let refs: Vec<&String> = words.iter().collect();
    let mut cons = refs.as_slice().each_cons(3).unwrap();
    let window = cons.next().unwrap();
    assert_eq!(window.len(), 3);
    assert_eq!(window[0].as_str(), "foo");
    assert_eq!(window[1].as_str(), "bar");
    assert_eq!(window[2].as_str(), "baz");
    assert_eq!(cons.next(), None);
}

#[test]
fn windows_over_a_short_slice_are_exhausted_at_once() {
    let slice = ["foo"];
    let mut cons = slice.each_cons(2).unwrap();
    assert_eq!(cons.next(), None);
    assert_eq!(cons.next(), None);
}

#[test]
fn window_size_zero_is_rejected() {
    let slice = [1, 2, 3];
    let cons: Result<Cons<i32, SliceSource<i32>>, InvalidSize> = slice.each_cons(0);
    assert!(matches!(cons, Err(InvalidSize)));
}

#[test]
fn window_size_one_yields_singletons() {
    let slice = [7, 8];
    let mut cons = slice.each_cons(1).unwrap();
    assert_eq!(cons.next(), Some(vec![7]));
    assert_eq!(cons.next(), Some(vec![8]));
    assert_eq!(cons.next(), None);
}

#[test]
fn windows_over_exact_length_yield_one_window() {
    let slice = [4, 5, 6];
    let mut cons = slice.each_cons(3).unwrap();
    assert_eq!(cons.next(), Some(vec![4, 5, 6]));
    assert_eq!(cons.next(), None);
}

#[test]
fn collect_windows_counts_and_contents() {
    let slice = [1, 2, 3, 4];
    let windows = slice.each_cons(2).unwrap().collect_windows();
    assert_eq!(windows, vec![vec![1, 2], vec![2, 3], vec![3, 4]]);
    let windows = slice.each_cons(4).unwrap().collect_windows();
    assert_eq!(windows, vec![vec![1, 2, 3, 4]]);
    let windows = slice.each_cons(5).unwrap().collect_windows();
    assert_eq!(windows.len(), 0);
}

#[test]
fn each_cons_free_function_matches_fluent_form() {
    let slice = [10, 20, 30];
    let source = SliceSource::new(&slice);
    let mut cons = each_cons(2, source).unwrap();
    assert_eq!(cons.next(), Some(vec![10, 20]));
    assert_eq!(cons.next(), Some(vec![20, 30]));
    assert_eq!(cons.next(), None);
}

#[test]
fn slice_source_yields_elements_in_order() {
    let slice = [1, 2];
    let mut source = SliceSource::new(&slice);
    assert_eq!(source.next(), Some(1));
    assert_eq!(source.next(), Some(2));
    assert_eq!(source.next(), None);
    assert_eq!(source.next(), None);
}
