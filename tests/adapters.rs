use iterator_extras::extra::IteratorExtra;
use iterator_extras::source::{Source, VecSource};

fn diff(p: [i64; 2]) -> i64 {
    p[1] - p[0]
}

#[test]
fn stride_keeps_every_step_th_position() {
    let xs: Vec<u32> = (0..10).collect();
    assert_eq!(VecSource::new(xs.clone()).stride(4).collect_vec(), vec![0, 4, 8]);
    assert_eq!(VecSource::new(xs).stride(10).collect_vec(), vec![0]);
}

#[test]
fn stride_larger_than_source() {
    let s = VecSource::new(vec![7u8, 8, 9]).stride(100);
    assert_eq!(s.size_hint(), (0, Some(0)));
    assert_eq!(s.collect_vec(), vec![7u8]);
}

#[test]
fn stride_of_empty_source() {
    let mut s = VecSource::new(Vec::<u8>::new()).stride(3);
    assert_eq!(s.size_hint(), (0, Some(0)));
    assert_eq!(s.next(), None);
    assert_eq!(s.next(), None);
}

#[test]
fn stride_size_hint_floors_both_bounds() {
    let s = VecSource::new(vec![1u8; 7]).stride(2);
    assert_eq!(s.size_hint(), (3, Some(3)));
    let s = VecSource::new(vec![1u8; 7]).stride(0);
    assert_eq!(s.size_hint(), (7, Some(7)));
}

#[test]
fn map_pairs_even_length() {
    let out = VecSource::new(vec![1i64, 4, 10, 20]).map_pairs(diff).collect_vec();
    assert_eq!(out, vec![3, 10]);
}

#[test]
fn map_pairs_drops_trailing_element_for_good() {
    let mut m = VecSource::new(vec![1i64, 2, 3]).map_pairs(diff);
    assert_eq!(m.next(), Some(1));
    assert_eq!(m.next(), None);
    assert_eq!(m.next(), None);
}

#[test]
fn map_pairs_size_hint_passes_through() {
    let m = VecSource::new(vec![1i64, 2, 3]).map_pairs(diff);
    assert_eq!(m.size_hint(), (3, Some(3)));
}

#[test]
fn map_pairs_of_empty_source() {
    let mut m = VecSource::new(Vec::<i64>::new()).map_pairs(diff);
    assert_eq!(m.next(), None);
    assert_eq!(m.next(), None);
}

#[test]
fn scan1_of_empty_source() {
    let mut s = VecSource::new(Vec::<i64>::new()).scan1(|st: i64, x: i64| (x, Some(x - st)));
    assert_eq!(s.next(), None);
    assert_eq!(s.next(), None);
}

#[test]
fn scan1_of_single_element_outputs_nothing() {
    let s = VecSource::new(vec![42i64]).scan1(|st: i64, x: i64| (x, Some(x - st)));
    assert_eq!(s.collect_vec(), Vec::<i64>::new());
}

#[test]
fn scan1_running_sum_never_outputs_seed() {
    let s = VecSource::new(vec![100i64, 1, 2, 3]).scan1(|st: i64, x: i64| (st + x, Some(st + x)));
    assert_eq!(s.collect_vec(), vec![101, 103, 106]);
}

#[test]
fn scan1_stops_for_good_at_a_step_without_output() {
    let mut s = VecSource::new(vec![0i64, 1, -1, 5, 6])
        .scan1(|st: i64, x: i64| (x, if x >= 0 { Some(x - st) } else { None }));
    assert_eq!(s.next(), Some(1));
    assert_eq!(s.next(), None);
    assert_eq!(s.next(), None);
}

#[test]
fn scan1_size_hint_has_zero_lower_bound() {
    let s = VecSource::new(vec![0i64, 1, 2]).scan1(|st: i64, x: i64| (x, Some(x - st)));
    assert_eq!(s.size_hint(), (0, Some(3)));
}

#[test]
fn stride_then_map_pairs() {
    let xs: Vec<i64> = vec![0, 1, 2, 3, 4, 5, 6, 7, 8];
    // stride 2 gives 0 2 4 6 8; pairs (0,2) (4,6); 8 dropped
    let out = VecSource::new(xs).stride(2).map_pairs(diff).collect_vec();
    assert_eq!(out, vec![2, 2]);
}

#[test]
fn map_pairs_then_stride() {
    let xs: Vec<i64> = vec![0, 1, 0, 3, 0, 5, 0, 7, 0, 9];
    // pairs give 1 3 5 7 9; stride 2 keeps 1 5 9
    let out = VecSource::new(xs).map_pairs(diff).stride(2).collect_vec();
    assert_eq!(out, vec![1, 5, 9]);
}
