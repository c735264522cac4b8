use spessartine::natsort::natcmp;
use spessartine::scanner::{sort_paths, ChapterItem};
use spessartine::scanner::sort_chapters_by_name;
use std::cmp::Ordering;

#[test]
fn natcmp_orders_numbers_by_value() {
    assert_eq!(natcmp("a2", "a10"), Ordering::Less);
    assert_eq!(natcmp("page10", "page9"), Ordering::Greater);
}

#[test]
fn natcmp_equal_texts() {
    assert_eq!(natcmp("chapter 1", "chapter 1"), Ordering::Equal);
}

#[test]
fn natcmp_ignores_leading_zeros() {
    assert_eq!(natcmp("01", "1"), Ordering::Equal);
    assert_eq!(natcmp("img007.png", "img7.png"), Ordering::Equal);
}

#[test]
fn natcmp_text_before_number() {
    assert_eq!(natcmp("a", "a1"), Ordering::Less);
    assert_eq!(natcmp("1", "a"), Ordering::Less);
    assert_eq!(natcmp("b", "a"), Ordering::Greater);
}

#[test]
fn natcmp_longer_number_is_greater() {
    assert_eq!(natcmp("x100", "x99"), Ordering::Greater);
    assert_eq!(natcmp("x0100", "x99"), Ordering::Greater);
}

#[test]
fn natcmp_is_antisymmetric_on_examples() {
    let samples = ["a1", "a01", "a10", "b", "B", "", "10", "x2y3", "x2y10"];
    for a in samples.iter() {
        for b in samples.iter() {
            assert_eq!(natcmp(a, b), natcmp(b, a).reverse());
        }
        assert_eq!(natcmp(a, a), Ordering::Equal);
    }
}

#[test]
fn sort_paths_is_natural_and_stable() {
    let mut v = vec![
        "ch10".to_string(),
        "ch2".to_string(),
        "ch02".to_string(),
        "ch1".to_string(),
    ];
    sort_paths(&mut v);
    assert_eq!(v, vec!["ch1", "ch2", "ch02", "ch10"]);
}

#[test]
fn sort_chapters_keeps_order_of_equal_names() {
    let mut v = vec![
        ChapterItem { id: 1, name: "Vol 2".to_string(), path: "p1".to_string() },
        ChapterItem { id: 2, name: "Vol 1".to_string(), path: "p2".to_string() },
        ChapterItem { id: 3, name: "Vol 02".to_string(), path: "p3".to_string() },
    ];
    sort_chapters_by_name(&mut v);
    let ids: Vec<u64> = v.iter().map(|c| c.id).collect();
    assert_eq!(ids, vec![2, 1, 3]);
}

#[test]
fn natcmp_numbers_beyond_any_integer_width() {
    assert_eq!(natcmp("v99999999999999999999", "v100000000000000000000"), Ordering::Less);
    assert_eq!(natcmp("v100000000000000000001", "v100000000000000000000"), Ordering::Greater);
}
