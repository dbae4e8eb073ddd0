use bitty_ui::beacon_label::{LabelAllocator, LabelError, LabelPolicy};
use bitty_ui::geometry::Point;

fn points(cols: &[u16]) -> Vec<Point> {
    cols.iter()
        .enumerate()
        .map(|(i, &x)| Point::new(x, i as u16))
        .collect()
}

#[test]
fn home_row_first_in_policy_order() {
    let allocator = LabelAllocator::default();
    let anchors = points(&[60, 61, 62]);
    let labels = allocator.assign(&anchors, 80).expect("labels");
    assert_eq!(labels, vec!["g", "h", "j"]);
}

#[test]
fn spatial_pools_split_by_center() {
    let allocator = LabelAllocator::default();
    let anchors = points(&[10, 70]);
    let labels = allocator.assign(&anchors, 80).expect("labels");
    assert_eq!(labels, vec!["a", "g"]);
}

#[test]
fn two_char_overflow_after_singles() {
    let policy = LabelPolicy::new("ab", "ab").expect("policy");
    let allocator = LabelAllocator::new(policy);
    let anchors = vec![
        Point::new(1, 0),
        Point::new(2, 1),
        Point::new(3, 2),
        Point::new(70, 0),
    ];
    let labels = allocator.assign(&anchors, 80).expect("labels");
    assert_eq!(labels, vec!["a", "aa", "ab", "b"]);
}

#[test]
fn labels_unique_and_deterministic() {
    let allocator = LabelAllocator::default();
    let anchors = points(&[5, 70, 6, 71, 7, 72, 8, 73]);
    let first = allocator.assign(&anchors, 80).expect("labels");
    let second = allocator.assign(&anchors, 80).expect("labels");
    assert_eq!(first, second);
    let mut sorted = first.clone();
    sorted.sort();
    sorted.dedup();
    assert_eq!(sorted.len(), first.len());
}

#[test]
fn lua_charset_used_verbatim() {
    let policy = LabelPolicy::new("zxcv", "zxcv").expect("policy");
    let allocator = LabelAllocator::new(policy);
    let anchors = points(&[70, 71]);
    let labels = allocator.assign(&anchors, 80).expect("labels");
    assert_eq!(labels, vec!["c", "v"]);
}

#[test]
fn invalid_charsets_rejected() {
    assert!(matches!(
        LabelPolicy::new("", "ab"),
        Err(LabelError::InvalidCharset(_))
    ));
    assert!(matches!(
        LabelPolicy::new("aA", "ab"),
        Err(LabelError::InvalidCharset(_))
    ));
    assert!(matches!(
        LabelPolicy::new("aa", "ab"),
        Err(LabelError::InvalidCharset(_))
    ));
}

#[test]
fn exhaustion_fails_closed() {
    let policy = LabelPolicy::new("a", "b").expect("policy");
    let allocator = LabelAllocator::new(policy);
    assert_eq!(allocator.capacity(), 4);
    let anchors = points(&[1, 2, 3, 70, 71]);
    assert!(matches!(
        allocator.assign(&anchors, 80),
        Err(LabelError::TooManyTargets { .. })
    ));
}
