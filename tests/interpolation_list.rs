use fractal_bakery::interpolation::Interpolation;
use fractal_bakery::interpolation_list::InterpolationList;

#[test]
fn interpolation_list_basics() {
    let mut list = InterpolationList::new(10, 0i64);

    // check initial list
    assert_eq!(list.get_buffered(0), 0);
    assert_eq!(list.get_buffered(5), 0);
    assert_eq!(list.get_buffered(10), 0);
    assert_eq!(list.get_buffered(30), 0);

    list.insert(Interpolation::LINEAR, 10, 100);

    // check list with first and last reference
    assert_eq!(list.get_buffered(0), 0);
    assert_eq!(list.get_buffered(5), 0);
    assert_eq!(list.get_buffered(10), 0);
    assert_eq!(list.get_buffered(15), 50);
    assert_eq!(list.get_buffered(20), 100);
    assert_eq!(list.get_buffered(30), 100);

    // check list has buffer
    assert_eq!(list.get_cached(15).unwrap(), 50);

    list.insert(Interpolation::CUBIC, 20, 50);

    // check list resets necessary buffer
    assert_eq!(list.get_buffered(0), 0);
    assert_eq!(list.get_buffered(5), 0);
    assert_eq!(list.get_buffered(10), 0);
    assert_eq!(list.get_buffered(15), 50);
    assert_eq!(list.get_buffered(20), 100);
    assert_eq!(list.get_buffered(23), 97);
    assert_eq!(list.get_buffered(30), 75);
    assert_eq!(list.get_buffered(40), 50);

    // check list buffer still valid
    assert_eq!(list.get_cached(15).unwrap(), 50);
    assert_eq!(list.get_cached(23).unwrap(), 97);
}

#[test]
fn bounds() {
    let mut list = InterpolationList::new(10, 0i64);

    // check lowest and highest bound
    assert_eq!(list.get_min_position(), 10);
    assert_eq!(list.get_max_position(), 10);

    list.insert(Interpolation::LINEAR, 10, 100);

    // check new lowest and highest bound
    assert_eq!(list.get_min_position(), 10);
    assert_eq!(list.get_max_position(), 20);

    list.insert(Interpolation::CUBIC, 20, 50);

    // check even newer lowest and highest bound
    assert_eq!(list.get_min_position(), 10);
    assert_eq!(list.get_max_position(), 40);
}

#[test]
fn boundary_law_holds_around_the_chain() {
    let mut list = InterpolationList::new(100, 7i64);
    list.insert(Interpolation::NEAREST, 50, -3);
    list.insert(Interpolation::LINEAR, 50, 11);
    for p in [0u64, 1, 99, 100] {
        assert_eq!(list.get_buffered(p), 7);
    }
    for p in [200u64, 201, 5000, u64::MAX] {
        assert_eq!(list.get_buffered(p), 11);
    }
}

#[test]
fn append_keeps_cached_values() {
    let mut list = InterpolationList::new(10, 0i64);
    list.insert(Interpolation::LINEAR, 10, 100);
    assert_eq!(list.get_buffered(15), 50);
    assert_eq!(list.get_buffered(20), 100);
    list.insert(Interpolation::CUBIC, 20, 50);
    assert_eq!(list.get_buffered(15), 50);
    assert_eq!(list.get_buffered(20), 100);
    assert_eq!(list.get_buffered(30), 75);
    assert_eq!(list.get_buffered(40), 50);
    assert_eq!(list.get_cached(30), Some(75));
    assert_eq!(list.get_cached(40), None);
}

#[test]
fn nearest_and_easing_segments() {
    let mut list = InterpolationList::new(0, 0i64);
    list.insert(Interpolation::NEAREST, 10, 100);
    assert_eq!(list.get_buffered(4), 0);
    assert_eq!(list.get_buffered(5), 100);
    // k = 0 makes easing linear
    let mut eased = InterpolationList::new(0, 0i64);
    eased.insert(Interpolation::EASING(0), 10, 100);
    assert_eq!(eased.get_buffered(3), 30);
    // k = 1 (bias ln 2): r = 0.5 maps to (0.5 + 0.5) / (0.5 + 1) = 2/3
    let mut steep = InterpolationList::new(0, 0i64);
    steep.insert(Interpolation::EASING(1_000_000), 10, 300);
    assert_eq!(steep.get_buffered(5), 199);
}

#[test]
fn flags_and_counts_interpolate() {
    let mut flag = InterpolationList::new(2000, true);
    flag.insert(Interpolation::NEAREST, 1, false);
    assert!(flag.get_buffered(2000));
    assert!(!flag.get_buffered(2001));
    let mut cap = InterpolationList::new(500, 2000u64);
    cap.insert(Interpolation::LINEAR, 2000, 7500);
    assert_eq!(cap.get_buffered(1500), 4750);
}
