use imex::{IMEx, IMExIterCounter, IMExIterator};

#[test]
fn iter_counter_counts_iterations() {
    let mut iter_counter = IMExIterCounter::new(IMEx::try_from("0*").unwrap());
    let mut iters = vec!["123".chars()];

    assert_eq!(iter_counter.count(), 0);

    iter_counter.iterate(&mut iters).unwrap();
    assert_eq!(iter_counter.count(), 1);

    iter_counter.iterate(&mut iters).unwrap();
    assert_eq!(iter_counter.count(), 2);

    iter_counter.iterate(&mut iters).unwrap();
    assert_eq!(iter_counter.count(), 3);

    iter_counter.iterate(&mut iters).unwrap();
    assert_eq!(iter_counter.count(), 3);
}

#[test]
fn iter_counter_wont_count_past_zero_on_empty_imex() {
    let mut iter_counter = IMExIterCounter::new(IMEx::try_from("").unwrap());
    let mut iters = vec!["123".chars()];

    assert_eq!(iter_counter.count(), 0);

    iter_counter.iterate(&mut iters).unwrap();
    assert_eq!(iter_counter.count(), 0);

    iter_counter.iterate(&mut iters).unwrap();
    assert_eq!(iter_counter.count(), 0);
}

#[test]
fn iter_counter_hands_items_through_unchanged() {
    let mut iter_counter = IMExIterCounter::new(IMEx::try_from("0*").unwrap());
    let mut iters = vec!["123".chars()];

    assert_eq!(iter_counter.iterate(&mut iters), Ok(Some('1')));
    assert_eq!(iter_counter.iterate(&mut iters), Ok(Some('2')));
    assert_eq!(iter_counter.iterate(&mut iters), Ok(Some('3')));
    assert_eq!(iter_counter.iterate(&mut iters), Ok(None));
    assert_eq!(iter_counter.iterate(&mut iters), Ok(None));
    assert_eq!(iter_counter.count(), 3);
}

#[test]
fn iter_counter_does_not_count_failures() {
    let mut iter_counter = IMExIterCounter::new(IMEx::try_from("05").unwrap());
    let mut iters = vec!["ab".chars()];

    assert_eq!(iter_counter.iterate(&mut iters), Ok(Some('a')));
    assert_eq!(iter_counter.count(), 1);
    assert_eq!(
        iter_counter.iterate(&mut iters),
        Err(imex::IMExError::StreamOutOfRange { index: 5 })
    );
    assert_eq!(iter_counter.count(), 1);
}

#[test]
fn iter_counter_clone_keeps_the_count() {
    let mut iter_counter = IMExIterCounter::new(IMEx::try_from("0*").unwrap());
    let mut iters = vec!["12".chars()];

    iter_counter.iterate(&mut iters).unwrap();
    let mut copy = iter_counter.clone();
    assert_eq!(copy.count(), 1);

    assert_eq!(copy.iterate(&mut iters), Ok(Some('2')));
    assert_eq!(copy.count(), 2);
    assert_eq!(iter_counter.count(), 1);
}
