use pseudo_hexdump::line_counter::LineCounter;

#[test]
fn counter_starts_at_zero_and_steps() {
    let mut lc = LineCounter::new(16);
    assert_eq!(lc.count(), 0);
    assert_eq!(lc.step(), 16);
    lc.increment();
    assert_eq!(lc.count(), 16);
    lc.increment();
    assert_eq!(lc.count(), 32);
    assert_eq!(lc.step(), 16);
}

#[test]
fn counter_default_steps_by_sixteen() {
    let mut lc = LineCounter::default();
    assert_eq!(lc.count(), 0);
    assert_eq!(lc.step(), 16);
    lc.increment();
    assert_eq!(lc.count(), 16);
}

#[test]
fn counter_wraps_past_max() {
    let mut lc = LineCounter::new(usize::MAX);
    lc.increment();
    assert_eq!(lc.count(), usize::MAX);
    lc.increment();
    assert_eq!(lc.count(), usize::MAX - 1);
}
