use canary::ratio::Ratio;

#[test]
fn ratio_needs_a_denominator() {
    assert!(Ratio::new(1, 0).is_none());
    assert!(Ratio::new(0, 0).is_none());
    let half = Ratio::new(1, 2).unwrap();
    assert_eq!((half.numerator(), half.denominator()), (1, 2));
}

#[test]
fn ratios_compare_as_the_numbers_they_stand_for() {
    let third = Ratio::new(1, 3).unwrap();
    let two_sixths = Ratio::new(2, 6).unwrap();
    let half = Ratio::new(1, 2).unwrap();
    assert!(third.less_than(&half));
    assert!(!half.less_than(&third));
    assert!(!third.less_than(&two_sixths));
    assert!(!two_sixths.less_than(&third));
}

#[test]
fn largest_ratios_compare_without_overflow() {
    let just_below_one = Ratio::new(u64::MAX - 1, u64::MAX).unwrap();
    let one = Ratio::new(u64::MAX, u64::MAX).unwrap();
    let largest = Ratio::new(u64::MAX, 1).unwrap();
    assert!(just_below_one.less_than(&one));
    assert!(!one.less_than(&just_below_one));
    assert!(one.less_than(&largest));
    assert!(!largest.less_than(&largest));
}

#[test]
fn ratio_knows_whether_it_is_one_or_more() {
    assert!(!Ratio::new(0, 5).unwrap().is_one_or_more());
    assert!(!Ratio::new(4, 5).unwrap().is_one_or_more());
    assert!(Ratio::new(5, 5).unwrap().is_one_or_more());
    assert!(Ratio::new(6, 5).unwrap().is_one_or_more());
}
