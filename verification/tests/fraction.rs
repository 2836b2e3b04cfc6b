use relict::fraction::Fraction;

#[test]
fn fraction_accepts_the_unit_interval_only() {
    assert!(Fraction::new(0, 1).is_some());
    assert!(Fraction::new(1, 1).is_some());
    assert!(Fraction::new(3, 4).is_some());
    assert!(Fraction::new(u32::MAX, u32::MAX).is_some());
    assert!(Fraction::new(1, 0).is_none());
    assert!(Fraction::new(0, 0).is_none());
    assert!(Fraction::new(5, 4).is_none());
}

#[test]
fn fraction_keeps_its_parts() {
    let fraction = Fraction::new(3, 12).unwrap();
    assert_eq!(fraction.numerator(), 3);
    assert_eq!(fraction.denominator(), 12);
    assert!(!fraction.is_zero());
    assert!(!fraction.is_one());
    assert!(Fraction::zero().is_zero());
    assert!(Fraction::one().is_one());
    assert!(Fraction::new(0, 9).unwrap().is_zero());
    assert!(Fraction::new(9, 9).unwrap().is_one());
}

#[test]
fn fraction_complement_is_one_minus() {
    let rest = Fraction::new(3, 10).unwrap().complement();
    assert_eq!((rest.numerator(), rest.denominator()), (7, 10));
    assert!(Fraction::zero().complement().is_one());
    assert!(Fraction::one().complement().is_zero());
}

#[test]
fn fraction_ceil_of_rounds_up() {
    assert_eq!(Fraction::new(1, 3).unwrap().ceil_of(10), 4);
    assert_eq!(Fraction::new(1, 2).unwrap().ceil_of(10), 5);
    assert_eq!(Fraction::new(1, 2).unwrap().ceil_of(11), 6);
    assert_eq!(Fraction::new(1, 10).unwrap().ceil_of(10), 1);
    assert_eq!(Fraction::new(1, 10).unwrap().ceil_of(11), 2);
    assert_eq!(Fraction::new(7, 10).unwrap().ceil_of(10), 7);
    assert_eq!(Fraction::new(1, 1000).unwrap().ceil_of(1), 1);
    assert_eq!(Fraction::new(1, 3).unwrap().ceil_of(0), 0);
    assert_eq!(Fraction::zero().ceil_of(12), 0);
    assert_eq!(Fraction::one().ceil_of(12), 12);
}

#[test]
fn fraction_ceil_of_does_not_overflow() {
    assert_eq!(Fraction::one().ceil_of(usize::MAX), usize::MAX);
    assert_eq!(
        Fraction::new(u32::MAX, u32::MAX).unwrap().ceil_of(usize::MAX),
        usize::MAX
    );
    assert_eq!(
        Fraction::new(1, 2).unwrap().ceil_of(usize::MAX),
        usize::MAX / 2 + 1
    );
}
