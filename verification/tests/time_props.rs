use devs_kernel::Time;

#[test]
fn finite_ordering() {
    assert!(Time::Finite(1).le(Time::Finite(2)));
    assert!(!Time::Finite(2).le(Time::Finite(1)));
    assert!(Time::Finite(2).le(Time::Finite(2)));
    assert!(Time::Finite(1).lt(Time::Finite(2)));
    assert!(!Time::Finite(2).lt(Time::Finite(2)));
}

#[test]
fn never_is_largest() {
    assert!(Time::Finite(u64::MAX).le(Time::Never));
    assert!(Time::Finite(u64::MAX).lt(Time::Never));
    assert!(!Time::Never.le(Time::Finite(u64::MAX)));
    assert!(Time::Never.le(Time::Never));
    assert!(!Time::Never.lt(Time::Never));
    assert!(Time::Never.is_never());
    assert!(!Time::Finite(0).is_never());
}

#[test]
fn addition_saturates_to_never() {
    assert_eq!(Time::Finite(2).plus(Time::Finite(3)), Time::Finite(5));
    assert_eq!(Time::Finite(u64::MAX).plus(Time::Finite(1)), Time::Never);
    assert_eq!(Time::Finite(u64::MAX).plus(Time::Finite(0)), Time::Finite(u64::MAX));
    assert_eq!(Time::Never.plus(Time::Finite(1)), Time::Never);
    assert_eq!(Time::Finite(1).plus(Time::Never), Time::Never);
}

#[test]
fn minimum_and_subtraction() {
    assert_eq!(Time::Finite(4).min_of(Time::Finite(9)), Time::Finite(4));
    assert_eq!(Time::Never.min_of(Time::Finite(9)), Time::Finite(9));
    assert_eq!(Time::Never.min_of(Time::Never), Time::Never);
    assert_eq!(Time::Finite(9).minus(4), Time::Finite(5));
    assert_eq!(Time::Never.minus(1000), Time::Never);
}
