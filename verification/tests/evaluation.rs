use fantasy_realms_ai::evaluation::Evaluation;

#[test]
fn whole_evaluation_has_unit_denominator() {
    let e = Evaluation::whole(17);
    assert_eq!(e.num, 17);
    assert_eq!(e.den, 1);
}

#[test]
fn fractions_compare_exactly() {
    let third = Evaluation { num: 1, den: 3 };
    let two_sixths = Evaluation { num: 2, den: 6 };
    let half = Evaluation { num: 1, den: 2 };
    assert!(half.exceeds(&third));
    assert!(!third.exceeds(&half));
    assert!(!third.exceeds(&two_sixths));
    assert!(!two_sixths.exceeds(&third));
}

#[test]
fn negative_fractions_compare_exactly() {
    let a = Evaluation { num: -1, den: 3 };
    let b = Evaluation { num: -1, den: 2 };
    assert!(a.exceeds(&b));
    assert!(!b.exceeds(&a));
}

#[test]
fn equal_fractions_are_recognised() {
    let a = Evaluation { num: 60, den: 3 };
    assert!(a.equals(&Evaluation::whole(20)));
    assert!(!a.equals(&Evaluation::whole(21)));
    assert!(Evaluation { num: -4, den: 6 }.equals(&Evaluation { num: -2, den: 3 }));
}

#[test]
fn large_fractions_compare_without_overflow() {
    let a = Evaluation { num: i64::MAX, den: i64::MAX };
    let b = Evaluation { num: i64::MAX - 1, den: i64::MAX };
    assert!(a.exceeds(&b));
    assert!(!b.exceeds(&a));
    assert!(a.equals(&Evaluation::whole(1)));
}
