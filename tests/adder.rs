use minigrep::{add_two, Guess, Rectangle};

#[test]
fn it_adds_two() {
    assert_eq!(4, add_two(2));
}

#[test]
fn larger_can_hold_smaller() {
    let larger = Rectangle { width: 8, height: 7 };
    let smaller = Rectangle { width: 5, height: 1 };

    assert!(larger.can_hold(&smaller));
}

#[test]
fn smaller_cannot_hold_larger() {
    let larger = Rectangle { width: 8, height: 7 };
    let smaller = Rectangle { width: 5, height: 1 };

    assert!(!smaller.can_hold(&larger));
}

#[test]
fn adds_two_to_negative() {
    assert_eq!(-1, add_two(-3));
    assert_eq!(i32::MAX, add_two(i32::MAX - 2));
}

#[test]
fn equal_width_cannot_hold() {
    let a = Rectangle { width: 5, height: 7 };
    let b = Rectangle { width: 5, height: 1 };
    assert!(!a.can_hold(&b));
}

#[test]
fn guess_keeps_value_at_bounds() {
    assert_eq!(1, Guess::new(1).value);
    assert_eq!(100, Guess::new(100).value);
}
