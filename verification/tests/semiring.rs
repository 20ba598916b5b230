use graph_utility::semiring::MinSum;

#[test]
fn add_assign_keeps_the_smaller_value() {
    let mut held = MinSum::new(7);
    held.add_assign(&MinSum::new(9));
    assert_eq!(held, MinSum::new(7));
    held.add_assign(&MinSum::new(3));
    assert_eq!(held, MinSum::new(3));
    held.add_assign(&MinSum::new(3));
    assert_eq!(held.value, 3);
}

#[test]
fn mul_adds_the_values() {
    assert_eq!(MinSum::new(5).mul(MinSum::new(8)), MinSum::new(13));
    assert_eq!(MinSum::new(0).mul(MinSum::new(8)), MinSum::new(8));
    assert_eq!(MinSum::new(u64::MAX - 1).mul(MinSum::new(1)).value, u64::MAX);
}

#[test]
fn no_value_is_zero() {
    assert!(!MinSum::new(0).is_zero());
    assert!(!MinSum::new(u64::MAX).is_zero());
}

fn combined(a: u64, b: u64) -> u64 {
    let mut held = MinSum::new(a);
    held.add_assign(&MinSum::new(b));
    held.value
}

#[test]
fn combine_is_associative_and_commutative() {
    let values = [0u64, 1, 2, 5, 9, 1000];
    for a in values {
        for b in values {
            assert_eq!(combined(a, b), combined(b, a));
            for c in values {
                assert_eq!(combined(combined(a, b), c), combined(a, combined(b, c)));
            }
        }
    }
}

#[test]
fn extend_distributes_over_combine() {
    let values = [0u64, 1, 2, 5, 9, 1000];
    for a in values {
        for b in values {
            for c in values {
                let left = MinSum::new(a).mul(MinSum::new(combined(b, c)));
                let right = combined(MinSum::new(a).mul(MinSum::new(b)).value, MinSum::new(a).mul(MinSum::new(c)).value);
                assert_eq!(left.value, right);
            }
        }
    }
}
