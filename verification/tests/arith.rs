use wrapmath::add_numbers;
use wrapmath::factorial;

#[test]
fn test_add_numbers() {
    assert_eq!(add_numbers(2, 3), 5);
    assert_eq!(add_numbers(-1, 1), 0);
}

#[test]
fn test_factorial() {
    assert_eq!(factorial(0), 1);
    assert_eq!(factorial(1), 1);
    assert_eq!(factorial(5), 120);
    assert_eq!(factorial(10), 3628800);
}

#[test]
fn add_wraps_at_the_ends_of_the_range() {
    assert_eq!(add_numbers(i32::MAX, 1), i32::MIN);
    assert_eq!(add_numbers(i32::MIN, -1), i32::MAX);
    assert_eq!(add_numbers(i32::MAX, i32::MAX), -2);
    assert_eq!(add_numbers(i32::MIN, i32::MIN), 0);
}

#[test]
fn add_handles_negative_operands() {
    assert_eq!(add_numbers(-7, -5), -12);
    assert_eq!(add_numbers(-100, 40), -60);
    assert_eq!(add_numbers(0, 0), 0);
}

#[test]
fn factorial_is_exact_up_to_twenty() {
    assert_eq!(factorial(12), 479001600);
    assert_eq!(factorial(19), 121645100408832000);
    assert_eq!(factorial(20), 2432902008176640000);
}

#[test]
fn factorial_wraps_modulo_two_to_the_sixty_fourth() {
    // 21! = 51090942171709440000 = 2 * 2^64 + 14197454024290336768
    assert_eq!(factorial(21), 14197454024290336768);
    // 66! carries 64 factors of two, so it is 0 modulo 2^64
    assert_eq!(factorial(66), 0);
}
