use collatz_transpose::collatz::{checked_collatz_length, collatz_length};

fn next(n: i32) -> i32 {
    if n % 2 == 0 {
        n / 2
    } else {
        3 * n + 1
    }
}

#[test]
fn short_starts_have_length_one() {
    for n in [1, 0, -1, -7, i32::MIN] {
        assert_eq!(collatz_length(n), 1);
        assert_eq!(checked_collatz_length(n), Some(1));
    }
}

#[test]
fn length_from_eleven() {
    assert_eq!(collatz_length(11), 15);
    assert_eq!(checked_collatz_length(11), Some(15));
}

#[test]
fn lengths_of_small_starts() {
    assert_eq!(collatz_length(2), 2);
    assert_eq!(collatz_length(3), 8);
    assert_eq!(collatz_length(6), 9);
    assert_eq!(collatz_length(27), 112);
}

#[test]
fn each_step_adds_one_to_the_length() {
    for n in 2..2000 {
        let m = next(n);
        if n % 2 == 0 {
            assert!(m < n);
        } else {
            assert!(m > n);
        }
        assert_eq!(collatz_length(n), collatz_length(m) + 1);
    }
}

#[test]
fn overflowing_start_is_refused() {
    assert_eq!(checked_collatz_length(i32::MAX), None);
    assert_eq!(checked_collatz_length(715_827_883), None);
}

#[test]
fn checked_agrees_where_it_succeeds() {
    for n in -10..3000 {
        assert_eq!(checked_collatz_length(n), Some(collatz_length(n)));
    }
}
