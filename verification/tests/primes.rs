use scheduler::primes::{Primatizer, is_prime, next_prime};
use scheduler::task::TaskState;

#[test]
fn nth_prime_test() {
    let mut a = Primatizer::new(2);
    while match a.step(1) {
        TaskState::Complete => false,
        _ => true,
    } {}

    let mut b = Primatizer::new(1024);
    while match b.step(100) {
        TaskState::Complete => false,
        _ => true,
    } {}

    let mut c = Primatizer::new(1024);
    c.step(1024);
    assert_eq!(3, a.get_last_prime());
    assert_eq!(8161, b.get_last_prime());
    assert_eq!(8161, c.get_last_prime())
}

#[test]
fn is_prime_test() {
    assert_eq!(false, is_prime(15));
    assert_eq!(false, is_prime(2875));
    assert_eq!(true, is_prime(29));
}

#[test]
fn it_works() {
    assert_eq!(2 + 2, 4);
}

#[test]
fn is_prime_edge_cases() {
    assert_eq!(false, is_prime(0));
    assert_eq!(false, is_prime(1));
    assert_eq!(true, is_prime(2));
    assert_eq!(true, is_prime(3));
    assert_eq!(false, is_prime(4));
    assert_eq!(true, is_prime(8161));
    assert_eq!(false, is_prime(8163));
}

#[test]
fn next_prime_steps() {
    assert_eq!(2, next_prime(1));
    assert_eq!(3, next_prime(2));
    assert_eq!(5, next_prime(3));
    assert_eq!(5, next_prime(4));
    assert_eq!(17, next_prime(13));
}

#[test]
fn primatizer_counts_primes_one_at_a_time() {
    // The 10th prime is 29; reaching it from the start takes 9 single steps.
    let mut p = Primatizer::new(10);
    let mut steps = 0;
    loop {
        match p.step(1) {
            TaskState::Complete => break,
            _ => steps += 1,
        }
    }
    assert_eq!(29, p.get_last_prime());
    assert_eq!(8, steps);
}

#[test]
fn primatizer_zero_target_never_completes() {
    let mut p = Primatizer::new(0);
    for _ in 0..5 {
        match p.step(3) {
            TaskState::Complete => panic!("a zero-size walk must not complete"),
            _ => {}
        }
    }
    assert_eq!(2, p.get_last_prime());
}
