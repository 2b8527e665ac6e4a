use mog::bench::{
    bubble_sort, build_vec, caesar_cipher, count_chars, count_lines, describe_number,
    fibonacci_iterative, filter_even, gcd, host_source_for, is_prime, lcm, primes_up_to,
    process_range, repeat_string, reverse_string, run_length_encode, sum, HostLimits,
};

#[test]
fn vector_pipeline() {
    let v = build_vec(20);
    assert_eq!(v, (0..20).collect::<Vec<i64>>());
    let evens = filter_even(&v);
    assert_eq!(evens, vec![0, 2, 4, 6, 8, 10, 12, 14, 16, 18]);
    assert_eq!(sum(&evens), 90);
    assert_eq!(filter_even(&[-4, -3, 7, 10]), vec![-4, 10]);
    assert_eq!(sum(&[]), 0);
    assert!(build_vec(0).is_empty());
}

#[test]
fn bubble_sort_sorts() {
    let mut v = vec![9, 3, 7, 1, 8, 2, 6, 4, 5, 0];
    bubble_sort(&mut v);
    assert_eq!(v, vec![0, 1, 2, 3, 4, 5, 6, 7, 8, 9]);
    let mut w = vec![3, -1, 3, i64::MIN, 0];
    bubble_sort(&mut w);
    assert_eq!(w, vec![i64::MIN, -1, 0, 3, 3]);
    let mut e: Vec<i64> = vec![];
    bubble_sort(&mut e);
    assert!(e.is_empty());
}

#[test]
fn number_descriptions() {
    let words: Vec<&str> = (0..8).map(describe_number).collect();
    assert_eq!(
        words,
        vec![
            "divisible by 4",
            "remainder 1",
            "remainder 2",
            "remainder 3",
            "divisible by 4",
            "remainder 1",
            "remainder 2",
            "remainder 3"
        ]
    );
    // Rust's remainder of a negative number is negative.
    assert_eq!(describe_number(-1), "unknown");
    assert_eq!(describe_number(-8), "divisible by 4");
}

#[test]
fn squares_of_non_multiples_of_three() {
    let squares = process_range(1, 15);
    assert_eq!(squares, vec![1, 4, 16, 25, 49, 64, 100, 121, 169, 196]);
    assert_eq!(sum(&squares), 745);
    assert!(process_range(5, 5).is_empty());
    assert_eq!(process_range(-2, 1), vec![4, 1]);
}

#[test]
fn string_transforms() {
    let test_str = "Hello, Benchmark World!";
    assert_eq!(reverse_string(test_str), "!dlroW kramhcneB ,olleH");
    assert_eq!(repeat_string("ab", 5), "ababababab");
    assert_eq!(repeat_string("ab", 0), "");
    let cipher_text = caesar_cipher(test_str, 3);
    assert_eq!(cipher_text, "Khoor, Ehqfkpdun Zruog!");
    assert_eq!(caesar_cipher(&cipher_text, 23), test_str);
    assert_eq!(caesar_cipher("xyz XYZ", 3), "abc ABC");
}

#[test]
fn run_length_encoding() {
    assert_eq!(run_length_encode("aaabbbccdddddeef"), "3a3b2c5d2ef");
    assert_eq!(run_length_encode(""), "");
    assert_eq!(run_length_encode("abc"), "abc");
    assert_eq!(run_length_encode(&"z".repeat(12)), "12z");
}

#[test]
fn character_counts() {
    assert_eq!(
        count_chars("abracadabra"),
        vec![('a', 5), ('b', 2), ('r', 2), ('c', 1), ('d', 1)]
    );
    assert!(count_chars("").is_empty());
}

#[test]
fn number_theory() {
    assert_eq!(gcd(48, 18), 6);
    assert_eq!(gcd(-48, 18), 6);
    assert_eq!(gcd(48, -18), 6);
    assert_eq!(gcd(0, 0), 0);
    assert_eq!(gcd(0, -7), 7);
    assert_eq!(gcd(i64::MIN, 6), 2);
    assert_eq!(lcm(12, 8), 24);
    assert_eq!(lcm(-4, 6), 12);
    assert_eq!(lcm(0, 5), 0);
    assert!(!is_prime(1));
    assert!(is_prime(2));
    assert!(is_prime(97));
    assert!(!is_prime(91));
    assert!(!is_prime(-7));
    assert!(is_prime(1_000_000_007));
    assert_eq!(
        primes_up_to(50),
        vec![2, 3, 5, 7, 11, 13, 17, 19, 23, 29, 31, 37, 41, 43, 47]
    );
    assert!(primes_up_to(1).is_empty());
}

#[test]
fn fibonacci_numbers() {
    assert_eq!(
        fibonacci_iterative(20),
        vec![0, 1, 1, 2, 3, 5, 8, 13, 21, 34, 55, 89, 144, 233, 377, 610, 987, 1597, 2584, 4181]
    );
    assert!(fibonacci_iterative(0).is_empty());
    assert_eq!(fibonacci_iterative(1), vec![0]);
    assert_eq!(fibonacci_iterative(93)[92], 7540113804746346429);
}

#[test]
fn driver_helpers() {
    assert_eq!(count_lines("a\nb\n\nc"), 3);
    assert_eq!(count_lines(""), 0);
    let src = host_source_for(HostLimits { max_memory: 1 << 20, max_cpu_ms: -5, initial_memory: 4096 });
    assert!(src.contains("(size_t)1048576,\n        -5,\n        1024,\n        (size_t)4096,"));
    assert!(!src.contains("{{"));
    assert!(src.starts_with("\n#include <stddef.h>"));
}
