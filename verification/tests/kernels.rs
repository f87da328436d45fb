use compute_kernels::adjust_brightness;
use compute_kernels::blur;
use compute_kernels::count_primes;
use compute_kernels::factorial;
use compute_kernels::fibonacci_iterative;
use compute_kernels::fibonacci_recursive;
use compute_kernels::gcd;
use compute_kernels::get_nth_prime;
use compute_kernels::grayscale;
use compute_kernels::invert;
use compute_kernels::quick_sort;
use compute_kernels::reverse_string;
use compute_kernels::sum_array;
use compute_kernels::word_count;

#[test]
fn test_fibonacci() {
    assert_eq!(fibonacci_iterative(10), 55);
    assert_eq!(fibonacci_recursive(10), 55);
}

#[test]
fn test_primes() {
    assert_eq!(count_primes(10), 4); // 2, 3, 5, 7
    assert_eq!(get_nth_prime(4), 7);
}

#[test]
fn test_factorial() {
    assert_eq!(factorial(5), 120);
    assert_eq!(factorial(0), 1);
}

#[test]
fn fibonacci_both_agree_up_to_20() {
    for n in 0..=20 {
        assert_eq!(fibonacci_recursive(n), fibonacci_iterative(n));
    }
}

#[test]
fn fibonacci_edges() {
    assert_eq!(fibonacci_iterative(0), 0);
    assert_eq!(fibonacci_iterative(1), 1);
    assert_eq!(fibonacci_recursive(0), 0);
    assert_eq!(fibonacci_recursive(1), 1);
    assert_eq!(fibonacci_iterative(93), 12200160415121876738);
    // past fib(93) the 64-bit result wraps modulo 2^64
    assert_eq!(fibonacci_iterative(94), 1293530146158671551);
}

#[test]
fn count_primes_edges() {
    assert_eq!(count_primes(1), 0);
    assert_eq!(count_primes(2), 1);
    assert_eq!(count_primes(0), 0);
    assert_eq!(count_primes(100), 25);
}

#[test]
fn nth_prime_values() {
    assert_eq!(get_nth_prime(0), 0);
    assert_eq!(get_nth_prime(1), 2);
    assert_eq!(get_nth_prime(2), 3);
    assert_eq!(get_nth_prime(25), 97);
}

#[test]
fn factorial_values() {
    assert_eq!(factorial(1), 1);
    assert_eq!(factorial(10), 3628800);
    assert_eq!(factorial(20), 2432902008176640000);
    // past 20! the 64-bit accumulator wraps modulo 2^64
    assert_eq!(factorial(21), 14197454024290336768);
}

#[test]
fn gcd_values() {
    assert_eq!(gcd(48, 18), 6);
    assert_eq!(gcd(18, 48), 6);
    assert_eq!(gcd(7, 0), 7);
    assert_eq!(gcd(0, 9), 9);
    assert_eq!(gcd(0, 0), 0);
    assert_eq!(gcd(17, 13), 1);
}

#[test]
fn sum_array_values() {
    assert_eq!(sum_array(&vec![1, 2, 3, 4, 5]), 15);
    assert_eq!(sum_array(&vec![]), 0);
    assert_eq!(sum_array(&vec![i32::MAX, i32::MAX, 2]), 2 * (i32::MAX as i64) + 2);
    assert_eq!(sum_array(&vec![-5, 5, -7]), -7);
}

#[test]
fn quick_sort_sorts() {
    let mut v = vec![5, 3, 8, 1, 9, 2, 7, 2];
    quick_sort(&mut v);
    assert_eq!(v, vec![1, 2, 2, 3, 5, 7, 8, 9]);

    let mut empty: Vec<i32> = vec![];
    quick_sort(&mut empty);
    assert_eq!(empty, Vec::<i32>::new());

    let mut single = vec![42];
    quick_sort(&mut single);
    assert_eq!(single, vec![42]);

    let mut reversed = vec![4, 3, 2, 1, 0, -1, i32::MIN];
    quick_sort(&mut reversed);
    assert_eq!(reversed, vec![i32::MIN, -1, 0, 1, 2, 3, 4]);
}

#[test]
fn reverse_string_values() {
    assert_eq!(reverse_string("hello"), "olleh");
    assert_eq!(reverse_string(""), "");
    assert_eq!(reverse_string("héllo"), "olléh");
}

#[test]
fn reverse_string_twice_is_identity() {
    for s in ["hello", "", "a", "héllo wörld", "日本語のテキスト", "🎉x🎈"] {
        assert_eq!(reverse_string(&reverse_string(s)), s);
    }
}

#[test]
fn word_count_values() {
    assert_eq!(word_count("  a  b   c "), 3);
    assert_eq!(word_count(""), 0);
    assert_eq!(word_count("   "), 0);
    assert_eq!(word_count("one"), 1);
    assert_eq!(word_count("tabs\tand\nnewlines"), 3);
    assert_eq!(word_count("wide\u{3000}space"), 2);
}

#[test]
fn grayscale_pixels() {
    let mut data = vec![10, 20, 30, 40, 200, 100, 50, 7];
    grayscale(&mut data);
    assert_eq!(data, vec![18, 18, 18, 40, 124, 124, 124, 7]);
}

#[test]
fn grayscale_equal_channels_alpha_kept() {
    let mut data: Vec<u8> = (0u8..=255).collect();
    let orig = data.clone();
    grayscale(&mut data);
    assert_eq!(data.len(), orig.len());
    for p in 0..data.len() / 4 {
        assert_eq!(data[4 * p], data[4 * p + 1]);
        assert_eq!(data[4 * p + 1], data[4 * p + 2]);
        assert_eq!(data[4 * p + 3], orig[4 * p + 3]);
    }
}

#[test]
fn grayscale_ignores_trailing_bytes() {
    let mut data = vec![10, 20, 30, 40, 99, 98];
    grayscale(&mut data);
    assert_eq!(data, vec![18, 18, 18, 40, 99, 98]);
}

#[test]
fn invert_pixels() {
    let mut data = vec![10, 20, 30, 40];
    invert(&mut data);
    assert_eq!(data, vec![245, 235, 225, 40]);
}

#[test]
fn invert_twice_restores() {
    let mut data = vec![0, 17, 255, 80, 1, 2, 3, 4, 250, 251];
    let orig = data.clone();
    invert(&mut data);
    invert(&mut data);
    assert_eq!(data, orig);
}

#[test]
fn brightness_identity_map_keeps_buffer() {
    let lut: Vec<u8> = (0u32..256).map(|v| (v as f32 * 1.0).clamp(0.0, 255.0) as u8).collect();
    let mut data = vec![0, 17, 255, 80, 1, 2, 3, 4];
    let orig = data.clone();
    adjust_brightness(&mut data, &lut);
    assert_eq!(data, orig);
}

#[test]
fn brightness_doubling_clamps() {
    let lut: Vec<u8> = (0u32..256).map(|v| (v as f32 * 2.0).clamp(0.0, 255.0) as u8).collect();
    let mut data = vec![100, 200, 0, 9];
    adjust_brightness(&mut data, &lut);
    assert_eq!(data, vec![200, 255, 0, 9]);
}

#[test]
fn blur_center_and_border() {
    // 3x3 image; channels laid out so the centre convolution is easy to check
    let mut data = Vec::new();
    for k in 0u8..9 {
        data.push(10 * (k + 1)); // R
        data.push(k); // G
        data.push(100 + k); // B
        data.push(200 + k); // A
    }
    let orig = data.clone();
    blur(&mut data, 3, 3);
    // all border pixels are byte-identical
    for p in [0, 1, 2, 3, 5, 6, 7, 8] {
        for c in 0..4 {
            assert_eq!(data[4 * p + c], orig[4 * p + c]);
        }
    }
    // centre pixel: weighted 3x3 average of each colour channel, alpha kept
    assert_eq!(data[16], 50);
    assert_eq!(data[17], 4);
    assert_eq!(data[18], 104);
    assert_eq!(data[19], 204);
}

#[test]
fn blur_tiny_image_unchanged() {
    let mut data = vec![1, 2, 3, 4, 5, 6, 7, 8];
    let orig = data.clone();
    blur(&mut data, 2, 1);
    assert_eq!(data, orig);
}
