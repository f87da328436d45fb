//! Verified computation kernels: numeric sequences, primality, image-buffer
//! filters, array reduction and sorting, and string utilities.
//!
//! Every kernel is a pure or in-place transform over plain values; each one
//! carries a contract stating exactly what it computes.

pub mod arrays;
pub mod fib;
pub mod image;
pub mod numbers;
pub mod primes;
pub mod strings;

pub use arrays::quick_sort;
pub use arrays::sum_array;
pub use fib::fibonacci_iterative;
pub use fib::fibonacci_recursive;
pub use image::adjust_brightness;
pub use image::blur;
pub use image::grayscale;
pub use image::invert;
pub use numbers::factorial;
pub use numbers::gcd;
pub use primes::count_primes;
pub use primes::get_nth_prime;
pub use strings::reverse_string;
pub use strings::word_count;
