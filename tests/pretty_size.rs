use std::time::Instant;

use booth_upload_ci::pretty_size::pretty_size;

const TEST_BYTES: [usize; 19] = [
    0,
    1,
    9,
    10,
    99,
    100,
    999,
    1000,
    1023,
    1024,
    1536,
    999_999,
    1_000_000,
    1_023_999,
    1_024_000,
    1024 * 1024,
    999_999_999,
    1_000_000_000,
    1024 * 1024 * 1024,
];

fn reference(bytes_base_of_two: usize) -> String {
    const KIB: f64 = 1_024.0f64;
    const MIB: f64 = KIB * 1_024.0f64;
    const GIB: f64 = MIB * 1_024.0f64;

    let bytes = bytes_base_of_two as f64;
    if bytes >= GIB {
        format!("{a:.2}GiB", a = bytes / GIB)
    } else if bytes >= MIB {
        format!("{a:.2}MiB", a = bytes / MIB)
    } else if bytes >= KIB {
        format!("{a:.2}KiB", a = bytes / KIB)
    } else {
        format!("{bytes}B")
    }
}

#[test]
fn test() {
    for q in TEST_BYTES {
        println!("{q}");
        assert_eq!(reference(q), pretty_size(q))
    }
}

#[test]
fn main() {
    for b in TEST_BYTES {
        assert_eq!(reference(b), pretty_size(b));
    }

    println!("f: {:?}", bench_f());
    println!("i2: {:?}", bench_i2());
    bench_ix();
    println!("{}", reference(999999));
}

fn bench_f() -> std::time::Duration {
    let time = Instant::now();
    for i in 0..1048576 {
        reference(i);
    }

    time.elapsed()
}

fn bench_i2() -> std::time::Duration {
    let time = Instant::now();
    for q in 0..1048576 {
        pretty_size(q);
    }

    time.elapsed()
}

fn bench_ix() {
    for i in TEST_BYTES {
        let time = Instant::now();
        let f = reference(i);
        let time_f = time.elapsed();
        let time = Instant::now();
        let i = pretty_size(i);
        let time_i = time.elapsed();
        assert_eq!(f, i);
        println!("for {i}: float = {time_f:?} | int = {time_i:?}")
    }
}

#[test]
fn boundary_values() {
    assert_eq!(pretty_size(0), "0B");
    assert_eq!(pretty_size(1023), "1023B");
    assert_eq!(pretty_size(1024), "1.00KiB");
    assert_eq!(pretty_size(1536), "1.50KiB");
    assert_eq!(pretty_size(1_048_575), "1024.00KiB");
    assert_eq!(pretty_size(1_048_576), "1.00MiB");
    assert_eq!(pretty_size(1_073_741_824), "1.00GiB");
    assert_eq!(pretty_size(999_999_999), "953.67MiB");
}

#[test]
fn plain_bytes() {
    assert_eq!(pretty_size(5), "5B");
    assert_eq!(pretty_size(10), "10B");
    assert_eq!(pretty_size(100), "100B");
    assert_eq!(pretty_size(1000), "1000B");
}

#[test]
fn largest_accepted_size() {
    assert_eq!(pretty_size(100 * 1024 * 1024 * 1024), "100.00GiB");
    assert_eq!(pretty_size(100 * 1024 * 1024 * 1024 - 1), "100.00GiB");
    assert_eq!(pretty_size(99 * 1024 * 1024 * 1024), "99.00GiB");
}

#[test]
fn hundredths_carry_into_tenths() {
    // remainder 100: tenths 0, hundredths 10
    assert_eq!(pretty_size(1024 + 100), "1.10KiB");
    // remainder 1018: 99.4 hundredths, rounded down
    assert_eq!(pretty_size(1024 + 1018), "1.99KiB");
    // remainder 1019: 99.5 hundredths and more, rounded up into the whole part
    assert_eq!(pretty_size(1024 + 1019), "2.00KiB");
}

#[test]
fn tenths_carry_into_whole() {
    // remainder 1020: tenths 10
    assert_eq!(pretty_size(1024 + 1020), "2.00KiB");
    assert_eq!(pretty_size(2 * 1024 * 1024 - 1), "2.00MiB");
    assert_eq!(pretty_size(2 * 1024 * 1024 * 1024 - 1), "2.00GiB");
}

#[test]
fn fractional_digits() {
    assert_eq!(pretty_size(1024 + 512 + 256), "1.75KiB");
    assert_eq!(pretty_size(10 * 1024 + 102), "10.10KiB");
    assert_eq!(pretty_size(3 * 1024 * 1024 + 104_857 * 2), "3.20MiB");
}

fn split(text: &str) -> (u64, &str) {
    let digits = text.bytes().take_while(|b| b.is_ascii_digit() || *b == b'.').count();
    let number: String = text[..digits].chars().filter(|c| *c != '.').collect();
    (number.parse().unwrap(), &text[digits..])
}

#[test]
fn no_leading_zero() {
    for b in [0usize, 1, 9, 1023, 1024, 1025, 10 * 1024, 1 << 20, 1 << 30, 5 << 30] {
        let text = pretty_size(b);
        let int_part: String = text.chars().take_while(|c| c.is_ascii_digit()).collect();
        assert!(!int_part.is_empty());
        assert!(int_part == "0" || !int_part.starts_with('0'), "{text}");
    }
}

#[test]
fn two_fractional_digits() {
    for b in [1024usize, 1536, 1_048_575, 1 << 20, 999_999_999, 1 << 30, 100 << 30] {
        let text = pretty_size(b);
        assert_eq!(text.matches('.').count(), 1, "{text}");
        let dot = text.find('.').unwrap();
        let after = &text[dot + 1..];
        assert!(after.as_bytes()[0].is_ascii_digit());
        assert!(after.as_bytes()[1].is_ascii_digit());
        assert!(["KiB", "MiB", "GiB"].contains(&&after[2..]), "{text}");
    }
}

#[test]
fn monotonic_within_kib() {
    let mut last = 0u64;
    for b in 1024usize..1024 * 1024 {
        let text = pretty_size(b);
        let (value, unit) = split(&text);
        assert_eq!(unit, "KiB");
        assert!(value >= last, "{b}");
        last = value;
    }
}

#[test]
fn monotonic_within_mib_and_gib() {
    let mut last = 0u64;
    let mut b = 1usize << 20;
    while b < 1 << 30 {
        let text = pretty_size(b);
        let (value, unit) = split(&text);
        assert_eq!(unit, "MiB");
        assert!(value >= last, "{b}");
        last = value;
        b += 997;
    }
    let mut last = 0u64;
    let mut b = 1usize << 30;
    while b <= 100 << 30 {
        let text = pretty_size(b);
        let (value, unit) = split(&text);
        assert_eq!(unit, "GiB");
        assert!(value >= last, "{b}");
        last = value;
        b += 1_000_003;
    }
}

#[test]
fn rounds_to_nearest_hundredth() {
    assert_eq!(pretty_size(1030), "1.01KiB");
    assert_eq!(pretty_size(2042), "1.99KiB");
    // exact ties go to the even neighbour
    assert_eq!(pretty_size(1152), "1.12KiB");
    assert_eq!(pretty_size(1408), "1.38KiB");
}

#[test]
fn matches_float_reference() {
    for b in 0usize..2 * 1024 * 1024 {
        assert_eq!(pretty_size(b), reference(b), "{b}");
    }
    let mut b = 2usize << 20;
    while b <= 100 << 30 {
        assert_eq!(pretty_size(b), reference(b), "{b}");
        b += 104_729;
    }
}
