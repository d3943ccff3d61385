use snerdmq::text::{decimal, lower_hex};

#[test]
fn numerals_match_the_standard_formatter() {
    for n in [0u64, 7, 10, 15, 16, 99, 255, 256, 1_000_000_007, u64::MAX] {
        assert_eq!(decimal(n), format!("{}", n));
        assert_eq!(lower_hex(n), format!("{:x}", n));
    }
}
