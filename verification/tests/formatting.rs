use textutils::numfmt::{format_aligned, u64_to_string};

#[test]
fn decimal_rendering_has_no_leading_zeros() {
    assert_eq!(u64_to_string(0), "0");
    assert_eq!(u64_to_string(7), "7");
    assert_eq!(u64_to_string(30), "30");
    assert_eq!(u64_to_string(1234567890), "1234567890");
    assert_eq!(u64_to_string(u64::MAX), "18446744073709551615");
}

#[test]
fn alignment_pads_on_the_left() {
    assert_eq!(format_aligned(30, 8), "      30");
    assert_eq!(format_aligned(0, 4), "   0");
}

#[test]
fn alignment_never_truncates() {
    assert_eq!(format_aligned(123456, 4), "123456");
    assert_eq!(format_aligned(1000, 4), "1000");
}
