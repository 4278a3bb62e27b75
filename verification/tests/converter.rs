use etw_gecko::timestamp_converter::{scale, TimestampConverter};
use etw_gecko::types::{is_kernel_address, stack_mode_for_address, StackFrame, StackMode};
use fxprof_processed_profile::Timestamp;

fn converter(reference_raw: u64, raw_to_ns_factor: u64) -> TimestampConverter {
    TimestampConverter { reference_raw, raw_to_ns_factor }
}

#[test]
fn reference_converts_to_zero() {
    let c = converter(1000, 100);
    assert_eq!(c.raw_to_nanos(1000), 0);
    assert_eq!(c.convert_raw(1000), Timestamp::from_nanos_since_reference(0));
    let wide = converter(u64::MAX, u64::MAX);
    assert_eq!(wide.raw_to_nanos(u64::MAX), 0);
}

#[test]
fn raw_timestamps_are_scaled_from_the_reference() {
    let c = converter(1000, 100);
    assert_eq!(c.raw_to_nanos(1200), 20_000);
    assert_eq!(c.raw_to_nanos(1001), 100);
    assert_eq!(c.convert_raw(1200), Timestamp::from_nanos_since_reference(20_000));
    assert_ne!(c.convert_raw(1200), Timestamp::from_nanos_since_reference(1200));
}

#[test]
fn raw_timestamps_before_the_reference_are_zero() {
    let c = converter(1000, 100);
    assert_eq!(c.raw_to_nanos(999), 0);
    assert_eq!(c.raw_to_nanos(0), 0);
    assert_eq!(c.convert_raw(0), Timestamp::from_nanos_since_reference(0));
}

#[test]
fn raw_conversion_stops_at_the_largest_number() {
    let c = converter(0, 4);
    assert_eq!(c.raw_to_nanos(u64::MAX), u64::MAX);
    assert_eq!(c.raw_to_nanos(u64::MAX / 4), u64::MAX - 3);
    assert_eq!(c.raw_to_nanos(u64::MAX / 4 + 1), u64::MAX);
}

#[test]
fn raw_conversion_keeps_the_order() {
    let c = converter(500, 7);
    let raws: [u64; 7] = [0, 1, 499, 500, 501, 10_000, u64::MAX];
    for pair in raws.windows(2) {
        assert!(c.raw_to_nanos(pair[0]) <= c.raw_to_nanos(pair[1]));
        assert!(c.convert_raw(pair[0]) <= c.convert_raw(pair[1]));
    }
}

#[test]
fn microseconds_are_converted_against_the_reference() {
    let c = converter(1000, 100);
    // The reference lies 100_000 ns after the clock's zero.
    assert_eq!(c.us_to_nanos(100), 0);
    assert_eq!(c.us_to_nanos(101), 1000);
    assert_eq!(c.us_to_nanos(250), 150_000);
    assert_eq!(c.us_to_nanos(0), 0);
    assert_eq!(c.convert_us(250), Timestamp::from_nanos_since_reference(150_000));
}

#[test]
fn microsecond_conversion_stops_at_the_largest_number() {
    let c = converter(0, 1);
    assert_eq!(c.us_to_nanos(u64::MAX), u64::MAX);
    let far = converter(u64::MAX, u64::MAX);
    assert_eq!(far.us_to_nanos(u64::MAX), 0);
}

#[test]
fn stub_converter_counts_nanoseconds_from_zero() {
    let c = TimestampConverter::stub();
    assert_eq!(c.reference_raw, 0);
    assert_eq!(c.raw_to_ns_factor, 1);
    assert_eq!(c.raw_to_nanos(12345), 12345);
}

#[test]
fn header_gives_the_factor() {
    let c = TimestampConverter::from_header(1000, 10_000_000).unwrap();
    assert_eq!(c.reference_raw, 1000);
    assert_eq!(c.raw_to_ns_factor, 100);
    assert!(TimestampConverter::from_header(1000, 0).is_none());
    let slow = TimestampConverter::from_header(5, 3).unwrap();
    assert_eq!(slow.raw_to_ns_factor, 333_333_333);
}

#[test]
fn scale_multiplies_or_stops() {
    assert_eq!(scale(0, 100), 0);
    assert_eq!(scale(3, 100), 300);
    assert_eq!(scale(u64::MAX, 1), u64::MAX);
    assert_eq!(scale(u64::MAX, 2), u64::MAX);
    assert_eq!(scale(1 << 32, 1 << 32), u64::MAX);
    assert_eq!(scale(1 << 32, (1 << 32) - 1), 0xffff_ffff_0000_0000);
}

#[test]
fn kernel_addresses_of_32_bit_processes() {
    assert!(!is_kernel_address(0, 4));
    assert!(!is_kernel_address(0x7fff_ffff, 4));
    assert!(is_kernel_address(0x8000_0000, 4));
    assert!(is_kernel_address(0xffff_ffff, 4));
    assert!(is_kernel_address(u64::MAX, 4));
}

#[test]
fn kernel_addresses_of_64_bit_processes() {
    assert!(!is_kernel_address(0, 8));
    assert!(!is_kernel_address(0x8000_0000, 8));
    assert!(!is_kernel_address(0x0000_7ffe_1234_5678, 8));
    assert!(!is_kernel_address(0xfffe_ffff_ffff_ffff, 8));
    assert!(is_kernel_address(0xffff_0000_0000_0000, 8));
    assert!(is_kernel_address(0xffff_f801_0000_0000, 8));
    // Every width but 4 counts as 8.
    assert!(!is_kernel_address(0x8000_0000, 0));
    assert!(is_kernel_address(0xffff_0000_0000_0000, 16));
}

#[test]
fn stack_mode_follows_the_address() {
    assert_eq!(stack_mode_for_address(0x0000_7ffe_0000_0000, 8), StackMode::User);
    assert_eq!(stack_mode_for_address(0xffff_f801_0000_0000, 8), StackMode::Kernel);
    assert_eq!(stack_mode_for_address(0x8000_0000, 4), StackMode::Kernel);
    assert_eq!(stack_mode_for_address(0x7fff_ffff, 4), StackMode::User);
}

#[test]
fn frames_give_their_address_and_mode() {
    let ip = StackFrame::InstructionPointer(0x10, StackMode::User);
    let ra = StackFrame::ReturnAddress(0x20, StackMode::Kernel);
    assert_eq!(ip.address(), 0x10);
    assert_eq!(ip.mode(), StackMode::User);
    assert_eq!(ra.address(), 0x20);
    assert_eq!(ra.mode(), StackMode::Kernel);
}
