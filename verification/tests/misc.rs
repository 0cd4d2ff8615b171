use rust_dpdk::cycles::{rdtsc_from_parts, rdtsc_from_timespec};
use rust_dpdk::flow::isolate_flag;
use rust_dpdk::version::{string, version_string};

#[test]
fn tsc_from_halves() {
    assert_eq!(rdtsc_from_parts(0, 0), 0);
    assert_eq!(rdtsc_from_parts(1, 2), 0x1_0000_0002);
    assert_eq!(rdtsc_from_parts(u32::MAX, u32::MAX), u64::MAX);
    assert_eq!(rdtsc_from_parts(0x1234_5678, 0x9abc_def0), 0x1234_5678_9abc_def0);
}

#[test]
fn tsc_from_clock() {
    assert_eq!(rdtsc_from_timespec(0, 5), 5);
    assert_eq!(rdtsc_from_timespec(3, 999_999_999), 3_999_999_999);
    assert_eq!(rdtsc_from_timespec(u64::MAX, 1), 1u64.wrapping_sub(1_000_000_000));
}

#[test]
fn isolate_flags() {
    assert_eq!(isolate_flag(true), 1);
    assert_eq!(isolate_flag(false), 0);
}

#[test]
fn version_of_this_dpdk() {
    assert_eq!(string(), "DPDK 17.08.0");
}

#[test]
fn version_formats() {
    assert_eq!(version_string("DPDK", 17, 11, 2, "", 16), "DPDK 17.11.2");
    assert_eq!(version_string("DPDK", 17, 11, 0, "-rc", 2), "DPDK 17.11.0-rc2");
    assert_eq!(version_string("DPDK", 18, 2, 10, "-rc", 17), "DPDK 18.02.10-rc1");
    assert_eq!(version_string("X", 0, 0, 0, "", 0), "X 0.00.0");
    assert_eq!(version_string("X", 4000000000, 123, 7, "s", 0x8000_0010), "X 4000000000.123.7s2147483648");
}
