use statement_store::pov::{easy_log_16, extract_errors, single_read_pov_overhead, worst_case_pov};

#[test]
fn easy_log_16_works() {
    assert_eq!(easy_log_16(0), 0);
    assert_eq!(easy_log_16(1), 1);
    assert_eq!(easy_log_16(16), 1);
    assert_eq!(easy_log_16(17), 2);
    assert_eq!(easy_log_16(16u32.pow(2)), 2);
    assert_eq!(easy_log_16(16u32.pow(2) + 1), 3);
    assert_eq!(easy_log_16(16u32.pow(3)), 3);
    assert_eq!(easy_log_16(16u32.pow(3) + 1), 4);
    assert_eq!(easy_log_16(16u32.pow(4)), 4);
    assert_eq!(easy_log_16(16u32.pow(4) + 1), 5);
    assert_eq!(easy_log_16(16u32.pow(5)), 5);
    assert_eq!(easy_log_16(16u32.pow(5) + 1), 6);
    assert_eq!(easy_log_16(16u32.pow(6)), 6);
    assert_eq!(easy_log_16(16u32.pow(6) + 1), 7);
    assert_eq!(easy_log_16(16u32.pow(7)), 7);
    assert_eq!(easy_log_16(16u32.pow(7) + 1), 8);
    assert_eq!(easy_log_16(u32::MAX), 8);
}

#[test]
fn single_read_overhead_counts_layers() {
    assert_eq!(single_read_pov_overhead(Some(0), 1_000_000), 0);
    assert_eq!(single_read_pov_overhead(Some(16), 1_000_000), 495);
    assert_eq!(single_read_pov_overhead(None, 1_000_000), 5 * 495);
    assert_eq!(single_read_pov_overhead(Some(u32::MAX), 0), 3960);
}

#[test]
fn worst_case_pov_adds_value_size() {
    assert_eq!(worst_case_pov(Some(100), None, true, 1_000_000), None);
    assert_eq!(worst_case_pov(Some(100), Some(33), false, 1_000_000), Some(33));
    assert_eq!(worst_case_pov(Some(100), Some(33), true, 1_000_000), Some(2 * 495 + 33));
    assert_eq!(worst_case_pov(None, Some(1), true, 1_000_000), Some(5 * 495 + 1));
}

#[test]
fn extract_errors_pads_with_zero() {
    let errors = Some(vec![7u128, 9u128]);
    assert_eq!(extract_errors(&errors, 0), 7);
    assert_eq!(extract_errors(&errors, 1), 9);
    assert_eq!(extract_errors(&errors, 2), 0);
    assert_eq!(extract_errors(&None, 0), 0);
}
