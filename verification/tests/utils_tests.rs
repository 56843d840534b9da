use openvds::utils::{
    align_to_power_of_2, brick_path, calculate_checksum, format_bytes, verify_checksum,
};

#[test]
fn test_checksum() {
    let data = b"Hello, world!";
    let checksum = calculate_checksum(data);
    assert!(verify_checksum(data, checksum));
    assert!(!verify_checksum(data, checksum + 1));
}

#[test]
fn test_checksum_known_value() {
    // CRC-32 (IEEE 802.3) of "123456789"
    assert_eq!(calculate_checksum(b"123456789"), 0xCBF43926);
    assert_eq!(calculate_checksum(b""), 0);
}

#[test]
fn test_format_bytes() {
    assert_eq!(format_bytes(512), "512 B");
    assert_eq!(format_bytes(1024), "1.00 KB");
    assert_eq!(format_bytes(1536), "1.50 KB");
    assert_eq!(format_bytes(1048576), "1.00 MB");
    assert_eq!(format_bytes(1073741824), "1.00 GB");
}

#[test]
fn test_brick_path() {
    assert_eq!(brick_path(0, 0), "bricks/lod0/00000000.brick");
    assert_eq!(brick_path(42, 2), "bricks/lod2/00000042.brick");
    assert_eq!(brick_path(1234567, 0), "bricks/lod0/01234567.brick");
}

#[test]
fn test_brick_path_wide_index() {
    assert_eq!(brick_path(123456789, 1), "bricks/lod1/123456789.brick");
}

#[test]
fn test_align_to_power_of_2() {
    assert_eq!(align_to_power_of_2(0, 16), 0);
    assert_eq!(align_to_power_of_2(1, 16), 16);
    assert_eq!(align_to_power_of_2(15, 16), 16);
    assert_eq!(align_to_power_of_2(16, 16), 16);
    assert_eq!(align_to_power_of_2(17, 16), 32);
}
