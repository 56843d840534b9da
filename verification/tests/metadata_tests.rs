use openvds::compression::CompressionMethod;
use openvds::metadata::{BrickMetadata, SegyMetadata, VdsVersion};
use openvds::{AxisDescriptor, DataType, VdsMetadata, VolumeDataLayout};

#[test]
fn test_version() {
    assert!(!openvds::OPENVDS_VERSION.is_empty());
}

#[test]
fn test_version_compatibility() {
    let v3_0 = VdsVersion::new(3, 0);
    let v3_1 = VdsVersion::new(3, 1);
    let v2_0 = VdsVersion::new(2, 0);

    assert!(v3_0.is_compatible(&v3_1));
    assert!(!v3_0.is_compatible(&v2_0));
}

#[test]
fn test_metadata_creation() {
    let axes = vec![
        AxisDescriptor::new(1000, "Inline", "trace"),
        AxisDescriptor::new(800, "Crossline", "trace"),
        AxisDescriptor::new(500, "Depth", "ms"),
    ];

    let layout = VolumeDataLayout::new(3, DataType::F32, axes).unwrap();
    let mut metadata = VdsMetadata::new(layout).with_compression(CompressionMethod::Zstd);

    metadata.add_metadata("project", "North Sea Survey");
    assert_eq!(metadata.get_metadata("project"), Some("North Sea Survey"));
}

#[test]
fn test_metadata_defaults() {
    let axes = vec![AxisDescriptor::new(100, "X", "m")];
    let layout = VolumeDataLayout::new(1, DataType::U8, axes).unwrap();
    let metadata = VdsMetadata::new(layout);
    assert_eq!(metadata.version, VdsVersion::new(3, 0));
    assert_eq!(metadata.compression, CompressionMethod::Zstd);
    assert_eq!(metadata.created_at, metadata.modified_at);
    assert!(metadata.custom_metadata.is_empty());
    assert!(metadata.survey_metadata.is_none());
}

#[test]
fn test_metadata_last_entry_wins() {
    let axes = vec![AxisDescriptor::new(100, "X", "m")];
    let layout = VolumeDataLayout::new(1, DataType::U8, axes).unwrap();
    let mut metadata = VdsMetadata::new(layout);
    assert_eq!(metadata.get_metadata("owner"), None);
    metadata.add_metadata("owner", "alpha");
    metadata.add_metadata("other", "x");
    metadata.add_metadata("owner", "beta");
    assert_eq!(metadata.get_metadata("owner"), Some("beta"));
    assert_eq!(metadata.get_metadata("other"), Some("x"));
    assert_eq!(metadata.get_metadata("missing"), None);
}

#[test]
fn test_segy_metadata_new() {
    let segy = SegyMetadata::new(2);
    assert_eq!(segy.revision, 2);
    assert!(segy.text_header.is_empty());
    assert!(segy.binary_header.is_empty());
    assert!(segy.trace_header_mappings.is_empty());
}

#[test]
fn test_brick_metadata_new() {
    let brick = BrickMetadata::new(0, 10000, 100000);
    assert_eq!(brick.index, 0);
    assert_eq!(brick.compressed_size, 10000);
    assert_eq!(brick.uncompressed_size, 100000);
    assert!(brick.offset.is_none());
    assert!(brick.checksum.is_none());
}

#[test]
fn test_set_modified_at() {
    let axes = vec![AxisDescriptor::new(100, "X", "m")];
    let layout = VolumeDataLayout::new(1, DataType::U8, axes).unwrap();
    let mut metadata = VdsMetadata::new(layout);
    let created = metadata.created_at;
    metadata.set_modified_at(1234567890);
    assert_eq!(metadata.modified_at, 1234567890);
    assert_eq!(metadata.created_at, created);
    metadata.touch();
    assert_eq!(metadata.created_at, created);
}
