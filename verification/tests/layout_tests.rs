use openvds::{AxisDescriptor, BrickSize, DataType, VolumeDataLayout};

fn create_test_layout() -> VolumeDataLayout {
    let axes = vec![
        AxisDescriptor::new(1000, "Inline", "trace"),
        AxisDescriptor::new(800, "Crossline", "trace"),
        AxisDescriptor::new(500, "Depth", "ms"),
    ];

    VolumeDataLayout::new(3, DataType::F32, axes)
        .unwrap()
        .with_brick_size(BrickSize::new([64, 64, 64, 1, 1, 1]))
}

#[test]
fn test_layout_creation() {
    let layout = create_test_layout();
    assert_eq!(layout.dimensionality, 3);
    assert_eq!(layout.data_type, DataType::F32);
    assert_eq!(layout.size(), vec![1000, 800, 500]);
}

#[test]
fn test_brick_count() {
    let layout = create_test_layout();
    let brick_count = layout.brick_count();
    assert_eq!(brick_count, vec![16, 13, 8]); // ceil(1000/64), ceil(800/64), ceil(500/64)
}

#[test]
fn test_total_bricks() {
    let layout = create_test_layout();
    assert_eq!(layout.total_bricks(), 16 * 13 * 8);
}

#[test]
fn test_brick_index_conversion() {
    let layout = create_test_layout();
    let coords = vec![5, 7, 3];
    let index = layout.brick_coords_to_index(&coords);
    let recovered = layout.brick_index_to_coords(index);
    assert_eq!(coords, recovered);
}

#[test]
fn test_brick_data_range() {
    let layout = create_test_layout();
    let coords = vec![0, 0, 0];
    let range = layout.brick_data_range(&coords);
    assert_eq!(range, vec![(0, 64), (0, 64), (0, 64)]);

    // Last brick should be trimmed
    let coords = vec![15, 12, 7];
    let range = layout.brick_data_range(&coords);
    assert_eq!(range, vec![(960, 1000), (768, 800), (448, 500)]);
}

#[test]
fn test_is_in_bounds() {
    let layout = create_test_layout();
    assert!(layout.is_in_bounds(&vec![0, 0, 0]));
    assert!(layout.is_in_bounds(&vec![999, 799, 499]));
    assert!(!layout.is_in_bounds(&vec![1000, 0, 0]));
    assert!(!layout.is_in_bounds(&vec![0, 800, 0]));
}

#[test]
fn test_create_osdu_compatible_layout() {
    // Axes matching a real 3-D seismic survey
    let axes = vec![
        AxisDescriptor::new(1126, "Sample", "ms"),
        AxisDescriptor::new(605, "Crossline", "unitless"),
        AxisDescriptor::new(385, "Inline", "unitless"),
    ];

    let layout = VolumeDataLayout::new(3, DataType::F32, axes)
        .expect("Failed to create layout")
        .with_brick_size(BrickSize::new([128, 128, 128, 1, 1, 1]))
        .with_lod_levels(2);

    assert_eq!(layout.dimensionality, 3);
    assert_eq!(layout.data_type, DataType::F32);
    assert_eq!(layout.lod_levels, 2);
    assert_eq!(layout.size(), vec![1126, 605, 385]);
}

#[test]
fn test_three_d_scenario_counts_and_ranges() {
    // A 1000 x 800 x 500 volume with 64-voxel bricks
    let layout = create_test_layout();
    assert_eq!(layout.brick_count(), vec![16, 13, 8]);
    assert_eq!(layout.total_bricks(), 1664);
    assert_eq!(
        layout.brick_data_range(&vec![15, 12, 7]),
        vec![(960, 1000), (768, 800), (448, 500)]
    );
}

#[test]
fn test_brick_coord_bijection_exhaustive() {
    let axes = vec![
        AxisDescriptor::new(10, "X", "m"),
        AxisDescriptor::new(9, "Y", "m"),
        AxisDescriptor::new(5, "Z", "m"),
    ];
    let layout = VolumeDataLayout::new(3, DataType::U8, axes)
        .unwrap()
        .with_brick_size(BrickSize::new([4, 4, 4, 1, 1, 1]));
    // counts are [3, 3, 2]
    assert_eq!(layout.brick_count(), vec![3, 3, 2]);
    let total = layout.total_bricks();
    assert_eq!(total, 18);
    for index in 0..total {
        let coords = layout.brick_index_to_coords(index);
        assert_eq!(layout.brick_coords_to_index(&coords), index);
    }
    for x in 0..3usize {
        for y in 0..3usize {
            for z in 0..2usize {
                let coords = vec![x, y, z];
                let index = layout.brick_coords_to_index(&coords);
                assert_eq!(layout.brick_index_to_coords(index), coords);
            }
        }
    }
}

#[test]
fn test_last_brick_ranges_end_at_samples() {
    // Sample counts not divisible by the brick size
    let axes = vec![
        AxisDescriptor::new(130, "X", "m"),
        AxisDescriptor::new(65, "Y", "m"),
    ];
    let layout = VolumeDataLayout::new(2, DataType::U16, axes)
        .unwrap()
        .with_brick_size(BrickSize::new([64, 64, 1, 1, 1, 1]));
    let counts = layout.brick_count();
    assert_eq!(counts, vec![3, 2]);
    let last = vec![counts[0] - 1, counts[1] - 1];
    let range = layout.brick_data_range(&last);
    assert_eq!(range, vec![(128, 130), (64, 65)]);
}

#[test]
fn test_layout_rejects_bad_dimensionality() {
    assert!(VolumeDataLayout::new(0, DataType::F32, vec![]).is_err());
    let axes: Vec<AxisDescriptor> = (0..7)
        .map(|_| AxisDescriptor::new(10, "A", "m"))
        .collect();
    assert!(VolumeDataLayout::new(7, DataType::F32, axes).is_err());
    let two_axes = vec![
        AxisDescriptor::new(10, "A", "m"),
        AxisDescriptor::new(10, "B", "m"),
    ];
    assert!(VolumeDataLayout::new(3, DataType::F32, two_axes).is_err());
}

#[test]
fn test_brick_size_helpers() {
    let bs = BrickSize::with_dimensionality(2, 32).unwrap();
    assert_eq!(bs.dims(), &[32, 32, 1, 1, 1, 1]);
    assert_eq!(bs.get(0), 32);
    assert_eq!(bs.get(2), 1);
    assert_eq!(bs.get(9), 1);
    assert_eq!(bs.total_voxels(), 1024);
    assert!(BrickSize::with_dimensionality(7, 32).is_err());
    let default_bs = BrickSize::default();
    assert_eq!(default_bs.dims(), &[64, 64, 64, 1, 1, 1]);
}

#[test]
fn test_layout_summary() {
    let layout = create_test_layout();
    let s = layout.summary();
    // 1000*800*500 voxels * 4 bytes = 1.6e9 bytes = 1525.88 MB
    assert_eq!(s, "3D Volume: 1000 x 800 x 500 (F32), 1664 bricks, 1525.88 MB uncompressed");
}
