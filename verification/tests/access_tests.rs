use openvds::access::{
    assemble_slice, get_overlapping_bricks, overlay_slice_into_brick, read_slice_plan,
    validate_slice_request, write_slice_plan, zero_brick, VolumeStats,
};
use openvds::compression::CompressionMethod;
use openvds::{AxisDescriptor, BrickSize, DataType, VdsError, VolumeDataLayout};
use std::collections::HashMap;

fn small_layout() -> VolumeDataLayout {
    let axes = vec![
        AxisDescriptor::new(10, "X", "m"),
        AxisDescriptor::new(9, "Y", "m"),
        AxisDescriptor::new(7, "Z", "m"),
    ];
    VolumeDataLayout::new(3, DataType::U8, axes)
        .unwrap()
        .with_brick_size(BrickSize::new([4, 4, 4, 1, 1, 1]))
}

/// An in-memory brick store driven by the verified plan/overlay/assemble
/// functions: write overlays each planned brick, read assembles from them.
struct MemoryVolume {
    layout: VolumeDataLayout,
    bricks: HashMap<usize, Vec<u8>>,
}

impl MemoryVolume {
    fn new(layout: VolumeDataLayout) -> Self {
        MemoryVolume {
            layout,
            bricks: HashMap::new(),
        }
    }

    fn write_slice(&mut self, min: &Vec<usize>, max: &Vec<usize>, data: &Vec<u8>) {
        let plan = write_slice_plan(&self.layout, min, max, data.len()).unwrap();
        for index in plan {
            let coords = self.layout.brick_index_to_coords(index);
            let mut brick = match self.bricks.get(&index) {
                Some(b) => b.clone(),
                None => zero_brick(&self.layout),
            };
            overlay_slice_into_brick(&self.layout, &coords, &mut brick, min, max, data);
            self.bricks.insert(index, brick);
        }
    }

    fn read_slice(&self, min: &Vec<usize>, max: &Vec<usize>) -> Vec<u8> {
        let plan = read_slice_plan(&self.layout, min, max).unwrap();
        let fetched: Vec<Option<Vec<u8>>> = plan
            .iter()
            .map(|index| self.bricks.get(index).cloned())
            .collect();
        assemble_slice(&self.layout, min, max, &fetched)
    }
}

fn pattern_bytes(len: usize) -> Vec<u8> {
    (0..len).map(|i| (i * 37 + 11) as u8).collect()
}

#[test]
fn test_write_then_read_unaligned_region() {
    let mut vol = MemoryVolume::new(small_layout());
    let min = vec![1, 2, 3];
    let max = vec![9, 7, 6];
    let len = (9 - 1) * (7 - 2) * (6 - 3);
    let data = pattern_bytes(len);
    vol.write_slice(&min, &max, &data);
    let out = vol.read_slice(&min, &max);
    assert_eq!(out, data);
}

#[test]
fn test_write_then_read_single_brick() {
    let mut vol = MemoryVolume::new(small_layout());
    let min = vec![0, 0, 0];
    let max = vec![4, 4, 4];
    let data = pattern_bytes(64);
    vol.write_slice(&min, &max, &data);
    let out = vol.read_slice(&min, &max);
    assert_eq!(out, data);
}

#[test]
fn test_write_then_read_whole_volume() {
    let mut vol = MemoryVolume::new(small_layout());
    let min = vec![0, 0, 0];
    let max = vec![10, 9, 7];
    let data = pattern_bytes(10 * 9 * 7);
    vol.write_slice(&min, &max, &data);
    let out = vol.read_slice(&min, &max);
    assert_eq!(out, data);
}

#[test]
fn test_unwritten_region_reads_zero() {
    let mut vol = MemoryVolume::new(small_layout());
    // write a small inner box, then read a larger one
    let wmin = vec![2, 2, 2];
    let wmax = vec![4, 4, 4];
    let wdata = vec![0xABu8; 8];
    vol.write_slice(&wmin, &wmax, &wdata);
    let rmin = vec![0, 0, 0];
    let rmax = vec![6, 6, 6];
    let out = vol.read_slice(&rmin, &rmax);
    assert_eq!(out.len(), 216);
    for x in 0..6usize {
        for y in 0..6usize {
            for z in 0..6usize {
                let expected = if (2..4).contains(&x) && (2..4).contains(&y) && (2..4).contains(&z)
                {
                    0xABu8
                } else {
                    0u8
                };
                assert_eq!(out[(x * 6 + y) * 6 + z], expected);
            }
        }
    }
}

#[test]
fn test_missing_bricks_assemble_as_zero() {
    let vol = MemoryVolume::new(small_layout());
    let min = vec![0, 0, 0];
    let max = vec![10, 9, 7];
    let out = vol.read_slice(&min, &max);
    assert_eq!(out, vec![0u8; 10 * 9 * 7]);
}

#[test]
fn test_multi_element_write_then_read() {
    // two-byte elements across a brick boundary
    let axes = vec![
        AxisDescriptor::new(6, "X", "m"),
        AxisDescriptor::new(6, "Y", "m"),
    ];
    let layout = VolumeDataLayout::new(2, DataType::U16, axes)
        .unwrap()
        .with_brick_size(BrickSize::new([4, 4, 1, 1, 1, 1]));
    let mut vol = MemoryVolume::new(layout);
    let min = vec![1, 1];
    let max = vec![6, 5];
    let data = pattern_bytes(5 * 4 * 2);
    vol.write_slice(&min, &max, &data);
    let out = vol.read_slice(&min, &max);
    assert_eq!(out, data);
}

#[test]
fn test_full_slice_touches_every_brick() {
    let layout = small_layout();
    let min = vec![0, 0, 0];
    let max = vec![10, 9, 7];
    let plan = get_overlapping_bricks(&layout, &min, &max);
    let total = layout.total_bricks();
    assert_eq!(plan, (0..total).collect::<Vec<usize>>());
}

#[test]
fn test_overlap_is_row_major_window() {
    let layout = small_layout();
    // counts are [3, 3, 2]; bricks [1..2]x[0..1]x[0..2] of the window
    let min = vec![4, 0, 0];
    let max = vec![10, 4, 7];
    let plan = get_overlapping_bricks(&layout, &min, &max);
    // brick coords (1,0,0),(1,0,1),(2,0,0),(2,0,1) in row-major order
    let expected: Vec<usize> = vec![
        layout.brick_coords_to_index(&vec![1, 0, 0]),
        layout.brick_coords_to_index(&vec![1, 0, 1]),
        layout.brick_coords_to_index(&vec![2, 0, 0]),
        layout.brick_coords_to_index(&vec![2, 0, 1]),
    ];
    assert_eq!(plan, expected);
}

#[test]
fn test_out_of_bounds_slice_rejected_before_io() {
    let axes = vec![
        AxisDescriptor::new(1000, "Inline", "trace"),
        AxisDescriptor::new(800, "Crossline", "trace"),
        AxisDescriptor::new(500, "Depth", "ms"),
    ];
    let layout = VolumeDataLayout::new(3, DataType::F32, axes).unwrap();
    let min = vec![1000, 0, 0];
    let max = vec![1001, 1, 1];
    let r = read_slice_plan(&layout, &min, &max);
    assert!(matches!(r, Err(VdsError::OutOfBounds(_))));
}

#[test]
fn test_empty_slice_rejected() {
    let layout = small_layout();
    let r = validate_slice_request(&layout, &vec![1, 1, 1], &vec![1, 4, 4]);
    assert!(matches!(r, Err(VdsError::InvalidDimensions(_))));
    let r2 = validate_slice_request(&layout, &vec![2, 1, 1], &vec![1, 4, 4]);
    assert!(matches!(r2, Err(VdsError::InvalidDimensions(_))));
}

#[test]
fn test_dimension_mismatch_rejected() {
    let layout = small_layout();
    let r = validate_slice_request(&layout, &vec![0, 0], &vec![4, 4, 4]);
    assert!(matches!(r, Err(VdsError::InvalidDimensions(_))));
}

#[test]
fn test_write_plan_rejects_size_mismatch() {
    let layout = small_layout();
    let min = vec![0, 0, 0];
    let max = vec![4, 4, 4];
    let r = write_slice_plan(&layout, &min, &max, 63);
    assert!(matches!(r, Err(VdsError::InvalidDimensions(_))));
    assert!(write_slice_plan(&layout, &min, &max, 64).is_ok());
}

#[test]
fn test_overwrite_is_idempotent() {
    let mut vol = MemoryVolume::new(small_layout());
    let min = vec![1, 1, 1];
    let max = vec![6, 6, 6];
    let data = pattern_bytes(125);
    vol.write_slice(&min, &max, &data);
    vol.write_slice(&min, &max, &data);
    assert_eq!(vol.read_slice(&min, &max), data);
    let other = vec![0x55u8; 125];
    vol.write_slice(&min, &max, &other);
    assert_eq!(vol.read_slice(&min, &max), other);
}

#[test]
fn test_volume_stats_summary() {
    let axes = vec![
        AxisDescriptor::new(1000, "Inline", "trace"),
        AxisDescriptor::new(800, "Crossline", "trace"),
        AxisDescriptor::new(500, "Depth", "ms"),
    ];
    let layout = VolumeDataLayout::new(3, DataType::F32, axes).unwrap();
    let stats = VolumeStats::from_layout(&layout, CompressionMethod::Zstd);
    assert_eq!(stats.dimensionality, 3);
    assert_eq!(stats.total_voxels, 1000 * 800 * 500);
    assert_eq!(stats.total_bricks, 16 * 13 * 8);
    assert_eq!(stats.uncompressed_size, 1000 * 800 * 500 * 4);
    let s = stats.summary();
    assert_eq!(
        s,
        "3D Volume: 400000000 voxels, 1664 bricks, 1.49 GB uncompressed (F32, Zstd)"
    );
}
