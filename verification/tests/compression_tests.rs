use openvds::compression::{
    get_compressor, AnyCompressor, CompressionLevel, CompressionMethod, Compressor,
    DeflateCompressor, NoneCompressor, RLECompressor, ZstdCompressor,
};
use openvds::VdsError;

#[test]
fn test_no_compression() {
    let compressor = NoneCompressor;
    let data = b"Hello, world!";
    let compressed = compressor
        .compress(data, CompressionLevel::default())
        .unwrap();
    assert_eq!(compressed, data);
    let decompressed = compressor.decompress(&compressed, None).unwrap();
    assert_eq!(decompressed, data);
}

#[test]
fn test_deflate() {
    let compressor = DeflateCompressor;
    let data = b"Hello, world! ".repeat(100);
    let compressed = compressor
        .compress(&data, CompressionLevel::default())
        .unwrap();
    assert!(compressed.len() < data.len());
    let decompressed = compressor
        .decompress(&compressed, Some(data.len()))
        .unwrap();
    assert_eq!(decompressed, data);
}

#[test]
fn test_zstd() {
    let compressor = ZstdCompressor;
    let data = b"Hello, world! ".repeat(100);
    let compressed = compressor
        .compress(&data, CompressionLevel::default())
        .unwrap();
    assert!(compressed.len() < data.len());
    let decompressed = compressor.decompress(&compressed, None).unwrap();
    assert_eq!(decompressed, data);
}

#[test]
fn test_rle() {
    let compressor = RLECompressor;
    let data = vec![1u8; 100];
    let compressed = compressor
        .compress(&data, CompressionLevel::default())
        .unwrap();
    assert!(compressed.len() < data.len());
    let decompressed = compressor.decompress(&compressed, None).unwrap();
    assert_eq!(decompressed, data);
}

#[test]
fn test_rle_mixed() {
    let compressor = RLECompressor;
    let mut data = vec![1u8; 50];
    data.extend(vec![2u8; 50]);
    let compressed = compressor
        .compress(&data, CompressionLevel::default())
        .unwrap();
    let decompressed = compressor.decompress(&compressed, None).unwrap();
    assert_eq!(decompressed, data);
}

/// A small deterministic generator for incompressible test input.
fn pseudo_random_bytes(len: usize, seed: u64) -> Vec<u8> {
    let mut x: u64 = seed;
    (0..len)
        .map(|_| {
            x = x
                .wrapping_mul(6364136223846793005)
                .wrapping_add(1442695040888963407);
            (x >> 33) as u8
        })
        .collect()
}

fn all_codecs() -> Vec<AnyCompressor> {
    vec![
        get_compressor(CompressionMethod::Uncompressed),
        get_compressor(CompressionMethod::Deflate),
        get_compressor(CompressionMethod::RLE),
        get_compressor(CompressionMethod::Zstd),
        get_compressor(CompressionMethod::Wavelet),
    ]
}

#[test]
fn test_round_trip_empty_input() {
    for codec in all_codecs() {
        let compressed = codec.compress(&[], CompressionLevel::default()).unwrap();
        let decompressed = codec.decompress(&compressed, None).unwrap();
        assert_eq!(decompressed, Vec::<u8>::new());
    }
}

#[test]
fn test_round_trip_uniform_input() {
    for codec in all_codecs() {
        for len in 0..=300usize {
            let data = vec![7u8; len];
            let compressed = codec.compress(&data, CompressionLevel::default()).unwrap();
            let decompressed = codec.decompress(&compressed, None).unwrap();
            assert_eq!(decompressed, data);
        }
    }
}

#[test]
fn test_round_trip_random_input() {
    let data = pseudo_random_bytes(4096, 0x1234_5678_9abc_def0);
    for codec in all_codecs() {
        let compressed = codec.compress(&data, CompressionLevel::default()).unwrap();
        let decompressed = codec.decompress(&compressed, Some(data.len())).unwrap();
        assert_eq!(decompressed, data);
    }
}

#[test]
fn test_round_trip_all_levels() {
    let data = b"abcabcabc".repeat(37);
    for codec in all_codecs() {
        for level in 0..=9u8 {
            let compressed = codec.compress(&data, CompressionLevel::new(level)).unwrap();
            let decompressed = codec.decompress(&compressed, None).unwrap();
            assert_eq!(decompressed, data);
        }
    }
}

#[test]
fn test_rle_odd_length_fails() {
    let compressor = RLECompressor;
    let result = compressor.decompress(&[3u8, 1u8, 2u8], None);
    assert!(matches!(result, Err(VdsError::Decompression(_))));
}

#[test]
fn test_rle_hundred_byte_run() {
    let compressor = RLECompressor;
    let data = vec![42u8; 100];
    let compressed = compressor
        .compress(&data, CompressionLevel::default())
        .unwrap();
    assert_eq!(compressed, vec![100u8, 42u8]);
    let decompressed = compressor.decompress(&compressed, None).unwrap();
    assert_eq!(decompressed, data);
}

#[test]
fn test_rle_run_cap() {
    let compressor = RLECompressor;
    let data = vec![9u8; 300];
    let compressed = compressor
        .compress(&data, CompressionLevel::default())
        .unwrap();
    assert_eq!(compressed, vec![255u8, 9u8, 45u8, 9u8]);
    let decompressed = compressor.decompress(&compressed, None).unwrap();
    assert_eq!(decompressed, data);
}

#[test]
fn test_wavelet_is_pass_through() {
    let codec = get_compressor(CompressionMethod::Wavelet);
    let data = b"not actually wavelet-compressed";
    let compressed = codec.compress(data, CompressionLevel::default()).unwrap();
    assert_eq!(compressed, data);
    assert_eq!(codec.method(), CompressionMethod::Uncompressed);
}

#[test]
fn test_method_from_u8() {
    assert_eq!(
        CompressionMethod::from_u8(0),
        Some(CompressionMethod::Uncompressed)
    );
    assert_eq!(
        CompressionMethod::from_u8(1),
        Some(CompressionMethod::Deflate)
    );
    assert_eq!(CompressionMethod::from_u8(2), Some(CompressionMethod::RLE));
    assert_eq!(CompressionMethod::from_u8(3), Some(CompressionMethod::Zstd));
    assert_eq!(
        CompressionMethod::from_u8(4),
        Some(CompressionMethod::Wavelet)
    );
    assert_eq!(CompressionMethod::from_u8(5), None);
    for v in 0..=4u8 {
        assert_eq!(CompressionMethod::from_u8(v).unwrap().to_u8(), v);
    }
}

#[test]
fn test_compression_level_clamp() {
    assert_eq!(CompressionLevel::new(4).value(), 4);
    assert_eq!(CompressionLevel::new(12).value(), 9);
    assert_eq!(CompressionLevel::none().value(), 0);
    assert_eq!(CompressionLevel::fast().value(), 1);
    assert_eq!(CompressionLevel::best().value(), 9);
    assert_eq!(CompressionLevel::default().value(), 6);
}

#[test]
fn test_rle_decodes_any_even_input() {
    let compressor = RLECompressor;
    // arbitrary (count, value) pairs, not produced by the encoder
    let decoded = compressor.decompress(&[3u8, 7u8, 0u8, 1u8, 2u8, 9u8], None).unwrap();
    assert_eq!(decoded, vec![7u8, 7, 7, 9, 9]);
}
