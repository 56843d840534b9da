//! Compression and decompression of brick buffers.
//!
//! Four codecs are provided: a pass-through, a deflate-class byte compressor,
//! a zstd-class compressor, and a byte-run-length codec. A reserved wavelet
//! method identifier round-trips through the method enumeration but is served
//! by the pass-through codec.

use crate::error::VdsError;
use vstd::prelude::*;
use vstd::slice::slice_to_vec;
use vstd::string::StringExecFns;

verus! {

/// Compression methods a volume can store.
#[derive(Debug, Clone, Copy, PartialEq, Eq, Structural)]
pub enum CompressionMethod {
    /// No compression
    Uncompressed,
    /// Deflate/ZIP compression
    Deflate,
    /// Run-length encoding
    RLE,
    /// Zstandard compression
    Zstd,
    /// Wavelet compression (reserved; served by the pass-through codec)
    Wavelet,
}

impl CompressionMethod {
    /// The method stored as the byte `value`, if any.
    pub fn from_u8(value: u8) -> (r: Option<Self>)
        ensures
            value == 0 ==> r == Some(CompressionMethod::Uncompressed),
            value == 1 ==> r == Some(CompressionMethod::Deflate),
            value == 2 ==> r == Some(CompressionMethod::RLE),
            value == 3 ==> r == Some(CompressionMethod::Zstd),
            value == 4 ==> r == Some(CompressionMethod::Wavelet),
            value >= 5 ==> r is None,
    {
        match value {
            0 => Some(CompressionMethod::Uncompressed),
            1 => Some(CompressionMethod::Deflate),
            2 => Some(CompressionMethod::RLE),
            3 => Some(CompressionMethod::Zstd),
            4 => Some(CompressionMethod::Wavelet),
            _ => None,
        }
    }

    /// Display name of the method.
    pub open spec fn spec_label(&self) -> Seq<char> {
        match self {
            CompressionMethod::Uncompressed => "Uncompressed"@,
            CompressionMethod::Deflate => "Deflate"@,
            CompressionMethod::RLE => "RLE"@,
            CompressionMethod::Zstd => "Zstd"@,
            CompressionMethod::Wavelet => "Wavelet"@,
        }
    }

    /// Display name of the method.
    pub fn label(&self) -> (r: &'static str)
        ensures
            r@ == self.spec_label(),
    {
        match self {
            CompressionMethod::Uncompressed => "Uncompressed",
            CompressionMethod::Deflate => "Deflate",
            CompressionMethod::RLE => "RLE",
            CompressionMethod::Zstd => "Zstd",
            CompressionMethod::Wavelet => "Wavelet",
        }
    }

    /// The byte under which this method is stored.
    pub fn to_u8(&self) -> (r: u8)
        ensures
            r == match *self {
                CompressionMethod::Uncompressed => 0int,
                CompressionMethod::Deflate => 1int,
                CompressionMethod::RLE => 2int,
                CompressionMethod::Zstd => 3int,
                CompressionMethod::Wavelet => 4int,
            },
    {
        match self {
            CompressionMethod::Uncompressed => 0,
            CompressionMethod::Deflate => 1,
            CompressionMethod::RLE => 2,
            CompressionMethod::Zstd => 3,
            CompressionMethod::Wavelet => 4,
        }
    }
}

/// Compression level, clamped on construction to the range 0 through 9.
#[derive(Debug, Clone, Copy)]
pub struct CompressionLevel(u8);

impl CompressionLevel {
    /// The level always lies in the clamped range.
    #[verifier::type_invariant]
    closed spec fn level_in_range(self) -> bool {
        self.0 <= 9
    }

    /// The clamped level.
    pub closed spec fn spec_value(&self) -> u8 {
        self.0
    }

    /// Create a level; values above 9 are clamped to 9.
    pub fn new(level: u8) -> (r: Self)
        ensures
            r.spec_value() == if level > 9 {
                9u8
            } else {
                level
            },
    {
        CompressionLevel(if level > 9 {
            9
        } else {
            level
        })
    }

    /// Level 0: no effort spent.
    pub fn none() -> (r: Self)
        ensures
            r.spec_value() == 0,
    {
        CompressionLevel(0)
    }

    /// Level 1: fastest.
    pub fn fast() -> (r: Self)
        ensures
            r.spec_value() == 1,
    {
        CompressionLevel(1)
    }

    /// Level 9: best ratio.
    pub fn best() -> (r: Self)
        ensures
            r.spec_value() == 9,
    {
        CompressionLevel(9)
    }

    /// The level as a number.
    pub fn value(&self) -> (r: u8)
        ensures
            r == self.spec_value(),
    {
        self.0
    }
}

impl Default for CompressionLevel {
    /// The default level, 6.
    fn default() -> (r: Self)
        ensures
            r.spec_value() == 6,
    {
        CompressionLevel(6)
    }
}

/// A compression codec.
///
/// `compress_spec` names the exact bytes the codec produces; `decompress`
/// promises that decoding inverts encoding at every level, so compressing and
/// then decompressing any content returns that content unchanged.
pub trait Compressor: Sized {
    /// The bytes this codec produces for `data` at `level`.
    spec fn compress_spec(&self, data: Seq<u8>, level: int) -> Seq<u8>;

    /// Whether compression always succeeds for this codec.
    spec fn compress_total(&self) -> bool;

    /// Whether this codec's decoder is pinned in full by `decode_spec`.
    spec fn decode_exact(&self) -> bool;

    /// For a codec whose decoder is pinned in full: what decoding yields
    /// for any input at all — the decoded bytes, or nothing where decoding
    /// must fail. Meaningful only where `decode_exact` holds; the
    /// deflate-class and zstd-class decoders are pinned by the round trip
    /// alone.
    spec fn decode_spec(&self, data: Seq<u8>) -> Option<Seq<u8>>;

    /// The method identifier of this codec.
    spec fn method_spec(&self) -> CompressionMethod;

    /// Compress data.
    fn compress(&self, data: &[u8], level: CompressionLevel) -> (r: Result<Vec<u8>, VdsError>)
        ensures
            r is Ok ==> r->Ok_0@ == self.compress_spec(data@, level.spec_value() as int),
            self.compress_total() ==> r is Ok,
            r is Err ==> r->Err_0 is Compression,
    ;

    /// Decompress data. If the input is this codec's encoding of some
    /// content at some level, decoding succeeds and returns that content,
    /// whatever `expected_size` hint is given.
    fn decompress(&self, data: &[u8], expected_size: Option<usize>) -> (r: Result<
        Vec<u8>,
        VdsError,
    >)
        ensures
            forall|x: Seq<u8>, l: int|
                0 <= l <= 9 && data@ == self.compress_spec(x, l) ==> r is Ok && r->Ok_0@ == x,
            self.decode_exact() ==> (r is Ok <==> self.decode_spec(data@) is Some),
            self.decode_exact() && r is Ok ==> Some(r->Ok_0@) == self.decode_spec(data@),
            r is Err ==> r->Err_0 is Decompression,
    ;

    /// The compression method.
    fn method(&self) -> (r: CompressionMethod)
        ensures
            r == self.method_spec(),
    ;
}

/// The pass-through codec.
#[derive(Debug, Default, Clone, Copy)]
pub struct NoneCompressor;

impl Compressor for NoneCompressor {
    open spec fn compress_spec(&self, data: Seq<u8>, level: int) -> Seq<u8> {
        data
    }

    open spec fn compress_total(&self) -> bool {
        true
    }

    open spec fn decode_exact(&self) -> bool {
        true
    }

    open spec fn decode_spec(&self, data: Seq<u8>) -> Option<Seq<u8>> {
        Some(data)
    }

    open spec fn method_spec(&self) -> CompressionMethod {
        CompressionMethod::Uncompressed
    }

    fn compress(&self, data: &[u8], level: CompressionLevel) -> (r: Result<Vec<u8>, VdsError>) {
        Ok(slice_to_vec(data))
    }

    fn decompress(&self, data: &[u8], expected_size: Option<usize>) -> (r: Result<
        Vec<u8>,
        VdsError,
    >) {
        Ok(slice_to_vec(data))
    }

    fn method(&self) -> (r: CompressionMethod) {
        CompressionMethod::Uncompressed
    }
}

/// The bytes that the deflate encoder produces for the given input at the
/// given level.
pub uninterp spec fn deflate_of(data: Seq<u8>, level: int) -> Seq<u8>;

/// Relies on flate2's `DeflateEncoder`: the raw-deflate encoding of the input
/// is a function of the input bytes and the compression level alone, and
/// compressing an in-memory slice into a vector succeeds. Levels above the
/// deflate range are excluded: the backend rejects them.
#[verifier::external_body]
fn deflate_compress(data: &[u8], level: u8) -> (r: Result<Vec<u8>, VdsError>)
    requires
        level <= 9,
    ensures
        r is Ok,
        r->Ok_0@ == deflate_of(data@, level as int),
{
    let mut encoder =
        flate2::read::DeflateEncoder::new(data, flate2::Compression::new(level as u32));
    let mut out = Vec::new();
    match std::io::Read::read_to_end(&mut encoder, &mut out) {
        Ok(_) => Ok(out),
        Err(e) => Err(VdsError::Compression(e.to_string())),
    }
}

/// Relies on flate2's `DeflateDecoder`: decoding inverts `DeflateEncoder`'s
/// encoding at every compression level.
#[verifier::external_body]
fn deflate_decompress(data: &[u8], expected_size: Option<usize>) -> (r: Result<Vec<u8>, VdsError>)
    ensures
        forall|x: Seq<u8>, l: int|
            0 <= l <= 9 && data@ == deflate_of(x, l) ==> r is Ok && r->Ok_0@ == x,
        r is Err ==> r->Err_0 is Decompression,
{
    let mut decoder = flate2::read::DeflateDecoder::new(data);
    let mut out = match expected_size {
        Some(n) => Vec::with_capacity(n),
        None => Vec::new(),
    };
    match std::io::Read::read_to_end(&mut decoder, &mut out) {
        Ok(_) => Ok(out),
        Err(e) => Err(VdsError::Decompression(e.to_string())),
    }
}

/// The deflate-class codec.
#[derive(Debug, Default, Clone, Copy)]
pub struct DeflateCompressor;

impl Compressor for DeflateCompressor {
    open spec fn compress_spec(&self, data: Seq<u8>, level: int) -> Seq<u8> {
        deflate_of(data, level)
    }

    open spec fn compress_total(&self) -> bool {
        true
    }

    open spec fn decode_exact(&self) -> bool {
        false
    }

    open spec fn decode_spec(&self, data: Seq<u8>) -> Option<Seq<u8>> {
        Option::None
    }

    open spec fn method_spec(&self) -> CompressionMethod {
        CompressionMethod::Deflate
    }

    fn compress(&self, data: &[u8], level: CompressionLevel) -> (r: Result<Vec<u8>, VdsError>) {
        proof {
            use_type_invariant(level);
        }
        deflate_compress(data, level.value())
    }

    fn decompress(&self, data: &[u8], expected_size: Option<usize>) -> (r: Result<
        Vec<u8>,
        VdsError,
    >) {
        deflate_decompress(data, expected_size)
    }

    fn method(&self) -> (r: CompressionMethod) {
        CompressionMethod::Deflate
    }
}

/// The bytes that the zstd encoder produces for the given input at the given
/// level.
pub uninterp spec fn zstd_of(data: Seq<u8>, level: int) -> Seq<u8>;

/// Relies on zstd's `encode_all`: the zstd frame written for the input is a
/// function of the input bytes and the compression level alone, and encoding
/// an in-memory slice into a vector succeeds (out-of-range levels would be
/// clamped, not rejected).
#[verifier::external_body]
fn zstd_compress(data: &[u8], level: u8) -> (r: Result<Vec<u8>, VdsError>)
    requires
        level <= 9,
    ensures
        r is Ok,
        r->Ok_0@ == zstd_of(data@, level as int),
{
    match zstd::encode_all(data, level as i32) {
        Ok(out) => Ok(out),
        Err(e) => Err(VdsError::Compression(e.to_string())),
    }
}

/// Relies on zstd's `decode_all`: decoding a zstd frame inverts `encode_all`
/// at every compression level.
#[verifier::external_body]
fn zstd_decompress(data: &[u8]) -> (r: Result<Vec<u8>, VdsError>)
    ensures
        forall|x: Seq<u8>, l: int|
            0 <= l <= 9 && data@ == zstd_of(x, l) ==> r is Ok && r->Ok_0@ == x,
        r is Err ==> r->Err_0 is Decompression,
{
    match zstd::decode_all(data) {
        Ok(out) => Ok(out),
        Err(e) => Err(VdsError::Decompression(e.to_string())),
    }
}

/// The zstd-class codec.
#[derive(Debug, Default, Clone, Copy)]
pub struct ZstdCompressor;

impl Compressor for ZstdCompressor {
    open spec fn compress_spec(&self, data: Seq<u8>, level: int) -> Seq<u8> {
        zstd_of(data, level)
    }

    open spec fn compress_total(&self) -> bool {
        true
    }

    open spec fn decode_exact(&self) -> bool {
        false
    }

    open spec fn decode_spec(&self, data: Seq<u8>) -> Option<Seq<u8>> {
        Option::None
    }

    open spec fn method_spec(&self) -> CompressionMethod {
        CompressionMethod::Zstd
    }

    fn compress(&self, data: &[u8], level: CompressionLevel) -> (r: Result<Vec<u8>, VdsError>) {
        proof {
            use_type_invariant(level);
        }
        zstd_compress(data, level.value())
    }

    fn decompress(&self, data: &[u8], expected_size: Option<usize>) -> (r: Result<
        Vec<u8>,
        VdsError,
    >) {
        zstd_decompress(data)
    }

    fn method(&self) -> (r: CompressionMethod) {
        CompressionMethod::Zstd
    }
}

/// Length of the initial run of equal bytes of a non-empty sequence.
pub open spec fn max_run(data: Seq<u8>) -> int
    decreases data.len(),
{
    if data.len() == 0 {
        0
    } else if data.len() >= 2 && data[1] == data[0] {
        1 + max_run(data.drop_first())
    } else {
        1
    }
}

/// The initial run capped at 255, the largest count one byte can carry.
pub open spec fn run_of(data: Seq<u8>) -> int {
    if max_run(data) > 255 {
        255
    } else {
        max_run(data)
    }
}

/// The run-length encoding of `data`: each maximal run of equal bytes, capped
/// at 255, becomes a `(count, value)` pair.
pub open spec fn rle_encode(data: Seq<u8>) -> Seq<u8>
    decreases data.len(),
    via rle_encode_decreases
{
    if data.len() == 0 {
        Seq::empty()
    } else {
        seq![run_of(data) as u8, data[0]] + rle_encode(data.skip(run_of(data)))
    }
}

#[via_fn]
proof fn rle_encode_decreases(data: Seq<u8>) {
    if data.len() > 0 {
        lemma_max_run_basics(data);
    }
}

/// The run-length decoding of `data`: `None` for odd-length input, else the
/// concatenation of each pair's run.
pub open spec fn rle_decode(data: Seq<u8>) -> Option<Seq<u8>>
    decreases data.len(),
{
    if data.len() % 2 != 0 {
        None
    } else if data.len() == 0 {
        Some(Seq::empty())
    } else {
        match rle_decode(data.skip(2)) {
            Option::None => Option::None,
            Some(rest) => Some(Seq::new(data[0] as nat, |i: int| data[1]) + rest),
        }
    }
}

/// The initial run of a non-empty sequence is between one and the sequence's
/// length, and every byte of it equals the first.
pub proof fn lemma_max_run_basics(data: Seq<u8>)
    requires
        data.len() >= 1,
    ensures
        1 <= max_run(data) <= data.len(),
        forall|j: int| 0 <= j < max_run(data) ==> #[trigger] data[j] == data[0],
        max_run(data) < data.len() ==> data[max_run(data)] != data[0],
    decreases data.len(),
{
    if data.len() >= 2 && data[1] == data[0] {
        lemma_max_run_basics(data.drop_first());
        assert(forall|j: int|
            0 <= j < max_run(data.drop_first()) ==> #[trigger] data.drop_first()[j]
                == data.drop_first()[0]);
        assert forall|j: int| 0 <= j < max_run(data) implies #[trigger] data[j] == data[0] by {
            if j >= 1 {
                assert(data.drop_first()[j - 1] == data.drop_first()[0]);
            }
        }
        if max_run(data) < data.len() {
            assert(data.drop_first()[max_run(data) - 1] != data.drop_first()[0]);
        }
    }
}

/// A run is exactly `m` long when the first `m` bytes equal the first byte
/// and the byte after them (if any) differs.
pub proof fn lemma_max_run_characterize(data: Seq<u8>, m: int)
    requires
        1 <= m <= data.len(),
        forall|j: int| 0 <= j < m ==> #[trigger] data[j] == data[0],
        m < data.len() ==> data[m] != data[0],
    ensures
        max_run(data) == m,
    decreases data.len(),
{
    if data.len() >= 2 && data[1] == data[0] {
        assert(m >= 2) by {
            if m == 1 {
                assert(data[1] != data[0]);
            }
        }
        assert(forall|j: int| 0 <= j < m - 1 ==> #[trigger] data.drop_first()[j] == data.drop_first()[0]);
        assert(m - 1 < data.drop_first().len() ==> data.drop_first()[m - 1]
            != data.drop_first()[0]);
        lemma_max_run_characterize(data.drop_first(), m - 1);
    } else {
        if data.len() >= 2 {
            assert(data[1] != data[0]);
            assert(m == 1) by {
                if m >= 2 {
                    assert(data[1] == data[0]);
                }
            }
        }
    }
}

/// If the first `m` bytes all equal the first byte, the run is at least `m`
/// long.
pub proof fn lemma_max_run_at_least(data: Seq<u8>, m: int)
    requires
        1 <= m <= data.len(),
        forall|j: int| 0 <= j < m ==> #[trigger] data[j] == data[0],
    ensures
        max_run(data) >= m,
    decreases data.len(),
{
    lemma_max_run_basics(data);
    if m >= 2 {
        assert(data[1] == data[0]);
        assert forall|j: int| 0 <= j < m - 1 implies #[trigger] data.drop_first()[j]
            == data.drop_first()[0] by {
            assert(data[j + 1] == data[0]);
        }
        lemma_max_run_at_least(data.drop_first(), m - 1);
        lemma_max_run_basics(data.drop_first());
        assert(max_run(data) == 1 + max_run(data.drop_first()));
    }
}

/// A run-length encoding always has even length.
pub proof fn lemma_rle_encode_even(data: Seq<u8>)
    ensures
        rle_encode(data).len() % 2 == 0,
    decreases data.len(),
{
    if data.len() > 0 {
        lemma_max_run_basics(data);
        lemma_rle_encode_even(data.skip(run_of(data)));
    }
}

/// Decoding inverts encoding: the run-length decoding of the run-length
/// encoding of any byte content is that content.
pub proof fn lemma_rle_round_trip(data: Seq<u8>)
    ensures
        rle_decode(rle_encode(data)) == Some(data),
    decreases data.len(),
{
    if data.len() == 0 {
        assert(rle_encode(data).len() == 0);
        assert(data =~= Seq::<u8>::empty());
    } else {
        lemma_max_run_basics(data);
        let n = run_of(data);
        let enc = rle_encode(data);
        let tail_enc = rle_encode(data.skip(n));
        lemma_rle_round_trip(data.skip(n));
        lemma_rle_encode_even(data.skip(n));
        assert(enc == seq![n as u8, data[0]] + tail_enc);
        assert(enc.len() == 2 + tail_enc.len());
        assert(enc.len() % 2 == 0);
        assert(enc.skip(2) =~= tail_enc);
        assert(enc[0] == n as u8);
        assert(enc[1] == data[0]);
        assert(1 <= n <= 255);
        assert((n as u8) as nat == n as nat);
        assert(rle_decode(enc) == Some(
            Seq::new(n as nat, |i: int| data[0]) + data.skip(n),
        ));
        assert(Seq::new(n as nat, |i: int| data[0]) + data.skip(n) =~= data);
    }
}

/// Run-length encodings of even length always decode.
pub proof fn lemma_rle_decode_even_some(data: Seq<u8>)
    requires
        data.len() % 2 == 0,
    ensures
        rle_decode(data) is Some,
    decreases data.len(),
{
    if data.len() > 0 {
        lemma_rle_decode_even_some(data.skip(2));
    }
}

/// The byte-run-length codec: runs of up to 255 equal bytes become
/// `(count, value)` pairs.
#[derive(Debug, Default, Clone, Copy)]
pub struct RLECompressor;

impl RLECompressor {
    /// Encode `data` as `(count, value)` pairs, one per run of equal bytes,
    /// runs capped at 255.
    pub fn compress_internal(data: &[u8]) -> (r: Vec<u8>)
        ensures
            r@ == rle_encode(data@),
    {
        let mut out: Vec<u8> = Vec::new();
        let mut i: usize = 0;
        let n = data.len();
        proof {
            assert(data@.skip(0) =~= data@);
        }
        while i < n
            invariant
                0 <= i <= n,
                n == data@.len(),
                rle_encode(data@) =~= out@ + rle_encode(data@.skip(i as int)),
            decreases n - i,
        {
            let byte = data[i];
            let mut count: usize = 1;
            while i + count < n && data[i + count] == byte && count < 255
                invariant
                    0 <= i < n,
                    n == data@.len(),
                    1 <= count <= 255,
                    i + count <= n,
                    byte == data@[i as int],
                    forall|j: int| 0 <= j < count ==> #[trigger] data@[i + j] == byte,
                decreases n - i - count,
            {
                count = count + 1;
            }
            proof {
                let rest = data@.skip(i as int);
                assert(rest.len() == data@.len() - i);
                assert(rest[0] == byte);
                assert forall|j: int| 0 <= j < count implies #[trigger] rest[j] == rest[0] by {
                    assert(rest[j] == data@[i + j]);
                    assert(data@[i + j] == byte);
                }
                lemma_max_run_basics(rest);
                if i + count == data@.len() {
                    lemma_max_run_characterize(rest, count as int);
                    assert(run_of(rest) == count);
                } else if count == 255 {
                    lemma_max_run_at_least(rest, 255);
                    assert(run_of(rest) == 255);
                } else {
                    assert(data@[i + count] != byte);
                    assert(rest[count as int] != rest[0]);
                    lemma_max_run_characterize(rest, count as int);
                    assert(run_of(rest) == count);
                }
                assert(rle_encode(rest) == seq![count as u8, byte] + rle_encode(
                    rest.skip(count as int),
                ));
                assert(rest.skip(count as int) =~= data@.skip(i + count));
            }
            out.push(count as u8);
            out.push(byte);
            i = i + count;
        }
        proof {
            assert(data@.skip(i as int) =~= Seq::<u8>::empty());
            assert(rle_encode(data@) =~= out@);
        }
        out
    }

    /// Decode `(count, value)` pairs; fails on odd-length input.
    pub fn decompress_internal(data: &[u8]) -> (r: Result<Vec<u8>, VdsError>)
        ensures
            r is Ok <==> data@.len() % 2 == 0,
            r is Ok ==> Some(r->Ok_0@) == rle_decode(data@),
            r is Err ==> r->Err_0 is Decompression,
    {
        if data.len() % 2 != 0 {
            return Err(
                VdsError::Decompression(String::from_str("RLE data must have even length")),
            );
        }
        let mut out: Vec<u8> = Vec::new();
        let mut i: usize = 0;
        proof {
            assert(data@.skip(0) =~= data@);
            lemma_rle_decode_even_some(data@);
        }
        while i < data.len()
            invariant
                0 <= i <= data@.len(),
                i % 2 == 0,
                data@.len() % 2 == 0,
                rle_decode(data@.skip(i as int)) is Some,
                rle_decode(data@) == Some(out@ + rle_decode(data@.skip(i as int))->0),
            decreases data@.len() - i,
        {
            let count = data[i];
            let value = data[i + 1];
            let ghost rest = data@.skip(i as int);
            let ghost out_pre = out@;
            let mut j: usize = 0;
            while j < count as usize
                invariant
                    0 <= j <= count,
                    out@ =~= out_pre + Seq::new(j as nat, |t: int| value),
                decreases count - j,
            {
                out.push(value);
                j = j + 1;
            }
            proof {
                assert(rest.len() >= 2);
                assert(rest[0] == count);
                assert(rest[1] == value);
                assert(rest.len() % 2 == 0);
                lemma_rle_decode_even_some(rest.skip(2));
                assert(rle_decode(rest) == Some(
                    Seq::new(count as nat, |t: int| value) + rle_decode(rest.skip(2))->0,
                ));
                assert(rest.skip(2) =~= data@.skip(i + 2));
                assert(out@ + rle_decode(data@.skip(i + 2))->0 =~= out_pre + rle_decode(rest)->0);
            }
            i = i + 2;
        }
        proof {
            assert(data@.skip(i as int) =~= Seq::<u8>::empty());
            assert(out@ + rle_decode(data@.skip(i as int))->0 =~= out@);
        }
        Ok(out)
    }
}

impl Compressor for RLECompressor {
    open spec fn compress_spec(&self, data: Seq<u8>, level: int) -> Seq<u8> {
        rle_encode(data)
    }

    open spec fn compress_total(&self) -> bool {
        true
    }

    open spec fn decode_exact(&self) -> bool {
        true
    }

    open spec fn decode_spec(&self, data: Seq<u8>) -> Option<Seq<u8>> {
        rle_decode(data)
    }

    open spec fn method_spec(&self) -> CompressionMethod {
        CompressionMethod::RLE
    }

    fn compress(&self, data: &[u8], level: CompressionLevel) -> (r: Result<Vec<u8>, VdsError>) {
        Ok(Self::compress_internal(data))
    }

    fn decompress(&self, data: &[u8], expected_size: Option<usize>) -> (r: Result<
        Vec<u8>,
        VdsError,
    >) {
        let r = Self::decompress_internal(data);
        proof {
            if data@.len() % 2 == 0 {
                lemma_rle_decode_even_some(data@);
            }
            assert forall|x: Seq<u8>, l: int|
                0 <= l <= 9 && data@ == self.compress_spec(x, l) implies r is Ok && r->Ok_0@
                == x by {
                lemma_rle_encode_even(x);
                lemma_rle_round_trip(x);
            }
        }
        r
    }

    fn method(&self) -> (r: CompressionMethod) {
        CompressionMethod::RLE
    }
}

/// A codec chosen at run time by its stored method identifier. This stands
/// in for a trait object, which the verifier does not support.
#[derive(Debug, Clone, Copy)]
pub enum AnyCompressor {
    /// The pass-through codec
    Uncompressed(NoneCompressor),
    /// The deflate-class codec
    Deflate(DeflateCompressor),
    /// The run-length codec
    Rle(RLECompressor),
    /// The zstd-class codec
    Zstd(ZstdCompressor),
}

impl Compressor for AnyCompressor {
    open spec fn compress_spec(&self, data: Seq<u8>, level: int) -> Seq<u8> {
        match self {
            AnyCompressor::Uncompressed(c) => c.compress_spec(data, level),
            AnyCompressor::Deflate(c) => c.compress_spec(data, level),
            AnyCompressor::Rle(c) => c.compress_spec(data, level),
            AnyCompressor::Zstd(c) => c.compress_spec(data, level),
        }
    }

    open spec fn compress_total(&self) -> bool {
        match self {
            AnyCompressor::Uncompressed(c) => c.compress_total(),
            AnyCompressor::Deflate(c) => c.compress_total(),
            AnyCompressor::Rle(c) => c.compress_total(),
            AnyCompressor::Zstd(c) => c.compress_total(),
        }
    }

    open spec fn decode_exact(&self) -> bool {
        match self {
            AnyCompressor::Uncompressed(c) => c.decode_exact(),
            AnyCompressor::Deflate(c) => c.decode_exact(),
            AnyCompressor::Rle(c) => c.decode_exact(),
            AnyCompressor::Zstd(c) => c.decode_exact(),
        }
    }

    open spec fn decode_spec(&self, data: Seq<u8>) -> Option<Seq<u8>> {
        match self {
            AnyCompressor::Uncompressed(c) => c.decode_spec(data),
            AnyCompressor::Deflate(c) => c.decode_spec(data),
            AnyCompressor::Rle(c) => c.decode_spec(data),
            AnyCompressor::Zstd(c) => c.decode_spec(data),
        }
    }

    open spec fn method_spec(&self) -> CompressionMethod {
        match self {
            AnyCompressor::Uncompressed(c) => c.method_spec(),
            AnyCompressor::Deflate(c) => c.method_spec(),
            AnyCompressor::Rle(c) => c.method_spec(),
            AnyCompressor::Zstd(c) => c.method_spec(),
        }
    }

    fn compress(&self, data: &[u8], level: CompressionLevel) -> (r: Result<Vec<u8>, VdsError>) {
        match self {
            AnyCompressor::Uncompressed(c) => c.compress(data, level),
            AnyCompressor::Deflate(c) => c.compress(data, level),
            AnyCompressor::Rle(c) => c.compress(data, level),
            AnyCompressor::Zstd(c) => c.compress(data, level),
        }
    }

    fn decompress(&self, data: &[u8], expected_size: Option<usize>) -> (r: Result<
        Vec<u8>,
        VdsError,
    >) {
        match self {
            AnyCompressor::Uncompressed(c) => c.decompress(data, expected_size),
            AnyCompressor::Deflate(c) => c.decompress(data, expected_size),
            AnyCompressor::Rle(c) => c.decompress(data, expected_size),
            AnyCompressor::Zstd(c) => c.decompress(data, expected_size),
        }
    }

    fn method(&self) -> (r: CompressionMethod) {
        match self {
            AnyCompressor::Uncompressed(c) => c.method(),
            AnyCompressor::Deflate(c) => c.method(),
            AnyCompressor::Rle(c) => c.method(),
            AnyCompressor::Zstd(c) => c.method(),
        }
    }
}

/// The codec that serves a stored compression method. The reserved wavelet
/// method is served by the pass-through codec.
pub fn get_compressor(method: CompressionMethod) -> (r: AnyCompressor)
    ensures
        method is Uncompressed ==> r == AnyCompressor::Uncompressed(NoneCompressor),
        method is Deflate ==> r == AnyCompressor::Deflate(DeflateCompressor),
        method is RLE ==> r == AnyCompressor::Rle(RLECompressor),
        method is Zstd ==> r == AnyCompressor::Zstd(ZstdCompressor),
        method is Wavelet ==> r == AnyCompressor::Uncompressed(NoneCompressor),
{
    match method {
        CompressionMethod::Uncompressed => AnyCompressor::Uncompressed(NoneCompressor),
        CompressionMethod::Deflate => AnyCompressor::Deflate(DeflateCompressor),
        CompressionMethod::RLE => AnyCompressor::Rle(RLECompressor),
        CompressionMethod::Zstd => AnyCompressor::Zstd(ZstdCompressor),
        CompressionMethod::Wavelet => AnyCompressor::Uncompressed(NoneCompressor),
    }
}

} // verus!
