//! Volume metadata: the persisted descriptor a volume is opened with.
//!
//! Timestamps are carried as Unix milliseconds. The embedding application
//! owns the JSON document this metadata is persisted as, together with the
//! display-only floating-point fields of that document (compression
//! tolerance and declared value range); everything the engine's logic reads
//! lives here.

use crate::compression::CompressionMethod;
use crate::layout::VolumeDataLayout;
use std::collections::HashMap;
use vstd::prelude::*;
use vstd::string::StringExecFns;

verus! {

/// Volume format version. Two volumes are compatible exactly when their
/// major versions match.
#[derive(Debug, Clone, Copy, PartialEq, Eq, Structural)]
pub struct VdsVersion {
    /// Major version; a mismatch makes two volumes incompatible
    pub major: u16,
    /// Minor version; informational
    pub minor: u16,
}

impl VdsVersion {
    /// Create a version.
    pub fn new(major: u16, minor: u16) -> (r: Self)
        ensures
            r.major == major,
            r.minor == minor,
    {
        VdsVersion { major, minor }
    }

    /// Two versions are compatible iff their major versions match.
    pub fn is_compatible(&self, other: &Self) -> (r: bool)
        ensures
            r == (self.major == other.major),
    {
        self.major == other.major
    }
}

impl Default for VdsVersion {
    /// The current format version.
    fn default() -> (r: Self)
        ensures
            r.major == 3,
            r.minor == 0,
    {
        VdsVersion { major: 3, minor: 0 }
    }
}

/// The value stored under `key` in an attribute list, taking the latest
/// entry when a key was set more than once.
pub open spec fn assoc_lookup(entries: Seq<(String, String)>, key: Seq<char>) -> Option<Seq<char>>
    decreases entries.len(),
{
    if entries.len() == 0 {
        Option::None
    } else if entries.last().0@ == key {
        Some(entries.last().1@)
    } else {
        assoc_lookup(entries.drop_last(), key)
    }
}

/// Relies on std's `SystemTime::now`: the current wall-clock time in Unix
/// milliseconds. A clock reading before the Unix epoch, or beyond the range
/// of the result, saturates instead of failing, so the call is total.
/// Nothing is promised of the value, which depends on when the call runs.
#[verifier::external_body]
fn now_millis() -> i64 {
    match std::time::SystemTime::now().duration_since(std::time::UNIX_EPOCH) {
        Ok(since_epoch) => i64::try_from(since_epoch.as_millis()).unwrap_or(i64::MAX),
        Err(_) => 0,
    }
}

/// Complete metadata for a volume.
#[derive(Debug, Clone)]
pub struct VdsMetadata {
    /// Format version
    pub version: VdsVersion,
    /// Volume data layout
    pub layout: VolumeDataLayout,
    /// Compression method used for bricks
    pub compression: CompressionMethod,
    /// Creation timestamp, Unix milliseconds
    pub created_at: i64,
    /// Last modification timestamp, Unix milliseconds
    pub modified_at: i64,
    /// Custom metadata key-value pairs, in insertion order; the latest entry
    /// for a key wins
    pub custom_metadata: Vec<(String, String)>,
    /// Survey/acquisition metadata, for seismic data
    pub survey_metadata: Option<SurveyMetadata>,
}

impl VdsMetadata {
    /// Create new metadata for a layout: the current format version, zstd
    /// compression, both timestamps set to now, and no custom or survey
    /// metadata.
    pub fn new(layout: VolumeDataLayout) -> (r: Self)
        ensures
            r.version.major == 3 && r.version.minor == 0,
            r.layout == layout,
            r.compression is Zstd,
            r.created_at == r.modified_at,
            r.custom_metadata@.len() == 0,
            r.survey_metadata is None,
    {
        let now = now_millis();
        VdsMetadata {
            version: VdsVersion::default(),
            layout,
            compression: CompressionMethod::Zstd,
            created_at: now,
            modified_at: now,
            custom_metadata: Vec::new(),
            survey_metadata: None,
        }
    }

    /// Set the compression method.
    pub fn with_compression(self, method: CompressionMethod) -> (r: Self)
        ensures
            r == (VdsMetadata { compression: method, ..self }),
    {
        VdsMetadata { compression: method, ..self }
    }

    /// Set the survey metadata.
    pub fn with_survey_metadata(self, survey: SurveyMetadata) -> (r: Self)
        ensures
            r == (VdsMetadata { survey_metadata: Some(survey), ..self }),
    {
        VdsMetadata { survey_metadata: Some(survey), ..self }
    }

    /// Add a custom metadata entry; a later entry for the same key
    /// supersedes an earlier one.
    pub fn add_metadata(&mut self, key: &str, value: &str)
        ensures
            final(self).custom_metadata@.len() == old(self).custom_metadata@.len() + 1,
            final(self).custom_metadata@.drop_last() == old(self).custom_metadata@,
            final(self).custom_metadata@.last().0@ == key@,
            final(self).custom_metadata@.last().1@ == value@,
            final(self).version == old(self).version,
            final(self).layout == old(self).layout,
            final(self).compression == old(self).compression,
            final(self).created_at == old(self).created_at,
            final(self).modified_at == old(self).modified_at,
            final(self).survey_metadata == old(self).survey_metadata,
            assoc_lookup(final(self).custom_metadata@, key@) == Some(value@),
    {
        let k = String::from_str(key);
        let v = String::from_str(value);
        proof {
            let pushed = old(self).custom_metadata@.push((k, v));
            assert(pushed.last() == (k, v));
            assert(k@ == key@);
        }
        self.custom_metadata.push((k, v));
        proof {
            assert(self.custom_metadata@.drop_last() =~= old(self).custom_metadata@);
        }
    }

    /// Look up a custom metadata entry; the latest entry for the key wins.
    pub fn get_metadata(&self, key: &str) -> (r: Option<&str>)
        ensures
            r is Some <==> assoc_lookup(self.custom_metadata@, key@) is Some,
            r is Some ==> Some(r->0@) == assoc_lookup(self.custom_metadata@, key@),
    {
        let k = String::from_str(key);
        let n = self.custom_metadata.len();
        let mut i: usize = n;
        proof {
            assert(self.custom_metadata@.subrange(0, n as int) =~= self.custom_metadata@);
        }
        while i > 0
            invariant
                0 <= i <= n,
                n == self.custom_metadata@.len(),
                k@ == key@,
                assoc_lookup(self.custom_metadata@, key@) == assoc_lookup(
                    self.custom_metadata@.subrange(0, i as int),
                    key@,
                ),
            decreases i,
        {
            let entry = &self.custom_metadata[i - 1];
            proof {
                let pre = self.custom_metadata@.subrange(0, i as int);
                assert(pre.last() == self.custom_metadata@[i - 1]);
                assert(pre.drop_last() =~= self.custom_metadata@.subrange(0, i - 1));
            }
            if entry.0.eq(&k) {
                proof {
                    assert(entry.0@ == key@);
                }
                return Some(entry.1.as_str());
            }
            proof {
                assert(self.custom_metadata@[i - 1].0@ != key@);
            }
            i = i - 1;
        }
        proof {
            assert(self.custom_metadata@.subrange(0, 0) =~= Seq::<(String, String)>::empty());
        }
        None
    }

    /// Set the modification timestamp to the given clock reading; every
    /// other field is unchanged.
    pub fn set_modified_at(&mut self, now_ms: i64)
        ensures
            final(self).modified_at == now_ms,
            final(self).version == old(self).version,
            final(self).layout == old(self).layout,
            final(self).compression == old(self).compression,
            final(self).created_at == old(self).created_at,
            final(self).custom_metadata == old(self).custom_metadata,
            final(self).survey_metadata == old(self).survey_metadata,
    {
        self.modified_at = now_ms;
    }

    /// Update the modification timestamp to now: read the clock and hand
    /// the reading to [`Self::set_modified_at`], which pins the effect. The
    /// clock value itself cannot be promised here.
    pub fn touch(&mut self)
        ensures
            final(self).version == old(self).version,
            final(self).layout == old(self).layout,
            final(self).compression == old(self).compression,
            final(self).created_at == old(self).created_at,
            final(self).custom_metadata == old(self).custom_metadata,
            final(self).survey_metadata == old(self).survey_metadata,
    {
        let now = now_millis();
        self.set_modified_at(now);
    }
}

/// Survey/acquisition metadata for seismic data. Dates are Unix
/// milliseconds.
#[derive(Debug, Clone)]
pub struct SurveyMetadata {
    /// Survey name
    pub survey_name: String,
    /// Survey type (e.g., "3D Seismic", "2D Seismic")
    pub survey_type: String,
    /// Acquisition date, Unix milliseconds
    pub acquisition_date: Option<i64>,
    /// Processing date, Unix milliseconds
    pub processing_date: Option<i64>,
    /// Company/contractor
    pub company: Option<String>,
    /// Geographic coordinate system
    pub coordinate_system: Option<String>,
    /// SEG-Y specific metadata
    pub segy_metadata: Option<SegyMetadata>,
}

/// SEG-Y specific metadata.
#[derive(Debug, Clone)]
pub struct SegyMetadata {
    /// SEG-Y revision
    pub revision: u16,
    /// Text header lines
    pub text_header: Vec<String>,
    /// Binary header fields
    pub binary_header: HashMap<String, i32>,
    /// Trace header mappings
    pub trace_header_mappings: HashMap<String, String>,
}

impl SegyMetadata {
    /// Create empty SEG-Y metadata for a revision.
    pub fn new(revision: u16) -> (r: Self)
        ensures
            r.revision == revision,
            r.text_header@.len() == 0,
            r.binary_header@ == Map::<String, i32>::empty(),
            r.trace_header_mappings@ == Map::<String, String>::empty(),
    {
        SegyMetadata {
            revision,
            text_header: Vec::new(),
            binary_header: HashMap::new(),
            trace_header_mappings: HashMap::new(),
        }
    }
}

/// Bookkeeping about one stored brick.
#[derive(Debug, Clone)]
pub struct BrickMetadata {
    /// Linear brick index in the volume
    pub index: usize,
    /// Compressed size in bytes
    pub compressed_size: usize,
    /// Uncompressed size in bytes
    pub uncompressed_size: usize,
    /// Offset in the brick file, for packed formats
    pub offset: Option<u64>,
    /// Checksum of the brick's bytes
    pub checksum: Option<u32>,
}

impl BrickMetadata {
    /// Record a brick's sizes; offset and checksum start unset.
    pub fn new(index: usize, compressed_size: usize, uncompressed_size: usize) -> (r: Self)
        ensures
            r.index == index,
            r.compressed_size == compressed_size,
            r.uncompressed_size == uncompressed_size,
            r.offset is None,
            r.checksum is None,
    {
        BrickMetadata { index, compressed_size, uncompressed_size, offset: None, checksum: None }
    }
}

} // verus!
