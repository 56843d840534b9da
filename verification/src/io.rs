//! Storage backends: URL-scheme selection and the path arithmetic of the
//! local-filesystem backend.
//!
//! The byte-level reads and writes themselves are asynchronous storage I/O
//! and belong to the embedding application; this module holds the logic
//! that decides which backend a URL names and where, relative to a base
//! directory, a stored object lives.

use crate::error::VdsError;
use vstd::prelude::*;
use vstd::string::StrSliceExecFns;
use vstd::string::StringExecFns;

verus! {

/// Storage backend kinds selected by URL scheme.
#[derive(Debug, Clone, Copy, PartialEq, Eq, Structural)]
pub enum StorageBackend {
    /// Local file system
    FileSystem,
    /// AWS S3
    S3,
    /// Azure Blob Storage
    Azure,
    /// Google Cloud Storage
    GCS,
    /// OSDU/DELFI Seismic DMS
    SeismicDMS,
}

/// Whether position `i` of `s` starts the scheme separator `://`.
pub open spec fn sep_at(s: Seq<char>, i: int) -> bool {
    &&& i + 3 <= s.len()
    &&& s[i] == ':'
    &&& s[i + 1] == '/'
    &&& s[i + 2] == '/'
}

/// The position of the first scheme separator at or after `i`, if any.
pub open spec fn find_sep_from(s: Seq<char>, i: int) -> Option<int>
    decreases s.len() - i,
{
    if i < 0 || i + 3 > s.len() {
        Option::None
    } else if sep_at(s, i) {
        Some(i)
    } else {
        find_sep_from(s, i + 1)
    }
}

/// The position of the first scheme separator of a URL, if any.
pub open spec fn find_scheme_sep(s: Seq<char>) -> Option<int> {
    find_sep_from(s, 0)
}

/// If no separator starts before `i` and one starts at `i`, the search from
/// `a` finds `i`.
proof fn lemma_find_sep_found(s: Seq<char>, a: int, i: int)
    requires
        0 <= a <= i,
        forall|j: int| a <= j < i ==> !sep_at(s, j),
        sep_at(s, i),
    ensures
        find_sep_from(s, a) == Some(i),
    decreases i - a,
{
    if a < i {
        lemma_find_sep_found(s, a + 1, i);
    }
}

/// If no position starts a separator, the search finds none.
proof fn lemma_find_sep_none(s: Seq<char>, a: int)
    requires
        0 <= a,
        forall|j: int| a <= j ==> !sep_at(s, j),
    ensures
        find_sep_from(s, a) is None,
    decreases s.len() - a,
{
    if a + 3 <= s.len() {
        lemma_find_sep_none(s, a + 1);
    }
}

/// Whether two strings hold the same characters.
fn str_eq(a: &str, b: &str) -> (r: bool)
    ensures
        r == (a@ == b@),
{
    let na = a.unicode_len();
    let nb = b.unicode_len();
    if na != nb {
        proof {
            assert(a@.len() != b@.len());
        }
        return false;
    }
    let mut i: usize = 0;
    while i < na
        invariant
            0 <= i <= na,
            na == a@.len(),
            na == b@.len(),
            forall|t: int| 0 <= t < i ==> a@[t] == b@[t],
        decreases na - i,
    {
        if a.get_char(i) != b.get_char(i) {
            proof {
                assert(a@[i as int] != b@[i as int]);
            }
            return false;
        }
        i = i + 1;
    }
    proof {
        assert(a@ =~= b@);
    }
    true
}

impl StorageBackend {
    /// Parse the storage backend from a URL's scheme. A URL without a
    /// scheme separator names the local file system; a URL whose scheme is
    /// not recognized is rejected.
    pub fn from_url(url: &str) -> (r: Result<Self, VdsError>)
        ensures
            ({
                let s = url@;
                match find_scheme_sep(s) {
                    Option::None => r == Ok::<StorageBackend, VdsError>(
                        StorageBackend::FileSystem,
                    ),
                    Some(i) => {
                        let scheme = s.subrange(0, i);
                        if scheme == "file"@ {
                            r == Ok::<StorageBackend, VdsError>(StorageBackend::FileSystem)
                        } else if scheme == "s3"@ {
                            r == Ok::<StorageBackend, VdsError>(StorageBackend::S3)
                        } else if scheme == "azure"@ || scheme == "azureSAS"@ {
                            r == Ok::<StorageBackend, VdsError>(StorageBackend::Azure)
                        } else if scheme == "gs"@ {
                            r == Ok::<StorageBackend, VdsError>(StorageBackend::GCS)
                        } else if scheme == "sd"@ {
                            r == Ok::<StorageBackend, VdsError>(StorageBackend::SeismicDMS)
                        } else {
                            r is Err && r->Err_0 is InvalidUrl
                        }
                    },
                }
            }),
    {
        let n = url.unicode_len();
        let mut i: usize = 0;
        let mut found = false;
        while !found && n >= 3 && i <= n - 3
            invariant
                0 <= i <= n,
                n == url@.len(),
                forall|j: int| 0 <= j < i ==> !sep_at(url@, j),
                found ==> sep_at(url@, i as int),
            decreases n - i, (if found {
                0int
            } else {
                1int
            }),
        {
            if url.get_char(i) == ':' && url.get_char(i + 1) == '/' && url.get_char(i + 2)
                == '/' {
                found = true;
            } else {
                proof {
                    assert(!sep_at(url@, i as int));
                }
                i = i + 1;
            }
        }
        if !found {
            proof {
                assert forall|j: int| 0 <= j implies !sep_at(url@, j) by {
                    if j >= i {
                        assert(j + 3 > n);
                    }
                }
                lemma_find_sep_none(url@, 0);
            }
            return Ok(StorageBackend::FileSystem);
        }
        proof {
            lemma_find_sep_found(url@, 0, i as int);
        }
        let scheme = url.substring_char(0, i);
        proof {
            assert(scheme@ == url@.subrange(0, i as int));
        }
        if str_eq(scheme, "file") {
            Ok(StorageBackend::FileSystem)
        } else if str_eq(scheme, "s3") {
            Ok(StorageBackend::S3)
        } else if str_eq(scheme, "azure") {
            Ok(StorageBackend::Azure)
        } else if str_eq(scheme, "azureSAS") {
            Ok(StorageBackend::Azure)
        } else if str_eq(scheme, "gs") {
            Ok(StorageBackend::GCS)
        } else if str_eq(scheme, "sd") {
            Ok(StorageBackend::SeismicDMS)
        } else {
            let mut msg = String::from_str("Unknown scheme: ");
            msg.append(scheme);
            Err(VdsError::InvalidUrl(msg))
        }
    }
}

/// The local file-system backend: objects live under a base directory, each
/// at its backend-relative path.
#[derive(Debug, Clone)]
pub struct FileSystemIOManager {
    /// Base directory that backend-relative paths are resolved against
    pub base_path: String,
}

impl FileSystemIOManager {
    /// Create a file-system backend rooted at `base_path`.
    pub fn new(base_path: &str) -> (r: Self)
        ensures
            r.base_path@ == base_path@,
    {
        FileSystemIOManager { base_path: String::from_str(base_path) }
    }

    /// The full path of a backend-relative path: the base directory, a
    /// separator, and the relative path.
    pub fn full_path(&self, path: &str) -> (r: String)
        ensures
            r@ == self.base_path@ + "/"@ + path@,
    {
        let mut r = self.base_path.clone();
        r.append("/");
        r.append(path);
        r
    }

    /// The backend kind of this manager.
    pub fn backend(&self) -> (r: StorageBackend)
        ensures
            r == StorageBackend::FileSystem,
    {
        StorageBackend::FileSystem
    }
}

} // verus!
