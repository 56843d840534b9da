use openvds::{FileSystemIOManager, StorageBackend, VdsError};

#[test]
fn test_backend_from_url() {
    assert_eq!(
        StorageBackend::from_url("file:///data/volume").unwrap(),
        StorageBackend::FileSystem
    );
    assert_eq!(
        StorageBackend::from_url("s3://bucket/volume").unwrap(),
        StorageBackend::S3
    );
    assert_eq!(
        StorageBackend::from_url("azure://container/volume").unwrap(),
        StorageBackend::Azure
    );
    assert_eq!(
        StorageBackend::from_url("gs://bucket/volume").unwrap(),
        StorageBackend::GCS
    );
}

#[test]
fn test_backend_from_url_more_schemes() {
    assert_eq!(
        StorageBackend::from_url("azureSAS://container/volume").unwrap(),
        StorageBackend::Azure
    );
    assert_eq!(
        StorageBackend::from_url("sd://tenant/volume").unwrap(),
        StorageBackend::SeismicDMS
    );
    // No scheme: assume the file system
    assert_eq!(
        StorageBackend::from_url("/data/volume").unwrap(),
        StorageBackend::FileSystem
    );
}

#[test]
fn test_backend_from_url_unknown_scheme() {
    let r = StorageBackend::from_url("ftp://host/volume");
    match r {
        Err(VdsError::InvalidUrl(msg)) => assert_eq!(msg, "Unknown scheme: ftp"),
        other => panic!("expected InvalidUrl, got {:?}", other),
    }
}

#[test]
fn test_file_system_full_path() {
    let io = FileSystemIOManager::new("/data/volume");
    assert_eq!(io.full_path("metadata.json"), "/data/volume/metadata.json");
    assert_eq!(io.backend(), StorageBackend::FileSystem);
    assert_eq!(io.base_path, "/data/volume");
}
