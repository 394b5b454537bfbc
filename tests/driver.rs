use blobfs::client::{builder_from_parts, ConfigError};
use blobfs::codec::{blob_to_path, is_normal_seg, BlobPath};
use blobfs::config::{account_from_domain, is_sas};
use blobfs::error::DriverError;
use blobfs::metadata::{get_metadata, metadata_from_properties, MetadataStep};
use blobfs::range::{place_chunk, range_request, read, Chunk};
use blobfs::registry::{paths_eq, KnownDirs};
use blobfs::synth::{dir_iter, BlobItem};

fn path(segs: &[&str]) -> Vec<String> {
    segs.iter().map(|s| s.to_string()).collect()
}

fn blob(name: &str, size: u64) -> BlobItem {
    BlobItem::Blob { name: name.to_string(), size }
}

fn sample_listing() -> Vec<BlobItem> {
    vec![blob("d/a.txt", 3), blob("d/b/c.txt", 7), blob("d/b/e.txt", 9)]
}

#[test]
fn key_of_path_joins_segments() {
    let k = BlobPath::from_path(&path(&["d", "b", "c.txt"])).unwrap();
    assert_eq!(k.as_str(), "d/b/c.txt");
    let root = BlobPath::from_path(&Vec::new()).unwrap();
    assert_eq!(root.as_str(), "");
}

#[test]
fn round_trip_path_key_path() {
    for p in [path(&["a"]), path(&["d", "b", "c.txt"]), path(&["x y", "ü", "z.bin"]), Vec::new()] {
        let k = BlobPath::from_path(&p).unwrap();
        assert_eq!(k.to_path_buf(), p);
    }
}

#[test]
fn non_normal_segments_are_unimplemented() {
    for p in [path(&["d", ".."]), path(&["."]), path(&["a", ""]), path(&["a/b"])] {
        assert_eq!(BlobPath::from_path(&p).unwrap_err(), DriverError::Unimplemented);
    }
    assert!(is_normal_seg(&"...".to_string()));
    assert!(!is_normal_seg(&"..".to_string()));
}

#[test]
fn key_to_path_splits_on_slash() {
    assert_eq!(blob_to_path("d/b/c.txt"), path(&["d", "b", "c.txt"]));
    assert_eq!(blob_to_path("a//b"), path(&["a", "", "b"]));
    assert_eq!(blob_to_path("a/"), path(&["a", ""]));
    assert!(blob_to_path("").is_empty());
    assert_eq!(BlobPath::new("q/r".to_string()).to_path_buf(), path(&["q", "r"]));
}

#[test]
fn enumeration_yields_files_and_one_dir() {
    let mut known = KnownDirs::new();
    let entries = dir_iter(&path(&["d"]), &sample_listing(), &mut known).unwrap();
    let got: Vec<(String, bool, u64)> = entries.iter().map(|e| (e.name.clone(), e.is_dir, e.size)).collect();
    assert_eq!(got, vec![("a.txt".to_string(), false, 3), ("b".to_string(), true, 0)]);
    assert_eq!(known.len(), 1);
    assert!(known.contains(&path(&["d", "b"])));
}

#[test]
fn enumeration_of_root_and_ignores_other_prefixes() {
    let mut known = KnownDirs::new();
    let items = vec![blob("top.txt", 1), blob("d/a.txt", 2), blob("e/f/g", 3)];
    let entries = dir_iter(&Vec::new(), &items, &mut known).unwrap();
    let got: Vec<(String, bool)> = entries.iter().map(|e| (e.name.clone(), e.is_dir)).collect();
    assert_eq!(got, vec![("top.txt".to_string(), false), ("d".to_string(), true), ("e".to_string(), true)]);
    let mut known2 = KnownDirs::new();
    let entries = dir_iter(&path(&["d"]), &vec![blob("dx/a.txt", 1), blob("d/a.txt", 2)], &mut known2).unwrap();
    assert_eq!(entries.len(), 1);
    assert_eq!(entries[0].name, "a.txt");
}

#[test]
fn prefix_marker_is_unimplemented_and_registers_nothing() {
    let mut known = KnownDirs::new();
    let items = vec![blob("d/b/c.txt", 1), BlobItem::BlobPrefix("d/x/".to_string())];
    assert_eq!(dir_iter(&path(&["d"]), &items, &mut known).unwrap_err(), DriverError::Unimplemented);
    assert_eq!(known.len(), 0);
}

#[test]
fn metadata_after_enumeration_is_directory() {
    let mut known = KnownDirs::new();
    dir_iter(&path(&["d"]), &sample_listing(), &mut known).unwrap();
    match get_metadata(&known, &path(&["d", "b"])).unwrap() {
        MetadataStep::Known(e) => {
            assert!(e.is_dir);
            assert_eq!(e.size, 0);
            assert_eq!(e.name, "d/b");
        }
        MetadataStep::Fetch(_) => panic!("expected a known directory"),
    }
}

#[test]
fn metadata_miss_is_not_found() {
    let known = KnownDirs::new();
    match get_metadata(&known, &path(&["nowhere", "x.txt"])).unwrap() {
        MetadataStep::Fetch(k) => {
            assert_eq!(k.as_str(), "nowhere/x.txt");
            assert_eq!(metadata_from_properties(&k, None).unwrap_err(), DriverError::NotFound);
        }
        MetadataStep::Known(_) => panic!("expected a store lookup"),
    }
}

#[test]
fn metadata_of_object_has_its_size() {
    let k = BlobPath::new("d/a.txt".to_string());
    let e = metadata_from_properties(&k, Some(42)).unwrap();
    assert_eq!((e.name.as_str(), e.is_dir, e.size), ("d/a.txt", false, 42));
    assert_eq!(get_metadata(&KnownDirs::new(), &path(&[".."])).unwrap_err(), DriverError::Unimplemented);
}

#[test]
fn range_read_framed_chunk() {
    let content = b"0123456789ABCDEF";
    let (s, e) = range_request(10, 5).unwrap();
    assert_eq!((s, e), (10, 15));
    let data = content[s as usize..e as usize].to_vec();
    let mut buf = vec![0u8; 5];
    read(&mut buf, 10, &vec![Chunk { range: Some((10, 14)), data }]).unwrap();
    assert_eq!(&buf, b"ABCDE");
}

#[test]
fn range_read_split_and_unframed() {
    let mut buf = vec![0u8; 5];
    let chunks = vec![
        Chunk { range: Some((13, 14)), data: b"DE".to_vec() },
        Chunk { range: Some((10, 12)), data: b"ABC".to_vec() },
    ];
    read(&mut buf, 10, &chunks).unwrap();
    assert_eq!(&buf, b"ABCDE");
    let mut buf2 = vec![0u8; 5];
    read(&mut buf2, 10, &vec![Chunk { range: None, data: b"ABCDE".to_vec() }]).unwrap();
    assert_eq!(&buf2, b"ABCDE");
}

#[test]
fn range_read_errors() {
    let mut buf = vec![0u8; 5];
    assert_eq!(read(&mut buf, 10, &vec![Chunk { range: None, data: b"ABC".to_vec() }]), Err(DriverError::ShortRead));
    assert_eq!(read(&mut buf, 10, &vec![Chunk { range: Some((10, 12)), data: b"ABC".to_vec() }]), Err(DriverError::ShortRead));
    assert_eq!(read(&mut buf, 10, &vec![Chunk { range: Some((9, 11)), data: b"9AB".to_vec() }]), Err(DriverError::BadChunk));
    assert_eq!(&buf, b"ABC\0\0");
    let mut fresh = vec![0u8; 5];
    assert_eq!(place_chunk(&mut fresh, 10, Some((12, 15)), &b"CDEF".to_vec()), Err(DriverError::BadChunk));
    assert_eq!(fresh, vec![0u8; 5]);
    assert_eq!(range_request(u64::MAX - 2, 5), Err(DriverError::RangeOverflow));
}

#[test]
fn registry_keeps_every_distinct_insert() {
    let mut known = KnownDirs::new();
    for i in 0..200u32 {
        assert!(known.insert(path(&["d", &i.to_string()])));
    }
    for i in 0..200u32 {
        assert!(!known.insert(path(&["d", &i.to_string()])));
    }
    assert_eq!(known.len(), 200);
    assert!(paths_eq(&path(&["a", "b"]), &path(&["a", "b"])));
    assert!(!paths_eq(&path(&["a", "b"]), &path(&["a"])));
}

#[test]
fn enumerations_of_two_dirs_union() {
    let mut known = KnownDirs::new();
    dir_iter(&path(&["d1"]), &vec![blob("d1/x/1", 1), blob("d1/y/2", 1)], &mut known).unwrap();
    dir_iter(&path(&["d2"]), &vec![blob("d2/x/1", 1), blob("d2/z/2", 1)], &mut known).unwrap();
    assert_eq!(known.len(), 4);
    assert!(known.contains(&path(&["d2", "z"])));
}

#[test]
fn connection_descriptor_parts() {
    assert_eq!(account_from_domain("myacct.blob.core.windows.net"), "myacct");
    assert_eq!(account_from_domain("localhost"), "localhost");
    assert!(is_sas(&vec!["sv".to_string(), "sig".to_string()]));
    assert!(!is_sas(&vec!["sv".to_string(), "signature".to_string()]));
}

#[test]
fn client_builder_from_descriptor() {
    let keys = vec!["sv".to_string(), "sig".to_string()];
    assert!(matches!(builder_from_parts(None, &keys, Some("sv=1&sig=x".to_string())), Err(ConfigError::UnsupportedUrl)));
    let plain = vec!["sv".to_string()];
    assert!(matches!(builder_from_parts(Some("acct.blob.core.windows.net".to_string()), &plain, Some("sv=1".to_string())), Err(ConfigError::Unimplemented)));
    assert!(matches!(builder_from_parts(Some("acct.blob.core.windows.net".to_string()), &keys, None), Err(ConfigError::BadCredential)));
    let ok = builder_from_parts(Some("acct.blob.core.windows.net".to_string()), &keys, Some("sv=2021-01-01&sig=abc".to_string()));
    assert!(ok.is_ok());
    let u = url::Url::parse("https://127.0.0.1/container?sig=abc").unwrap();
    let ukeys: Vec<String> = u.query_pairs().map(|(k, _)| k.into_owned()).collect();
    assert!(matches!(builder_from_parts(u.domain().map(str::to_string), &ukeys, u.query().map(str::to_string)), Err(ConfigError::UnsupportedUrl)));
}

#[test]
fn keys_with_special_segments_are_unimplemented() {
    for bad in ["d//x", "d/../x", "d/./x", "d/b/"] {
        let mut known = KnownDirs::new();
        let items = vec![blob("d/a.txt", 1), blob(bad, 1)];
        assert_eq!(dir_iter(&path(&["d"]), &items, &mut known).unwrap_err(), DriverError::Unimplemented);
        assert_eq!(known.len(), 0);
    }
}

#[test]
fn range_read_requires_full_coverage() {
    let mut buf = vec![0u8; 5];
    let chunks = vec![
        Chunk { range: Some((10, 12)), data: b"ABC".to_vec() },
        Chunk { range: Some((10, 11)), data: b"AB".to_vec() },
    ];
    assert_eq!(read(&mut buf, 10, &chunks), Err(DriverError::ShortRead));
    assert_eq!(buf.len(), 5);
    let mut empty = vec![0u8; 3];
    assert_eq!(read(&mut empty, 0, &Vec::new()), Err(DriverError::ShortRead));
    let mut none: Vec<u8> = Vec::new();
    assert_eq!(read(&mut none, 7, &Vec::new()), Ok(()));
}
