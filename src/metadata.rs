//! Answering "what is at this path": the registry first, then the store.
use vstd::prelude::*;
use crate::codec::{BlobPath, is_normal_path, join_segs, segs_view};
use crate::entry::DirEntry;
use crate::error::DriverError;
use crate::registry::KnownDirs;

verus! {

/// What a metadata query needs next.
#[derive(Debug)]
pub enum MetadataStep {
    /// The path is a known directory: the answer.
    Known(DirEntry),
    /// The store must be asked for the properties of the object under this key.
    Fetch(BlobPath),
}

/// First step of a metadata query: a known directory is answered at once;
/// anything else is looked up in the store by its key.
pub fn get_metadata(known: &KnownDirs, path: &Vec<String>) -> (r: Result<MetadataStep, DriverError>)
    ensures
        match r {
            Ok(MetadataStep::Known(e)) => {
                &&& is_normal_path(segs_view(path@))
                &&& known@.contains(segs_view(path@))
                &&& e@ == (join_segs(segs_view(path@)), true, 0u64)
            },
            Ok(MetadataStep::Fetch(k)) => {
                &&& is_normal_path(segs_view(path@))
                &&& !known@.contains(segs_view(path@))
                &&& k@ == join_segs(segs_view(path@))
            },
            Err(e) => !is_normal_path(segs_view(path@)) && e == DriverError::Unimplemented,
        },
{
    let key = match BlobPath::from_path(path) {
        Ok(k) => k,
        Err(e) => return Err(e),
    };
    match known.lookup(path, &key.0) {
        Some(e) => Ok(MetadataStep::Known(e)),
        None => Ok(MetadataStep::Fetch(key)),
    }
}

/// Second step: the store's answer for the key, `None` where it holds no such
/// object, or the object's length.
pub fn metadata_from_properties(key: &BlobPath, size: Option<u64>) -> (r: Result<DirEntry, DriverError>)
    ensures
        match size {
            Some(n) => r is Ok && r.unwrap()@ == (key@, false, n),
            None => r == Err::<DirEntry, DriverError>(DriverError::NotFound),
        },
{
    match size {
        Some(n) => Ok(DirEntry { name: key.0.clone(), is_dir: false, size: n }),
        None => Err(DriverError::NotFound),
    }
}

} // verus!
