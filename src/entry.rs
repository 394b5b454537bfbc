//! What the driver reports of a file or directory.
use vstd::prelude::*;

verus! {

/// An entry of a listing or the answer to a metadata query. The store keeps no
/// timestamps or attributes, so the entry carries none.
#[derive(Debug)]
pub struct DirEntry {
    pub name: String,
    pub is_dir: bool,
    pub size: u64,
}

impl View for DirEntry {
    type V = (Seq<char>, bool, u64);

    open spec fn view(&self) -> (Seq<char>, bool, u64) {
        (self.name@, self.is_dir, self.size)
    }
}

pub open spec fn entries_view(v: Seq<DirEntry>) -> Seq<(Seq<char>, bool, u64)> {
    v.map_values(|e: DirEntry| e@)
}

} // verus!
