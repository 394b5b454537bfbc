//! The set of directories synthesized so far. It only ever grows.
use vstd::prelude::*;
use crate::codec::{segs_view, join_segs};
use crate::entry::DirEntry;

verus! {

/// Whether two paths have the same segments.
pub fn paths_eq(a: &Vec<String>, b: &Vec<String>) -> (r: bool)
    ensures
        r == (segs_view(a@) == segs_view(b@)),
{
    if a.len() != b.len() {
        proof {
            assert(segs_view(a@).len() != segs_view(b@).len());
        }
        return false;
    }
    let mut i: usize = 0;
    while i < a.len()
        invariant
            a.len() == b.len(),
            i <= a.len(),
            forall|j: int| 0 <= j < i ==> a@[j]@ == b@[j]@,
        decreases a.len() - i,
    {
        if a[i] != b[i] {
            assert(segs_view(a@)[i as int] != segs_view(b@)[i as int]);
            return false;
        }
        i = i + 1;
    }
    assert(segs_view(a@) =~= segs_view(b@));
    true
}

/// The known-directory registry.
pub struct KnownDirs {
    dirs: Vec<Vec<String>>,
}

impl KnownDirs {
    /// The registered paths in order of insertion.
    pub closed spec fn paths(&self) -> Seq<Seq<Seq<char>>> {
        self.dirs@.map_values(|v: Vec<String>| segs_view(v@))
    }

    /// No path is registered twice.
    pub closed spec fn wf(&self) -> bool {
        self.paths().no_duplicates()
    }

    pub fn new() -> (r: KnownDirs)
        ensures
            r.wf(),
            r@ == Set::<Seq<Seq<char>>>::empty(),
    {
        let r = KnownDirs { dirs: Vec::new() };
        assert(r@ =~= Set::<Seq<Seq<char>>>::empty());
        r
    }

    pub fn contains(&self, p: &Vec<String>) -> (r: bool)
        ensures
            r == self@.contains(segs_view(p@)),
    {
        let mut i: usize = 0;
        while i < self.dirs.len()
            invariant
                i <= self.dirs@.len(),
                forall|j: int| 0 <= j < i ==> self.paths()[j] != segs_view(p@),
            decreases self.dirs@.len() - i,
        {
            if paths_eq(&self.dirs[i], p) {
                assert(self.paths()[i as int] == segs_view(p@));
                assert(self.paths().contains(segs_view(p@)));
                return true;
            }
            i = i + 1;
        }
        assert(!self.paths().contains(segs_view(p@)));
        false
    }

    /// Adds a path; returns whether it was new.
    pub fn insert(&mut self, p: Vec<String>) -> (r: bool)
        requires
            old(self).wf(),
        ensures
            final(self).wf(),
            final(self)@ == old(self)@.insert(segs_view(p@)),
            r == !old(self)@.contains(segs_view(p@)),
    {
        if self.contains(&p) {
            assert(self@.insert(segs_view(p@)) =~= self@);
            return false;
        }
        let ghost before = self.paths();
        self.dirs.push(p);
        assert(self.paths() =~= before.push(segs_view(p@)));
        assert(self@ =~= before.to_set().insert(segs_view(p@))) by {
            assert forall|x| self@.contains(x) == before.to_set().insert(segs_view(p@)).contains(x) by {
                if self@.contains(x) {
                    let j = choose|j: int| 0 <= j < self.paths().len() && self.paths()[j] == x;
                    if j < before.len() {
                        assert(before[j] == x);
                    }
                }
                if before.contains(x) {
                    let j = choose|j: int| 0 <= j < before.len() && before[j] == x;
                    assert(self.paths()[j] == x);
                }
                if x == segs_view(p@) {
                    assert(self.paths()[before.len() as int] == x);
                }
            }
        }
        true
    }

    /// The number of registered paths.
    pub fn len(&self) -> (r: usize)
        requires
            self.wf(),
        ensures
            r == self@.len(),
    {
        proof {
            self.paths().unique_seq_to_set();
        }
        self.dirs.len()
    }

    /// A directory entry for a registered path, named by its key.
    pub fn lookup(&self, p: &Vec<String>, key: &String) -> (r: Option<DirEntry>)
        requires
            key@ == join_segs(segs_view(p@)),
        ensures
            r.is_some() == self@.contains(segs_view(p@)),
            r.is_some() ==> r.unwrap()@ == (key@, true, 0u64),
    {
        if self.contains(p) {
            Some(DirEntry { name: key.clone(), is_dir: true, size: 0 })
        } else {
            None
        }
    }
}

impl View for KnownDirs {
    type V = Set<Seq<Seq<char>>>;

    closed spec fn view(&self) -> Set<Seq<Seq<char>>> {
        self.paths().to_set()
    }
}

} // verus!
