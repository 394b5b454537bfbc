//! Rebuilding the immediate children of a directory from a flat key listing.
use vstd::prelude::*;
use crate::codec::{blob_to_path, is_normal, is_normal_path, key_to_path, segs_view};
use crate::entry::{DirEntry, entries_view};
use crate::error::DriverError;
use crate::registry::KnownDirs;

verus! {

/// One item of a listing of the store.
#[derive(Debug)]
pub enum BlobItem {
    /// An object, with its key and its length in bytes.
    Blob { name: String, size: u64 },
    /// A common-prefix marker; this driver does not consume those.
    BlobPrefix(String),
}

/// An item this driver does not handle: a common-prefix marker, or an object
/// whose key has an empty, `.` or `..` segment.
pub open spec fn is_unsupported(i: BlobItem) -> bool {
    match i {
        BlobItem::Blob { name, .. } => !is_normal_path(key_to_path(name@)),
        BlobItem::BlobPrefix(_) => true,
    }
}

/// Whether the key names an object directly inside directory `d`.
pub open spec fn is_file_in(d: Seq<Seq<char>>, k: Seq<char>) -> bool {
    let p = key_to_path(k);
    p.len() == d.len() + 1 && p.take(d.len() as int) == d
}

/// Whether the key names an object in a subdirectory of directory `d`.
pub open spec fn is_below(d: Seq<Seq<char>>, k: Seq<char>) -> bool {
    let p = key_to_path(k);
    p.len() > d.len() + 1 && p.take(d.len() as int) == d
}

/// The segment right below `d` on the path of key `k`.
pub open spec fn child_of(d: Seq<Seq<char>>, k: Seq<char>) -> Seq<char> {
    key_to_path(k)[d.len() as int]
}

/// The entries for `d` implied by a listing, in listing order, and the names of
/// the subdirectories emitted: a file entry for each object directly in `d`,
/// and one directory entry for each distinct first segment below `d`.
pub open spec fn synthesize(d: Seq<Seq<char>>, items: Seq<BlobItem>) -> (
    Seq<(Seq<char>, bool, u64)>,
    Set<Seq<char>>,
)
    decreases items.len(),
{
    if items.len() == 0 {
        (seq![], Set::empty())
    } else {
        let (out, seen) = synthesize(d, items.drop_last());
        match items.last() {
            BlobItem::Blob { name, size } => {
                if is_file_in(d, name@) {
                    (out.push((child_of(d, name@), false, size)), seen)
                } else if is_below(d, name@) && !seen.contains(child_of(d, name@)) {
                    (out.push((child_of(d, name@), true, 0u64)), seen.insert(child_of(d, name@)))
                } else {
                    (out, seen)
                }
            },
            BlobItem::BlobPrefix(_) => (out, seen),
        }
    }
}

/// The directories that a listing of `d` makes known.
pub open spec fn synthesized_dirs(d: Seq<Seq<char>>, items: Seq<BlobItem>) -> Set<Seq<Seq<char>>> {
    synthesize(d, items).1.map(|c: Seq<char>| d.push(c))
}

/// Within one listing each subdirectory is emitted once, and the emitted
/// subdirectory names are exactly the recorded ones.
pub proof fn lemma_dirs_once(d: Seq<Seq<char>>, items: Seq<BlobItem>)
    ensures
        forall|j: int, k: int|
            0 <= j < k < synthesize(d, items).0.len() && (#[trigger] synthesize(d, items).0[j]).1
                && (#[trigger] synthesize(d, items).0[k]).1 ==> synthesize(d, items).0[j].0
                != synthesize(d, items).0[k].0,
        forall|j: int|
            0 <= j < synthesize(d, items).0.len() && (#[trigger] synthesize(d, items).0[j]).1
                ==> synthesize(d, items).1.contains(synthesize(d, items).0[j].0),
        forall|c: Seq<char>|
            #[trigger] synthesize(d, items).1.contains(c) ==> exists|j: int|
                0 <= j < synthesize(d, items).0.len() && synthesize(d, items).0[j] == (c, true, 0u64),
    decreases items.len(),
{
    if items.len() > 0 {
        let pre = items.drop_last();
        lemma_dirs_once(d, pre);
        let (out0, seen0) = synthesize(d, pre);
        let (out, seen) = synthesize(d, items);
        assert forall|c: Seq<char>| #[trigger] seen.contains(c) implies exists|j: int|
            0 <= j < out.len() && out[j] == (c, true, 0u64) by {
            if seen0.contains(c) {
                let j = choose|j: int| 0 <= j < out0.len() && out0[j] == (c, true, 0u64);
                assert(out[j] == out0[j]);
            } else {
                assert(out[out.len() - 1] == (c, true, 0u64));
            }
        }
        assert forall|j: int| 0 <= j < out.len() && (#[trigger] out[j]).1 implies seen.contains(out[j].0) by {
            if j < out0.len() {
                assert(out[j] == out0[j]);
            }
        }
        assert forall|j: int, k: int| 0 <= j < k < out.len() && (#[trigger] out[j]).1 && (#[trigger] out[k]).1
            implies out[j].0 != out[k].0 by {
            assert(out[j] == out0[j]);
            if k < out0.len() {
                assert(out[k] == out0[k]);
            } else {
                assert(seen0.contains(out0[j].0));
            }
        }
    }
}

/// Every subdirectory implied by a listed key becomes known by the listing.
pub proof fn lemma_listed_dir_known(d: Seq<Seq<char>>, items: Seq<BlobItem>, i: int)
    requires
        0 <= i < items.len(),
        items[i] is Blob,
        is_below(d, items[i]->Blob_name@),
    ensures
        synthesize(d, items).1.contains(child_of(d, items[i]->Blob_name@)),
        synthesized_dirs(d, items).contains(d.push(child_of(d, items[i]->Blob_name@))),
    decreases items.len(),
{
    let c = child_of(d, items[i]->Blob_name@);
    let pre = items.drop_last();
    if i < items.len() - 1 {
        assert(pre[i] == items[i]);
        lemma_listed_dir_known(d, pre, i);
    } else {
        assert(items.last() == items[i]);
    }
    assert(synthesize(d, items).1.contains(c));
    assert(synthesize(d, items).1.map(|x: Seq<char>| d.push(x)).contains(d.push(c)));
}

/// Whether the first `n` segments of `p` are those of `d`.
fn starts_with(p: &Vec<String>, d: &Vec<String>) -> (r: bool)
    requires
        d.len() <= p.len(),
    ensures
        r == (segs_view(p@).take(d@.len() as int) == segs_view(d@)),
{
    let mut i: usize = 0;
    while i < d.len()
        invariant
            d.len() <= p.len(),
            i <= d.len(),
            forall|j: int| 0 <= j < i ==> p@[j]@ == d@[j]@,
        decreases d.len() - i,
    {
        if p[i] != d[i] {
            assert(segs_view(p@).take(d@.len() as int)[i as int] != segs_view(d@)[i as int]);
            return false;
        }
        i = i + 1;
    }
    assert(segs_view(p@).take(d@.len() as int) =~= segs_view(d@));
    true
}

/// Whether a name is among those already emitted.
fn seen_contains(seen: &Vec<String>, c: &String) -> (r: bool)
    ensures
        r == seen@.map_values(|s: String| s@).contains(c@),
{
    let ghost sv = seen@.map_values(|s: String| s@);
    let mut i: usize = 0;
    while i < seen.len()
        invariant
            sv == seen@.map_values(|s: String| s@),
            i <= seen.len(),
            forall|j: int| 0 <= j < i ==> sv[j] != c@,
        decreases seen.len() - i,
    {
        if seen[i] == *c {
            assert(sv[i as int] == c@);
            return true;
        }
        i = i + 1;
    }
    false
}

/// Lists the immediate children of directory `dir` from the complete listing
/// of its key prefix, and registers each synthesized subdirectory. A
/// common-prefix marker, or a key with an empty, `.` or `..` segment, anywhere
/// in the listing is unsupported; then nothing is registered.
pub fn dir_iter(dir: &Vec<String>, items: &Vec<BlobItem>, known: &mut KnownDirs) -> (r: Result<
    Vec<DirEntry>,
    DriverError,
>)
    requires
        old(known).wf(),
    ensures
        final(known).wf(),
        match r {
            Ok(v) => {
                &&& forall|i: int| 0 <= i < items@.len() ==> !is_unsupported(#[trigger] items@[i])
                &&& entries_view(v@) == synthesize(segs_view(dir@), items@).0
                &&& final(known)@ == old(known)@ + synthesized_dirs(segs_view(dir@), items@)
            },
            Err(e) => {
                &&& exists|i: int| 0 <= i < items@.len() && is_unsupported(#[trigger] items@[i])
                &&& e == DriverError::Unimplemented
                &&& final(known)@ == old(known)@
            },
        },
{
    let ghost d = segs_view(dir@);
    let mut k: usize = 0;
    while k < items.len()
        invariant
            k <= items@.len(),
            *known == *old(known),
            known.wf(),
            forall|i: int| 0 <= i < k ==> !is_unsupported(#[trigger] items@[i]),
        decreases items@.len() - k,
    {
        match &items[k] {
            BlobItem::Blob { name, .. } => {
                let p = blob_to_path(name.as_str());
                if !is_normal(&p) {
                    assert(is_unsupported(items@[k as int]));
                    return Err(DriverError::Unimplemented);
                }
            },
            BlobItem::BlobPrefix(_) => {
                assert(is_unsupported(items@[k as int]));
                return Err(DriverError::Unimplemented);
            },
        }
        k = k + 1;
    }
    let mut out: Vec<DirEntry> = Vec::new();
    let mut seen: Vec<String> = Vec::new();
    let mut i: usize = 0;
    assert(items@.take(0) =~= seq![]);
    assert(known@ + synthesized_dirs(d, items@.take(0)) =~= known@);
    while i < items.len()
        invariant
            d == segs_view(dir@),
            i <= items@.len(),
            forall|j: int| 0 <= j < items@.len() ==> !is_unsupported(#[trigger] items@[j]),
            known.wf(),
            entries_view(out@) == synthesize(d, items@.take(i as int)).0,
            seen@.map_values(|s: String| s@).to_set() == synthesize(d, items@.take(i as int)).1,
            known@ == old(known)@ + synthesized_dirs(d, items@.take(i as int)),
        decreases items@.len() - i,
    {
        let ghost pre = items@.take(i as int);
        let ghost next = items@.take(i as int + 1);
        assert(next.drop_last() =~= pre);
        assert(next.last() == items@[i as int]);
        let ghost seen0 = synthesize(d, pre).1;
        let ghost sview0 = seen@.map_values(|s: String| s@);
        match &items[i] {
            BlobItem::Blob { name, size } => {
                let p = blob_to_path(name.as_str());
                if p.len() > dir.len() && starts_with(&p, dir) {
                    let c = p[dir.len()].clone();
                    assert(c@ == child_of(d, name@));
                    if p.len() == dir.len() + 1 {
                        out.push(DirEntry { name: c, is_dir: false, size: *size });
                        assert(entries_view(out@) =~= synthesize(d, next).0);
                        assert(synthesized_dirs(d, next) == synthesized_dirs(d, pre));
                    } else if !seen_contains(&seen, &c) {
                        let dc = child_path(dir, &c);
                        known.insert(dc);
                        seen.push(c.clone());
                        out.push(DirEntry { name: c, is_dir: true, size: 0 });
                        assert(entries_view(out@) =~= synthesize(d, next).0);
                        assert(seen@.map_values(|s: String| s@) =~= sview0.push(c@));
                        proof {
                            sview0.lemma_push_to_set_commute(c@);
                            seen0.lemma_set_map_insert_commute(c@, |x: Seq<char>| d.push(x));
                        }
                        assert(seen@.map_values(|s: String| s@).to_set() =~= seen0.insert(c@));
                        assert(synthesized_dirs(d, next) =~= synthesized_dirs(d, pre).insert(d.push(c@)));
                        assert(known@ =~= old(known)@ + synthesized_dirs(d, next));
                    } else {
                        assert(synthesize(d, next) == synthesize(d, pre));
                    }
                } else {
                    assert(synthesize(d, next) == synthesize(d, pre));
                }
            },
            BlobItem::BlobPrefix(_) => {
                assert(false);
            },
        }
        i = i + 1;
    }
    assert(items@.take(items@.len() as int) =~= items@);
    Ok(out)
}

/// The path of child `c` of directory `dir`.
fn child_path(dir: &Vec<String>, c: &String) -> (r: Vec<String>)
    ensures
        segs_view(r@) == segs_view(dir@).push(c@),
{
    let mut r: Vec<String> = Vec::new();
    let mut i: usize = 0;
    while i < dir.len()
        invariant
            i <= dir.len(),
            segs_view(r@) == segs_view(dir@).take(i as int),
        decreases dir.len() - i,
    {
        let s = dir[i].clone();
        assert(s@ == segs_view(dir@)[i as int]);
        let ghost r0 = r@;
        r.push(s);
        assert(segs_view(r@) =~= segs_view(r0).push(s@));
        assert(segs_view(r@) =~= segs_view(dir@).take(i as int + 1));
        i = i + 1;
    }
    let s = c.clone();
    r.push(s);
    assert(segs_view(dir@).take(dir@.len() as int) =~= segs_view(dir@));
    assert(segs_view(r@) =~= segs_view(dir@).push(c@));
    r
}

} // verus!
