//! Ranged reads: the window to ask for, and placing the chunks that come back
//! into the caller's buffer.
use vstd::prelude::*;
use crate::error::DriverError;

verus! {

/// A piece of a ranged response: its bytes, and the absolute positions of its
/// first and last byte where the response frames them.
pub struct Chunk {
    pub range: Option<(u64, u64)>,
    pub data: Vec<u8>,
}

/// The buffer after placing one chunk, or `None` where the chunk does not fit
/// the window `[offset, offset + buf.len())`.
pub open spec fn place_spec(buf: Seq<u8>, offset: u64, range: Option<(u64, u64)>, data: Seq<u8>) -> Option<Seq<u8>> {
    match range {
        Some((s, e)) => {
            if offset <= s <= e && e - offset < buf.len() && data.len() == e - s + 1 {
                let lo = s - offset;
                Some(buf.take(lo) + data + buf.skip(lo + data.len()))
            } else {
                None
            }
        },
        None => {
            if data.len() == buf.len() {
                Some(data)
            } else {
                None
            }
        },
    }
}

/// The buffer after placing the chunks in order, or `None` at the first that
/// does not fit.
pub open spec fn place_all(buf: Seq<u8>, offset: u64, c: Seq<Chunk>) -> Option<Seq<u8>>
    decreases c.len(),
{
    if c.len() == 0 {
        Some(buf)
    } else {
        match place_all(buf, offset, c.drop_last()) {
            Some(b) => place_spec(b, offset, c.last().range, c.last().data@),
            None => None,
        }
    }
}

/// The request window for `len` bytes at `offset`: start, and end exclusive.
pub fn range_request(offset: u64, len: usize) -> (r: Result<(u64, u64), DriverError>)
    ensures
        match r {
            Ok((s, e)) => offset + len <= u64::MAX && s == offset && e == offset + len,
            Err(err) => offset + len > u64::MAX && err == DriverError::RangeOverflow,
        },
{
    let l = len as u64;
    if l > u64::MAX - offset {
        Err(DriverError::RangeOverflow)
    } else {
        Ok((offset, offset + l))
    }
}

/// Copies one chunk into the buffer at its place in the window that starts at
/// `offset`. A framed chunk goes at `start - offset`; an unframed one fills the
/// whole buffer.
pub fn place_chunk(buf: &mut Vec<u8>, offset: u64, range: Option<(u64, u64)>, data: &Vec<u8>) -> (r: Result<(), DriverError>)
    ensures
        match place_spec(old(buf)@, offset, range, data@) {
            Some(b) => r is Ok && final(buf)@ == b,
            None => {
                &&& final(buf)@ == old(buf)@
                &&& r == Err::<(), DriverError>(if range is Some { DriverError::BadChunk } else { DriverError::ShortRead })
            },
        },
{
    match range {
        Some((s, e)) => {
            if s < offset || e < s || e - offset >= buf.len() as u64 || data.len() as u64 != e - s + 1 {
                return Err(DriverError::BadChunk);
            }
            assert(s - offset <= e - offset < buf@.len());
            let lo = (s - offset) as usize;
            let n = data.len();
            let bl = buf.len();
            assert(lo + n <= bl);
            let ghost b0 = buf@;
            let mut i: usize = 0;
            while i < n
                invariant
                    n == data@.len(),
                    lo + n <= bl,
                    bl == buf@.len(),
                    buf@.len() == b0.len(),
                    i <= n,
                    forall|j: int| 0 <= j < lo ==> buf@[j] == b0[j],
                    forall|j: int| lo + n <= j < b0.len() ==> buf@[j] == b0[j],
                    forall|j: int| 0 <= j < i ==> buf@[lo + j] == data@[j],
                decreases n - i,
            {
                buf.set(lo + i, data[i]);
                i = i + 1;
            }
            assert(buf@ =~= b0.take(lo as int) + data@ + b0.skip(lo + n));
            Ok(())
        },
        None => {
            if data.len() != buf.len() {
                return Err(DriverError::ShortRead);
            }
            let n = data.len();
            let mut i: usize = 0;
            while i < n
                invariant
                    n == data@.len(),
                    buf@.len() == n,
                    i <= n,
                    forall|j: int| 0 <= j < i ==> buf@[j] == data@[j],
                decreases n - i,
            {
                buf.set(i, data[i]);
                i = i + 1;
            }
            assert(buf@ =~= data@);
            Ok(())
        },
    }
}

/// The error of placing a chunk that does not fit.
pub open spec fn misfit(c: Chunk) -> DriverError {
    if c.range is Some {
        DriverError::BadChunk
    } else {
        DriverError::ShortRead
    }
}

/// The error of the first chunk that does not fit, if any.
pub open spec fn first_misfit(buf: Seq<u8>, offset: u64, c: Seq<Chunk>) -> Option<DriverError>
    decreases c.len(),
{
    if c.len() == 0 {
        None
    } else {
        match place_all(buf, offset, c.drop_last()) {
            Some(b) => if place_spec(b, offset, c.last().range, c.last().data@) is None {
                Some(misfit(c.last()))
            } else {
                None
            },
            None => first_misfit(buf, offset, c.drop_last()),
        }
    }
}

/// Whether a chunk delivers position `j` of the window that starts at `offset`.
pub open spec fn chunk_covers(c: Chunk, offset: u64, j: int) -> bool {
    match c.range {
        Some((s, e)) => s <= offset + j <= e,
        None => true,
    }
}

/// Whether some chunk delivers position `j` of the window.
pub open spec fn covered(c: Seq<Chunk>, offset: u64, j: int) -> bool {
    exists|i: int| 0 <= i < c.len() && chunk_covers(#[trigger] c[i], offset, j)
}

/// Whether the chunks deliver every position of a window of `n` bytes.
pub open spec fn covers_window(c: Seq<Chunk>, offset: u64, n: nat) -> bool {
    forall|j: int| 0 <= j < n ==> #[trigger] covered(c, offset, j)
}

/// Fills the buffer with the window `[offset, offset + buf.len())` from the
/// chunks of a ranged response. Fails at the first chunk that does not fit,
/// and when some position of the window was delivered by no chunk.
pub fn read(buf: &mut Vec<u8>, offset: u64, chunks: &Vec<Chunk>) -> (r: Result<(), DriverError>)
    ensures
        final(buf)@.len() == old(buf)@.len(),
        r is Ok <==> (place_all(old(buf)@, offset, chunks@) is Some && covers_window(chunks@, offset, old(buf)@.len())),
        r is Ok ==> final(buf)@ == place_all(old(buf)@, offset, chunks@).unwrap(),
        place_all(old(buf)@, offset, chunks@) is None ==> first_misfit(old(buf)@, offset, chunks@) is Some
            && r == Err::<(), DriverError>(first_misfit(old(buf)@, offset, chunks@).unwrap()),
        place_all(old(buf)@, offset, chunks@) is Some && r is Err ==> r == Err::<(), DriverError>(DriverError::ShortRead),
{
    let ghost b0 = buf@;
    let n = buf.len();
    let mut flags: Vec<bool> = Vec::new();
    let mut k: usize = 0;
    while k < n
        invariant
            k <= n,
            flags@.len() == k,
            forall|j: int| 0 <= j < k ==> !flags@[j],
        decreases n - k,
    {
        flags.push(false);
        k = k + 1;
    }
    let mut i: usize = 0;
    assert(chunks@.take(0) =~= seq![]);
    while i < chunks.len()
        invariant
            i <= chunks@.len(),
            b0 == old(buf)@,
            n == b0.len(),
            buf@.len() == n,
            flags@.len() == n,
            place_all(b0, offset, chunks@.take(i as int)) == Some(buf@),
            forall|j: int| 0 <= j < n ==> flags@[j] == covered(chunks@.take(i as int), offset, j),
        decreases chunks@.len() - i,
    {
        let ghost pre = chunks@.take(i as int);
        let ghost next = chunks@.take(i as int + 1);
        assert(next.drop_last() =~= pre);
        assert(next.last() == chunks@[i as int]);
        let ghost f0 = flags@;
        let ghost bb = buf@;
        let res = place_chunk(buf, offset, chunks[i].range, &chunks[i].data);
        if let Err(err) = res {
            proof {
                assert(place_all(b0, offset, next) is None);
                assert(first_misfit(b0, offset, next) == Some(err));
                lemma_first_misfit(b0, offset, chunks@, i as int + 1);
            }
            return Err(err);
        }
        assert(place_spec(bb, offset, chunks@[i as int].range, chunks@[i as int].data@) is Some);
        assert(next[i as int] == chunks@[i as int]);
        let (lo, hi) = match chunks[i].range {
            Some((s, e)) => ((s - offset) as usize, (e - offset + 1) as usize),
            None => (0, n),
        };
        let mut j: usize = lo;
        while j < hi
            invariant
                lo <= j <= hi <= n,
                flags@.len() == n,
                f0.len() == n,
                forall|t: int| 0 <= t < n ==> #[trigger] flags@[t] == (f0[t] || (lo <= t < j)),
            decreases hi - j,
        {
            flags.set(j, true);
            j = j + 1;
        }
        proof {
            assert forall|t: int| 0 <= t < n implies flags@[t] == covered(next, offset, t) by {
                assert(chunk_covers(next[i as int], offset, t) == (lo <= t < hi));
                if covered(next, offset, t) {
                    let w = choose|w: int| 0 <= w < next.len() && chunk_covers(#[trigger] next[w], offset, t);
                    if w < i {
                        assert(pre[w] == next[w]);
                        assert(covered(pre, offset, t));
                    }
                }
                if lo <= t < hi {
                    assert(chunk_covers(next[i as int], offset, t));
                    assert(covered(next, offset, t));
                }
                if covered(pre, offset, t) {
                    let w = choose|w: int| 0 <= w < pre.len() && chunk_covers(#[trigger] pre[w], offset, t);
                    assert(next[w] == pre[w]);
                    assert(covered(next, offset, t));
                }
            }
        }
        i = i + 1;
    }
    assert(chunks@.take(chunks@.len() as int) =~= chunks@);
    let mut j: usize = 0;
    while j < n
        invariant
            j <= n,
            flags@.len() == n,
            b0 == old(buf)@,
            n == b0.len(),
            buf@.len() == n,
            place_all(b0, offset, chunks@) == Some(buf@),
            forall|t: int| 0 <= t < n ==> flags@[t] == covered(chunks@, offset, t),
            forall|t: int| 0 <= t < j ==> flags@[t],
        decreases n - j,
    {
        if !flags[j] {
            assert(!covered(chunks@, offset, j as int));
            return Err(DriverError::ShortRead);
        }
        j = j + 1;
    }
    assert forall|t: int| 0 <= t < n implies #[trigger] covered(chunks@, offset, t) by {
        assert(flags@[t]);
    }
    Ok(())
}

/// Once a prefix of the chunks fails to fit, the whole sequence fails the same way.
proof fn lemma_first_misfit(b: Seq<u8>, offset: u64, c: Seq<Chunk>, k: int)
    requires
        0 <= k <= c.len(),
        place_all(b, offset, c.take(k)) is None,
    ensures
        place_all(b, offset, c) is None,
        first_misfit(b, offset, c) == first_misfit(b, offset, c.take(k)),
    decreases c.len() - k,
{
    if k < c.len() {
        assert(c.take(k + 1).drop_last() =~= c.take(k));
        lemma_first_misfit(b, offset, c, k + 1);
    } else {
        assert(c.take(k) =~= c);
    }
}

} // verus!
