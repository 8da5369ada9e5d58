//! The rolling window of console output, and searching it.

use vstd::prelude::*;

verus! {

/// A byte buffer that keeps the most recent console output, up to a capacity.
pub struct ChunkBuffer {
    data: Vec<u8>,
    capacity: usize,
}

impl ChunkBuffer {
    pub closed spec fn contents(&self) -> Seq<u8> {
        self.data@
    }

    pub closed spec fn cap(&self) -> nat {
        self.capacity as nat
    }

    /// The buffer never holds more than its capacity.
    pub closed spec fn wf(&self) -> bool {
        self.data@.len() <= self.capacity
    }

    /// An empty buffer of the given capacity.
    pub fn with_capacity(capacity: usize) -> (r: ChunkBuffer)
        ensures
            r.wf(),
            r.contents() == Seq::<u8>::empty(),
            r.cap() == capacity,
    {
        ChunkBuffer { data: Vec::new(), capacity }
    }

    pub fn as_slice(&self) -> (r: &[u8])
        ensures
            r@ == self.contents(),
    {
        self.data.as_slice()
    }

    pub fn len(&self) -> (r: usize)
        ensures
            r == self.contents().len(),
    {
        self.data.len()
    }

    pub fn capacity(&self) -> (r: usize)
        ensures
            r == self.cap(),
    {
        self.capacity
    }
}

/// A vector holding the bytes of `s`.
pub fn copy_bytes(s: &[u8]) -> (r: Vec<u8>)
    ensures
        r@ == s@,
{
    let mut out: Vec<u8> = Vec::new();
    let mut i: usize = 0;
    while i < s.len()
        invariant
            i <= s@.len(),
            out@ == s@.take(i as int),
        decreases s@.len() - i,
    {
        out.push(s[i]);
        proof {
            assert(s@.take(i + 1) =~= s@.take(i as int).push(s@[i as int]));
        }
        i = i + 1;
    }
    proof {
        assert(s@.take(s@.len() as int) =~= s@);
    }
    out
}

pub open spec fn min_nat(a: nat, b: nat) -> nat {
    if a <= b { a } else { b }
}

/// The last `n` items of `s` (all of them where it has fewer).
pub open spec fn last_n(s: Seq<u8>, n: nat) -> Seq<u8> {
    s.subrange(s.len() - min_nat(s.len(), n), s.len() as int)
}

/// The contents and capacity of a buffer of capacity `cap` after `chunk` is
/// added to `buf`: the most recent `cap` bytes of the old contents followed
/// by the chunk, in order; the capacity does not change.
pub open spec fn spec_update(buf: Seq<u8>, cap: nat, chunk: Seq<u8>) -> (Seq<u8>, nat) {
    (last_n(buf + chunk, cap), cap)
}

fn copy_range(s: &[u8], a: usize, b: usize, out: &mut Vec<u8>)
    requires
        a <= b <= s@.len(),
    ensures
        final(out)@ == old(out)@ + s@.subrange(a as int, b as int),
{
    let mut i = a;
    while i < b
        invariant
            a <= i <= b <= s@.len(),
            out@ == old(out)@ + s@.subrange(a as int, i as int),
        decreases b - i,
    {
        out.push(s[i]);
        proof {
            assert(s@.subrange(a as int, i + 1) =~= s@.subrange(a as int, i as int).push(s@[i as int]));
        }
        i = i + 1;
    }
}

/// Adds `chunk` to the rolling buffer: the buffer keeps the most recent
/// bytes, as many as its capacity holds, and its capacity does not change.
pub fn update_chunkbuf(buffer: &mut ChunkBuffer, chunk: &[u8])
    requires
        old(buffer).wf(),
    ensures
        final(buffer).wf(),
        (final(buffer).contents(), final(buffer).cap()) == spec_update(
            old(buffer).contents(),
            old(buffer).cap(),
            chunk@,
        ),
{
    let len = buffer.data.len();
    let clen = chunk.len();
    let cap = buffer.capacity;
    let ghost buf = old(buffer).data@;
    let ghost all = buf + chunk@;
    let mut out: Vec<u8> = Vec::new();
    if clen >= cap {
        copy_range(chunk, clen - cap, clen, &mut out);
        proof {
            assert(all.subrange(all.len() - min_nat(all.len(), cap as nat), all.len() as int) =~= chunk@.subrange(
                clen - cap,
                clen as int,
            ));
        }
    } else {
        let keep = cap - clen;
        let from = if len <= keep { 0 } else { len - keep };
        copy_range(buffer.data.as_slice(), from, len, &mut out);
        copy_range(chunk, 0, clen, &mut out);
        proof {
            assert(all.subrange(all.len() - min_nat(all.len(), cap as nat), all.len() as int) =~= buf.subrange(
                from as int,
                len as int,
            ) + chunk@.subrange(0, clen as int));
        }
    }
    buffer.data = out;
}

/// Whether `needle` occurs in `haystack` at position `i`.
pub open spec fn occurs_at(haystack: Seq<u8>, needle: Seq<u8>, i: int) -> bool {
    0 <= i && i + needle.len() <= haystack.len() && haystack.subrange(i, i + needle.len()) == needle
}

/// The index of the first window of `haystack` equal to `needle`.
pub fn find_slice(haystack: &[u8], needle: &[u8]) -> (r: Option<usize>)
    requires
        needle@.len() > 0,
    ensures
        match r {
            Some(i) => occurs_at(haystack@, needle@, i as int) && forall|j: int|
                0 <= j < i ==> !occurs_at(haystack@, needle@, j),
            None => forall|j: int| !occurs_at(haystack@, needle@, j),
        },
{
    let n = needle.len();
    let h = haystack.len();
    if n > h {
        return None;
    }
    let mut i: usize = 0;
    while i <= h - n
        invariant
            n == needle@.len(),
            h == haystack@.len(),
            n <= h,
            i <= h - n + 1,
            forall|j: int| 0 <= j < i ==> !occurs_at(haystack@, needle@, j),
        decreases h - n + 1 - i,
    {
        let mut k: usize = 0;
        while k < n && haystack[i + k] == needle[k]
            invariant
                i + n <= h,
                n == needle@.len(),
                h == haystack@.len(),
                k <= n,
                forall|m: int| 0 <= m < k ==> haystack@[i + m] == needle@[m],
            decreases n - k,
        {
            k = k + 1;
        }
        if k == n {
            proof {
                assert(haystack@.subrange(i as int, i + n) =~= needle@);
            }
            return Some(i);
        }
        proof {
            assert(haystack@.subrange(i as int, i + n)[k as int] != needle@[k as int]);
        }
        i = i + 1;
    }
    None
}

/// `i` is the last position at which `needle` occurs in `haystack`.
pub open spec fn last_occurrence(haystack: Seq<u8>, needle: Seq<u8>, i: int) -> bool {
    occurs_at(haystack, needle, i) && forall|j: int| i < j ==> !occurs_at(haystack, needle, j)
}

/// The index of the last window of `haystack` equal to `needle` (an empty
/// needle occurs last at the end).
pub fn rfind_slice(haystack: &[u8], needle: &[u8]) -> (r: Option<usize>)
    ensures
        match r {
            Some(i) => last_occurrence(haystack@, needle@, i as int),
            None => forall|j: int| !occurs_at(haystack@, needle@, j),
        },
{
    let n = needle.len();
    let h = haystack.len();
    if n > h {
        return None;
    }
    if n == 0 {
        proof {
            assert(haystack@.subrange(h as int, h as int) =~= needle@);
        }
        return Some(h);
    }
    let mut i: usize = h - n + 1;
    while i > 0
        invariant
            n == needle@.len(),
            h == haystack@.len(),
            n <= h,
            i <= h - n + 1,
            forall|j: int| i <= j ==> !occurs_at(haystack@, needle@, j),
        decreases i,
    {
        let s = i - 1;
        let mut k: usize = 0;
        while k < n && haystack[s + k] == needle[k]
            invariant
                s + n <= h,
                n == needle@.len(),
                h == haystack@.len(),
                k <= n,
                forall|m: int| 0 <= m < k ==> haystack@[s + m] == needle@[m],
            decreases n - k,
        {
            k = k + 1;
        }
        if k == n {
            proof {
                assert(haystack@.subrange(s as int, s + n) =~= needle@);
            }
            return Some(s);
        }
        proof {
            assert(haystack@.subrange(s as int, s + n)[k as int] != needle@[k as int]);
        }
        i = s;
    }
    None
}

/// The buffer is a rolling window over the output: after an update it holds
/// the most recent bytes of the old contents followed by the chunk, as many
/// as the capacity holds, and keeps its capacity.
pub proof fn law_rolling_window(buf: Seq<u8>, cap: nat, chunk: Seq<u8>)
    ensures
        ({
            let (after, c) = spec_update(buf, cap, chunk);
            let all = buf + chunk;
            &&& c == cap
            &&& after.len() == min_nat(all.len(), cap)
            &&& after == all.subrange(all.len() - after.len(), all.len() as int)
        }),
{
}

/// The newest chunk ends the buffer, where the capacity holds it; a longer
/// chunk fills the buffer with its last bytes.
pub proof fn law_chunk_is_last(buf: Seq<u8>, cap: nat, chunk: Seq<u8>)
    ensures
        ({
            let (after, c) = spec_update(buf, cap, chunk);
            &&& chunk.len() <= cap ==> after.len() >= chunk.len() && after.subrange(
                after.len() - chunk.len(),
                after.len() as int,
            ) == chunk
            &&& chunk.len() > cap ==> after == chunk.subrange(chunk.len() - cap, chunk.len() as int)
        }),
{
    let all = buf + chunk;
    let (after, c) = spec_update(buf, cap, chunk);
    if chunk.len() <= cap {
        assert(after.subrange(after.len() - chunk.len(), after.len() as int) =~= chunk);
    } else {
        assert(after =~= chunk.subrange(chunk.len() - cap, chunk.len() as int));
    }
}

} // verus!
