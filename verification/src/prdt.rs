//! The physical region descriptor table: the scatter list that tells the
//! controller where in memory the data of a command lies.

use vstd::prelude::*;

verus! {

/// The most bytes one descriptor may carry.
pub const PRD_MAX_BYTES: u32 = 0x3F_FFFF;
/// The bytes a full descriptor carries: the largest whole number of
/// 512-byte blocks within [`PRD_MAX_BYTES`].
pub const PRD_CHUNK_BYTES: u32 = 0x3F_FE00;
/// Number of descriptors a command table has room for.
pub const PRDT_CAPACITY: usize = 16;

/// One descriptor: a run of physically contiguous bytes.
#[derive(Clone, Copy, Debug, PartialEq, Eq, Structural)]
pub struct PrdEntry {
    /// Physical address of the first byte.
    pub addr: u64,
    /// Number of bytes.
    pub bytes: u32,
}

/// Number of descriptors that a buffer of `len` bytes takes.
pub open spec fn prd_count(len: int) -> int {
    (len + PRD_CHUNK_BYTES - 1) / (PRD_CHUNK_BYTES as int)
}

/// Descriptor `i` of a buffer of `len` bytes at `addr`: it starts `i` full
/// chunks into the buffer and carries a full chunk, or what is left.
pub open spec fn prd_entry(addr: u64, len: u32, i: int) -> PrdEntry {
    PrdEntry {
        addr: (addr + i * PRD_CHUNK_BYTES) as u64,
        bytes: if len - i * PRD_CHUNK_BYTES < PRD_CHUNK_BYTES {
            (len - i * PRD_CHUNK_BYTES) as u32
        } else {
            PRD_CHUNK_BYTES
        },
    }
}

/// The descriptors of a buffer of `len` bytes at `addr`.
pub open spec fn prd_entries(addr: u64, len: u32) -> Seq<PrdEntry> {
    Seq::new(prd_count(len as int) as nat, |i: int| prd_entry(addr, len, i))
}

/// Sum of the byte counts of a list of descriptors.
pub open spec fn prd_total(s: Seq<PrdEntry>) -> int
    decreases s.len(),
{
    if s.len() == 0 {
        0
    } else {
        prd_total(s.drop_last()) + s.last().bytes
    }
}

/// The four words of a descriptor as the controller reads them: the
/// address in two halves, a reserved word, and the byte count less one.
pub open spec fn prd_words(e: PrdEntry) -> Seq<u32> {
    seq![(e.addr % 0x1_0000_0000) as u32, (e.addr / 0x1_0000_0000) as u32, 0u32, (e.bytes - 1) as u32]
}

impl PrdEntry {
    /// Whether the controller accepts the descriptor.
    pub open spec fn wf(self) -> bool {
        &&& 1 <= self.bytes <= PRD_MAX_BYTES
        &&& self.addr + self.bytes <= u64::MAX
    }

    /// Lays the descriptor out as the controller reads it.
    pub fn words(&self) -> (w: [u32; 4])
        requires
            self.bytes >= 1,
        ensures
            w@ == prd_words(*self),
    {
        let addr: u64 = self.addr;
        assert(addr & 0xffff_ffff == addr % 0x1_0000_0000 && (addr >> 32) == addr / 0x1_0000_0000
            && (addr >> 32) <= 0xffff_ffff) by (bit_vector);
        let w: [u32; 4] = [(addr & 0xffff_ffff) as u32, (addr >> 32) as u32, 0, self.bytes - 1];
        assert(w@ =~= prd_words(*self));
        w
    }
}

/// Splits the buffer of `len` bytes at physical address `addr` into
/// descriptors.
pub fn split_buffer(addr: u64, len: u32) -> (v: Vec<PrdEntry>)
    requires
        addr + len <= u64::MAX,
    ensures
        v@ == prd_entries(addr, len),
{
    let mut v: Vec<PrdEntry> = Vec::new();
    let mut done: u32 = 0;
    let ghost mut i: int = 0;
    while done < len
        invariant
            addr + len <= u64::MAX,
            0 <= i <= prd_count(len as int),
            done == if i * PRD_CHUNK_BYTES < len { i * PRD_CHUNK_BYTES } else { len as int },
            done == len <==> i == prd_count(len as int),
            v@ == Seq::new(i as nat, |j: int| prd_entry(addr, len, j)),
        decreases len - done,
    {
        let left: u32 = len - done;
        let bytes: u32 = if left < PRD_CHUNK_BYTES { left } else { PRD_CHUNK_BYTES };
        let e = PrdEntry { addr: addr + done as u64, bytes };
        assert(e == prd_entry(addr, len, i));
        v.push(e);
        done = done + bytes;
        proof {
            i = i + 1;
            assert(v@ =~= Seq::new(i as nat, |j: int| prd_entry(addr, len, j)));
        }
    }
    assert(v@ =~= prd_entries(addr, len));
    v
}

/// The descriptors of a buffer tile it: there is one for every started
/// chunk, each holds at least one byte and no more than the controller
/// takes, each begins where the one before it ends, the first begins at
/// the buffer, and together they hold exactly the buffer's bytes.
pub proof fn lemma_prd_entries_tile(addr: u64, len: u32)
    requires
        addr + len <= u64::MAX,
    ensures
        prd_entries(addr, len).len() == prd_count(len as int),
        prd_entries(addr, len).len() == 0 <==> len == 0,
        forall|i: int|
            0 <= i < prd_entries(addr, len).len() ==> (#[trigger] prd_entries(addr, len)[i]).wf(),
        forall|i: int|
            0 <= i < prd_entries(addr, len).len() ==> (#[trigger] prd_entries(
                addr,
                len,
            )[i]).addr == addr + i * PRD_CHUNK_BYTES,
        forall|i: int|
            0 <= i < prd_entries(addr, len).len() - 1 ==> (#[trigger] prd_entries(
                addr,
                len,
            )[i]).addr + prd_entries(addr, len)[i].bytes == prd_entries(addr, len)[i + 1].addr,
        prd_total(prd_entries(addr, len)) == len,
{
    let s = prd_entries(addr, len);
    let n = prd_count(len as int);
    assert forall|i: int| 0 <= i < n implies (#[trigger] s[i]).wf() && s[i].addr == addr + i
        * PRD_CHUNK_BYTES && (i < n - 1 ==> s[i].bytes == PRD_CHUNK_BYTES) by {
        assert(s[i] == prd_entry(addr, len, i));
    }
    lemma_prd_prefix_total(addr, len, n);
    assert(s.take(n) =~= s);
}

/// The first `k` descriptors of a buffer hold its first `k` chunks, or all
/// of it once the chunks reach its end.
proof fn lemma_prd_prefix_total(addr: u64, len: u32, k: int)
    requires
        0 <= k <= prd_count(len as int),
    ensures
        prd_total(prd_entries(addr, len).take(k)) == if k * PRD_CHUNK_BYTES < len {
            k * PRD_CHUNK_BYTES
        } else {
            len as int
        },
    decreases k,
{
    let s = prd_entries(addr, len);
    if k > 0 {
        lemma_prd_prefix_total(addr, len, k - 1);
        assert(s.take(k).drop_last() =~= s.take(k - 1));
        assert(s.take(k).last() == prd_entry(addr, len, k - 1));
    }
}

/// A transfer of up to 65535 blocks fits the command table.
pub proof fn lemma_prd_count_bounded(len: u32)
    requires
        len <= 65535 * 512,
    ensures
        prd_count(len as int) <= 9,
        prd_count(len as int) <= PRDT_CAPACITY,
{
}

} // verus!
