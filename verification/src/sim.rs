//! A model of the device side: a disk that executes the commands the
//! driver builds, moving bytes between its medium and host memory by the
//! descriptors it is given. It states what the commands mean, and stands
//! in for the hardware where there is none.

use vstd::prelude::*;
use crate::command::{rw_command, transfer_ok, Direction, DmaArea};
use crate::fis::{h2d_bytes, h2d_parse, lemma_h2d_roundtrip, AtaCommand, RegH2d};
use crate::prdt::{lemma_prd_entries_tile, prd_count, prd_entries, PrdEntry, PRD_CHUNK_BYTES};

verus! {

/// Task-file status of a command that failed: device ready, error.
pub const ATA_STATUS_FAILED: u8 = 0x41;
/// Task-file error: the command was aborted.
pub const ATA_ERROR_ABORT: u8 = 0x04;
/// Task-file error: the addressed blocks do not exist.
pub const ATA_ERROR_NOT_FOUND: u8 = 0x10;

/// What the device reports when it fails a command.
#[derive(Clone, Copy, Debug, PartialEq, Eq, Structural)]
pub struct TaskFile {
    /// The status register.
    pub status: u8,
    /// The error register.
    pub error: u8,
}

/// A disk and the host memory it moves data to and from. Physical
/// addresses count from the start of `mem`.
pub struct SimModel {
    /// The bytes on the medium.
    pub disk: Seq<u8>,
    /// The bytes of host memory.
    pub mem: Seq<u8>,
}

/// The addresses that a descriptor table covers, in the order in which
/// the data passes through them.
pub open spec fn dma_addrs(prdt: Seq<PrdEntry>) -> Seq<int>
    decreases prdt.len(),
{
    if prdt.len() == 0 {
        Seq::empty()
    } else {
        dma_addrs(prdt.drop_last()) + Seq::new(
            prdt.last().bytes as nat,
            |k: int| prdt.last().addr + k,
        )
    }
}

/// The bytes that stand in `mem` at `addrs`.
pub open spec fn gather(mem: Seq<u8>, addrs: Seq<int>) -> Seq<u8> {
    Seq::new(addrs.len(), |k: int| mem[addrs[k]])
}

/// `mem` after `data` was stored at `addrs`, byte by byte in order.
pub open spec fn scatter(mem: Seq<u8>, addrs: Seq<int>, data: Seq<u8>) -> Seq<u8>
    decreases addrs.len(),
{
    if addrs.len() == 0 {
        mem
    } else {
        scatter(mem, addrs.drop_last(), data.drop_last()).update(addrs.last(), data.last())
    }
}

/// `disk` after `data` was written from byte `at` on.
pub open spec fn overwrite(disk: Seq<u8>, at: int, data: Seq<u8>) -> Seq<u8> {
    Seq::new(
        disk.len(),
        |i: int|
            if at <= i < at + data.len() {
                data[i - at]
            } else {
                disk[i]
            },
    )
}

/// Number of sectors that a frame asks for; a count of zero stands for
/// 65536.
pub open spec fn sector_count(f: RegH2d) -> int {
    if f.count == 0 {
        65536
    } else {
        f.count as int
    }
}

/// The report of a failed command.
pub open spec fn failure(error: u8) -> TaskFile {
    TaskFile { status: ATA_STATUS_FAILED, error }
}

/// What the device does with a frame and its descriptors. A flush
/// changes nothing. A read or a write is refused if its blocks are not
/// all on the medium, and aborted if the descriptors do not hold exactly
/// the bytes of its sectors or reach outside host memory; otherwise a
/// read stores the sectors at the descriptors' addresses, and a write
/// puts the bytes found there on the medium.
pub open spec fn execute(s: SimModel, f: RegH2d, prdt: Seq<PrdEntry>) -> Result<SimModel, TaskFile> {
    let bytes = sector_count(f) * 512;
    let start = f.lba * 512;
    let addrs = dma_addrs(prdt);
    match f.command {
        AtaCommand::FlushCacheExt => Ok(s),
        _ => if start + bytes > s.disk.len() {
            Err(failure(ATA_ERROR_NOT_FOUND))
        } else if addrs.len() != bytes || !(forall|i: int|
            0 <= i < prdt.len() ==> (#[trigger] prdt[i]).addr + prdt[i].bytes <= s.mem.len()) {
            Err(failure(ATA_ERROR_ABORT))
        } else if f.command == AtaCommand::ReadDmaExt {
            Ok(SimModel { mem: scatter(s.mem, addrs, s.disk.subrange(start, start + bytes)), ..s })
        } else {
            Ok(SimModel { disk: overwrite(s.disk, start, gather(s.mem, addrs)), ..s })
        },
    }
}

/// What the device does with the twenty bytes of a frame and its
/// descriptors: bytes that are no command frame are aborted.
pub open spec fn execute_frame(s: SimModel, frame: Seq<u8>, prdt: Seq<PrdEntry>) -> Result<
    SimModel,
    TaskFile,
> {
    match h2d_parse(frame) {
        None => Err(failure(ATA_ERROR_ABORT)),
        Some(f) => execute(s, f, prdt),
    }
}

/// The descriptors of a buffer cover the buffer's addresses, each once
/// and in order.
pub proof fn lemma_dma_addrs_of_buffer(addr: u64, len: u32)
    requires
        addr + len <= u64::MAX,
    ensures
        dma_addrs(prd_entries(addr, len)) == Seq::new(len as nat, |k: int| addr + k),
{
    lemma_dma_addrs_prefix(addr, len, prd_count(len as int));
    assert(prd_entries(addr, len).take(prd_count(len as int)) =~= prd_entries(addr, len));
}

/// The first `n` descriptors of a buffer cover its first `n` chunks, or
/// all of it once the chunks reach its end.
proof fn lemma_dma_addrs_prefix(addr: u64, len: u32, n: int)
    requires
        addr + len <= u64::MAX,
        0 <= n <= prd_count(len as int),
    ensures
        dma_addrs(prd_entries(addr, len).take(n)) == Seq::new(
            (if n * PRD_CHUNK_BYTES < len {
                n * PRD_CHUNK_BYTES
            } else {
                len as int
            }) as nat,
            |k: int| addr + k,
        ),
    decreases n,
{
    let s = prd_entries(addr, len);
    lemma_prd_entries_tile(addr, len);
    if n == 0 {
        assert(dma_addrs(s.take(0)) =~= Seq::new(0nat, |k: int| addr + k));
    } else {
        lemma_dma_addrs_prefix(addr, len, n - 1);
        assert(s.take(n).drop_last() =~= s.take(n - 1));
        assert(s.take(n).last() == s[n - 1]);
        assert(s[n - 1] == crate::prdt::prd_entry(addr, len, n - 1));
        let covered = if n * PRD_CHUNK_BYTES < len {
            n * PRD_CHUNK_BYTES
        } else {
            len as int
        };
        assert(dma_addrs(s.take(n)) =~= Seq::new(covered as nat, |k: int| addr + k));
    }
}

/// Storing changes no length, and where no address repeats, every byte
/// stored is found again at its address.
pub proof fn lemma_scatter_reads_back(mem: Seq<u8>, addrs: Seq<int>, data: Seq<u8>)
    requires
        addrs.len() == data.len(),
        forall|k: int| 0 <= k < addrs.len() ==> 0 <= #[trigger] addrs[k] < mem.len(),
        forall|j: int, k: int| 0 <= j < k < addrs.len() ==> addrs[j] != addrs[k],
    ensures
        scatter(mem, addrs, data).len() == mem.len(),
        forall|k: int|
            0 <= k < addrs.len() ==> scatter(mem, addrs, data)[#[trigger] addrs[k]] == data[k],
    decreases addrs.len(),
{
    if addrs.len() > 0 {
        let front = addrs.drop_last();
        lemma_scatter_reads_back(mem, front, data.drop_last());
        assert forall|k: int| 0 <= k < addrs.len() implies scatter(mem, addrs, data)[
        #[trigger] addrs[k]] == data[k] by {
            if k < addrs.len() - 1 {
                assert(front[k] == addrs[k]);
                assert(addrs[k] != addrs[addrs.len() - 1]);
            }
        }
    }
}

/// After a write and a read of the same blocks, the target buffer holds
/// what the source buffer held: for every transfer that the driver
/// accepts, on blocks that are on the medium and with buffers in host
/// memory, the device executes both commands as the driver builds them,
/// and afterwards the medium and the target buffer hold the bytes of the
/// source buffer.
pub proof fn lemma_write_then_read_round_trip(
    s: SimModel,
    dma: DmaArea,
    lba: u64,
    block_count: u16,
    source: u64,
    target: u64,
)
    requires
        transfer_ok(dma.wide, lba, block_count, source),
        transfer_ok(dma.wide, lba, block_count, target),
        (lba + block_count) * 512 <= s.disk.len(),
        source + block_count * 512 <= s.mem.len(),
        target + block_count * 512 <= s.mem.len(),
    ensures
        ({
            let write = rw_command(dma, lba, block_count, source, Direction::Write);
            let read = rw_command(dma, lba, block_count, target, Direction::Read);
            let written = execute_frame(s, h2d_bytes(write.fis), write.prdt);
            let bytes = block_count * 512;
            &&& written is Ok
            &&& written->Ok_0.mem == s.mem
            &&& written->Ok_0.disk.subrange(lba * 512, lba * 512 + bytes) == s.mem.subrange(
                source as int,
                source + bytes,
            )
            &&& execute_frame(written->Ok_0, h2d_bytes(read.fis), read.prdt) is Ok
            &&& execute_frame(written->Ok_0, h2d_bytes(read.fis), read.prdt)->Ok_0.disk
                == written->Ok_0.disk
            &&& execute_frame(written->Ok_0, h2d_bytes(read.fis), read.prdt)->Ok_0.mem.subrange(
                target as int,
                target + bytes,
            ) == s.mem.subrange(source as int, source + bytes)
        }),
{
    let bytes = (block_count * 512) as u32;
    let start = lba * 512;
    let write = rw_command(dma, lba, block_count, source, Direction::Write);
    let read = rw_command(dma, lba, block_count, target, Direction::Read);
    lemma_h2d_roundtrip(write.fis);
    lemma_h2d_roundtrip(read.fis);
    lemma_dma_addrs_of_buffer(source, bytes);
    lemma_dma_addrs_of_buffer(target, bytes);
    lemma_prd_entries_tile(source, bytes);
    lemma_prd_entries_tile(target, bytes);
    let from = dma_addrs(write.prdt);
    let to = dma_addrs(read.prdt);
    assert forall|i: int| 0 <= i < write.prdt.len() implies (#[trigger] write.prdt[i]).addr
        + write.prdt[i].bytes <= s.mem.len() by {
        assert(write.prdt[i] == crate::prdt::prd_entry(source, bytes, i));
    }
    assert forall|i: int| 0 <= i < read.prdt.len() implies (#[trigger] read.prdt[i]).addr
        + read.prdt[i].bytes <= s.mem.len() by {
        assert(read.prdt[i] == crate::prdt::prd_entry(target, bytes, i));
    }
    let written = execute_frame(s, h2d_bytes(write.fis), write.prdt);
    assert(written == execute(s, write.fis, write.prdt));
    assert(written is Ok);
    let mid = written->Ok_0;
    assert(mid.disk == overwrite(s.disk, start, gather(s.mem, from)));
    assert(mid.disk.subrange(start, start + bytes) =~= s.mem.subrange(source as int, source + bytes));
    let done = execute_frame(mid, h2d_bytes(read.fis), read.prdt);
    assert(done == execute(mid, read.fis, read.prdt));
    assert(done is Ok);
    let data = mid.disk.subrange(start, start + bytes);
    lemma_scatter_reads_back(mid.mem, to, data);
    assert(done->Ok_0.mem == scatter(mid.mem, to, data));
    let got = done->Ok_0.mem.subrange(target as int, target + bytes);
    let want = s.mem.subrange(source as int, source + bytes);
    assert forall|k: int| 0 <= k < bytes implies #[trigger] got[k] == want[k] by {
        assert(to[k] == target + k);
        assert(scatter(mid.mem, to, data)[to[k]] == data[k]);
    }
    assert(got =~= want);
}

/// Byte `j` of descriptor `i` passes through the address that stands in
/// the table's addresses after those of the descriptors before it, and
/// the addresses of the first `i + 1` descriptors are those of the first
/// `i` and those of descriptor `i`.
pub proof fn lemma_dma_addr_at(prdt: Seq<PrdEntry>, i: int, j: int)
    requires
        0 <= i < prdt.len(),
        0 <= j < prdt[i].bytes,
    ensures
        dma_addrs(prdt.take(i + 1)).len() == dma_addrs(prdt.take(i)).len() + prdt[i].bytes,
        dma_addrs(prdt.take(i + 1)).len() <= dma_addrs(prdt).len(),
        dma_addrs(prdt)[dma_addrs(prdt.take(i)).len() + j] == prdt[i].addr + j,
    decreases prdt.len(),
{
    assert(prdt.take(i + 1).drop_last() =~= prdt.take(i));
    assert(prdt.take(i + 1).last() == prdt[i]);
    if i == prdt.len() - 1 {
        assert(prdt.take(i + 1) =~= prdt);
    } else {
        let front = prdt.drop_last();
        lemma_dma_addr_at(front, i, j);
        assert(front.take(i) =~= prdt.take(i));
        assert(front.take(i + 1) =~= prdt.take(i + 1));
    }
}

/// A disk with host memory, to execute commands on.
pub struct SimDisk {
    disk: Vec<u8>,
    mem: Vec<u8>,
}

impl View for SimDisk {
    type V = SimModel;

    closed spec fn view(&self) -> SimModel {
        SimModel { disk: self.disk@, mem: self.mem@ }
    }
}

impl SimDisk {
    /// A zeroed disk of `disk_bytes` bytes with `mem_bytes` bytes of
    /// zeroed host memory.
    pub fn new(disk_bytes: usize, mem_bytes: usize) -> (d: SimDisk)
        ensures
            d@.disk == Seq::new(disk_bytes as nat, |i: int| 0u8),
            d@.mem == Seq::new(mem_bytes as nat, |i: int| 0u8),
    {
        let mut disk: Vec<u8> = Vec::new();
        let mut i: usize = 0;
        while i < disk_bytes
            invariant
                i <= disk_bytes,
                disk@ == Seq::new(i as nat, |i: int| 0u8),
            decreases disk_bytes - i,
        {
            disk.push(0);
            i = i + 1;
            assert(disk@ =~= Seq::new(i as nat, |i: int| 0u8));
        }
        let mut mem: Vec<u8> = Vec::new();
        let mut j: usize = 0;
        while j < mem_bytes
            invariant
                j <= mem_bytes,
                mem@ == Seq::new(j as nat, |i: int| 0u8),
            decreases mem_bytes - j,
        {
            mem.push(0);
            j = j + 1;
            assert(mem@ =~= Seq::new(j as nat, |i: int| 0u8));
        }
        SimDisk { disk, mem }
    }

    /// Puts `bytes` into host memory from address `addr` on, if they fit;
    /// memory is left alone if they do not.
    pub fn store(&mut self, addr: u64, bytes: &[u8]) -> (ok: bool)
        ensures
            ok <==> addr + bytes@.len() <= old(self)@.mem.len(),
            ok ==> final(self)@.mem == overwrite(old(self)@.mem, addr as int, bytes@),
            !ok ==> final(self)@.mem == old(self)@.mem,
            final(self)@.disk == old(self)@.disk,
    {
        let size: u64 = self.mem.len() as u64;
        let len: u64 = bytes.len() as u64;
        if len > size || addr > size - len {
            return false;
        }
        let room: usize = self.mem.len();
        let base: usize = addr as usize;
        let mut k: usize = 0;
        while k < bytes.len()
            invariant
                k <= bytes@.len(),
                base == addr,
                room == self.mem@.len(),
                base + bytes@.len() <= self.mem@.len(),
                self.mem@.len() == old(self).mem@.len(),
                self.disk == old(self).disk,
                self.mem@ == overwrite(old(self)@.mem, addr as int, bytes@.take(k as int)),
            decreases bytes@.len() - k,
        {
            self.mem[base + k] = bytes[k];
            k = k + 1;
            assert(self.mem@ =~= overwrite(old(self)@.mem, addr as int, bytes@.take(k as int)));
        }
        assert(bytes@.take(k as int) =~= bytes@);
        true
    }

    /// The `len` bytes of host memory from address `addr` on, if there
    /// are that many.
    pub fn load(&self, addr: u64, len: usize) -> (r: Option<Vec<u8>>)
        ensures
            r is Some <==> addr + len <= self@.mem.len(),
            r is Some ==> r->0@ == self@.mem.subrange(addr as int, addr + len),
    {
        let size: u64 = self.mem.len() as u64;
        if len as u64 > size || addr > size - len as u64 {
            return None;
        }
        let room: usize = self.mem.len();
        let base: usize = addr as usize;
        let mut out: Vec<u8> = Vec::new();
        let mut k: usize = 0;
        while k < len
            invariant
                k <= len,
                base == addr,
                room == self.mem@.len(),
                base + len <= self.mem@.len(),
                out@ == self.mem@.subrange(addr as int, addr + k),
            decreases len - k,
        {
            out.push(self.mem[base + k]);
            k = k + 1;
            assert(out@ =~= self.mem@.subrange(addr as int, addr + k));
        }
        Some(out)
    }

    /// The `len` bytes on the medium from byte `at` on, if there are that
    /// many.
    pub fn medium(&self, at: u64, len: usize) -> (r: Option<Vec<u8>>)
        ensures
            r is Some <==> at + len <= self@.disk.len(),
            r is Some ==> r->0@ == self@.disk.subrange(at as int, at + len),
    {
        let size: u64 = self.disk.len() as u64;
        if len as u64 > size || at > size - len as u64 {
            return None;
        }
        let room: usize = self.disk.len();
        let base: usize = at as usize;
        let mut out: Vec<u8> = Vec::new();
        let mut k: usize = 0;
        while k < len
            invariant
                k <= len,
                base == at,
                room == self.disk@.len(),
                base + len <= self.disk@.len(),
                out@ == self.disk@.subrange(at as int, at + k),
            decreases len - k,
        {
            out.push(self.disk[base + k]);
            k = k + 1;
            assert(out@ =~= self.disk@.subrange(at as int, at + k));
        }
        Some(out)
    }

    /// Decides whether the descriptors hold exactly `bytes` bytes and
    /// stay within host memory.
    fn accepts(&self, prdt: &Vec<PrdEntry>, bytes: u64) -> (ok: bool)
        ensures
            ok <==> dma_addrs(prdt@).len() == bytes && forall|i: int|
                0 <= i < prdt@.len() ==> (#[trigger] prdt@[i]).addr + prdt@[i].bytes
                    <= self@.mem.len(),
    {
        let size: u64 = self.mem.len() as u64;
        let mut total: u64 = 0;
        let mut i: usize = 0;
        while i < prdt.len()
            invariant
                i <= prdt@.len(),
                size == self.mem@.len(),
                total == dma_addrs(prdt@.take(i as int)).len(),
                total <= bytes,
                forall|k: int|
                    0 <= k < i ==> (#[trigger] prdt@[k]).addr + prdt@[k].bytes <= self.mem@.len(),
            decreases prdt@.len() - i,
        {
            let e: PrdEntry = prdt[i];
            proof {
                assert(prdt@.take(i + 1).drop_last() =~= prdt@.take(i as int));
                assert(prdt@.take(i + 1).last() == prdt@[i as int]);
                lemma_dma_addrs_grow(prdt@, i + 1);
            }
            if e.bytes as u64 > size || e.addr > size - e.bytes as u64 {
                return false;
            }
            if e.bytes as u64 > bytes - total {
                return false;
            }
            total = total + e.bytes as u64;
            i = i + 1;
        }
        assert(prdt@.take(i as int) =~= prdt@);
        total == bytes
    }

    /// Executes the command that `frame` carries with the descriptors
    /// `prdt`. A command that fails changes nothing.
    pub fn execute(&mut self, frame: &[u8; 20], prdt: &Vec<PrdEntry>) -> (r: Result<(), TaskFile>)
        ensures
            match execute_frame(old(self)@, frame@, prdt@) {
                Ok(s) => r is Ok && final(self)@ == s,
                Err(report) => r == Err::<(), TaskFile>(report) && final(self)@ == old(self)@,
            },
    {
        let f: RegH2d = match RegH2d::decode(frame) {
            None => {
                return Err(TaskFile { status: ATA_STATUS_FAILED, error: ATA_ERROR_ABORT });
            },
            Some(f) => f,
        };
        let read: bool = match f.command {
            AtaCommand::FlushCacheExt => {
                return Ok(());
            },
            AtaCommand::ReadDmaExt => true,
            AtaCommand::WriteDmaExt => false,
        };
        let sectors: u64 = if f.count == 0 { 65536 } else { f.count as u64 };
        let bytes: u64 = sectors * 512;
        let start: u64 = f.lba * 512;
        let medium: u64 = self.disk.len() as u64;
        if bytes > medium || start > medium - bytes {
            return Err(TaskFile { status: ATA_STATUS_FAILED, error: ATA_ERROR_NOT_FOUND });
        }
        if !self.accepts(prdt, bytes) {
            return Err(TaskFile { status: ATA_STATUS_FAILED, error: ATA_ERROR_ABORT });
        }
        let room: usize = self.mem.len();
        let space: usize = self.disk.len();
        let ghost addrs = dma_addrs(prdt@);
        let ghost data = self.disk@.subrange(start as int, start + bytes);
        let ghost found = gather(self.mem@, addrs);
        let mut off: u64 = 0;
        let mut i: usize = 0;
        while i < prdt.len()
            invariant
                i <= prdt@.len(),
                addrs == dma_addrs(prdt@),
                addrs.len() == bytes,
                start + bytes <= old(self).disk@.len(),
                data == old(self).disk@.subrange(start as int, start + bytes),
                found == gather(old(self).mem@, addrs),
                forall|k: int|
                    0 <= k < prdt@.len() ==> (#[trigger] prdt@[k]).addr + prdt@[k].bytes <= old(
                        self,
                    ).mem@.len(),
                off == dma_addrs(prdt@.take(i as int)).len(),
                off <= bytes,
                room == old(self).mem@.len(),
                medium == old(self).disk@.len(),
                medium == space,
                self.mem@.len() == old(self).mem@.len(),
                self.disk@.len() == old(self).disk@.len(),
                read ==> self.disk@ == old(self).disk@ && self.mem@ == scatter(
                    old(self).mem@,
                    addrs.take(off as int),
                    data.take(off as int),
                ),
                !read ==> self.mem@ == old(self).mem@ && self.disk@ == overwrite(
                    old(self).disk@,
                    start as int,
                    found.take(off as int),
                ),
            decreases prdt@.len() - i,
        {
            let e: PrdEntry = prdt[i];
            let ghost base = off;
            proof {
                lemma_dma_addrs_grow(prdt@, i + 1);
                assert(prdt@.take(i + 1).drop_last() =~= prdt@.take(i as int));
                assert(prdt@.take(i + 1).last() == prdt@[i as int]);
            }
            let mut j: u32 = 0;
            while j < e.bytes
                invariant
                    j <= e.bytes,
                    i < prdt@.len(),
                    e == prdt@[i as int],
                    addrs == dma_addrs(prdt@),
                    addrs.len() == bytes,
                    start + bytes <= old(self).disk@.len(),
                    data == old(self).disk@.subrange(start as int, start + bytes),
                    found == gather(old(self).mem@, addrs),
                    e.addr + e.bytes <= old(self).mem@.len(),
                    base == dma_addrs(prdt@.take(i as int)).len(),
                    base + e.bytes <= bytes,
                    off == base + j,
                    room == old(self).mem@.len(),
                    medium == old(self).disk@.len(),
                    medium == space,
                    self.mem@.len() == old(self).mem@.len(),
                    self.disk@.len() == old(self).disk@.len(),
                    read ==> self.disk@ == old(self).disk@ && self.mem@ == scatter(
                        old(self).mem@,
                        addrs.take(off as int),
                        data.take(off as int),
                    ),
                    !read ==> self.mem@ == old(self).mem@ && self.disk@ == overwrite(
                        old(self).disk@,
                        start as int,
                        found.take(off as int),
                    ),
                decreases e.bytes - j,
            {
                proof {
                    lemma_dma_addr_at(prdt@, i as int, j as int);
                    assert(addrs[off as int] == e.addr + j);
                    assert(addrs.take(off + 1).drop_last() =~= addrs.take(off as int));
                    assert(data.take(off + 1).drop_last() =~= data.take(off as int));
                    assert(e.addr + j < room);
                    assert(start + off < medium);
                }
                let at: usize = (e.addr + j as u64) as usize;
                let on: usize = (start + off) as usize;
                if read {
                    self.mem[at] = self.disk[on];
                } else {
                    self.disk[on] = self.mem[at];
                    assert(self.disk@ =~= overwrite(
                        old(self).disk@,
                        start as int,
                        found.take(off + 1),
                    ));
                }
                j = j + 1;
                off = off + 1;
            }
            i = i + 1;
        }
        proof {
            assert(prdt@.take(i as int) =~= prdt@);
            assert(addrs.take(off as int) =~= addrs);
            assert(data.take(off as int) =~= data);
            assert(found.take(off as int) =~= found);
        }
        Ok(())
    }
}

/// The addresses of the first `n` descriptors are no more than those of
/// the whole table.
proof fn lemma_dma_addrs_grow(prdt: Seq<PrdEntry>, n: int)
    requires
        0 <= n <= prdt.len(),
    ensures
        dma_addrs(prdt.take(n)).len() <= dma_addrs(prdt).len(),
    decreases prdt.len(),
{
    if n == prdt.len() {
        assert(prdt.take(n) =~= prdt);
    } else {
        assert(prdt.drop_last().take(n) =~= prdt.take(n));
        lemma_dma_addrs_grow(prdt.drop_last(), n);
    }
}

} // verus!
