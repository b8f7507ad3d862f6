//! Commands as the controller reads them: the header in the command list,
//! the command table with its frame and descriptors, and the rules that
//! turn a block request into both.

use vstd::prelude::*;
use crate::error::AhciError;
use crate::fis::{h2d_bytes, AtaCommand, RegH2d, ATA_DEVICE_LBA, FIS_H2D_WORDS, LBA_LIMIT};
use crate::prdt::{
    lemma_prd_count_bounded,
    lemma_prd_entries_tile,
    prd_entries,
    prd_words,
    split_buffer,
    PrdEntry,
    PRDT_CAPACITY,
};

verus! {

/// Bytes in one logical block.
pub const BLOCK_SIZE: usize = 512;
/// The most blocks one command transfers: the sector count is sixteen bits
/// wide and zero does not stand for a transfer here.
pub const MAX_BLOCKS: usize = 65535;

/// Size in bytes of a port's command list.
pub const COMMAND_LIST_BYTES: u64 = 0x400;
/// Words of a command table that precede its descriptors.
pub const TABLE_PREFIX_WORDS: usize = 32;
/// Size in bytes of a command table with all its descriptors.
pub const COMMAND_TABLE_BYTES: u64 = 0x180;
/// Header flag: the data moves from memory to the device.
pub const HEADER_WRITE: u32 = 0x40;
/// Address space of a controller without 64-bit addressing.
pub const NARROW_LIMIT: u64 = 0x1_0000_0000;

/// Which way the data of a transfer moves.
#[derive(Clone, Copy, Debug, PartialEq, Eq, Structural)]
pub enum Direction {
    /// From the device to memory.
    Read,
    /// From memory to the device.
    Write,
}

/// The DMA memory of one port and the reach of the controller that reads
/// it.
#[derive(Clone, Copy, Debug, PartialEq, Eq, Structural)]
pub struct DmaArea {
    /// Physical address of the command list.
    pub list: u64,
    /// Physical address of the received-FIS area.
    pub fis: u64,
    /// Physical address of the command table of slot 0.
    pub table: u64,
    /// Whether the controller takes addresses beyond 32 bits.
    pub wide: bool,
}

/// The first address that a controller cannot reach.
pub open spec fn address_limit(wide: bool) -> int {
    if wide {
        u64::MAX as int
    } else {
        NARROW_LIMIT as int
    }
}

/// Whether `size` bytes at `addr` are a region the controller can use for
/// a structure aligned to `align`: allocated, aligned and within reach.
pub open spec fn region_ok(addr: u64, size: u64, align: u64, wide: bool) -> bool {
    &&& addr != 0
    &&& addr % align == 0
    &&& addr + size <= address_limit(wide)
}

/// Decides whether a region that the platform allocated can be used.
pub fn check_region(addr: u64, size: u64, align: u64, wide: bool) -> (ok: bool)
    requires
        align > 0,
    ensures
        ok == region_ok(addr, size, align, wide),
{
    let limit: u64 = if wide { u64::MAX } else { NARROW_LIMIT };
    addr != 0 && addr % align == 0 && size <= limit && addr <= limit - size
}

/// Whether the `a_size` bytes at `a` and the `b_size` bytes at `b` have no
/// byte in common.
pub open spec fn apart(a: u64, a_size: u64, b: u64, b_size: u64) -> bool {
    a + a_size <= b || b + b_size <= a
}

/// Decides whether two regions have no byte in common.
pub fn check_apart(a: u64, a_size: u64, b: u64, b_size: u64) -> (ok: bool)
    ensures
        ok == apart(a, a_size, b, b_size),
{
    (a <= b && b - a >= a_size) || (b <= a && a - b >= b_size)
}

impl DmaArea {
    /// Whether all three regions are usable and no two of them overlap.
    pub open spec fn wf(self) -> bool {
        &&& region_ok(self.list, COMMAND_LIST_BYTES, 0x400, self.wide)
        &&& region_ok(self.fis, crate::fis::RFIS_BYTES, 0x100, self.wide)
        &&& region_ok(self.table, COMMAND_TABLE_BYTES, 0x80, self.wide)
        &&& apart(self.list, COMMAND_LIST_BYTES, self.fis, crate::fis::RFIS_BYTES)
        &&& apart(self.list, COMMAND_LIST_BYTES, self.table, COMMAND_TABLE_BYTES)
        &&& apart(self.fis, crate::fis::RFIS_BYTES, self.table, COMMAND_TABLE_BYTES)
    }

    /// Decides whether all three regions are usable and no two of them
    /// overlap.
    pub fn is_usable(&self) -> (ok: bool)
        ensures
            ok == self.wf(),
    {
        check_region(self.list, COMMAND_LIST_BYTES, 0x400, self.wide) && check_region(
            self.fis,
            crate::fis::RFIS_BYTES,
            0x100,
            self.wide,
        ) && check_region(self.table, COMMAND_TABLE_BYTES, 0x80, self.wide) && check_apart(
            self.list,
            COMMAND_LIST_BYTES,
            self.fis,
            crate::fis::RFIS_BYTES,
        ) && check_apart(self.list, COMMAND_LIST_BYTES, self.table, COMMAND_TABLE_BYTES)
            && check_apart(self.fis, crate::fis::RFIS_BYTES, self.table, COMMAND_TABLE_BYTES)
    }
}

/// The header of a command, as the driver thinks of it.
#[derive(Clone, Copy, Debug, PartialEq, Eq, Structural)]
pub struct CommandHeader {
    /// Length of the command frame in words.
    pub fis_len: u8,
    /// Whether the data moves from memory to the device.
    pub write: bool,
    /// Number of descriptors in the command table.
    pub prdt_len: u16,
    /// Bytes that the descriptors hold together.
    pub byte_count: u32,
    /// Physical address of the command table.
    pub table_addr: u64,
}

/// The eight words of a header as the controller reads them: the frame
/// length, write flag and descriptor count packed into the first, the
/// count of bytes moved so far (none) in the second, the address of the
/// command table in the third and fourth.
pub open spec fn header_words(h: CommandHeader) -> Seq<u32> {
    seq![
        (h.fis_len + (if h.write {
            HEADER_WRITE
        } else {
            0
        }) + h.prdt_len * 0x1_0000) as u32,
        0u32,
        (h.table_addr % 0x1_0000_0000) as u32,
        (h.table_addr / 0x1_0000_0000) as u32,
        0u32,
        0u32,
        0u32,
        0u32,
    ]
}

impl CommandHeader {
    /// Whether the header can be laid out.
    pub open spec fn wf(self) -> bool {
        self.fis_len < 32
    }

    /// Lays the header out as the controller reads it.
    pub fn words(&self) -> (w: [u32; 8])
        ensures
            w@ == header_words(*self),
    {
        let addr: u64 = self.table_addr;
        assert(addr & 0xffff_ffff == addr % 0x1_0000_0000 && (addr >> 32) == addr / 0x1_0000_0000
            && (addr >> 32) <= 0xffff_ffff) by (bit_vector);
        let flag: u32 = if self.write { HEADER_WRITE } else { 0 };
        let w: [u32; 8] = [
            self.fis_len as u32 + flag + (self.prdt_len as u32) * 0x1_0000,
            0,
            (addr & 0xffff_ffff) as u32,
            (addr >> 32) as u32,
            0,
            0,
            0,
            0,
        ];
        assert(w@ =~= header_words(*self));
        w
    }
}

/// A command ready to be handed to a port.
#[derive(Debug)]
pub struct Command {
    /// The entry of the command list.
    pub header: CommandHeader,
    /// The frame that carries the ATA command.
    pub fis: RegH2d,
    /// The descriptors of the data.
    pub prdt: Vec<PrdEntry>,
}

/// What a [`Command`] holds.
pub struct CommandView {
    /// The entry of the command list.
    pub header: CommandHeader,
    /// The frame that carries the ATA command.
    pub fis: RegH2d,
    /// The descriptors of the data.
    pub prdt: Seq<PrdEntry>,
}

impl View for Command {
    type V = CommandView;

    open spec fn view(&self) -> CommandView {
        CommandView { header: self.header, fis: self.fis, prdt: self.prdt@ }
    }
}

impl CommandView {
    /// Whether the command is consistent: header and table agree on the
    /// number of descriptors, the table has room for them, the frame can
    /// be laid out, and every descriptor is one the controller accepts.
    pub open spec fn wf(self) -> bool {
        &&& self.header.wf()
        &&& self.fis.wf()
        &&& self.header.prdt_len == self.prdt.len()
        &&& self.prdt.len() <= PRDT_CAPACITY
        &&& forall|i: int| 0 <= i < self.prdt.len() ==> (#[trigger] self.prdt[i]).wf()
    }
}

/// Word `k` of a frame's bytes, least significant byte first.
pub open spec fn le_word(b: Seq<u8>, k: int) -> u32 {
    (b[4 * k] + b[4 * k + 1] * 0x100 + b[4 * k + 2] * 0x1_0000 + b[4 * k + 3] * 0x100_0000) as u32
}

/// The words of a command table: the frame in its first five words, zero
/// up to the descriptors, then four words for each descriptor in turn.
pub open spec fn table_words(fis: RegH2d, prdt: Seq<PrdEntry>) -> Seq<u32> {
    Seq::new(
        (TABLE_PREFIX_WORDS + 4 * prdt.len()) as nat,
        |k: int|
            if k < FIS_H2D_WORDS {
                le_word(h2d_bytes(fis), k)
            } else if k < TABLE_PREFIX_WORDS {
                0u32
            } else {
                prd_words(prdt[(k - TABLE_PREFIX_WORDS) / 4])[(k - TABLE_PREFIX_WORDS) % 4]
            },
    )
}

impl Command {
    /// Lays the command table out as the controller reads it.
    pub fn table_image(&self) -> (w: Vec<u32>)
        requires
            forall|i: int| 0 <= i < self.prdt@.len() ==> (#[trigger] self.prdt@[i]).bytes >= 1,
        ensures
            w@ == table_words(self.fis, self.prdt@),
    {
        let bytes: [u8; 20] = self.fis.encode();
        let mut w: Vec<u32> = Vec::new();
        let mut k: usize = 0;
        while k < TABLE_PREFIX_WORDS
            invariant
                k <= TABLE_PREFIX_WORDS,
                bytes@ == h2d_bytes(self.fis),
                w@.len() == k,
                forall|j: int| 0 <= j < k ==> w@[j] == table_words(self.fis, self.prdt@)[j],
            decreases TABLE_PREFIX_WORDS - k,
        {
            let word: u32 = if k < 5 {
                bytes[4 * k] as u32 + (bytes[4 * k + 1] as u32) * 0x100 + (bytes[4 * k + 2] as u32)
                    * 0x1_0000 + (bytes[4 * k + 3] as u32) * 0x100_0000
            } else {
                0
            };
            w.push(word);
            k = k + 1;
        }
        let mut i: usize = 0;
        while i < self.prdt.len()
            invariant
                forall|i: int| 0 <= i < self.prdt@.len() ==> (#[trigger] self.prdt@[i]).bytes >= 1,
                i <= self.prdt.len(),
                w@.len() == TABLE_PREFIX_WORDS + 4 * i,
                forall|j: int| 0 <= j < w@.len() ==> w@[j] == table_words(self.fis, self.prdt@)[j],
            decreases self.prdt.len() - i,
        {
            let e: [u32; 4] = self.prdt[i].words();
            w.push(e[0]);
            w.push(e[1]);
            w.push(e[2]);
            w.push(e[3]);
            i = i + 1;
        }
        assert(w@ =~= table_words(self.fis, self.prdt@));
        w
    }
}

/// Number of blocks that a buffer of `len` bytes holds, if it is a whole
/// number of blocks between 1 and 65535.
pub open spec fn spec_block_count(len: int) -> Option<u16> {
    if len % (BLOCK_SIZE as int) == 0 && 1 <= len / (BLOCK_SIZE as int) <= MAX_BLOCKS {
        Some((len / (BLOCK_SIZE as int)) as u16)
    } else {
        None
    }
}

/// Number of blocks that a buffer of `len` bytes holds. A buffer that is
/// empty, that ends inside a block, or that holds more blocks than one
/// command can count is refused.
pub fn block_count(len: usize) -> (r: Result<u16, AhciError>)
    ensures
        r is Ok <==> spec_block_count(len as int) is Some,
        r is Ok ==> Some(r->Ok_0) == spec_block_count(len as int),
        r is Err ==> r->Err_0 == AhciError::InvalidTransferSize,
{
    if len % BLOCK_SIZE != 0 {
        return Err(AhciError::InvalidTransferSize);
    }
    let n: usize = len / BLOCK_SIZE;
    if n == 0 || n > MAX_BLOCKS {
        return Err(AhciError::InvalidTransferSize);
    }
    Ok(n as u16)
}

/// Whether a transfer of `block_count` blocks from `lba` to or from the
/// buffer at `buffer` can be put into one command: it moves at least one
/// block, stays within 48-bit block addresses, and its buffer lies where
/// the controller can reach it.
pub open spec fn transfer_ok(wide: bool, lba: u64, block_count: u16, buffer: u64) -> bool {
    &&& block_count >= 1
    &&& lba + block_count <= LBA_LIMIT
    &&& buffer + block_count * BLOCK_SIZE <= address_limit(wide)
}

/// The command that moves `block_count` blocks, starting at `lba`, between
/// the device and the buffer at `buffer`.
pub open spec fn rw_command(
    dma: DmaArea,
    lba: u64,
    block_count: u16,
    buffer: u64,
    direction: Direction,
) -> CommandView {
    let bytes = (block_count * BLOCK_SIZE) as u32;
    CommandView {
        header: CommandHeader {
            fis_len: FIS_H2D_WORDS,
            write: direction == Direction::Write,
            prdt_len: prd_entries(buffer, bytes).len() as u16,
            byte_count: bytes,
            table_addr: dma.table,
        },
        fis: RegH2d {
            command: match direction {
                Direction::Read => AtaCommand::ReadDmaExt,
                Direction::Write => AtaCommand::WriteDmaExt,
            },
            lba,
            count: block_count,
            device: ATA_DEVICE_LBA,
        },
        prdt: prd_entries(buffer, bytes),
    }
}

/// The command that makes the device write its cache to the medium. It
/// moves no data: there is no descriptor and no byte to count.
pub open spec fn flush_command(dma: DmaArea) -> CommandView {
    CommandView {
        header: CommandHeader {
            fis_len: FIS_H2D_WORDS,
            write: false,
            prdt_len: 0,
            byte_count: 0,
            table_addr: dma.table,
        },
        fis: RegH2d { command: AtaCommand::FlushCacheExt, lba: 0, count: 0, device: 0 },
        prdt: Seq::empty(),
    }
}

/// Builds the command for a read or a write. A transfer of no blocks, one
/// that runs past the last 48-bit block address, or one whose buffer the
/// controller cannot reach is refused.
pub fn build_rw(
    dma: &DmaArea,
    lba: u64,
    block_count: u16,
    buffer: u64,
    direction: Direction,
) -> (r: Result<Command, AhciError>)
    ensures
        r is Ok <==> transfer_ok(dma.wide, lba, block_count, buffer),
        r is Ok ==> r->Ok_0@ == rw_command(*dma, lba, block_count, buffer, direction)
            && r->Ok_0@.wf(),
        r is Err ==> r->Err_0 == AhciError::InvalidTransferSize,
{
    if block_count == 0 {
        return Err(AhciError::InvalidTransferSize);
    }
    if lba > LBA_LIMIT - block_count as u64 {
        return Err(AhciError::InvalidTransferSize);
    }
    let bytes: u32 = block_count as u32 * 512;
    let limit: u64 = if dma.wide { u64::MAX } else { NARROW_LIMIT };
    if buffer > limit - bytes as u64 {
        return Err(AhciError::InvalidTransferSize);
    }
    let prdt: Vec<PrdEntry> = split_buffer(buffer, bytes);
    proof {
        lemma_prd_entries_tile(buffer, bytes);
        lemma_prd_count_bounded(bytes);
    }
    let command: AtaCommand = match direction {
        Direction::Read => AtaCommand::ReadDmaExt,
        Direction::Write => AtaCommand::WriteDmaExt,
    };
    let write: bool = match direction {
        Direction::Read => false,
        Direction::Write => true,
    };
    let cmd = Command {
        header: CommandHeader {
            fis_len: FIS_H2D_WORDS,
            write,
            prdt_len: prdt.len() as u16,
            byte_count: bytes,
            table_addr: dma.table,
        },
        fis: RegH2d { command, lba, count: block_count, device: ATA_DEVICE_LBA },
        prdt,
    };
    Ok(cmd)
}

/// Builds the command that flushes the device's cache.
pub fn build_flush(dma: &DmaArea) -> (c: Command)
    ensures
        c@ == flush_command(*dma),
        c@.wf(),
{
    Command {
        header: CommandHeader {
            fis_len: FIS_H2D_WORDS,
            write: false,
            prdt_len: 0,
            byte_count: 0,
            table_addr: dma.table,
        },
        fis: RegH2d { command: AtaCommand::FlushCacheExt, lba: 0, count: 0, device: 0 },
        prdt: Vec::new(),
    }
}

} // verus!
