//! Frame Information Structures: the register frame that carries an ATA
//! command to the device, and the status the device posts back.

use vstd::prelude::*;

verus! {

/// FIS type of a register frame from host to device.
pub const FIS_TYPE_REG_H2D: u8 = 0x27;
/// Flag byte of a host-to-device frame that updates the command register.
pub const FIS_H2D_COMMAND: u8 = 0x80;
/// Length of a host-to-device register frame, in 32-bit words.
pub const FIS_H2D_WORDS: u8 = 5;
/// Device register value that selects LBA addressing.
pub const ATA_DEVICE_LBA: u8 = 0x40;
/// Number of logical blocks that 48-bit addressing reaches.
pub const LBA_LIMIT: u64 = 0x1_0000_0000_0000;

/// ATA opcode READ DMA EXT.
pub const ATA_READ_DMA_EXT: u8 = 0x25;
/// ATA opcode WRITE DMA EXT.
pub const ATA_WRITE_DMA_EXT: u8 = 0x35;
/// ATA opcode FLUSH CACHE EXT.
pub const ATA_FLUSH_CACHE_EXT: u8 = 0xEA;

/// The ATA commands the driver issues.
#[derive(Clone, Copy, Debug, PartialEq, Eq, Structural)]
pub enum AtaCommand {
    /// Read sectors by DMA, 48-bit addressing.
    ReadDmaExt,
    /// Write sectors by DMA, 48-bit addressing.
    WriteDmaExt,
    /// Write the device's cache to the medium.
    FlushCacheExt,
}

impl AtaCommand {
    /// The opcode that stands in the frame's command byte.
    pub open spec fn spec_opcode(self) -> u8 {
        match self {
            AtaCommand::ReadDmaExt => ATA_READ_DMA_EXT,
            AtaCommand::WriteDmaExt => ATA_WRITE_DMA_EXT,
            AtaCommand::FlushCacheExt => ATA_FLUSH_CACHE_EXT,
        }
    }

    /// The opcode that stands in the frame's command byte.
    pub fn opcode(self) -> (op: u8)
        ensures
            op == self.spec_opcode(),
    {
        match self {
            AtaCommand::ReadDmaExt => ATA_READ_DMA_EXT,
            AtaCommand::WriteDmaExt => ATA_WRITE_DMA_EXT,
            AtaCommand::FlushCacheExt => ATA_FLUSH_CACHE_EXT,
        }
    }

    /// The command an opcode names, if the driver knows it.
    pub open spec fn spec_from_opcode(op: u8) -> Option<AtaCommand> {
        if op == ATA_READ_DMA_EXT {
            Some(AtaCommand::ReadDmaExt)
        } else if op == ATA_WRITE_DMA_EXT {
            Some(AtaCommand::WriteDmaExt)
        } else if op == ATA_FLUSH_CACHE_EXT {
            Some(AtaCommand::FlushCacheExt)
        } else {
            None
        }
    }

    /// The command an opcode names, if the driver knows it.
    pub fn from_opcode(op: u8) -> (c: Option<AtaCommand>)
        ensures
            c == Self::spec_from_opcode(op),
            c is Some <==> (op == 0x25 || op == 0x35 || op == 0xEA),
            c is Some ==> c->0.spec_opcode() == op,
    {
        if op == ATA_READ_DMA_EXT {
            Some(AtaCommand::ReadDmaExt)
        } else if op == ATA_WRITE_DMA_EXT {
            Some(AtaCommand::WriteDmaExt)
        } else if op == ATA_FLUSH_CACHE_EXT {
            Some(AtaCommand::FlushCacheExt)
        } else {
            None
        }
    }
}

/// A register frame from host to device, before it is laid out in bytes.
#[derive(Clone, Copy, Debug, PartialEq, Eq, Structural)]
pub struct RegH2d {
    /// The command to execute.
    pub command: AtaCommand,
    /// First logical block of the transfer; below [`LBA_LIMIT`].
    pub lba: u64,
    /// Number of sectors to transfer.
    pub count: u16,
    /// Value of the device register.
    pub device: u8,
}

/// The twenty bytes that carry `f` on the wire: type and flags, opcode,
/// the six LBA bytes split around the device register, the sector count,
/// and zero in every field the driver does not use.
pub open spec fn h2d_bytes(f: RegH2d) -> Seq<u8> {
    seq![
        FIS_TYPE_REG_H2D,
        FIS_H2D_COMMAND,
        f.command.spec_opcode(),
        0u8,
        (f.lba % 0x100) as u8,
        (f.lba / 0x100 % 0x100) as u8,
        (f.lba / 0x1_0000 % 0x100) as u8,
        f.device,
        (f.lba / 0x100_0000 % 0x100) as u8,
        (f.lba / 0x1_0000_0000 % 0x100) as u8,
        (f.lba / 0x100_0000_0000 % 0x100) as u8,
        0u8,
        (f.count % 0x100) as u8,
        (f.count / 0x100) as u8,
        0u8,
        0u8,
        0u8,
        0u8,
        0u8,
        0u8,
    ]
}

/// The frame that twenty bytes carry, if they are a command frame from
/// host to device with a known opcode and nothing in the unused fields.
pub open spec fn h2d_parse(b: Seq<u8>) -> Option<RegH2d> {
    if b.len() == 20 && b[0] == FIS_TYPE_REG_H2D && b[1] == FIS_H2D_COMMAND && b[3] == 0 && b[11]
        == 0 && b[14] == 0 && b[15] == 0 && b[16] == 0 && b[17] == 0 && b[18] == 0 && b[19] == 0 {
        match AtaCommand::spec_from_opcode(b[2]) {
            Some(command) => Some(
                RegH2d {
                    command,
                    lba: (b[4] + b[5] * 0x100 + b[6] * 0x1_0000 + b[8] * 0x100_0000 + b[9]
                        * 0x1_0000_0000 + b[10] * 0x100_0000_0000) as u64,
                    count: (b[12] + b[13] * 0x100) as u16,
                    device: b[7],
                },
            ),
            None => None,
        }
    } else {
        None
    }
}

impl RegH2d {
    /// Whether the frame can be laid out without losing address bits.
    pub open spec fn wf(self) -> bool {
        self.lba < LBA_LIMIT
    }

    /// Lays the frame out in wire order. Address bits beyond the 48th
    /// have no place in the frame and are left out.
    pub fn encode(&self) -> (bytes: [u8; 20])
        ensures
            bytes@ == h2d_bytes(*self),
    {
        let lba: u64 = self.lba;
        let count: u16 = self.count;
        assert(lba & 0xff == lba % 0x100 && (lba >> 8) & 0xff == lba / 0x100 % 0x100 && (lba >> 16)
            & 0xff == lba / 0x1_0000 % 0x100 && (lba >> 24) & 0xff == lba / 0x100_0000 % 0x100 && (
        lba >> 32) & 0xff == lba / 0x1_0000_0000 % 0x100 && (lba >> 40) & 0xff == lba
            / 0x100_0000_0000 % 0x100) by (bit_vector);
        assert(count & 0xff == count % 0x100 && (count >> 8) == count / 0x100 && (count >> 8)
            < 0x100) by (bit_vector);
        let bytes: [u8; 20] = [
            FIS_TYPE_REG_H2D,
            FIS_H2D_COMMAND,
            self.command.opcode(),
            0,
            (lba & 0xff) as u8,
            ((lba >> 8) & 0xff) as u8,
            ((lba >> 16) & 0xff) as u8,
            self.device,
            ((lba >> 24) & 0xff) as u8,
            ((lba >> 32) & 0xff) as u8,
            ((lba >> 40) & 0xff) as u8,
            0,
            (count & 0xff) as u8,
            (count >> 8) as u8,
            0,
            0,
            0,
            0,
            0,
            0,
        ];
        assert(bytes@ =~= h2d_bytes(*self));
        bytes
    }

    /// Reads a frame back from its wire form.
    pub fn decode(bytes: &[u8; 20]) -> (f: Option<RegH2d>)
        ensures
            f == h2d_parse(bytes@),
            f is Some ==> f->0.wf(),
    {
        if bytes[0] != FIS_TYPE_REG_H2D || bytes[1] != FIS_H2D_COMMAND || bytes[3] != 0
            || bytes[11] != 0 || bytes[14] != 0 || bytes[15] != 0 || bytes[16] != 0 || bytes[17]
            != 0 || bytes[18] != 0 || bytes[19] != 0 {
            return None;
        }
        match AtaCommand::from_opcode(bytes[2]) {
            None => None,
            Some(command) => {
                let lba: u64 = bytes[4] as u64 + bytes[5] as u64 * 0x100 + bytes[6] as u64
                    * 0x1_0000 + bytes[8] as u64 * 0x100_0000 + bytes[9] as u64 * 0x1_0000_0000
                    + bytes[10] as u64 * 0x100_0000_0000;
                let count: u16 = bytes[12] as u16 + bytes[13] as u16 * 0x100;
                Some(RegH2d { command, lba, count, device: bytes[7] })
            },
        }
    }
}

/// A 48-bit number is the sum of its six bytes, each at its place.
proof fn lemma_lba_bytes(lba: u64)
    by (bit_vector)
    requires
        lba < 0x1_0000_0000_0000,
    ensures
        lba == lba % 0x100 + (lba / 0x100 % 0x100) * 0x100 + (lba / 0x1_0000 % 0x100) * 0x1_0000
            + (lba / 0x100_0000 % 0x100) * 0x100_0000 + (lba / 0x1_0000_0000 % 0x100)
            * 0x1_0000_0000 + (lba / 0x100_0000_0000 % 0x100) * 0x100_0000_0000,
{
}

/// A frame that is laid out and read back is the frame itself.
pub proof fn lemma_h2d_roundtrip(f: RegH2d)
    requires
        f.wf(),
    ensures
        h2d_parse(h2d_bytes(f)) == Some(f),
{
    let b = h2d_bytes(f);
    assert(b.len() == 20);
    assert(AtaCommand::spec_from_opcode(f.command.spec_opcode()) == Some(f.command));
    lemma_lba_bytes(f.lba);
    assert(b[4] == f.lba % 0x100);
    assert(b[5] == f.lba / 0x100 % 0x100);
    assert(b[6] == f.lba / 0x1_0000 % 0x100);
    assert(b[8] == f.lba / 0x100_0000 % 0x100);
    assert(b[9] == f.lba / 0x1_0000_0000 % 0x100);
    assert(b[10] == f.lba / 0x100_0000_0000 % 0x100);
    assert(b[12] == f.count % 0x100);
    assert(b[13] == f.count / 0x100);
    let parsed = h2d_parse(b)->0;
    assert(parsed.lba == f.lba);
    assert(parsed.count == f.count);
}

/// Offset, within a port's received-FIS area, of the register frame that
/// the device posts when a command ends.
pub const RFIS_D2H_OFFSET: u64 = 0x40;
/// Size in bytes of a port's received-FIS area.
pub const RFIS_BYTES: u64 = 0x100;

/// The task-file status byte in the first word of a posted register frame.
pub open spec fn spec_d2h_status(word: u32) -> u8 {
    (word / 0x1_0000 % 0x100) as u8
}

/// The task-file error byte in the first word of a posted register frame.
pub open spec fn spec_d2h_error(word: u32) -> u8 {
    (word / 0x100_0000) as u8
}

/// Takes the status and error bytes out of the first word of the register
/// frame that the device posted.
pub fn d2h_status_error(word: u32) -> (r: (u8, u8))
    ensures
        r.0 == spec_d2h_status(word),
        r.1 == spec_d2h_error(word),
{
    assert((word >> 16) & 0xff == word / 0x1_0000 % 0x100 && (word >> 24) == word / 0x100_0000 && (
    word >> 24) < 0x100) by (bit_vector);
    (((word >> 16) & 0xff) as u8, (word >> 24) as u8)
}

} // verus!
