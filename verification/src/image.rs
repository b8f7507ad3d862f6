//! The memory image of a command as the device reads it: what the stores
//! of the driver leave in DMA memory, how the device finds header, frame
//! and descriptors in it, and that it finds what the driver meant.

use vstd::prelude::*;
use crate::action::Action;
use crate::command::{
    header_words,
    le_word,
    rw_command,
    table_words,
    transfer_ok,
    CommandHeader,
    CommandView,
    Direction,
    HEADER_WRITE,
    TABLE_PREFIX_WORDS,
};
use crate::fis::{h2d_bytes, RegH2d};
use crate::port::{issue_script, request_command, stores, PortModel, PortStatus, Request};
use crate::prdt::{prd_words, PrdEntry, PRDT_CAPACITY};
use crate::sim::{execute_frame, lemma_write_then_read_round_trip, SimModel, TaskFile};

verus! {

/// DMA memory after the platform performed the stores among `script`,
/// in order; every other action leaves memory alone.
pub open spec fn store_all(words: Map<int, u32>, script: Seq<Action>) -> Map<int, u32>
    decreases script.len(),
{
    if script.len() == 0 {
        words
    } else {
        let before = store_all(words, script.drop_last());
        match script.last() {
            Action::WriteMem { addr, value } => before.insert(addr as int, value),
            _ => before,
        }
    }
}

/// The `n` words that stand in memory from address `base` on.
pub open spec fn fetch(words: Map<int, u32>, base: int, n: int) -> Seq<u32> {
    Seq::new(n as nat, |k: int| words[base + 4 * k])
}

/// The frame length that the device reads from a header.
pub open spec fn header_fis_len(header: Seq<u32>) -> int {
    header[0] as int % 32
}

/// The write flag that the device reads from a header.
pub open spec fn header_write(header: Seq<u32>) -> bool {
    header[0] as int / (HEADER_WRITE as int) % 2 == 1
}

/// The number of descriptors that the device reads from a header.
pub open spec fn header_prdt_len(header: Seq<u32>) -> int {
    header[0] as int / 0x1_0000
}

/// The address of the command table that the device reads from a header.
pub open spec fn header_table_addr(header: Seq<u32>) -> int {
    header[2] + header[3] * 0x1_0000_0000
}

/// Byte `i` of the frame with which a command table begins.
pub open spec fn frame_byte(table: Seq<u32>, i: int) -> u8 {
    let word = table[i / 4] as int;
    (if i % 4 == 0 {
        word % 0x100
    } else if i % 4 == 1 {
        word / 0x100 % 0x100
    } else if i % 4 == 2 {
        word / 0x1_0000 % 0x100
    } else {
        word / 0x100_0000
    }) as u8
}

/// The twenty bytes of the frame with which a command table begins.
pub open spec fn frame_of(table: Seq<u32>) -> Seq<u8> {
    Seq::new(20, |i: int| frame_byte(table, i))
}

/// Descriptor `i` of a command table.
pub open spec fn prd_of(table: Seq<u32>, i: int) -> PrdEntry {
    PrdEntry {
        addr: (table[TABLE_PREFIX_WORDS + 4 * i] + table[TABLE_PREFIX_WORDS + 4 * i + 1]
            * 0x1_0000_0000) as u64,
        bytes: (table[TABLE_PREFIX_WORDS + 4 * i + 3] as int % 0x40_0000 + 1) as u32,
    }
}

/// The first `n` descriptors of a command table.
pub open spec fn prdt_of(table: Seq<u32>, n: int) -> Seq<PrdEntry> {
    Seq::new(n as nat, |i: int| prd_of(table, i))
}

/// What the device does when the doorbell of slot 0 rings on a port
/// whose command list lies at `list`: it reads the header there, the
/// command table where the header points, and executes the frame of the
/// table with the descriptors of the table.
pub open spec fn ring(s: SimModel, words: Map<int, u32>, list: u64) -> Result<SimModel, TaskFile> {
    let header = fetch(words, list as int, 8);
    let n = header_prdt_len(header);
    let table = fetch(words, header_table_addr(header), TABLE_PREFIX_WORDS + 4 * n);
    execute_frame(s, frame_of(table), prdt_of(table, n))
}

/// The device reads from the words of a header what the driver put into
/// it.
pub proof fn lemma_header_image(h: CommandHeader)
    requires
        h.wf(),
    ensures
        header_words(h).len() == 8,
        header_fis_len(header_words(h)) == h.fis_len,
        header_write(header_words(h)) == h.write,
        header_prdt_len(header_words(h)) == h.prdt_len,
        header_table_addr(header_words(h)) == h.table_addr,
{
}

/// A word that is put together from four bytes comes apart into them.
proof fn lemma_le_word_bytes(b: Seq<u8>, k: int)
    requires
        0 <= k,
        4 * k + 3 < b.len(),
    ensures
        le_word(b, k) % 0x100 == b[4 * k],
        le_word(b, k) / 0x100 % 0x100 == b[4 * k + 1],
        le_word(b, k) / 0x1_0000 % 0x100 == b[4 * k + 2],
        le_word(b, k) / 0x100_0000 == b[4 * k + 3],
{
}

/// The device reads from the words of a command table the frame and the
/// descriptors that the driver put into it.
pub proof fn lemma_table_image(fis: RegH2d, prdt: Seq<PrdEntry>)
    requires
        forall|i: int| 0 <= i < prdt.len() ==> (#[trigger] prdt[i]).wf(),
    ensures
        table_words(fis, prdt).len() == TABLE_PREFIX_WORDS + 4 * prdt.len(),
        frame_of(table_words(fis, prdt)) == h2d_bytes(fis),
        prdt_of(table_words(fis, prdt), prdt.len() as int) == prdt,
{
    let table = table_words(fis, prdt);
    let bytes = h2d_bytes(fis);
    assert forall|i: int| 0 <= i < 20 implies frame_byte(table, i) == bytes[i] by {
        let k = i / 4;
        lemma_le_word_bytes(bytes, k);
        assert(table[k] == le_word(bytes, k));
    }
    assert(frame_of(table) =~= bytes);
    assert forall|i: int| 0 <= i < prdt.len() implies prd_of(table, i) == prdt[i] by {
        let e = prdt[i];
        assert(e.wf());
        assert(table[TABLE_PREFIX_WORDS + 4 * i] == prd_words(e)[0]);
        assert(table[TABLE_PREFIX_WORDS + 4 * i + 1] == prd_words(e)[1]);
        assert(table[TABLE_PREFIX_WORDS + 4 * i + 3] == prd_words(e)[3]);
    }
    assert(prdt_of(table, prdt.len() as int) =~= prdt);
}

/// Performing one script after another is performing both in a row.
pub proof fn lemma_store_all_concat(words: Map<int, u32>, first: Seq<Action>, second: Seq<Action>)
    ensures
        store_all(words, first + second) == store_all(store_all(words, first), second),
    decreases second.len(),
{
    if second.len() == 0 {
        assert(first + second =~= first);
    } else {
        assert((first + second).drop_last() =~= first + second.drop_last());
        assert((first + second).last() == second.last());
        lemma_store_all_concat(words, first, second.drop_last());
    }
}

/// After the stores that put `image` at `base`, memory holds `image`
/// there and what it held before everywhere else.
pub proof fn lemma_store_all_stores(words: Map<int, u32>, base: u64, image: Seq<u32>)
    requires
        base + 4 * image.len() <= u64::MAX,
    ensures
        forall|k: int|
            0 <= k < image.len() ==> #[trigger] store_all(words, stores(base, image))[base + 4
                * k] == image[k],
        forall|a: int|
            !(base <= a < base + 4 * image.len()) ==> #[trigger] store_all(
                words,
                stores(base, image),
            )[a] == words[a],
    decreases image.len(),
{
    let script = stores(base, image);
    if image.len() > 0 {
        let front = image.drop_last();
        assert(script.drop_last() =~= stores(base, front));
        lemma_store_all_stores(words, base, front);
        let last = image.len() - 1;
        let before = store_all(words, stores(base, front));
        assert(script.last() == Action::WriteMem {
            addr: (base + 4 * last) as u64,
            value: image[last],
        });
        assert(store_all(words, script) == before.insert(base + 4 * last, image[last]));
        assert forall|k: int| 0 <= k < image.len() implies #[trigger] store_all(words, script)[base
            + 4 * k] == image[k] by {
            if k < last {
                assert(front[k] == image[k]);
                assert(before[base + 4 * k] == front[k]);
            }
        }
        assert forall|a: int| !(base <= a < base + 4 * image.len()) implies #[trigger] store_all(
            words,
            script,
        )[a] == words[a] by {
            assert(before[a] == words[a]);
        }
    }
}

/// The three actions that end an issue leave memory alone.
proof fn lemma_store_all_ignores(words: Map<int, u32>, a: Action, b: Action, c: Action)
    requires
        !(a is WriteMem),
        !(b is WriteMem),
        !(c is WriteMem),
    ensures
        store_all(words, seq![a, b, c]) == words,
{
    let s3 = seq![a, b, c];
    let s2 = seq![a, b];
    let s1 = seq![a];
    assert(s3.drop_last() =~= s2);
    assert(s2.drop_last() =~= s1);
    assert(s1.drop_last() =~= Seq::<Action>::empty());
    assert(store_all(words, Seq::<Action>::empty()) == words);
    assert(s1.last() == a);
    assert(store_all(words, s1) == words);
    assert(s2.last() == b);
    assert(store_all(words, s2) == words);
    assert(s3.last() == c);
}

/// After the actions that hand a command to a port with usable memory,
/// the command list begins with the words of the header and the command
/// table holds the words of the table, whatever memory held before.
pub proof fn lemma_issue_fills_memory(words: Map<int, u32>, port: PortModel, cmd: CommandView)
    requires
        port.dma.wf(),
        cmd.prdt.len() <= PRDT_CAPACITY,
    ensures
        fetch(store_all(words, issue_script(port.index, port.dma, cmd)), port.dma.list as int, 8)
            == header_words(cmd.header),
        fetch(
            store_all(words, issue_script(port.index, port.dma, cmd)),
            port.dma.table as int,
            TABLE_PREFIX_WORDS + 4 * cmd.prdt.len(),
        ) == table_words(cmd.fis, cmd.prdt),
{
    let dma = port.dma;
    let header = header_words(cmd.header);
    let table = table_words(cmd.fis, cmd.prdt);
    let script = issue_script(port.index, dma, cmd);
    let both = stores(dma.list, header) + stores(dma.table, table);
    let tail = script.subrange(both.len() as int, script.len() as int);
    let w1 = store_all(words, stores(dma.list, header));
    let w2 = store_all(w1, stores(dma.table, table));
    assert(header.len() == 8);
    assert(table.len() == TABLE_PREFIX_WORDS + 4 * cmd.prdt.len());
    lemma_store_all_stores(words, dma.list, header);
    lemma_store_all_stores(w1, dma.table, table);
    lemma_store_all_concat(words, stores(dma.list, header), stores(dma.table, table));
    lemma_store_all_concat(words, both, tail);
    assert(script =~= both + tail);
    assert(tail =~= seq![tail[0], tail[1], tail[2]]);
    lemma_store_all_ignores(w2, tail[0], tail[1], tail[2]);
    let after = store_all(words, script);
    assert(after == w2);
    let seen = fetch(after, dma.list as int, 8);
    assert forall|k: int| 0 <= k < 8 implies seen[k] == header[k] by {
        assert(w1[dma.list + 4 * k] == header[k]);
        assert(!(dma.table <= dma.list + 4 * k < dma.table + 4 * table.len()));
    }
    assert(seen =~= header);
    let found = fetch(after, dma.table as int, TABLE_PREFIX_WORDS + 4 * cmd.prdt.len());
    assert forall|k: int| 0 <= k < table.len() implies found[k] == table[k] by {
        assert(w2[dma.table + 4 * k] == table[k]);
    }
    assert(found =~= table);
}

/// What the driver issues reaches the device: after the actions that
/// hand a command to a port with usable memory, the doorbell makes the
/// device execute the command's frame with the command's descriptors,
/// whatever memory held before.
pub proof fn lemma_issue_reaches_the_device(
    s: SimModel,
    words: Map<int, u32>,
    port: PortModel,
    cmd: CommandView,
)
    requires
        port.dma.wf(),
        cmd.wf(),
        cmd.header.table_addr == port.dma.table,
    ensures
        ring(s, store_all(words, issue_script(port.index, port.dma, cmd)), port.dma.list)
            == execute_frame(s, h2d_bytes(cmd.fis), cmd.prdt),
{
    lemma_issue_fills_memory(words, port, cmd);
    lemma_header_image(cmd.header);
    lemma_table_image(cmd.fis, cmd.prdt);
}

/// A write followed by a read of the same blocks returns the bytes that
/// were written, through everything the driver does: on an idle port,
/// the actions of the write and the ring of the doorbell put the bytes
/// of the source buffer on the medium, and the actions of the read and
/// the next ring put them into the target buffer. This holds for every
/// transfer that the port accepts, on blocks that are on the medium,
/// with buffers in host memory, and whatever DMA memory held before.
pub proof fn lemma_round_trip_through_the_port(
    s: SimModel,
    words: Map<int, u32>,
    port: PortModel,
    lba: u64,
    block_count: u16,
    source: u64,
    target: u64,
)
    requires
        port.wf(),
        port.status == PortStatus::Idle,
        transfer_ok(port.dma.wide, lba, block_count, source),
        transfer_ok(port.dma.wide, lba, block_count, target),
        (lba + block_count) * 512 <= s.disk.len(),
        source + block_count * 512 <= s.mem.len(),
        target + block_count * 512 <= s.mem.len(),
    ensures
        ({
            let write = request_command(port.dma, Request::Write { lba, block_count, buffer: source })->0;
            let read = request_command(port.dma, Request::Read { lba, block_count, buffer: target })->0;
            let bytes = block_count * 512;
            let words1 = store_all(words, issue_script(port.index, port.dma, write));
            let written = ring(s, words1, port.dma.list);
            let words2 = store_all(words1, issue_script(port.index, port.dma, read));
            &&& port.issue(Request::Write { lba, block_count, buffer: source }).1 == issue_script(
                port.index,
                port.dma,
                write,
            )[0]
            &&& port.issue(Request::Write { lba, block_count, buffer: source }).0.pending
                == issue_script(port.index, port.dma, write).drop_first()
            &&& written is Ok
            &&& written->Ok_0.disk.subrange(lba * 512, lba * 512 + bytes) == s.mem.subrange(
                source as int,
                source + bytes,
            )
            &&& ring(written->Ok_0, words2, port.dma.list) is Ok
            &&& ring(written->Ok_0, words2, port.dma.list)->Ok_0.mem.subrange(
                target as int,
                target + bytes,
            ) == s.mem.subrange(source as int, source + bytes)
        }),
{
    let write = rw_command(port.dma, lba, block_count, source, Direction::Write);
    let read = rw_command(port.dma, lba, block_count, target, Direction::Read);
    let bytes = (block_count * 512) as u32;
    crate::prdt::lemma_prd_entries_tile(source, bytes);
    crate::prdt::lemma_prd_entries_tile(target, bytes);
    crate::prdt::lemma_prd_count_bounded(bytes);
    assert(write.wf());
    assert(read.wf());
    let words1 = store_all(words, issue_script(port.index, port.dma, write));
    lemma_issue_reaches_the_device(s, words, port, write);
    lemma_write_then_read_round_trip(s, port.dma, lba, block_count, source, target);
    let written = ring(s, words1, port.dma.list);
    lemma_issue_reaches_the_device(written->Ok_0, words1, port, read);
}

} // verus!
