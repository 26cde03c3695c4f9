//! A reference model of a SPI-NOR chip for the commands that erasing,
//! programming and reading send, as the datasheets describe them: write
//! enable, sector/block erase (the aligned block holding the address becomes
//! 0xFF), page program (bits can only be cleared, and the address wraps
//! within the page) and read. With it the library states what erasing and
//! programming leave in the flash and what reading gives back. Other
//! commands leave the model unchanged; the laws here only run erase,
//! program and read steps.

use vstd::prelude::*;

use crate::flash::{
    be_value, chunk_writes, cmd_addr, erase_block_steps, erase_steps, lemma_addr_bytes_roundtrip,
    lemma_chunk_writes, page_len, pp_txn, program_mark, program_steps_from, read_steps_from,
    read_txn, write_cycle, written_bytes, OpSpec, StepSpec, CMD_PP, CMD_READ, CMD_WREN,
};
use crate::profile::{
    byte_erased, lemma_plan_erase_covers, menu_wf, op_covers, plan_fits, round_up, spec_plan_erase,
    AddressWidth, EraseOp, EraseType,
};

verus! {

/// The chip: its memory, its write-enable latch, and its erase commands
/// (opcode and block size).
pub struct Chip {
    pub mem: Seq<u8>,
    pub wel: bool,
    pub erase_menu: Seq<EraseType>,
}

/// The block size the chip erases for `opcode`: the first entry of its
/// erase table with that opcode.
pub open spec fn erase_size(menu: Seq<EraseType>, opcode: u8) -> Option<usize>
    decreases menu.len(),
{
    if menu.len() == 0 {
        None
    } else if menu[0].opcode == opcode {
        Some(menu[0].size)
    } else {
        erase_size(menu.drop_first(), opcode)
    }
}

/// Block erase at `addr`: the `size`-aligned block holding it becomes 0xFF.
pub open spec fn erase_block(mem: Seq<u8>, addr: int, size: int) -> Seq<u8> {
    let base = addr - addr % size;
    Seq::new(mem.len(), |y: int| if base <= y < base + size { 0xFFu8 } else { mem[y] })
}

/// How many header address bytes the chip expects.
pub open spec fn addr_len(width: AddressWidth) -> int {
    width.spec_bytes() as int
}

/// The addresses a header of `width` can name.
pub open spec fn addr_limit(width: AddressWidth) -> int {
    match width {
        AddressWidth::Three => 0x100_0000,
        AddressWidth::Four => 0x1_0000_0000,
    }
}

/// The address in the header of the command sent as `b` (opcode first).
pub open spec fn header_addr(b: Seq<u8>, width: AddressWidth) -> int {
    be_value(b.subrange(1, 1 + addr_len(width)))
}

/// Page program from byte `off` of the page at `base` on: each data byte
/// is ANDed into memory, the offset wrapping within the page.
pub open spec fn page_program_from(mem: Seq<u8>, base: int, off: int, data: Seq<u8>, page: int) -> Seq<
    u8,
>
    decreases data.len(),
{
    if data.len() == 0 {
        mem
    } else {
        let x = base + off % page;
        let next = if 0 <= x < mem.len() {
            mem.update(x, mem[x] & data[0])
        } else {
            mem
        };
        page_program_from(next, base, off + 1, data.drop_first(), page)
    }
}

/// Page program at `addr`: the data lands in the page holding `addr`.
pub open spec fn page_program(mem: Seq<u8>, addr: int, data: Seq<u8>, page: int) -> Seq<u8> {
    page_program_from(mem, addr - addr % page, addr % page, data, page)
}

/// What one transaction sending `b` does to the chip.
pub open spec fn chip_txn(c: Chip, b: Seq<u8>, width: AddressWidth, page: int) -> Chip {
    if b.len() == 0 {
        c
    } else if b[0] == CMD_WREN {
        Chip { wel: true, ..c }
    } else if b[0] == CMD_PP {
        if c.wel && b.len() >= 1 + addr_len(width) {
            Chip {
                mem: page_program(
                    c.mem,
                    header_addr(b, width),
                    b.skip(1 + addr_len(width)),
                    page,
                ),
                wel: false,
                ..c
            }
        } else {
            Chip { wel: false, ..c }
        }
    } else {
        match erase_size(c.erase_menu, b[0]) {
            Some(size) => if c.wel && b.len() >= 1 + addr_len(width) && size > 0 {
                Chip { mem: erase_block(c.mem, header_addr(b, width), size as int), wel: false, ..c }
            } else {
                Chip { wel: false, ..c }
            },
            None => c,
        }
    }
}

/// What one step does to the chip: transactions act, the rest (waits,
/// counts, reports) leave it as it is.
pub open spec fn chip_step(c: Chip, s: StepSpec, width: AddressWidth, page: int) -> Chip {
    match s {
        StepSpec::Transact(txn) => chip_txn(c, written_bytes(txn), width, page),
        _ => c,
    }
}

/// The chip after running `steps` in order.
pub open spec fn run_chip(c: Chip, steps: Seq<StepSpec>, width: AddressWidth, page: int) -> Chip
    decreases steps.len(),
{
    if steps.len() == 0 {
        c
    } else {
        run_chip(chip_step(c, steps[0], width, page), steps.drop_first(), width, page)
    }
}

/// How many bytes the reads of a transaction clock in.
pub open spec fn read_count(ops: Seq<OpSpec>) -> nat
    decreases ops.len(),
{
    if ops.len() == 0 {
        0
    } else {
        (match ops[0] {
            OpSpec::Read(n) => n,
            OpSpec::Write(_) => 0,
        }) + read_count(ops.drop_first())
    }
}

/// The bytes the read transactions of `steps` give back from `mem`, in
/// order.
pub open spec fn chip_reads(mem: Seq<u8>, steps: Seq<StepSpec>, width: AddressWidth) -> Seq<u8>
    decreases steps.len(),
{
    if steps.len() == 0 {
        Seq::empty()
    } else {
        (match steps[0] {
            StepSpec::Transact(txn) => {
                let b = written_bytes(txn);
                if b.len() > 0 && b[0] == CMD_READ {
                    let a = header_addr(b, width);
                    mem.subrange(a, a + read_count(txn))
                } else {
                    Seq::empty()
                }
            },
            _ => Seq::empty(),
        }) + chip_reads(mem, steps.drop_first(), width)
    }
}

/// Programming within one page of erased memory: the data lands at `base +
/// off` on, and nothing else changes.
proof fn lemma_page_program_within(mem: Seq<u8>, base: int, off: int, data: Seq<u8>, page: int)
    requires
        page > 0,
        0 <= off,
        off + data.len() <= page,
        0 <= base,
        base + off + data.len() <= mem.len(),
    ensures
        ({
            let r = page_program_from(mem, base, off, data, page);
            &&& r.len() == mem.len()
            &&& forall|x: int|
                #![trigger r[x]]
                base + off <= x < base + off + data.len() ==> r[x] == mem[x] & data[x - base - off]
            &&& forall|x: int|
                #![trigger r[x]]
                0 <= x < mem.len() && !(base + off <= x < base + off + data.len()) ==> r[x]
                    == mem[x]
        }),
    decreases data.len(),
{
    if data.len() > 0 {
        assert(off % page == off) by (nonlinear_arith)
            requires
                0 <= off < page,
        ;
        let x = base + off;
        let next = mem.update(x, mem[x] & data[0]);
        lemma_page_program_within(next, base, off + 1, data.drop_first(), page);
        let r = page_program_from(mem, base, off, data, page);
        assert(r == page_program_from(next, base, off + 1, data.drop_first(), page));
        assert forall|y: int| #![trigger r[y]] base + off <= y < base + off + data.len() implies r[y]
            == mem[y] & data[y - base - off] by {
            if y > x {
                assert(data.drop_first()[y - base - off - 1] == data[y - base - off]);
            }
        }
    }
}

/// Running two step sequences one after the other.
proof fn lemma_run_concat(c: Chip, a: Seq<StepSpec>, b: Seq<StepSpec>, width: AddressWidth, page: int)
    ensures
        run_chip(c, a + b, width, page) == run_chip(run_chip(c, a, width, page), b, width, page),
    decreases a.len(),
{
    if a.len() > 0 {
        lemma_run_concat(chip_step(c, a[0], width, page), a.drop_first(), b, width, page);
        assert((a + b).drop_first() == a.drop_first() + b);
    }
}

/// Reading two step sequences one after the other.
proof fn lemma_reads_concat(mem: Seq<u8>, a: Seq<StepSpec>, b: Seq<StepSpec>, width: AddressWidth)
    ensures
        chip_reads(mem, a + b, width) == chip_reads(mem, a, width) + chip_reads(mem, b, width),
    decreases a.len(),
{
    if a.len() > 0 {
        lemma_reads_concat(mem, a.drop_first(), b, width);
        assert((a + b).drop_first() == a.drop_first() + b);
        assert((a + b)[0] == a[0]);
    } else {
        assert(a + b == b);
    }
}

/// The bytes of a write followed by more operations.
proof fn lemma_written_prefix(h: Seq<u8>, rest: Seq<OpSpec>)
    ensures
        written_bytes(seq![OpSpec::Write(h)] + rest) == h + written_bytes(rest),
{
    let s = seq![OpSpec::Write(h)] + rest;
    assert(s.drop_first() == rest);
}

/// A header names its own address when the address fits the width.
proof fn lemma_header_addr(opcode: u8, addr: int, width: AddressWidth, tail: Seq<u8>)
    requires
        0 <= addr < addr_limit(width),
    ensures
        (cmd_addr(opcode, addr as u32, width) + tail).len() == 1 + addr_len(width) + tail.len(),
        header_addr(cmd_addr(opcode, addr as u32, width) + tail, width) == addr,
        (cmd_addr(opcode, addr as u32, width) + tail)[0] == opcode,
        (cmd_addr(opcode, addr as u32, width) + tail).skip(1 + addr_len(width)) == tail,
{
    lemma_addr_bytes_roundtrip(addr as u32);
    let h = cmd_addr(opcode, addr as u32, width);
    let b = h + tail;
    assert(b.subrange(1, 1 + addr_len(width)) == crate::flash::addr_bytes(addr as u32, width));
    assert(b.skip(1 + addr_len(width)) == tail);
}


/// One page program cycle (write enable, page program, wait, count) of
/// `piece` at `addr`, within one page: the piece is ANDed into memory there
/// and nothing else changes.
proof fn lemma_program_piece(
    c: Chip,
    addr: int,
    piece: Seq<u8>,
    page: int,
    width: AddressWidth,
    m: nat,
    mark: StepSpec,
)
    requires
        page > 0,
        m > 0,
        0 <= addr < addr_limit(width),
        addr % page + piece.len() <= page,
        addr + piece.len() <= c.mem.len(),
        !(mark is Transact),
    ensures
        ({
            let r = run_chip(
                c,
                write_cycle(pp_txn(addr as u32, piece, width, m)).push(mark),
                width,
                page,
            );
            &&& r.mem.len() == c.mem.len()
            &&& forall|x: int|
                #![trigger r.mem[x]]
                addr <= x < addr + piece.len() ==> r.mem[x] == c.mem[x] & piece[x - addr]
            &&& forall|x: int|
                #![trigger r.mem[x]]
                0 <= x < c.mem.len() && !(addr <= x < addr + piece.len()) ==> r.mem[x] == c.mem[x]
        }),
{
    let steps = write_cycle(pp_txn(addr as u32, piece, width, m)).push(mark);
    let wren = crate::flash::cmd1(CMD_WREN);
    assert(written_bytes(wren) == seq![CMD_WREN]) by {
        reveal_with_fuel(written_bytes, 2);
        assert(wren[0] == OpSpec::Write(seq![CMD_WREN]));
        assert(wren.drop_first() == Seq::<OpSpec>::empty());
        assert(seq![CMD_WREN] + Seq::<u8>::empty() == seq![CMD_WREN]);
    }
    let c1 = Chip { wel: true, ..c };
    assert(chip_step(c, steps[0], width, page) == c1);
    lemma_chunk_writes(piece, m);
    lemma_written_prefix(cmd_addr(CMD_PP, addr as u32, width), chunk_writes(piece, m));
    let b = cmd_addr(CMD_PP, addr as u32, width) + piece;
    assert(written_bytes(pp_txn(addr as u32, piece, width, m)) == b);
    lemma_header_addr(CMD_PP, addr, width, piece);
    assert(0 <= addr % page < page && addr % page <= addr) by (nonlinear_arith)
        requires
            page > 0,
            addr >= 0,
    ;
    let base = addr - addr % page;
    let off = addr % page;
    lemma_page_program_within(c.mem, base, off, piece, page);
    let c2 = Chip { mem: page_program(c.mem, addr, piece, page), wel: false, ..c };
    assert(chip_step(c1, steps[1], width, page) == c2);
    assert(chip_step(c2, steps[2], width, page) == c2);
    assert(chip_step(c2, steps[3], width, page) == c2);
    let s1 = steps.drop_first();
    let s2 = s1.drop_first();
    let s3 = s2.drop_first();
    assert(s3 =~= seq![mark]);
    assert(s3.drop_first() =~= Seq::<StepSpec>::empty());
    assert(run_chip(c2, s3.drop_first(), width, page) == c2);
    assert(chip_step(c2, s3[0], width, page) == c2);
    assert(run_chip(c2, s3, width, page) == c2);
    assert(s2[0] == steps[2]);
    assert(run_chip(c2, s2, width, page) == c2);
    assert(s1[0] == steps[1]);
    assert(run_chip(c1, s1, width, page) == c2);
    assert(run_chip(c, steps, width, page) == c2);
}

/// Programming from byte `written` of `data` on, into memory that is
/// erased there: the image lands byte for byte at `offset` on, and nothing
/// else changes.
proof fn lemma_program_from(
    c: Chip,
    offset: int,
    data: Seq<u8>,
    written: int,
    page: int,
    width: AddressWidth,
    m: nat,
    flow: bool,
)
    requires
        page > 0,
        m > 0,
        0 <= offset,
        0 <= written <= data.len(),
        offset + data.len() <= c.mem.len(),
        offset + data.len() <= addr_limit(width),
        forall|x: int| offset + written <= x < offset + data.len() ==> #[trigger] c.mem[x] == 0xFF,
    ensures
        ({
            let r = run_chip(c, program_steps_from(offset, data, written, page, width, m, flow), width, page);
            &&& r.mem.len() == c.mem.len()
            &&& forall|x: int|
                #![trigger r.mem[x]]
                offset + written <= x < offset + data.len() ==> r.mem[x] == data[x - offset]
            &&& forall|x: int|
                #![trigger r.mem[x]]
                0 <= x < c.mem.len() && !(offset + written <= x < offset + data.len()) ==> r.mem[x]
                    == c.mem[x]
        }),
    decreases data.len() - written,
{
    if written < data.len() {
        let addr = offset + written;
        assert(0 <= addr % page < page) by (nonlinear_arith)
            requires
                page > 0,
                addr >= 0,
        ;
        let n = page_len(addr, data.len() - written, page);
        let piece = data.subrange(written, written + n);
        let mark = program_mark(flow, (written + n) as nat);
        let head = write_cycle(pp_txn(addr as u32, piece, width, m)).push(mark);
        let rest = program_steps_from(offset, data, written + n, page, width, m, flow);
        assert(program_steps_from(offset, data, written, page, width, m, flow) == head + rest);
        lemma_run_concat(c, head, rest, width, page);
        lemma_program_piece(c, addr, piece, page, width, m, mark);
        let c1 = run_chip(c, head, width, page);
        assert forall|x: int| offset + written + n <= x < offset + data.len() implies #[trigger] c1.mem[x]
            == 0xFF by {}
        lemma_program_from(c1, offset, data, written + n, page, width, m, flow);
        let r = run_chip(c1, rest, width, page);
        assert forall|x: int| #![trigger r.mem[x]] offset + written <= x < offset + data.len() implies r.mem[x]
            == data[x - offset] by {
            if x < addr + n {
                assert(c1.mem[x] == c.mem[x] & piece[x - addr]);
                assert(c.mem[x] == 0xFF);
                assert(piece[x - addr] == data[x - offset]);
                let v = piece[x - addr];
                assert(0xFFu8 & v == v) by (bit_vector);
            }
        }
    }
}

/// Programming law: on a chip whose target region `[offset, offset + len)`
/// is erased, the program steps leave the image there, byte for byte, and
/// every other byte as it was.
pub proof fn lemma_program_writes_image(
    c: Chip,
    offset: int,
    data: Seq<u8>,
    page: int,
    width: AddressWidth,
    m: nat,
    flow: bool,
)
    requires
        page > 0,
        m > 0,
        0 <= offset,
        offset + data.len() <= c.mem.len(),
        offset + data.len() <= addr_limit(width),
        forall|x: int| offset <= x < offset + data.len() ==> #[trigger] c.mem[x] == 0xFF,
    ensures
        ({
            let r = run_chip(c, program_steps_from(offset, data, 0, page, width, m, flow), width, page);
            &&& r.mem.len() == c.mem.len()
            &&& r.mem.subrange(offset, offset + data.len()) == data
            &&& forall|x: int|
                #![trigger r.mem[x]]
                0 <= x < c.mem.len() && !(offset <= x < offset + data.len()) ==> r.mem[x] == c.mem[x]
        }),
{
    lemma_program_from(c, offset, data, 0, page, width, m, flow);
    let r = run_chip(c, program_steps_from(offset, data, 0, page, width, m, flow), width, page);
    assert(r.mem.subrange(offset, offset + data.len()) =~= data);
}


/// Reading from byte `done` of `len` on gives back the memory there.
proof fn lemma_read_from(mem: Seq<u8>, offset: int, len: int, done: int, width: AddressWidth, m: nat)
    requires
        m > 0,
        0 <= offset,
        0 <= done <= len,
        offset + len <= mem.len(),
        offset + len <= addr_limit(width),
    ensures
        chip_reads(mem, read_steps_from(offset, len, done, width, m), width) == mem.subrange(
            offset + done,
            offset + len,
        ),
    decreases len - done,
{
    if done < len {
        let n = crate::flash::min_int(m as int, len - done);
        let addr = offset + done;
        let txn = read_txn(addr as u32, n as nat, width);
        let head = seq![StepSpec::Transact(txn)];
        let rest = read_steps_from(offset, len, done + n, width, m);
        assert(read_steps_from(offset, len, done, width, m) == head + rest);
        lemma_reads_concat(mem, head, rest, width);
        lemma_read_from(mem, offset, len, done + n, width, m);
        let tail = seq![OpSpec::Read(n as nat)];
        lemma_written_prefix(cmd_addr(CMD_READ, addr as u32, width), tail);
        assert(written_bytes(tail) == Seq::<u8>::empty()) by {
            reveal_with_fuel(written_bytes, 2);
            assert(tail.drop_first() == Seq::<OpSpec>::empty());
        }
        assert(txn == seq![OpSpec::Write(cmd_addr(CMD_READ, addr as u32, width))] + tail);
        let b = written_bytes(txn);
        assert(b == cmd_addr(CMD_READ, addr as u32, width) + Seq::<u8>::empty());
        lemma_header_addr(CMD_READ, addr, width, Seq::<u8>::empty());
        assert(read_count(txn) == n) by {
            reveal_with_fuel(read_count, 3);
            assert(txn.drop_first() == tail);
            assert(tail.drop_first() == Seq::<OpSpec>::empty());
        }
        assert(chip_reads(mem, head, width) == mem.subrange(addr, addr + n)) by {
            assert(head.drop_first() =~= Seq::<StepSpec>::empty());
            assert(chip_reads(mem, head.drop_first(), width) == Seq::<u8>::empty());
            assert(head[0] == StepSpec::Transact(txn));
            assert(b.len() > 0 && b[0] == CMD_READ);
            assert(header_addr(b, width) == addr);
            assert(mem.subrange(addr, addr + n) + Seq::<u8>::empty() =~= mem.subrange(addr, addr + n));
        }
        assert(mem.subrange(addr, addr + n) + mem.subrange(addr + n, offset + len) =~= mem.subrange(
            addr,
            offset + len,
        ));
    } else {
        assert(mem.subrange(offset + done, offset + len) =~= Seq::<u8>::empty());
    }
}

/// Reading law: the read steps give back `len` bytes of the chip's memory
/// from `offset` on, in order.
pub proof fn lemma_read_gives_memory(mem: Seq<u8>, offset: int, len: int, width: AddressWidth, m: nat)
    requires
        m > 0,
        0 <= offset,
        0 <= len,
        offset + len <= mem.len(),
        offset + len <= addr_limit(width),
    ensures
        chip_reads(mem, read_steps_from(offset, len, 0, width, m), width) == mem.subrange(
            offset,
            offset + len,
        ),
{
    lemma_read_from(mem, offset, len, 0, width, m);
}

/// Round trip: programming an image into an erased region and reading the
/// region back gives the image.
pub proof fn lemma_program_then_read(
    c: Chip,
    offset: int,
    data: Seq<u8>,
    page: int,
    width: AddressWidth,
    m: nat,
    flow: bool,
)
    requires
        page > 0,
        m > 0,
        0 <= offset,
        offset + data.len() <= c.mem.len(),
        offset + data.len() <= addr_limit(width),
        forall|x: int| offset <= x < offset + data.len() ==> #[trigger] c.mem[x] == 0xFF,
    ensures
        chip_reads(
            run_chip(c, program_steps_from(offset, data, 0, page, width, m, flow), width, page).mem,
            read_steps_from(offset, data.len() as int, 0, width, m),
            width,
        ) == data,
{
    lemma_program_writes_image(c, offset, data, page, width, m, flow);
    let r = run_chip(c, program_steps_from(offset, data, 0, page, width, m, flow), width, page);
    lemma_read_gives_memory(r.mem, offset, data.len() as int, width, m);
}


/// The chip's erase commands, as the library's erase laws need them: the
/// opcodes are distinct and none is write enable or page program, and every
/// block size is a multiple of the smallest (true of power-of-two sizes).
pub open spec fn erase_menu_fits(menu: Seq<EraseType>) -> bool {
    &&& menu_wf(menu)
    &&& menu.last().size > 0
    &&& forall|i: int, j: int|
        0 <= i < j < menu.len() ==> (#[trigger] menu[i]).opcode != (#[trigger] menu[j]).opcode
    &&& forall|i: int|
        0 <= i < menu.len() ==> (#[trigger] menu[i]).opcode != CMD_WREN && menu[i].opcode != CMD_PP
    &&& forall|i: int| 0 <= i < menu.len() ==> (#[trigger] menu[i]).size % menu.last().size == 0
}

/// The chip finds an erase command of its table by its opcode.
proof fn lemma_erase_size(menu: Seq<EraseType>, k: int)
    requires
        0 <= k < menu.len(),
        forall|i: int, j: int|
            0 <= i < j < menu.len() ==> (#[trigger] menu[i]).opcode != (#[trigger] menu[j]).opcode,
    ensures
        erase_size(menu, menu[k].opcode) == Some(menu[k].size),
    decreases menu.len(),
{
    if k > 0 {
        let t = menu.drop_first();
        assert(menu[0].opcode != menu[k].opcode);
        assert forall|i: int, j: int| 0 <= i < j < t.len() implies (#[trigger] t[i]).opcode != (
        #[trigger] t[j]).opcode by {
            assert(t[i] == menu[i + 1]);
            assert(t[j] == menu[j + 1]);
        }
        assert(t[k - 1] == menu[k]);
        lemma_erase_size(t, k - 1);
    }
}

/// Every op of the plan starts at a multiple of the smallest size.
proof fn lemma_ops_on_grid(ops: Seq<EraseOp>, menu: Seq<EraseType>, min: int, i: int)
    requires
        min > 0,
        0 <= i < ops.len(),
        ops[0].addr as int % min == 0,
        forall|k: int| #![trigger ops[k]] 0 <= k < ops.len() - 1 ==> ops[k + 1].addr == ops[k].addr + ops[k].ty.size,
        forall|k: int| 0 <= k < ops.len() ==> menu.contains(#[trigger] ops[k].ty),
        forall|k: int| 0 <= k < menu.len() ==> (#[trigger] menu[k]).size as int % min == 0,
    ensures
        ops[i].addr as int % min == 0,
    decreases i,
{
    if i > 0 {
        lemma_ops_on_grid(ops, menu, min, i - 1);
        let a = ops[i - 1].addr as int;
        let z = ops[i - 1].ty.size as int;
        assert(menu.contains(ops[i - 1].ty));
        let k = choose|k: int| 0 <= k < menu.len() && menu[k] == ops[i - 1].ty;
        assert(menu[k].size as int % min == 0);
        assert(ops[i].addr == ops[i - 1].addr + ops[i - 1].ty.size);
        vstd::arithmetic::div_mod::lemma_mod_adds(a, z, min);
    }
}

/// One erase cycle (write enable, erase command, wait, count) at an op
/// aligned to its own size: its block becomes 0xFF and nothing else
/// changes.
proof fn lemma_erase_block(c: Chip, op: EraseOp, width: AddressWidth, page: int, k: nat)
    requires
        op.ty.size > 0,
        op.addr as int % op.ty.size as int == 0,
        op.addr < addr_limit(width),
        erase_size(c.erase_menu, op.ty.opcode) == Some(op.ty.size),
        op.ty.opcode != CMD_WREN,
        op.ty.opcode != CMD_PP,
    ensures
        ({
            let r = run_chip(c, erase_block_steps(op, width, k), width, page);
            &&& r.mem.len() == c.mem.len()
            &&& r.erase_menu == c.erase_menu
            &&& forall|y: int|
                #![trigger r.mem[y]]
                0 <= y < c.mem.len() ==> r.mem[y] == (if op.addr <= y < op.addr + op.ty.size {
                    0xFFu8
                } else {
                    c.mem[y]
                })
        }),
{
    let steps = erase_block_steps(op, width, k);
    let wren = crate::flash::cmd1(CMD_WREN);
    assert(written_bytes(wren) == seq![CMD_WREN]) by {
        reveal_with_fuel(written_bytes, 2);
        assert(wren[0] == OpSpec::Write(seq![CMD_WREN]));
        assert(wren.drop_first() == Seq::<OpSpec>::empty());
        assert(seq![CMD_WREN] + Seq::<u8>::empty() == seq![CMD_WREN]);
    }
    let c1 = Chip { wel: true, ..c };
    assert(chip_step(c, steps[0], width, page) == c1);
    let h = cmd_addr(op.ty.opcode, op.addr as u32, width);
    let txn = seq![OpSpec::Write(h)];
    lemma_written_prefix(h, Seq::<OpSpec>::empty());
    assert(txn == seq![OpSpec::Write(h)] + Seq::<OpSpec>::empty());
    assert(written_bytes(Seq::<OpSpec>::empty()) == Seq::<u8>::empty());
    assert(written_bytes(txn) == h + Seq::<u8>::empty());
    lemma_header_addr(op.ty.opcode, op.addr as int, width, Seq::<u8>::empty());
    let c2 = Chip {
        mem: erase_block(c.mem, op.addr as int, op.ty.size as int),
        wel: false,
        ..c
    };
    assert(chip_step(c1, steps[1], width, page) == c2);
    let s1 = steps.drop_first();
    let s2 = s1.drop_first();
    let s3 = s2.drop_first();
    assert(s3 =~= seq![StepSpec::Erased(k + 1)]);
    assert(s3.drop_first() =~= Seq::<StepSpec>::empty());
    assert(run_chip(c2, s3.drop_first(), width, page) == c2);
    assert(chip_step(c2, s3[0], width, page) == c2);
    assert(run_chip(c2, s3, width, page) == c2);
    assert(s2[0] == steps[2]);
    assert(run_chip(c2, s2, width, page) == c2);
    assert(s1[0] == steps[1]);
    assert(run_chip(c1, s1, width, page) == c2);
    assert(run_chip(c, steps, width, page) == c2);
}

/// Running the erase steps of `ops` erases every byte some op covers and
/// leaves the memory's size and the erase table as they were.
proof fn lemma_erase_all(c: Chip, ops: Seq<EraseOp>, width: AddressWidth, page: int)
    requires
        forall|i: int|
            #![trigger ops[i]]
            0 <= i < ops.len() ==> {
                &&& ops[i].ty.size > 0
                &&& ops[i].addr as int % ops[i].ty.size as int == 0
                &&& ops[i].addr < addr_limit(width)
                &&& erase_size(c.erase_menu, ops[i].ty.opcode) == Some(ops[i].ty.size)
                &&& ops[i].ty.opcode != CMD_WREN
                &&& ops[i].ty.opcode != CMD_PP
            },
    ensures
        ({
            let r = run_chip(c, erase_steps(ops, width), width, page);
            &&& r.mem.len() == c.mem.len()
            &&& r.erase_menu == c.erase_menu
            &&& forall|x: int| 0 <= x < c.mem.len() && byte_erased(ops, x) ==> #[trigger] r.mem[x] == 0xFF
        }),
    decreases ops.len(),
{
    if ops.len() > 0 {
        let init = ops.drop_last();
        let op = ops.last();
        assert forall|i: int| #![trigger init[i]] 0 <= i < init.len() implies {
            &&& init[i].ty.size > 0
            &&& init[i].addr as int % init[i].ty.size as int == 0
            &&& init[i].addr < addr_limit(width)
            &&& erase_size(c.erase_menu, init[i].ty.opcode) == Some(init[i].ty.size)
            &&& init[i].ty.opcode != CMD_WREN
            &&& init[i].ty.opcode != CMD_PP
        } by {
            assert(init[i] == ops[i]);
        }
        lemma_erase_all(c, init, width, page);
        let c1 = run_chip(c, erase_steps(init, width), width, page);
        let tail = erase_block_steps(op, width, (ops.len() - 1) as nat);
        assert(erase_steps(ops, width) == erase_steps(init, width) + tail);
        lemma_run_concat(c, erase_steps(init, width), tail, width, page);
        assert(ops[ops.len() - 1] == op);
        lemma_erase_block(c1, op, width, page, (ops.len() - 1) as nat);
        let r = run_chip(c1, tail, width, page);
        assert forall|x: int| 0 <= x < c.mem.len() && byte_erased(ops, x) implies #[trigger] r.mem[x]
            == 0xFF by {
            let i = choose|i: int| #[trigger] op_covers(ops, i, x);
            if i < ops.len() - 1 {
                assert(op_covers(init, i, x));
                assert(byte_erased(init, x));
            }
        }
    }
}

/// Erase law: on a chip whose erase table is the plan's menu (and fits the
/// laws: distinct opcodes, block sizes multiples of the smallest), running
/// the erase plan for `[offset, offset + len)` leaves every byte of the
/// region 0xFF.
pub proof fn lemma_erase_clears_region(c: Chip, offset: usize, len: usize, width: AddressWidth, page: int)
    requires
        erase_menu_fits(c.erase_menu),
        plan_fits(c.erase_menu, offset as int, len as int),
        round_up(offset + len, c.erase_menu.last().size as int) <= addr_limit(width),
    ensures
        ({
            let r = run_chip(
                c,
                erase_steps(spec_plan_erase(c.erase_menu, offset as int, len as int), width),
                width,
                page,
            );
            &&& r.mem.len() == c.mem.len()
            &&& r.erase_menu == c.erase_menu
            &&& forall|x: int| offset <= x < offset + len && x < c.mem.len() ==> #[trigger] r.mem[x] == 0xFF
        }),
{
    let menu = c.erase_menu;
    let min = menu.last().size as int;
    let ops = spec_plan_erase(menu, offset as int, len as int);
    let end = offset + len;
    lemma_plan_erase_covers(menu, offset, len);
    if len > 0 {
        let o = offset as int;
        assert((o - o % min) % min == 0) by (nonlinear_arith)
            requires
                min > 0,
                o >= 0,
        ;
    }
    assert forall|i: int| #![trigger ops[i]] 0 <= i < ops.len() implies {
        &&& ops[i].ty.size > 0
        &&& ops[i].addr as int % ops[i].ty.size as int == 0
        &&& ops[i].addr < addr_limit(width)
        &&& erase_size(c.erase_menu, ops[i].ty.opcode) == Some(ops[i].ty.size)
        &&& ops[i].ty.opcode != CMD_WREN
        &&& ops[i].ty.opcode != CMD_PP
    } by {
        assert(menu.contains(ops[i].ty));
        let k = choose|k: int| 0 <= k < menu.len() && menu[k] == ops[i].ty;
        lemma_erase_size(menu, k);
        assert(menu[k].size >= menu.last().size) by {
            if k < menu.len() - 1 {
                assert(menu[k].size > menu[menu.len() - 1].size);
            }
        }
        lemma_ops_on_grid(ops, menu, min, i);
        let a = ops[i].addr as int;
        assert(a < end);
        assert(a < round_up(end, min)) by {
            assert(end <= round_up(end, min)) by (nonlinear_arith)
                requires
                    min > 0,
                    end >= 0,
            ;
        }
    }
    lemma_erase_all(c, ops, width, page);
}

/// Flash law: erase the covered region, program the image, read the region
/// back: the reads give the image. This is the whole `program` cycle on a
/// chip whose erase table matches the profile's menu.
pub proof fn lemma_erase_program_read(
    c: Chip,
    offset: usize,
    data: Seq<u8>,
    page: int,
    width: AddressWidth,
    m: nat,
    flow: bool,
)
    requires
        erase_menu_fits(c.erase_menu),
        plan_fits(c.erase_menu, offset as int, data.len() as int),
        round_up(offset + data.len(), c.erase_menu.last().size as int) <= addr_limit(width),
        offset + data.len() <= c.mem.len(),
        page > 0,
        m > 0,
    ensures
        chip_reads(
            run_chip(
                c,
                erase_steps(spec_plan_erase(c.erase_menu, offset as int, data.len() as int), width)
                    + program_steps_from(offset as int, data, 0, page, width, m, flow),
                width,
                page,
            ).mem,
            read_steps_from(offset as int, data.len() as int, 0, width, m),
            width,
        ) == data,
{
    let len = data.len() as usize;
    let erase = erase_steps(spec_plan_erase(c.erase_menu, offset as int, len as int), width);
    let program = program_steps_from(offset as int, data, 0, page, width, m, flow);
    lemma_erase_clears_region(c, offset, len, width, page);
    lemma_run_concat(c, erase, program, width, page);
    let c1 = run_chip(c, erase, width, page);
    let min = c.erase_menu.last().size as int;
    let end = offset + len;
    assert(end <= round_up(end, min)) by (nonlinear_arith)
        requires
            min > 0,
            end >= 0,
    ;
    lemma_program_then_read(c1, offset as int, data, page, width, m, flow);
}

} // verus!
