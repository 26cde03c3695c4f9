//! The SPI-NOR flashing core: what to send the chip and how to read its
//! answers. Hardware-agnostic: every operation is described as a script of
//! SPI transactions and waits, which the host runs against its SPI device;
//! the decisions that depend on the chip's answers are made here too.

use vstd::prelude::*;

use crate::catalog::{lookup_fallback, profile_from_row, row_index, spec_fallback_table};
use crate::profile::{
    dedup_sizes, plan_erase, plan_fits, sort_desc, spec_plan_erase, AddressWidth, EraseMenu,
    EraseOp, ErasePlan, FlashProfile, ProfileSource,
};
use crate::sfdp::{
    spec_address_width, spec_capacity, spec_page_size, spec_raw_erase_types, Bfpt, ParamHeader,
    SfdpHeader, BFPT_ID,
};
use crate::text::{dec_digits, hex_upper, push_dec, push_hex};

verus! {

// Universal SPI-NOR opcodes (M25P16 / EN25QH16B / W25Q16).
pub const CMD_RDID: u8 = 0x9F;
pub const CMD_WREN: u8 = 0x06;
/// Write status register (sets or clears the block-protect bits).
pub const CMD_WRSR: u8 = 0x01;
pub const CMD_RDSR: u8 = 0x05;
pub const CMD_READ: u8 = 0x03;
pub const CMD_PP: u8 = 0x02;
/// Chip erase.
pub const CMD_CE: u8 = 0xC7;
/// Read SFDP parameter space.
pub const CMD_SFDP: u8 = 0x5A;
/// Enter 4-byte addressing mode.
pub const CMD_EN4B: u8 = 0xB7;
/// Enable reset.
pub const CMD_RSTEN: u8 = 0x66;
/// Software reset.
pub const CMD_RST: u8 = 0x99;
/// Release from Deep Power-Down.
pub const CMD_RELEASE_PD: u8 = 0xAB;
/// Status register: write in progress.
pub const SR_WIP: u8 = 0x01;
/// Status register: block-protect bits BP0..BP2 (typical).
pub const SR_BP_MASK: u8 = 0x1C;
/// 256-byte program page.
pub const PAGE_SIZE: usize = 256;
/// 64 KiB erase block.
pub const BLOCK_SIZE: usize = 65536;
/// Microseconds to wait after releasing Deep Power-Down (tRES1 is ~3 us).
pub const WAKE_DELAY_US: u64 = 50;

/// Byte `k` (0 = least significant) of `addr`.
pub open spec fn addr_byte(addr: u32, k: nat) -> u8 {
    ((addr as int / pow256(k)) % 256) as u8
}

pub open spec fn pow256(k: nat) -> int
    decreases k,
{
    if k == 0 {
        1
    } else {
        256 * pow256((k - 1) as nat)
    }
}

/// `addr` as a 3- or 4-byte big-endian header address.
pub open spec fn addr_bytes(addr: u32, width: AddressWidth) -> Seq<u8> {
    match width {
        AddressWidth::Four => seq![
            addr_byte(addr, 3),
            addr_byte(addr, 2),
            addr_byte(addr, 1),
            addr_byte(addr, 0),
        ],
        AddressWidth::Three => seq![addr_byte(addr, 2), addr_byte(addr, 1), addr_byte(addr, 0)],
    }
}

/// A command header: `opcode` followed by the big-endian address.
pub open spec fn cmd_addr(opcode: u8, addr: u32, width: AddressWidth) -> Seq<u8> {
    seq![opcode] + addr_bytes(addr, width)
}

/// Append `opcode` + a 3- or 4-byte big-endian address.
pub fn push_cmd_addr(cmd: &mut Vec<u8>, opcode: u8, addr: u32, width: AddressWidth)
    ensures
        final(cmd)@ == old(cmd)@ + cmd_addr(opcode, addr, width),
{
    cmd.push(opcode);
    if width.is_four_byte() {
        cmd.push((addr / 16777216) as u8);
    }
    cmd.push(((addr / 65536) % 256) as u8);
    cmd.push(((addr / 256) % 256) as u8);
    cmd.push((addr % 256) as u8);
    proof {
        assert(pow256(0) == 1);
        assert(pow256(1) == 256);
        assert(pow256(2) == 65536);
        assert(pow256(3) == 16777216);
        assert(addr / 16777216 < 256);
        assert(cmd@ =~= old(cmd)@ + cmd_addr(opcode, addr, width));
    }
}

/// The address a big-endian header address stands for.
pub open spec fn be_value(b: Seq<u8>) -> int
    decreases b.len(),
{
    if b.len() == 0 {
        0
    } else {
        be_value(b.drop_last()) * 256 + b.last() as int
    }
}

/// Encoding law: the header address bytes read back big-endian give the
/// address itself for 4-byte addressing, and the address modulo 2^24 for
/// 3-byte addressing (the chip only sees the low 24 bits).
pub proof fn lemma_addr_bytes_roundtrip(addr: u32)
    ensures
        be_value(addr_bytes(addr, AddressWidth::Four)) == addr as int,
        be_value(addr_bytes(addr, AddressWidth::Three)) == addr as int % 16777216,
        addr_bytes(addr, AddressWidth::Four).len() == 4,
        addr_bytes(addr, AddressWidth::Three).len() == 3,
{
    let a = addr as int;
    assert(pow256(0) == 1);
    assert(pow256(1) == 256);
    assert(pow256(2) == 65536);
    assert(pow256(3) == 16777216);
    let b0 = a % 256;
    let b1 = (a / 256) % 256;
    let b2 = (a / 65536) % 256;
    let b3 = (a / 16777216) % 256;
    assert(a / 16777216 < 256);
    let f = addr_bytes(addr, AddressWidth::Four);
    let t = addr_bytes(addr, AddressWidth::Three);
    assert(addr_byte(addr, 0) as int == b0);
    assert(addr_byte(addr, 1) as int == b1);
    assert(addr_byte(addr, 2) as int == b2);
    assert(addr_byte(addr, 3) as int == b3);
    reveal_with_fuel(be_value, 5);
    assert(f.drop_last().drop_last().drop_last().drop_last() =~= Seq::<u8>::empty());
    assert(t.drop_last().drop_last().drop_last() =~= Seq::<u8>::empty());
    assert(f.drop_last().drop_last().drop_last() =~= seq![addr_byte(addr, 3)]);
    assert(f.drop_last().drop_last() =~= seq![addr_byte(addr, 3), addr_byte(addr, 2)]);
    assert(f.drop_last() =~= seq![addr_byte(addr, 3), addr_byte(addr, 2), addr_byte(addr, 1)]);
    assert(t.drop_last().drop_last() =~= seq![addr_byte(addr, 2)]);
    assert(t.drop_last() =~= seq![addr_byte(addr, 2), addr_byte(addr, 1)]);
    assert(be_value(f) == ((b3 * 256 + b2) * 256 + b1) * 256 + b0);
    assert(be_value(t) == (b2 * 256 + b1) * 256 + b0);
    assert(((b3 * 256 + b2) * 256 + b1) * 256 + b0 == a) by (nonlinear_arith)
        requires
            0 <= a < 4294967296,
            b0 == a % 256,
            b1 == (a / 256) % 256,
            b2 == (a / 65536) % 256,
            b3 == (a / 16777216) % 256,
    ;
    assert((b2 * 256 + b1) * 256 + b0 == a % 16777216) by (nonlinear_arith)
        requires
            0 <= a,
            b0 == a % 256,
            b1 == (a / 256) % 256,
            b2 == (a / 65536) % 256,
    ;
}

/// One operation inside an SPI transaction (chip-select held across all).
#[derive(Debug)]
pub enum SpiOp {
    /// Send these bytes (MOSI).
    Write(Vec<u8>),
    /// Clock in this many bytes (MISO).
    Read(usize),
}

/// What an `SpiOp` does, as plain values.
pub enum OpSpec {
    Write(Seq<u8>),
    Read(nat),
}

impl View for SpiOp {
    type V = OpSpec;

    open spec fn view(&self) -> OpSpec {
        match self {
            SpiOp::Write(b) => OpSpec::Write(b@),
            SpiOp::Read(n) => OpSpec::Read(*n as nat),
        }
    }
}

/// One chip-select-asserted SPI transaction.
#[derive(Debug)]
pub struct Transaction {
    pub ops: Vec<SpiOp>,
}

impl View for Transaction {
    type V = Seq<OpSpec>;

    open spec fn view(&self) -> Seq<OpSpec> {
        Seq::new(self.ops@.len(), |i: int| self.ops@[i]@)
    }
}

impl Transaction {
    pub fn new() -> (t: Transaction)
        ensures
            t@ == Seq::<OpSpec>::empty(),
    {
        Transaction { ops: Vec::new() }
    }

    pub fn push(&mut self, op: SpiOp)
        ensures
            final(self)@ == old(self)@.push(op@),
    {
        self.ops.push(op);
        proof {
            assert(self@ =~= old(self)@.push(op@));
        }
    }

    /// A transaction that only sends `bytes`.
    pub fn write(bytes: Vec<u8>) -> (t: Transaction)
        ensures
            t@ == seq![OpSpec::Write(bytes@)],
    {
        let mut t = Transaction::new();
        t.push(SpiOp::Write(bytes));
        proof {
            assert(t@ =~= seq![OpSpec::Write(bytes@)]);
        }
        t
    }

    /// A transaction that sends `bytes`, then reads `n` bytes.
    pub fn write_read(bytes: Vec<u8>, n: usize) -> (t: Transaction)
        ensures
            t@ == seq![OpSpec::Write(bytes@), OpSpec::Read(n as nat)],
    {
        let mut t = Transaction::new();
        t.push(SpiOp::Write(bytes));
        t.push(SpiOp::Read(n));
        proof {
            assert(t@ =~= seq![OpSpec::Write(bytes@), OpSpec::Read(n as nat)]);
        }
        t
    }
}

/// A one-byte command.
pub open spec fn cmd1(op: u8) -> Seq<OpSpec> {
    seq![OpSpec::Write(seq![op])]
}

fn single(b: u8) -> (v: Vec<u8>)
    ensures
        v@ == seq![b],
{
    let mut v: Vec<u8> = Vec::new();
    v.push(b);
    proof {
        assert(v@ =~= seq![b]);
    }
    v
}

fn pair(a: u8, b: u8) -> (v: Vec<u8>)
    ensures
        v@ == seq![a, b],
{
    let mut v: Vec<u8> = Vec::new();
    v.push(a);
    v.push(b);
    proof {
        assert(v@ =~= seq![a, b]);
    }
    v
}

/// Progress events of the full programming flow.
#[derive(Debug, Clone, Copy, PartialEq, Eq, Structural)]
pub enum Progress {
    /// Reading SFDP / choosing a flash profile.
    Detecting,
    Erasing,
    /// Bytes written so far.
    Programming(usize),
    /// Bytes verified so far.
    Verifying(usize),
    Done,
}

/// One step of a flash operation, for the host to carry out in order.
#[derive(Debug)]
pub enum Step {
    /// Run one SPI transaction; its read bytes are the step's answer.
    Transact(Transaction),
    /// Poll the status register until the write-in-progress bit clears,
    /// deciding each poll with `Flasher::wait_decision`.
    WaitReady,
    /// Sleep this many microseconds.
    Sleep(u64),
    /// Take the shared bus (`BusAccess::acquire`).
    AcquireBus,
    /// Hand the bus back (`BusAccess::release`).
    ReleaseBus,
    /// Erase progress: this many blocks erased so far.
    Erased(usize),
    /// Program progress: this many bytes written so far.
    Programmed(usize),
    /// Verify progress: this many bytes verified so far.
    Verified(usize),
    /// Compare the bytes the previous transaction read against `expected`,
    /// which the flash holds at `addr` (`Flasher::check_readback`).
    Check { addr: usize, expected: Vec<u8> },
    /// A progress event of the full programming flow.
    Report(Progress),
    /// Stop here with this error.
    Fail(FlashError),
}

/// What a `Step` does, as plain values.
pub enum StepSpec {
    Transact(Seq<OpSpec>),
    WaitReady,
    Sleep(u64),
    AcquireBus,
    ReleaseBus,
    Erased(nat),
    Programmed(nat),
    Verified(nat),
    Check(nat, Seq<u8>),
    Report(Progress),
    Fail(FlashError),
}

impl View for Step {
    type V = StepSpec;

    open spec fn view(&self) -> StepSpec {
        match self {
            Step::Transact(t) => StepSpec::Transact(t@),
            Step::WaitReady => StepSpec::WaitReady,
            Step::Sleep(us) => StepSpec::Sleep(*us),
            Step::AcquireBus => StepSpec::AcquireBus,
            Step::ReleaseBus => StepSpec::ReleaseBus,
            Step::Erased(n) => StepSpec::Erased(*n as nat),
            Step::Programmed(n) => StepSpec::Programmed(*n as nat),
            Step::Verified(n) => StepSpec::Verified(*n as nat),
            Step::Check { addr, expected } => StepSpec::Check(*addr as nat, expected@),
            Step::Report(p) => StepSpec::Report(*p),
            Step::Fail(e) => StepSpec::Fail(*e),
        }
    }
}

/// An operation as the ordered steps the host runs.
#[derive(Debug)]
pub struct Script {
    pub steps: Vec<Step>,
}

impl View for Script {
    type V = Seq<StepSpec>;

    open spec fn view(&self) -> Seq<StepSpec> {
        Seq::new(self.steps@.len(), |i: int| self.steps@[i]@)
    }
}

impl Script {
    pub fn new() -> (s: Script)
        ensures
            s@ == Seq::<StepSpec>::empty(),
    {
        Script { steps: Vec::new() }
    }

    pub fn push(&mut self, step: Step)
        ensures
            final(self)@ == old(self)@.push(step@),
    {
        self.steps.push(step);
        proof {
            assert(self@ =~= old(self)@.push(step@));
        }
    }

    /// Append the steps of `other`.
    pub fn extend(&mut self, other: Script)
        ensures
            final(self)@ == old(self)@ + other@,
    {
        let mut o = other;
        let ghost ov = o@;
        self.steps.append(&mut o.steps);
        proof {
            assert(self@ =~= old(self)@ + ov);
        }
    }

    pub fn transact(&mut self, t: Transaction)
        ensures
            final(self)@ == old(self)@.push(StepSpec::Transact(t@)),
    {
        self.push(Step::Transact(t));
    }
}

/// JEDEC RDID (0x9F) response.
#[derive(Debug, Clone, Copy, PartialEq, Eq, Structural)]
pub struct FlashId {
    pub manufacturer: u8,
    pub mem_type: u8,
    pub capacity_code: u8,
}

impl FlashId {
    /// Density in bytes, `2^capacity_code`, for plausible codes 0x10..=0x1B.
    pub open spec fn spec_capacity_bytes(self) -> Option<usize> {
        if 0x10 <= self.capacity_code <= 0x1B {
            Some((1usize << self.capacity_code) as usize)
        } else {
            None
        }
    }

    /// A chip answered: an idle or floating bus reads all 0x00 or all 0xFF.
    pub open spec fn spec_is_present(self) -> bool {
        self.manufacturer != 0x00 && self.manufacturer != 0xFF
    }

    pub open spec fn spec_jedec(self) -> Seq<u8> {
        seq![self.manufacturer, self.mem_type, self.capacity_code]
    }

    /// The id in the first three bytes of an RDID answer.
    pub open spec fn spec_from_bytes(b: Seq<u8>) -> FlashId {
        FlashId { manufacturer: b[0], mem_type: b[1], capacity_code: b[2] }
    }

    /// Density in bytes = `2^capacity_code`; `None` for implausible codes.
    pub fn capacity_bytes(&self) -> (c: Option<usize>)
        ensures
            c == self.spec_capacity_bytes(),
            0x10 <= self.capacity_code <= 0x1B ==> c == Some(
                vstd::arithmetic::power2::pow2(self.capacity_code as nat) as usize,
            ),
            !(0x10 <= self.capacity_code <= 0x1B) ==> c is None,
    {
        proof {
            lemma_capacity_code(*self);
        }
        if 0x10 <= self.capacity_code && self.capacity_code <= 0x1B {
            Some(1usize << self.capacity_code)
        } else {
            None
        }
    }

    /// True if a chip actually responded to RDID.
    pub fn is_present(&self) -> (b: bool)
        ensures
            b == self.spec_is_present(),
    {
        self.manufacturer != 0x00 && self.manufacturer != 0xFF
    }

    pub fn jedec(&self) -> (j: [u8; 3])
        ensures
            j@ == self.spec_jedec(),
    {
        let j = [self.manufacturer, self.mem_type, self.capacity_code];
        proof {
            assert(j@ =~= self.spec_jedec());
        }
        j
    }

    /// Decode the three bytes an RDID transaction read.
    pub fn from_bytes(b: &[u8]) -> (id: FlashId)
        requires
            b@.len() >= 3,
        ensures
            id == Self::spec_from_bytes(b@),
    {
        FlashId { manufacturer: b[0], mem_type: b[1], capacity_code: b[2] }
    }

    /// "mfr=0xAA type=0xBB cap=0xCC", then " (N KiB)" when the density is known.
    pub open spec fn spec_text(self) -> Seq<char> {
        "mfr=0x"@ + hex_upper(self.manufacturer as nat, 2) + " type=0x"@ + hex_upper(
            self.mem_type as nat,
            2,
        ) + " cap=0x"@ + hex_upper(self.capacity_code as nat, 2) + match self.spec_capacity_bytes() {
            Some(n) => " ("@ + dec_digits((n / 1024) as nat) + " KiB)"@,
            None => Seq::empty(),
        }
    }

    /// The id as a report shows it, with the density when it is plausible.
    pub fn to_text(&self) -> (s: String)
        ensures
            s@ == self.spec_text(),
    {
        let mut s = String::new();
        s.append("mfr=0x");
        push_hex(&mut s, self.manufacturer as usize, 2);
        s.append(" type=0x");
        push_hex(&mut s, self.mem_type as usize, 2);
        s.append(" cap=0x");
        push_hex(&mut s, self.capacity_code as usize, 2);
        match self.capacity_bytes() {
            Some(n) => {
                s.append(" (");
                push_dec(&mut s, n / 1024);
                s.append(" KiB)");
            },
            None => {},
        }
        proof {
            assert(s@ =~= self.spec_text());
        }
        s
    }
}

/// Density law: a JEDEC capacity code `c` from 0x10 to 0x1B (64 KiB to
/// 128 MiB parts) means a density of 2^c bytes; any other code means the
/// density is unknown.
pub proof fn lemma_capacity_code(id: FlashId)
    ensures
        0x10 <= id.capacity_code <= 0x1B ==> id.spec_capacity_bytes() == Some(
            vstd::arithmetic::power2::pow2(id.capacity_code as nat) as usize,
        ),
        !(0x10 <= id.capacity_code <= 0x1B) ==> id.spec_capacity_bytes() is None,
{
    let c = id.capacity_code;
    if 0x10 <= c <= 0x1B {
        vstd::arithmetic::power2::lemma2_to64();
        assert(vstd::arithmetic::power2::pow2(c as nat) <= 0x8000000);
        vstd::bits::lemma_usize_shl_is_mul(1, c as usize);
    }
}

/// Flasher errors. Transport faults carry the transport's own description.
#[derive(Debug)]
pub enum FlashError {
    Spi(String),
    Bus(String),
    Timeout,
    VerifyMismatch { addr: usize, expected: u8, got: u8 },
    TooLarge { need: usize, have: usize },
    /// RDID read nothing: no chip on the bus.
    NoFlash,
    /// A chip responded but has no SFDP and no fallback-table entry.
    UnsupportedChip { jedec: [u8; 3] },
    /// A geometry operation was attempted before a profile was detected.
    NotDetected,
}

/// Holds another bus master off the shared SPI while we program, then
/// releases it.
///
/// `acquire` must make the flash's SPI bus exclusively ours; `release`
/// returns control. For a bare chip this is a no-op (`NoHold`). For a shared
/// bus it is a GPIO held at a level, e.g. an iCE40's CRESET driven low to
/// tri-state the FPGA's SPI pins, then released so it reconfigures.
pub trait BusAccess {
    type Error;

    fn acquire(&mut self) -> Result<(), Self::Error>;

    fn release(&mut self) -> Result<(), Self::Error>;
}

/// No-op bus access for a bare flash (nothing else on the SPI bus).
pub struct NoHold;

impl BusAccess for NoHold {
    type Error = ();

    fn acquire(&mut self) -> (r: Result<(), ()>)
        ensures
            r is Ok,
    {
        Ok(())
    }

    fn release(&mut self) -> (r: Result<(), ()>)
        ensures
            r is Ok,
    {
        Ok(())
    }
}

/// What to do after a status-register poll.
#[derive(Debug, Clone, Copy, PartialEq, Eq, Structural)]
pub enum WaitDecision {
    /// Write-in-progress is clear.
    Ready,
    /// Still busy and the time allowed is used up.
    TimedOut,
    /// Still busy: sleep this many microseconds, then poll again.
    PollAgain(u64),
}

/// The RDID transaction.
pub open spec fn rdid_txn() -> Seq<OpSpec> {
    seq![OpSpec::Write(seq![CMD_RDID]), OpSpec::Read(3)]
}

/// The read-status-register transaction.
pub open spec fn rdsr_txn() -> Seq<OpSpec> {
    seq![OpSpec::Write(seq![CMD_RDSR]), OpSpec::Read(1)]
}

/// The SFDP read: 0x5A, a 24-bit address, one dummy byte, then `len` bytes.
pub open spec fn sfdp_txn(addr: u32, len: nat) -> Seq<OpSpec> {
    seq![
        OpSpec::Write(cmd_addr(CMD_SFDP, addr, AddressWidth::Three).push(0)),
        OpSpec::Read(len),
    ]
}

/// The status value `protect` writes keeps every block-protect bit set;
/// the one `unprotect` writes clears them.
pub open spec fn status_protected(sr: u8) -> bool {
    sr & SR_BP_MASK != 0
}

/// Protection law: a status byte means "protected" exactly when any of the
/// block-protect bits BP0, BP1, BP2 (bits 2, 3, 4) is set; one set bit is
/// enough, whatever the other bits hold.
pub proof fn lemma_status_protected_bits(sr: u8)
    ensures
        status_protected(sr) <==> (sr & 0x04u8 != 0 || sr & 0x08u8 != 0 || sr & 0x10u8 != 0),
{
    assert((sr & 0x1Cu8 != 0) <==> (sr & 0x04u8 != 0 || sr & 0x08u8 != 0 || sr & 0x10u8 != 0))
        by (bit_vector);
}

/// A write-enable, then `txn`, then a wait for the write to finish.
pub open spec fn write_cycle(txn: Seq<OpSpec>) -> Seq<StepSpec> {
    seq![StepSpec::Transact(cmd1(CMD_WREN)), StepSpec::Transact(txn), StepSpec::WaitReady]
}

/// The wake-up: release from Deep Power-Down, then wait tRES1.
pub open spec fn wake_steps() -> Seq<StepSpec> {
    seq![StepSpec::Transact(cmd1(CMD_RELEASE_PD)), StepSpec::Sleep(WAKE_DELAY_US)]
}

/// SPI-NOR flasher state: transfer and polling configuration plus the
/// detected flash profile.
pub struct Flasher {
    max_chunk: usize,
    poll_interval_us: u64,
    poll_timeout_us: u64,
    profile: Option<FlashProfile>,
}

impl Flasher {
    #[verifier::type_invariant]
    spec fn inv(self) -> bool {
        self.max_chunk >= 4
    }

    /// Bytes per SPI operation.
    pub closed spec fn spec_max_chunk(&self) -> usize {
        self.max_chunk
    }

    pub closed spec fn spec_poll_interval(&self) -> u64 {
        self.poll_interval_us
    }

    pub closed spec fn spec_poll_timeout(&self) -> u64 {
        self.poll_timeout_us
    }

    /// The profile in use, once one is detected or set.
    pub closed spec fn spec_profile(&self) -> Option<FlashProfile> {
        self.profile
    }

    /// Sensible defaults: 256-byte SPI chunks, 2 ms poll interval, 60 s timeout.
    pub fn new() -> (f: Flasher)
        ensures
            f.spec_max_chunk() == PAGE_SIZE,
            f.spec_poll_interval() == 2000,
            f.spec_poll_timeout() == 60_000_000,
            f.spec_profile() is None,
    {
        Self::with_config(PAGE_SIZE, 2000, 60_000_000)
    }

    /// `max_chunk` bounds bytes per SPI operation; writes and reads are split
    /// to it within a single transaction, so any value >= 4 is correct.
    /// Times are in microseconds.
    pub fn with_config(max_chunk: usize, poll_interval_us: u64, poll_timeout_us: u64) -> (f:
        Flasher)
        requires
            max_chunk >= 4,
        ensures
            f.spec_max_chunk() == max_chunk,
            f.spec_poll_interval() == poll_interval_us,
            f.spec_poll_timeout() == poll_timeout_us,
            f.spec_profile() is None,
    {
        Flasher { max_chunk, poll_interval_us, poll_timeout_us, profile: None }
    }

    pub fn max_chunk(&self) -> (n: usize)
        ensures
            n == self.spec_max_chunk(),
            n >= 4,
    {
        proof {
            use_type_invariant(self);
        }
        self.max_chunk
    }

    /// Active flash profile, or `None` until one is detected or set.
    pub fn profile(&self) -> (p: Option<&FlashProfile>)
        ensures
            p is Some == self.spec_profile() is Some,
            p matches Some(p) ==> *p == self.spec_profile().unwrap(),
    {
        match &self.profile {
            Some(p) => Some(p),
            None => None,
        }
    }

    pub fn set_profile(&mut self, profile: FlashProfile)
        ensures
            final(self).spec_profile() == Some(profile),
            final(self).spec_max_chunk() == old(self).spec_max_chunk(),
            final(self).spec_poll_interval() == old(self).spec_poll_interval(),
            final(self).spec_poll_timeout() == old(self).spec_poll_timeout(),
    {
        proof {
            use_type_invariant(&*self);
        }
        self.profile = Some(profile);
    }

    /// The profile, or `NotDetected` before one exists.
    pub fn require_profile(&self) -> (r: Result<&FlashProfile, FlashError>)
        ensures
            self.spec_profile() is None <==> r is Err,
            r matches Err(e) ==> e is NotDetected,
            r matches Ok(p) ==> *p == self.spec_profile().unwrap(),
    {
        match &self.profile {
            Some(p) => Ok(p),
            None => Err(FlashError::NotDetected),
        }
    }

    /// Decide after a status poll: ready once write-in-progress clears,
    /// timed out once `elapsed_us` reaches the poll timeout, else sleep the
    /// poll interval and poll again.
    pub fn wait_decision(&self, status: u8, elapsed_us: u64) -> (d: WaitDecision)
        ensures
            status & SR_WIP == 0 ==> d == WaitDecision::Ready,
            status & SR_WIP != 0 && elapsed_us >= self.spec_poll_timeout() ==> d
                == WaitDecision::TimedOut,
            status & SR_WIP != 0 && elapsed_us < self.spec_poll_timeout() ==> d
                == WaitDecision::PollAgain(self.spec_poll_interval()),
    {
        if status & SR_WIP == 0 {
            WaitDecision::Ready
        } else if elapsed_us >= self.poll_timeout_us {
            WaitDecision::TimedOut
        } else {
            WaitDecision::PollAgain(self.poll_interval_us)
        }
    }

    /// The transaction that reads the status register.
    pub fn status_transaction() -> (t: Transaction)
        ensures
            t@ == rdsr_txn(),
    {
        Transaction::write_read(single(CMD_RDSR), 1)
    }

    /// Read the JEDEC id (0x9F); decode the answer with `FlashId::from_bytes`.
    pub fn read_id(&self) -> (s: Script)
        ensures
            s@ == seq![StepSpec::Transact(rdid_txn())],
    {
        let mut s = Script::new();
        s.transact(Transaction::write_read(single(CMD_RDID), 3));
        proof {
            assert(s@ =~= seq![StepSpec::Transact(rdid_txn())]);
        }
        s
    }

    fn sfdp_transaction(addr: u32, len: usize) -> (t: Transaction)
        ensures
            t@ == sfdp_txn(addr, len as nat),
    {
        let mut h: Vec<u8> = Vec::new();
        push_cmd_addr(&mut h, CMD_SFDP, addr, AddressWidth::Three);
        h.push(0);
        proof {
            assert(h@ =~= cmd_addr(CMD_SFDP, addr, AddressWidth::Three).push(0));
        }
        Transaction::write_read(h, len)
    }

    /// Read `len` bytes from SFDP space at `addr`
    /// (0x5A + 24-bit addr + 8 dummy cycles).
    pub fn read_sfdp(&self, addr: u32, len: usize) -> (s: Script)
        ensures
            s@ == seq![StepSpec::Transact(sfdp_txn(addr, len as nat))],
    {
        let mut s = Script::new();
        s.transact(Self::sfdp_transaction(addr, len));
        proof {
            assert(s@ =~= seq![StepSpec::Transact(sfdp_txn(addr, len as nat))]);
        }
        s
    }

    fn push_write_cycle(s: &mut Script, t: Transaction)
        ensures
            final(s)@ == old(s)@ + write_cycle(t@),
    {
        s.transact(Transaction::write(single(CMD_WREN)));
        s.transact(t);
        s.push(Step::WaitReady);
        proof {
            assert(s@ =~= old(s)@ + write_cycle(t@));
        }
    }

    /// Erase the whole device (0xC7). Slowest but universally supported.
    pub fn chip_erase(&self) -> (s: Script)
        ensures
            s@ == write_cycle(cmd1(CMD_CE)),
    {
        let mut s = Script::new();
        Self::push_write_cycle(&mut s, Transaction::write(single(CMD_CE)));
        proof {
            assert(s@ =~= write_cycle(cmd1(CMD_CE)));
        }
        s
    }

    /// Clear the status-register block-protection bits (WREN + WRSR 0x00).
    pub fn unprotect(&self) -> (s: Script)
        ensures
            s@ == write_cycle(seq![OpSpec::Write(seq![CMD_WRSR, 0x00u8])]),
            !status_protected(0x00),
    {
        let mut s = Script::new();
        Self::push_write_cycle(&mut s, Transaction::write(pair(CMD_WRSR, 0x00)));
        proof {
            assert(s@ =~= write_cycle(seq![OpSpec::Write(seq![CMD_WRSR, 0x00u8])]));
            assert(0x00u8 & 0x1Cu8 == 0) by (bit_vector);
        }
        s
    }

    /// Set block-protection (WREN + WRSR with the BP bits set).
    pub fn protect(&self) -> (s: Script)
        ensures
            s@ == write_cycle(seq![OpSpec::Write(seq![CMD_WRSR, SR_BP_MASK])]),
            status_protected(SR_BP_MASK),
    {
        let mut s = Script::new();
        Self::push_write_cycle(&mut s, Transaction::write(pair(CMD_WRSR, SR_BP_MASK)));
        proof {
            assert(s@ =~= write_cycle(seq![OpSpec::Write(seq![CMD_WRSR, SR_BP_MASK])]));
            assert(0x1Cu8 & 0x1Cu8 != 0) by (bit_vector);
        }
        s
    }

    /// Read the status register; decide with `status_is_protected`.
    pub fn is_protected(&self) -> (s: Script)
        ensures
            s@ == seq![StepSpec::Transact(rdsr_txn())],
    {
        let mut s = Script::new();
        s.transact(Self::status_transaction());
        proof {
            assert(s@ =~= seq![StepSpec::Transact(rdsr_txn())]);
        }
        s
    }

    /// True if any block-protect bit is set in the status byte.
    pub fn status_is_protected(status: u8) -> (b: bool)
        ensures
            b == status_protected(status),
            b <==> (status & 0x04u8 != 0 || status & 0x08u8 != 0 || status & 0x10u8 != 0),
    {
        proof {
            lemma_status_protected_bits(status);
        }
        status & SR_BP_MASK != 0
    }

    /// Flash software reset: 0x66 (enable) then 0x99 (reset).
    pub fn reset_flash(&self) -> (s: Script)
        ensures
            s@ == seq![StepSpec::Transact(cmd1(CMD_RSTEN)), StepSpec::Transact(cmd1(CMD_RST))],
    {
        let mut s = Script::new();
        s.transact(Transaction::write(single(CMD_RSTEN)));
        s.transact(Transaction::write(single(CMD_RST)));
        proof {
            assert(s@ =~= seq![
                StepSpec::Transact(cmd1(CMD_RSTEN)),
                StepSpec::Transact(cmd1(CMD_RST)),
            ]);
        }
        s
    }

    /// Release the flash from Deep Power-Down (0xAB), then wait tRES1.
    ///
    /// An iCE40 (and similar) puts its configuration flash into deep
    /// power-down after loading its bitstream; in that state the flash
    /// ignores every command except 0xAB. A no-op on a flash already awake.
    pub fn wake(&self) -> (s: Script)
        ensures
            s@ == wake_steps(),
    {
        let mut s = Script::new();
        s.transact(Transaction::write(single(CMD_RELEASE_PD)));
        s.push(Step::Sleep(WAKE_DELAY_US));
        proof {
            assert(s@ =~= wake_steps());
        }
        s
    }

    /// Take the shared bus (hold any other master off) and wake the flash
    /// from Deep Power-Down, so a flash an FPGA put to sleep responds.
    pub fn acquire_bus(&self) -> (s: Script)
        ensures
            s@ == seq![StepSpec::AcquireBus] + wake_steps(),
    {
        let mut s = Script::new();
        s.push(Step::AcquireBus);
        s.extend(self.wake());
        s
    }

    /// Hand the bus back so a held master (e.g. an FPGA) boots from flash.
    pub fn release_bus(&self) -> (s: Script)
        ensures
            s@ == seq![StepSpec::ReleaseBus],
    {
        let mut s = Script::new();
        s.push(Step::ReleaseBus);
        proof {
            assert(s@ =~= seq![StepSpec::ReleaseBus]);
        }
        s
    }

    /// Switch the device to 32-bit addressing (needed for >16 MB parts).
    pub fn enter_4byte(&self) -> (s: Script)
        ensures
            s@ == seq![StepSpec::Transact(cmd1(CMD_EN4B))],
    {
        let mut s = Script::new();
        s.transact(Transaction::write(single(CMD_EN4B)));
        proof {
            assert(s@ =~= seq![StepSpec::Transact(cmd1(CMD_EN4B))]);
        }
        s
    }
}

/// The steps that erase one planned block, the `k`-th of the plan.
pub open spec fn erase_block_steps(op: EraseOp, width: AddressWidth, k: nat) -> Seq<StepSpec> {
    write_cycle(seq![OpSpec::Write(cmd_addr(op.ty.opcode, op.addr as u32, width))]).push(
        StepSpec::Erased(k + 1),
    )
}

/// The steps that carry out an erase plan, in plan order.
pub open spec fn erase_steps(ops: Seq<EraseOp>, width: AddressWidth) -> Seq<StepSpec>
    decreases ops.len(),
{
    if ops.len() == 0 {
        Seq::empty()
    } else {
        erase_steps(ops.drop_last(), width) + erase_block_steps(
            ops.last(),
            width,
            (ops.len() - 1) as nat,
        )
    }
}

/// Erase command law: the steps of a plan are, op by op and in order, the
/// op's erase cycle (`erase_block_steps`: a write enable, the op's opcode
/// followed by its address big-endian in the profile's width, a wait for the
/// write to finish, and the running block count); nothing else, so an empty
/// plan sends nothing.
pub proof fn lemma_erase_command_stream(ops: Seq<EraseOp>, width: AddressWidth)
    ensures
        erase_steps(ops, width).len() == 4 * ops.len(),
        forall|i: int|
            #![trigger ops[i]]
            0 <= i < ops.len() ==> erase_steps(ops, width).subrange(4 * i, 4 * i + 4)
                == erase_block_steps(ops[i], width, i as nat),
    decreases ops.len(),
{
    if ops.len() > 0 {
        let init = ops.drop_last();
        lemma_erase_command_stream(init, width);
        let a = erase_steps(init, width);
        let b = erase_block_steps(ops.last(), width, (ops.len() - 1) as nat);
        let s = erase_steps(ops, width);
        assert(s == a + b);
        assert(b.len() == 4);
        assert forall|i: int| #![trigger ops[i]] 0 <= i < ops.len() implies erase_steps(
            ops,
            width,
        ).subrange(4 * i, 4 * i + 4) == erase_block_steps(ops[i], width, i as nat) by {
            if i < ops.len() - 1 {
                assert(init[i] == ops[i]);
                assert(a.subrange(4 * i, 4 * i + 4) == erase_block_steps(init[i], width, i as nat));
                assert(s.subrange(4 * i, 4 * i + 4) =~= a.subrange(4 * i, 4 * i + 4));
            } else {
                assert(ops[i] == ops.last());
                assert(s.subrange(4 * i, 4 * i + 4) =~= b);
            }
        }
    }
}

/// The profile's smallest granularity admits planning `[offset, offset+len)`.
pub open spec fn erase_plannable(p: FlashProfile, offset: usize, len: usize) -> bool {
    plan_fits(p.erase@, offset as int, len as int)
}

impl Flasher {
    /// The erase plan for `[offset, offset+len)` under the detected profile.
    pub fn erase_plan(&self, offset: usize, len: usize) -> (r: Result<ErasePlan, FlashError>)
        requires
            self.spec_profile() matches Some(p) ==> erase_plannable(p, offset, len),
        ensures
            self.spec_profile() is None <==> r is Err,
            r matches Err(e) ==> e is NotDetected,
            r matches Ok(plan) ==> plan@ == spec_plan_erase(
                self.spec_profile().unwrap().erase@,
                offset as int,
                len as int,
            ),
    {
        let p = self.require_profile()?;
        Ok(plan_erase(p, offset, len))
    }

    /// Carry out an erase plan: for each block a write-enable, the erase
    /// command at the block's address, a wait, and an `Erased` count.
    pub fn run_erase(&self, plan: &ErasePlan) -> (r: Result<Script, FlashError>)
        ensures
            self.spec_profile() is None <==> r is Err,
            r matches Err(e) ==> e is NotDetected,
            r matches Ok(s) ==> s@ == erase_steps(plan@, self.spec_profile().unwrap().address_width),
    {
        let width = self.require_profile()?.address_width;
        let ops = plan.ops();
        let mut s = Script::new();
        let mut i: usize = 0;
        while i < ops.len()
            invariant
                0 <= i <= ops@.len(),
                ops@ == plan@,
                s@ == erase_steps(ops@.take(i as int), width),
            decreases ops@.len() - i,
        {
            let op = ops[i];
            let mut h: Vec<u8> = Vec::new();
            push_cmd_addr(&mut h, op.ty.opcode, op.addr as u32, width);
            proof {
                assert(h@ =~= cmd_addr(op.ty.opcode, op.addr as u32, width));
            }
            Self::push_write_cycle(&mut s, Transaction::write(h));
            s.push(Step::Erased(i + 1));
            proof {
                let t = ops@.take(i + 1);
                assert(t.drop_last() == ops@.take(i as int));
                assert(t.last() == op);
                assert(s@ =~= erase_steps(t, width));
            }
            i = i + 1;
        }
        proof {
            assert(ops@.take(i as int) == ops@);
        }
        Ok(s)
    }

    /// Erase every block overlapping `[offset, offset+len)`, choosing erase
    /// granularities from the detected profile.
    pub fn erase_range(&self, offset: usize, len: usize) -> (r: Result<Script, FlashError>)
        requires
            self.spec_profile() matches Some(p) ==> erase_plannable(p, offset, len),
        ensures
            self.spec_profile() is None <==> r is Err,
            r matches Err(e) ==> e is NotDetected,
            r matches Ok(s) ==> s@ == erase_steps(
                spec_plan_erase(self.spec_profile().unwrap().erase@, offset as int, len as int),
                self.spec_profile().unwrap().address_width,
            ),
    {
        let plan = self.erase_plan(offset, len)?;
        self.run_erase(&plan)
    }
}

pub open spec fn min_int(a: int, b: int) -> int {
    if a <= b {
        a
    } else {
        b
    }
}

/// `b` sent as consecutive writes of at most `m` bytes each.
pub open spec fn chunk_writes(b: Seq<u8>, m: nat) -> Seq<OpSpec>
    decreases b.len(),
{
    if b.len() == 0 || m == 0 {
        Seq::empty()
    } else {
        let k = min_int(m as int, b.len() as int);
        seq![OpSpec::Write(b.take(k))] + chunk_writes(b.skip(k), m)
    }
}

/// A page program: 0x02 with the address, then the data in chunks.
pub open spec fn pp_txn(addr: u32, bytes: Seq<u8>, width: AddressWidth, m: nat) -> Seq<OpSpec> {
    seq![OpSpec::Write(cmd_addr(CMD_PP, addr, width))] + chunk_writes(bytes, m)
}

/// How many bytes the page program at `addr` takes: up to the page's end,
/// at most what is left.
pub open spec fn page_len(addr: int, remaining: int, page: int) -> int {
    min_int(page - addr % page, remaining)
}

/// The running byte count after a page program: a plain count, or the
/// `Programming` event of the full flow.
pub open spec fn program_mark(flow: bool, n: nat) -> StepSpec {
    if flow {
        StepSpec::Report(Progress::Programming(n as usize))
    } else {
        StepSpec::Programmed(n)
    }
}

/// The running byte count after a verified chunk: a plain count, or the
/// `Verifying` event of the full flow.
pub open spec fn verify_mark(flow: bool, n: nat) -> StepSpec {
    if flow {
        StepSpec::Report(Progress::Verifying(n as usize))
    } else {
        StepSpec::Verified(n)
    }
}

/// The program steps from byte `written` of `data` on: one write cycle per
/// page-bounded piece, each followed by the running byte count.
pub open spec fn program_steps_from(
    offset: int,
    data: Seq<u8>,
    written: int,
    page: int,
    width: AddressWidth,
    m: nat,
    flow: bool,
) -> Seq<StepSpec>
    decreases data.len() - written,
{
    if written >= data.len() || page <= 0 || written < 0 {
        Seq::empty()
    } else {
        let addr = offset + written;
        let n = page_len(addr, data.len() - written, page);
        if n <= 0 {
            Seq::empty()
        } else {
            write_cycle(pp_txn(addr as u32, data.subrange(written, written + n), width, m)).push(
                program_mark(flow, (written + n) as nat),
            ) + program_steps_from(offset, data, written + n, page, width, m, flow)
        }
    }
}

/// One read transaction: 0x03 with the address, then `n` bytes.
pub open spec fn read_txn(addr: u32, n: nat, width: AddressWidth) -> Seq<OpSpec> {
    seq![OpSpec::Write(cmd_addr(CMD_READ, addr, width)), OpSpec::Read(n)]
}

/// The read steps from byte `done` of `len` on, in chunks of at most `m`.
pub open spec fn read_steps_from(offset: int, len: int, done: int, width: AddressWidth, m: nat) -> Seq<
    StepSpec,
>
    decreases len - done,
{
    if done >= len || m == 0 || done < 0 {
        Seq::empty()
    } else {
        let n = min_int(m as int, len - done);
        seq![StepSpec::Transact(read_txn((offset + done) as u32, n as nat, width))]
            + read_steps_from(offset, len, done + n, width, m)
    }
}

/// The verify steps from byte `done` of `expected` on: read a chunk, check
/// it, report the running count.
pub open spec fn verify_steps_from(
    offset: int,
    expected: Seq<u8>,
    done: int,
    width: AddressWidth,
    m: nat,
    flow: bool,
) -> Seq<StepSpec>
    decreases expected.len() - done,
{
    if done >= expected.len() || m == 0 || done < 0 {
        Seq::empty()
    } else {
        let n = min_int(m as int, expected.len() - done);
        seq![
            StepSpec::Transact(read_txn((offset + done) as u32, n as nat, width)),
            StepSpec::Check((offset + done) as nat, expected.subrange(done, done + n)),
            verify_mark(flow, (done + n) as nat),
        ] + verify_steps_from(offset, expected, done + n, width, m, flow)
    }
}

fn sub_vec(data: &[u8], start: usize, end: usize) -> (v: Vec<u8>)
    requires
        start <= end <= data@.len(),
    ensures
        v@ == data@.subrange(start as int, end as int),
{
    let mut v: Vec<u8> = Vec::new();
    let mut i = start;
    while i < end
        invariant
            start <= i <= end,
            end <= data@.len(),
            v@ == data@.subrange(start as int, i as int),
        decreases end - i,
    {
        v.push(data[i]);
        i = i + 1;
        proof {
            assert(v@ =~= data@.subrange(start as int, i as int));
        }
    }
    v
}

impl Flasher {
    /// The page-program transaction for `bytes` at `addr`.
    fn pp_transaction(&self, addr: u32, bytes: &[u8], width: AddressWidth) -> (t: Transaction)
        ensures
            t@ == pp_txn(addr, bytes@, width, self.spec_max_chunk() as nat),
    {
        proof {
            use_type_invariant(self);
        }
        let m = self.max_chunk;
        let mut h: Vec<u8> = Vec::new();
        push_cmd_addr(&mut h, CMD_PP, addr, width);
        proof {
            assert(h@ =~= cmd_addr(CMD_PP, addr, width));
        }
        let mut t = Transaction::write(h);
        let mut pos: usize = 0;
        let n = bytes.len();
        assert(bytes@.skip(0) == bytes@);
        while pos < n
            invariant
                0 <= pos <= n,
                n == bytes@.len(),
                m >= 4,
                m == self.spec_max_chunk(),
                t@ + chunk_writes(bytes@.skip(pos as int), m as nat) == pp_txn(
                    addr,
                    bytes@,
                    width,
                    m as nat,
                ),
            decreases n - pos,
        {
            let k = if m < n - pos {
                m
            } else {
                n - pos
            };
            let chunk = sub_vec(bytes, pos, pos + k);
            proof {
                let rest = bytes@.skip(pos as int);
                assert(rest.take(k as int) == chunk@);
                assert(rest.skip(k as int) == bytes@.skip(pos + k));
                assert(chunk_writes(rest, m as nat) == seq![OpSpec::Write(chunk@)] + chunk_writes(
                    rest.skip(k as int),
                    m as nat,
                ));
                assert(t@.push(OpSpec::Write(chunk@)) + chunk_writes(bytes@.skip(pos + k), m as nat)
                    == t@ + chunk_writes(rest, m as nat));
            }
            t.push(SpiOp::Write(chunk));
            pos = pos + k;
        }
        proof {
            assert(bytes@.skip(n as int) == Seq::<u8>::empty());
            assert(chunk_writes(Seq::<u8>::empty(), m as nat) == Seq::<OpSpec>::empty());
            assert(t@ + Seq::<OpSpec>::empty() == t@);
        }
        t
    }

    /// The page programs of `data` at `offset`, splitting on the profile's page
    /// boundaries: per page a write-enable, the page program (its data split
    /// into `max_chunk` writes within the one transaction), a wait, and the
    /// running byte count.
    fn program_flow(&self, offset: usize, data: &[u8], flow: bool) -> (r: Result<Script, FlashError>)
        requires
            offset + data@.len() <= usize::MAX,
            self.spec_profile() matches Some(p) ==> p.page_size > 0,
        ensures
            self.spec_profile() is None <==> r is Err,
            r matches Err(e) ==> e is NotDetected,
            r matches Ok(s) ==> s@ == program_steps_from(
                offset as int,
                data@,
                0,
                self.spec_profile().unwrap().page_size as int,
                self.spec_profile().unwrap().address_width,
                self.spec_max_chunk() as nat,
                flow,
            ),
    {
        let p = self.require_profile()?;
        let page = p.page_size;
        let width = p.address_width;
        let ghost m = self.spec_max_chunk() as nat;
        let mut s = Script::new();
        let mut written: usize = 0;
        let n = data.len();
        while written < n
            invariant
                0 <= written <= n,
                n == data@.len(),
                offset + n <= usize::MAX,
                page > 0,
                m == self.spec_max_chunk() as nat,
                s@ + program_steps_from(offset as int, data@, written as int, page as int, width, m, flow)
                    == program_steps_from(offset as int, data@, 0, page as int, width, m, flow),
            decreases n - written,
        {
            let addr = offset + written;
            let page_left = page - (addr % page);
            let k = if page_left < n - written {
                page_left
            } else {
                n - written
            };
            let chunk = sub_vec(data, written, written + k);
            let t = self.pp_transaction(addr as u32, chunk.as_slice(), width);
            let ghost before = s@;
            Self::push_write_cycle(&mut s, t);
            if flow {
                s.push(Step::Report(Progress::Programming(written + k)));
            } else {
                s.push(Step::Programmed(written + k));
            }
            proof {
                let rest = program_steps_from(
                    offset as int,
                    data@,
                    (written + k) as int,
                    page as int,
                    width,
                    m,
                    flow,
                );
                assert(program_steps_from(offset as int, data@, written as int, page as int, width, m, flow)
                    == write_cycle(t@).push(program_mark(flow, (written + k) as nat)) + rest);
                assert(s@ == before + write_cycle(t@).push(program_mark(flow, (written + k) as nat)));
                assert(s@ + rest == before + (write_cycle(t@).push(
                    program_mark(flow, (written + k) as nat),
                ) + rest));
            }
            written = written + k;
        }
        proof {
            assert(s@ + Seq::<StepSpec>::empty() == s@);
        }
        Ok(s)
    }

    /// Program `data` at `offset`, splitting on the profile's page
    /// boundaries: per page a write-enable, the page program (its data split
    /// into `max_chunk` writes within the one transaction), a wait, and the
    /// running byte count.
    pub fn program(&self, offset: usize, data: &[u8]) -> (r: Result<Script, FlashError>)
        requires
            offset + data@.len() <= usize::MAX,
            self.spec_profile() matches Some(p) ==> p.page_size > 0,
        ensures
            self.spec_profile() is None <==> r is Err,
            r matches Err(e) ==> e is NotDetected,
            r matches Ok(s) ==> s@ == program_steps_from(
                offset as int,
                data@,
                0,
                self.spec_profile().unwrap().page_size as int,
                self.spec_profile().unwrap().address_width,
                self.spec_max_chunk() as nat,
                false,
            ),
    {
        self.program_flow(offset, data, false)
    }

    fn read_transaction(addr: u32, n: usize, width: AddressWidth) -> (t: Transaction)
        ensures
            t@ == read_txn(addr, n as nat, width),
    {
        let mut h: Vec<u8> = Vec::new();
        push_cmd_addr(&mut h, CMD_READ, addr, width);
        proof {
            assert(h@ =~= cmd_addr(CMD_READ, addr, width));
        }
        Transaction::write_read(h, n)
    }

    /// Read `len` bytes starting at `offset`, in `max_chunk` units; the
    /// result is the bytes the transactions read, in order.
    pub fn read(&self, offset: usize, len: usize) -> (r: Result<Script, FlashError>)
        requires
            offset + len <= usize::MAX,
        ensures
            self.spec_profile() is None <==> r is Err,
            r matches Err(e) ==> e is NotDetected,
            r matches Ok(s) ==> s@ == read_steps_from(
                offset as int,
                len as int,
                0,
                self.spec_profile().unwrap().address_width,
                self.spec_max_chunk() as nat,
            ),
    {
        let width = self.require_profile()?.address_width;
        let m = self.max_chunk();
        let mut s = Script::new();
        let mut done: usize = 0;
        while done < len
            invariant
                0 <= done <= len,
                offset + len <= usize::MAX,
                m >= 4,
                m == self.spec_max_chunk(),
                s@ + read_steps_from(offset as int, len as int, done as int, width, m as nat)
                    == read_steps_from(offset as int, len as int, 0, width, m as nat),
            decreases len - done,
        {
            let k = if m < len - done {
                m
            } else {
                len - done
            };
            let t = Self::read_transaction((offset + done) as u32, k, width);
            let ghost before = s@;
            s.transact(t);
            proof {
                let rest = read_steps_from(offset as int, len as int, (done + k) as int, width, m as nat);
                assert(read_steps_from(offset as int, len as int, done as int, width, m as nat)
                    == seq![StepSpec::Transact(t@)] + rest);
                assert(s@ + rest == before + (seq![StepSpec::Transact(t@)] + rest));
            }
            done = done + k;
        }
        proof {
            assert(s@ + Seq::<StepSpec>::empty() == s@);
        }
        Ok(s)
    }

    /// The verify steps for `expected` at `offset`, chunk by chunk: each read
    /// is checked (stopping at the first mismatch) and then counted.
    fn verify_flow(&self, offset: usize, expected: &[u8], flow: bool) -> (r: Result<Script, FlashError>)
        requires
            offset + expected@.len() <= usize::MAX,
        ensures
            self.spec_profile() is None <==> r is Err,
            r matches Err(e) ==> e is NotDetected,
            r matches Ok(s) ==> s@ == verify_steps_from(
                offset as int,
                expected@,
                0,
                self.spec_profile().unwrap().address_width,
                self.spec_max_chunk() as nat,
                flow,
            ),
    {
        let width = self.require_profile()?.address_width;
        let m = self.max_chunk();
        let mut s = Script::new();
        let mut done: usize = 0;
        let len = expected.len();
        while done < len
            invariant
                0 <= done <= len,
                len == expected@.len(),
                offset + len <= usize::MAX,
                m >= 4,
                m == self.spec_max_chunk(),
                s@ + verify_steps_from(offset as int, expected@, done as int, width, m as nat, flow)
                    == verify_steps_from(offset as int, expected@, 0, width, m as nat, flow),
            decreases len - done,
        {
            let k = if m < len - done {
                m
            } else {
                len - done
            };
            let t = Self::read_transaction((offset + done) as u32, k, width);
            let chunk = sub_vec(expected, done, done + k);
            let ghost before = s@;
            let ghost tv = t@;
            let ghost cv = chunk@;
            s.transact(t);
            s.push(Step::Check { addr: offset + done, expected: chunk });
            if flow {
                s.push(Step::Report(Progress::Verifying(done + k)));
            } else {
                s.push(Step::Verified(done + k));
            }
            proof {
                let rest = verify_steps_from(offset as int, expected@, (done + k) as int, width, m as nat, flow);
                let three = seq![
                    StepSpec::Transact(tv),
                    StepSpec::Check((offset + done) as nat, cv),
                    verify_mark(flow, (done + k) as nat),
                ];
                assert(verify_steps_from(offset as int, expected@, done as int, width, m as nat, flow)
                    == three + rest);
                assert(s@ =~= before + three);
                assert(s@ + rest == before + (three + rest));
            }
            done = done + k;
        }
        proof {
            assert(s@ + Seq::<StepSpec>::empty() == s@);
        }
        Ok(s)
    }

    /// Read back and compare against `expected`, chunk by chunk: each read
    /// is checked (stopping at the first mismatch) and then counted.
    pub fn verify(&self, offset: usize, expected: &[u8]) -> (r: Result<Script, FlashError>)
        requires
            offset + expected@.len() <= usize::MAX,
        ensures
            self.spec_profile() is None <==> r is Err,
            r matches Err(e) ==> e is NotDetected,
            r matches Ok(s) ==> s@ == verify_steps_from(
                offset as int,
                expected@,
                0,
                self.spec_profile().unwrap().address_width,
                self.spec_max_chunk() as nat,
                false,
            ),
    {
        self.verify_flow(offset, expected, false)
    }

    /// Compare bytes read back from `addr` against what should be there:
    /// the first differing byte is reported with its absolute address.
    pub fn check_readback(addr: usize, expected: &[u8], got: &[u8]) -> (r: Result<(), FlashError>)
        requires
            got@.len() == expected@.len(),
            addr + expected@.len() <= usize::MAX,
        ensures
            r is Ok <==> got@ == expected@,
            r matches Err(e) ==> e matches FlashError::VerifyMismatch { addr: a, expected: x, got: g }
                && exists|i: int|
                0 <= i < expected@.len() && a == addr + i && x == expected@[i] && g == got@[i]
                    && x != g && forall|k: int| 0 <= k < i ==> expected@[k] == got@[k],
    {
        let mut i: usize = 0;
        while i < expected.len()
            invariant
                0 <= i <= expected@.len(),
                got@.len() == expected@.len(),
                addr + expected@.len() <= usize::MAX,
                forall|k: int| 0 <= k < i ==> expected@[k] == got@[k],
            decreases expected@.len() - i,
        {
            if got[i] != expected[i] {
                proof {
                    assert(got@ != expected@ ==> true);
                    assert(got@[i as int] != expected@[i as int]);
                }
                return Err(
                    FlashError::VerifyMismatch { addr: addr + i, expected: expected[i], got: got[i] },
                );
            }
            i = i + 1;
        }
        proof {
            assert(got@ =~= expected@);
        }
        Ok(())
    }
}

/// Where flash detection stands: what the last transaction asked for.
#[derive(Debug, Clone, Copy, PartialEq, Eq, Structural)]
pub enum DetectState {
    /// Awaiting the 3-byte RDID answer.
    AwaitId,
    /// Awaiting the 8-byte SFDP header.
    AwaitHeader { id: FlashId },
    /// Awaiting parameter header number `index` (8 bytes).
    AwaitParam { id: FlashId, header: SfdpHeader, index: u8 },
    /// Awaiting the `len`-byte Basic Flash Parameter Table.
    AwaitBfpt { id: FlashId, header: SfdpHeader, len: usize },
    /// Detection is over.
    Finished,
}

/// The step-by-step flash detection: RDID (nothing answers: `NoFlash`), then
/// SFDP, then the JEDEC fallback table, else `UnsupportedChip`. Never
/// guesses.
#[derive(Debug)]
pub struct Detection {
    pub state: DetectState,
}

/// What detection asks for next.
#[derive(Debug)]
pub enum DetectAction {
    /// Run this transaction and hand its read bytes to `Detection::resume`.
    Transact(Transaction),
    /// Detection is over with this outcome.
    Done(Result<FlashProfile, FlashError>),
}

/// How many bytes the transaction asked for in `state` reads.
pub open spec fn awaited_len(state: DetectState) -> nat {
    match state {
        DetectState::AwaitId => 3,
        DetectState::AwaitHeader { .. } => 8,
        DetectState::AwaitParam { .. } => 8,
        DetectState::AwaitBfpt { len, .. } => len as nat,
        DetectState::Finished => 0,
    }
}

/// The outcome when the chip has no usable SFDP: its fallback-table row,
/// else `UnsupportedChip` with its id.
pub open spec fn fallback_outcome(a: DetectAction, id: FlashId) -> bool {
    let t = spec_fallback_table();
    let i = row_index(t, id.spec_jedec());
    if i < t.len() {
        a matches DetectAction::Done(Ok(p)) && profile_from_row(p, t[i])
    } else {
        a matches DetectAction::Done(Err(e)) && e matches FlashError::UnsupportedChip { jedec }
            && jedec@ == id.spec_jedec()
    }
}

/// The profile a chip's own SFDP describes: geometry and erase menu from the
/// BFPT bytes `b`, capacity from the BFPT or else from the RDID code, and the
/// SFDP revision from the header.
pub open spec fn sfdp_profile(p: FlashProfile, id: FlashId, h: SfdpHeader, b: Seq<u8>) -> bool {
    &&& p.page_size == spec_page_size(b)
    &&& p.address_width == spec_address_width(b)
    &&& p.capacity == (match spec_capacity(b) {
        Some(c) => Some(c),
        None => id.spec_capacity_bytes(),
    })
    &&& p.erase@ == dedup_sizes(sort_desc(spec_raw_erase_types(b)))
    &&& p.source == ProfileSource::Sfdp
    &&& p.sfdp_revision == Some((h.major, h.minor))
}

/// Detection asks for `txn` next and then stands at `state`.
pub open spec fn asks(a: DetectAction, txn: Seq<OpSpec>) -> bool {
    a matches DetectAction::Transact(t) && t@ == txn
}

fn fallback(id: FlashId) -> (a: DetectAction)
    ensures
        fallback_outcome(a, id),
{
    let jedec = id.jedec();
    match lookup_fallback(jedec) {
        Some(p) => DetectAction::Done(Ok(p)),
        None => DetectAction::Done(Err(FlashError::UnsupportedChip { jedec })),
    }
}

impl Detection {
    /// Take the answer to the transaction last asked for and decide.
    pub fn resume(&mut self, answer: &[u8]) -> (a: DetectAction)
        requires
            old(self).state != DetectState::Finished,
            answer@.len() == awaited_len(old(self).state),
        ensures
            a is Done <==> final(self).state == DetectState::Finished,
            match old(self).state {
                DetectState::AwaitId => {
                    let id = FlashId::spec_from_bytes(answer@);
                    if !id.spec_is_present() {
                        a matches DetectAction::Done(Err(e)) && e is NoFlash
                    } else {
                        asks(a, sfdp_txn(0, 8)) && final(self).state == DetectState::AwaitHeader {
                            id,
                        }
                    }
                },
                DetectState::AwaitHeader { id } => match SfdpHeader::spec_parse(answer@) {
                    None => fallback_outcome(a, id),
                    Some(h) => asks(a, sfdp_txn(8, 8)) && final(self).state
                        == DetectState::AwaitParam { id, header: h, index: 0 },
                },
                DetectState::AwaitParam { id, header, index } => {
                    match ParamHeader::spec_parse(answer@) {
                        Some(p) if p.id == BFPT_ID => {
                            let len = (p.length_dwords * 4) as usize;
                            asks(a, sfdp_txn(p.table_pointer, len as nat)) && final(self).state
                                == DetectState::AwaitBfpt { id, header, len }
                        },
                        _ => if index + 1 < header.nph + 1 {
                            asks(a, sfdp_txn((8 + (index + 1) * 8) as u32, 8)) && final(self).state
                                == DetectState::AwaitParam { id, header, index: (index + 1) as u8 }
                        } else {
                            fallback_outcome(a, id)
                        },
                    }
                },
                DetectState::AwaitBfpt { id, header, .. } => if spec_raw_erase_types(
                    answer@,
                ).len() == 0 {
                    fallback_outcome(a, id)
                } else {
                    a matches DetectAction::Done(Ok(p)) && sfdp_profile(p, id, header, answer@)
                },
                DetectState::Finished => true,
            },
    {
        match self.state {
            DetectState::AwaitId => {
                let id = FlashId::from_bytes(answer);
                if !id.is_present() {
                    self.state = DetectState::Finished;
                    return DetectAction::Done(Err(FlashError::NoFlash));
                }
                self.state = DetectState::AwaitHeader { id };
                DetectAction::Transact(Flasher::sfdp_transaction(0, 8))
            },
            DetectState::AwaitHeader { id } => match SfdpHeader::parse(answer) {
                None => {
                    self.state = DetectState::Finished;
                    fallback(id)
                },
                Some(h) => {
                    self.state = DetectState::AwaitParam { id, header: h, index: 0 };
                    DetectAction::Transact(Flasher::sfdp_transaction(8, 8))
                },
            },
            DetectState::AwaitParam { id, header, index } => {
                if let Some(p) = ParamHeader::parse(answer) {
                    if p.id == BFPT_ID {
                        let len = p.length_dwords as usize * 4;
                        self.state = DetectState::AwaitBfpt { id, header, len };
                        return DetectAction::Transact(
                            Flasher::sfdp_transaction(p.table_pointer, len),
                        );
                    }
                }
                if (index as usize) + 1 < header.param_header_count() {
                    let next = index + 1;
                    self.state = DetectState::AwaitParam { id, header, index: next };
                    DetectAction::Transact(
                        Flasher::sfdp_transaction(8 + (next as u32) * 8, 8),
                    )
                } else {
                    self.state = DetectState::Finished;
                    fallback(id)
                }
            },
            DetectState::AwaitBfpt { id, header, .. } => {
                let bfpt = Bfpt::parse(answer);
                self.state = DetectState::Finished;
                proof {
                    crate::profile::lemma_sort_desc(spec_raw_erase_types(answer@));
                    crate::profile::lemma_sort_idempotent(spec_raw_erase_types(answer@));
                }
                if bfpt.erase_types.len() == 0 {
                    // SFDP present but unusable: fall through to the table.
                    return fallback(id);
                }
                let capacity = match bfpt.capacity {
                    Some(c) => Some(c),
                    None => id.capacity_bytes(),
                };
                let erase = match EraseMenu::new(bfpt.erase_types) {
                    Some(m) => m,
                    None => {
                        // the erase types were just found non-empty
                        assert(false);
                        return fallback(id);
                    },
                };
                DetectAction::Done(
                    Ok(
                        FlashProfile {
                            page_size: bfpt.page_size,
                            address_width: bfpt.address_width,
                            capacity,
                            erase,
                            source: ProfileSource::Sfdp,
                            sfdp_revision: Some((header.major, header.minor)),
                        },
                    ),
                )
            },
            DetectState::Finished => {
                // ruled out by the precondition
                assert(false);
                DetectAction::Done(Err(FlashError::NotDetected))
            },
        }
    }
}

impl Flasher {
    /// Start resolving how to talk to the flash: the detection machine and
    /// the RDID transaction whose answer it awaits. Requires the bus (call
    /// while acquired).
    pub fn detect_profile(&self) -> (r: (Detection, Transaction))
        ensures
            r.0.state == DetectState::AwaitId,
            r.1@ == rdid_txn(),
    {
        (Detection { state: DetectState::AwaitId }, Transaction::write_read(single(CMD_RDID), 3))
    }

    /// Store `profile`, first putting >16 MB parts into 4-byte addressing so
    /// subsequent read/erase/program headers match.
    pub fn adopt_profile(&mut self, profile: FlashProfile) -> (s: Script)
        ensures
            final(self).spec_profile() == Some(profile),
            final(self).spec_max_chunk() == old(self).spec_max_chunk(),
            final(self).spec_poll_interval() == old(self).spec_poll_interval(),
            final(self).spec_poll_timeout() == old(self).spec_poll_timeout(),
            s@ == (if profile.address_width == AddressWidth::Four {
                seq![StepSpec::Transact(cmd1(CMD_EN4B))]
            } else {
                Seq::empty()
            }),
    {
        let s = if profile.address_width.is_four_byte() {
            self.enter_4byte()
        } else {
            Script::new()
        };
        self.set_profile(profile);
        s
    }
}

impl Flasher {
    /// Apply what detection concluded: a found profile is adopted (a 4-byte
    /// part is first switched to 4-byte addressing, which the returned
    /// script does); a failure is handed back and leaves the stored profile
    /// as it was.
    pub fn apply_detection(&mut self, outcome: Result<FlashProfile, FlashError>) -> (r: Result<
        Script,
        FlashError,
    >)
        ensures
            final(self).spec_max_chunk() == old(self).spec_max_chunk(),
            final(self).spec_poll_interval() == old(self).spec_poll_interval(),
            final(self).spec_poll_timeout() == old(self).spec_poll_timeout(),
            outcome matches Ok(p) ==> (r matches Ok(s) && final(self).spec_profile() == Some(p)
                && s@ == (if p.address_width == AddressWidth::Four {
                seq![StepSpec::Transact(cmd1(CMD_EN4B))]
            } else {
                Seq::empty()
            })),
            outcome is Err ==> (r == Err::<Script, FlashError>(outcome->Err_0)
                && final(self).spec_profile() == old(self).spec_profile()),
    {
        match outcome {
            Ok(p) => Ok(self.adopt_profile(p)),
            Err(e) => Err(e),
        }
    }
}

/// The write cycle that clears the block-protect bits.
pub open spec fn unprotect_steps() -> Seq<StepSpec> {
    write_cycle(seq![OpSpec::Write(seq![CMD_WRSR, 0x00u8])])
}

/// The flash size the full flow checks the image against: the detected
/// capacity, else the size the caller gave.
pub open spec fn flow_size(profile: Option<FlashProfile>, flash_size: Option<usize>) -> Option<
    usize,
> {
    match profile {
        Some(p) => match p.capacity {
            Some(c) => Some(c),
            None => flash_size,
        },
        None => flash_size,
    }
}

/// The steps of the full flow once the bus is held (and the chip detected,
/// when asked): unprotect if asked, erase the covered region, program,
/// verify if asked, release the bus, done, each phase announced.
pub open spec fn bitstream_steps(
    p: FlashProfile,
    m: nat,
    offset: usize,
    image: Seq<u8>,
    unprotect: bool,
    verify: bool,
) -> Seq<StepSpec> {
    (if unprotect {
        unprotect_steps()
    } else {
        Seq::empty()
    }) + seq![StepSpec::Report(Progress::Erasing)] + erase_steps(
        spec_plan_erase(p.erase@, offset as int, image.len() as int),
        p.address_width,
    ) + seq![StepSpec::Report(Progress::Programming(0))] + program_steps_from(
        offset as int,
        image,
        0,
        p.page_size as int,
        p.address_width,
        m,
        true,
    ) + (if verify {
        seq![StepSpec::Report(Progress::Verifying(0))] + verify_steps_from(
            offset as int,
            image,
            0,
            p.address_width,
            m,
            true,
        )
    } else {
        Seq::empty()
    }) + seq![StepSpec::ReleaseBus, StepSpec::Report(Progress::Done)]
}

impl Flasher {
    /// The opening of the full flow: take the bus (waking the flash) and,
    /// when detection is wanted, announce it. The host then runs detection
    /// (`detect_profile`) before `flash_bitstream`.
    pub fn bitstream_prelude(&self, detect: bool) -> (s: Script)
        ensures
            s@ == seq![StepSpec::AcquireBus] + wake_steps() + (if detect {
                seq![StepSpec::Report(Progress::Detecting)]
            } else {
                Seq::empty()
            }),
    {
        let mut s = self.acquire_bus();
        if detect {
            s.push(Step::Report(Progress::Detecting));
        }
        proof {
            assert(s@ =~= seq![StepSpec::AcquireBus] + wake_steps() + (if detect {
                seq![StepSpec::Report(Progress::Detecting)]
            } else {
                Seq::empty()
            }));
        }
        s
    }
}

impl Flasher {
    /// The full flow after `acquire_bus` (and detection, when wanted): an
    /// image that does not fit the known flash size releases the bus and
    /// stops with `TooLarge`; otherwise unprotect if asked, erase the covered
    /// region, program, verify if asked, and release the bus. Without a
    /// profile the flow stops with `NotDetected` where the erase would start.
    #[verifier::spinoff_prover]
    #[verifier::rlimit(40)]
    pub fn flash_bitstream(
        &self,
        offset: usize,
        image: &[u8],
        unprotect: bool,
        verify: bool,
        flash_size: Option<usize>,
    ) -> (s: Script)
        requires
            offset + image@.len() <= usize::MAX,
            self.spec_profile() matches Some(p) ==> p.page_size > 0 && erase_plannable(
                p,
                offset,
                image@.len() as usize,
            ),
        ensures
            ({
                let size = flow_size(self.spec_profile(), flash_size);
                let need = offset + image@.len();
                match size {
                    Some(sz) if need > sz => s@ == seq![
                        StepSpec::ReleaseBus,
                        StepSpec::Fail(FlashError::TooLarge { need: need as usize, have: sz }),
                    ],
                    _ => match self.spec_profile() {
                        Some(p) => s@ == bitstream_steps(
                            p,
                            self.spec_max_chunk() as nat,
                            offset,
                            image@,
                            unprotect,
                            verify,
                        ),
                        None => s@ == (if unprotect {
                            unprotect_steps()
                        } else {
                            Seq::empty()
                        }) + seq![
                            StepSpec::Report(Progress::Erasing),
                            StepSpec::Fail(FlashError::NotDetected),
                        ],
                    },
                }
            }),
    {
        let size = match self.profile() {
            Some(p) => match p.capacity {
                Some(c) => Some(c),
                None => flash_size,
            },
            None => flash_size,
        };
        if let Some(sz) = size {
            if offset + image.len() > sz {
                let mut s = self.release_bus();
                s.push(Step::Fail(FlashError::TooLarge { need: offset + image.len(), have: sz }));
                proof {
                    assert(s@ =~= seq![
                        StepSpec::ReleaseBus,
                        StepSpec::Fail(
                            FlashError::TooLarge { need: (offset + image@.len()) as usize, have: sz },
                        ),
                    ]);
                }
                return s;
            }
        }
        let mut s = Script::new();
        if unprotect {
            s.extend(self.unprotect());
        }
        s.push(Step::Report(Progress::Erasing));
        let erase = match self.erase_range(offset, image.len()) {
            Ok(e) => e,
            Err(e) => {
                s.push(Step::Fail(e));
                return s;
            },
        };
        s.extend(erase);
        s.push(Step::Report(Progress::Programming(0)));
        let prog = match self.program_flow(offset, image, true) {
            Ok(p) => p,
            Err(e) => {
                s.push(Step::Fail(e));
                return s;
            },
        };
        s.extend(prog);
        if verify {
            s.push(Step::Report(Progress::Verifying(0)));
            let ver = match self.verify_flow(offset, image, true) {
                Ok(v) => v,
                Err(e) => {
                    s.push(Step::Fail(e));
                    return s;
                },
            };
            s.extend(ver);
        }
        s.extend(self.release_bus());
        s.push(Step::Report(Progress::Done));
        proof {
            let p = self.spec_profile().unwrap();
            assert(s@ =~= bitstream_steps(
                p,
                self.spec_max_chunk() as nat,
                offset,
                image@,
                unprotect,
                verify,
            ));
        }
        s
    }
}

/// The bytes the writes of `ops` send, in order.
pub open spec fn written_bytes(ops: Seq<OpSpec>) -> Seq<u8>
    decreases ops.len(),
{
    if ops.len() == 0 {
        Seq::empty()
    } else {
        (match ops[0] {
            OpSpec::Write(b) => b,
            OpSpec::Read(_) => Seq::empty(),
        }) + written_bytes(ops.drop_first())
    }
}

/// Chunking law: the chunked writes send exactly the given bytes, in order,
/// each write holding between 1 and `m` bytes.
pub proof fn lemma_chunk_writes(b: Seq<u8>, m: nat)
    requires
        m > 0,
    ensures
        written_bytes(chunk_writes(b, m)) == b,
        forall|i: int|
            0 <= i < chunk_writes(b, m).len() ==> ((#[trigger] chunk_writes(b, m)[i]) matches OpSpec::Write(
                w,
            ) && 1 <= w.len() <= m),
    decreases b.len(),
{
    if b.len() > 0 {
        let k = min_int(m as int, b.len() as int);
        lemma_chunk_writes(b.skip(k), m);
        let c = chunk_writes(b, m);
        assert(c.drop_first() == chunk_writes(b.skip(k), m));
        assert(b.take(k) + b.skip(k) == b);
        assert forall|i: int| 0 <= i < c.len() implies ((#[trigger] c[i]) matches OpSpec::Write(w)
            && 1 <= w.len() <= m) by {
            if i > 0 {
                assert(c[i] == chunk_writes(b.skip(k), m)[i - 1]);
            }
        }
    }
}

/// The page-bounded pieces `(start, length)` that programming `len` bytes
/// at `offset` splits into, from byte `written` on.
pub open spec fn program_pieces(offset: int, len: int, written: int, page: int) -> Seq<(int, int)>
    decreases len - written,
{
    if written >= len || page <= 0 || written < 0 {
        Seq::empty()
    } else {
        let n = page_len(offset + written, len - written, page);
        if n <= 0 {
            Seq::empty()
        } else {
            seq![(written, n)] + program_pieces(offset, len, written + n, page)
        }
    }
}

/// Page-splitting law: the pieces run back to back from byte 0 to the end
/// of the image, none is empty, none crosses a page boundary, and every
/// piece but the last runs to its page's end.
pub proof fn lemma_program_pieces(offset: int, len: int, written: int, page: int)
    requires
        0 <= offset,
        0 <= written <= len,
        page > 0,
    ensures
        ({
            let ps = program_pieces(offset, len, written, page);
            &&& written < len ==> ps.len() > 0 && ps[0].0 == written && ps.last().0 + ps.last().1
                == len
            &&& written == len ==> ps.len() == 0
            &&& forall|i: int|
                #![trigger ps[i]]
                0 <= i < ps.len() ==> ps[i].1 >= 1 && (offset + ps[i].0) % page + ps[i].1 <= page
            &&& forall|i: int|
                #![trigger ps[i]]
                0 <= i < ps.len() - 1 ==> ps[i + 1].0 == ps[i].0 + ps[i].1 && (offset + ps[i].0)
                    % page + ps[i].1 == page
        }),
    decreases len - written,
{
    if written < len {
        let a = offset + written;
        assert(0 <= a % page < page) by (nonlinear_arith)
            requires
                page > 0,
                a >= 0,
        ;
        let n = page_len(a, len - written, page);
        lemma_program_pieces(offset, len, written + n, page);
        let ps = program_pieces(offset, len, written, page);
        let rest = program_pieces(offset, len, written + n, page);
        assert(ps == seq![(written, n)] + rest);
        assert forall|i: int| #![trigger ps[i]] 0 <= i < ps.len() implies ps[i].1 >= 1 && (offset
            + ps[i].0) % page + ps[i].1 <= page by {
            if i > 0 {
                assert(ps[i] == rest[i - 1]);
            }
        }
        assert forall|i: int| #![trigger ps[i]] 0 <= i < ps.len() - 1 implies ps[i + 1].0 == ps[i].0
            + ps[i].1 && (offset + ps[i].0) % page + ps[i].1 == page by {
            if i > 0 {
                assert(ps[i] == rest[i - 1]);
                assert(ps[i + 1] == rest[i]);
            } else {
                assert(ps[1] == rest[0]);
                assert(written + n < len);
            }
        }
        if rest.len() > 0 {
            assert(ps.last() == rest.last());
        }
    }
}

/// The steps that program one piece of `data`.
pub open spec fn piece_steps(
    offset: int,
    data: Seq<u8>,
    piece: (int, int),
    width: AddressWidth,
    m: nat,
    flow: bool,
) -> Seq<StepSpec> {
    write_cycle(
        pp_txn((offset + piece.0) as u32, data.subrange(piece.0, piece.0 + piece.1), width, m),
    ).push(program_mark(flow, (piece.0 + piece.1) as nat))
}

/// The steps that program the given pieces, in order.
pub open spec fn steps_of_pieces(
    offset: int,
    data: Seq<u8>,
    ps: Seq<(int, int)>,
    width: AddressWidth,
    m: nat,
    flow: bool,
) -> Seq<StepSpec>
    decreases ps.len(),
{
    if ps.len() == 0 {
        Seq::empty()
    } else {
        piece_steps(offset, data, ps[0], width, m, flow) + steps_of_pieces(
            offset,
            data,
            ps.drop_first(),
            width,
            m,
            flow,
        )
    }
}

/// Programming is one page program per piece: the program steps are the
/// steps of the page-bounded pieces, in order.
pub proof fn lemma_program_steps_pieces(
    offset: int,
    data: Seq<u8>,
    written: int,
    page: int,
    width: AddressWidth,
    m: nat,
    flow: bool,
)
    ensures
        program_steps_from(offset, data, written, page, width, m, flow) == steps_of_pieces(
            offset,
            data,
            program_pieces(offset, data.len() as int, written, page),
            width,
            m,
            flow,
        ),
    decreases data.len() - written,
{
    if written < data.len() && page > 0 && written >= 0 {
        let n = page_len(offset + written, data.len() - written, page);
        if n > 0 {
            lemma_program_steps_pieces(offset, data, written + n, page, width, m, flow);
            let ps = program_pieces(offset, data.len() as int, written, page);
            assert(ps.drop_first() == program_pieces(offset, data.len() as int, written + n, page));
        }
    }
}


/// The chunks `(start, length)` that reading `len` bytes in units of at
/// most `m` splits into, from byte `done` on.
pub open spec fn read_chunks(len: int, done: int, m: nat) -> Seq<(int, int)>
    decreases len - done,
{
    if done >= len || m == 0 || done < 0 {
        Seq::empty()
    } else {
        let n = min_int(m as int, len - done);
        seq![(done, n)] + read_chunks(len, done + n, m)
    }
}

/// Chunking law for reads: the chunks run back to back from byte `done` to
/// the end, each holding between 1 and `m` bytes.
pub proof fn lemma_read_chunks(len: int, done: int, m: nat)
    requires
        m > 0,
        0 <= done <= len,
    ensures
        ({
            let cs = read_chunks(len, done, m);
            &&& done < len ==> cs.len() > 0 && cs[0].0 == done && cs.last().0 + cs.last().1 == len
            &&& done == len ==> cs.len() == 0
            &&& forall|i: int| #![trigger cs[i]] 0 <= i < cs.len() ==> 1 <= cs[i].1 <= m
            &&& forall|i: int|
                #![trigger cs[i]]
                0 <= i < cs.len() - 1 ==> cs[i + 1].0 == cs[i].0 + cs[i].1
        }),
    decreases len - done,
{
    if done < len {
        let n = min_int(m as int, len - done);
        lemma_read_chunks(len, done + n, m);
        let cs = read_chunks(len, done, m);
        let rest = read_chunks(len, done + n, m);
        assert(cs == seq![(done, n)] + rest);
        assert forall|i: int| #![trigger cs[i]] 0 <= i < cs.len() implies 1 <= cs[i].1 <= m by {
            if i > 0 {
                assert(cs[i] == rest[i - 1]);
            }
        }
        assert forall|i: int| #![trigger cs[i]] 0 <= i < cs.len() - 1 implies cs[i + 1].0 == cs[i].0
            + cs[i].1 by {
            assert(cs[i + 1] == rest[i]);
            if i > 0 {
                assert(cs[i] == rest[i - 1]);
            } else {
                assert(done + n < len);
            }
        }
        if rest.len() > 0 {
            assert(cs.last() == rest.last());
        }
    }
}

/// The bytes of `data` that the chunks `cs` cover, in order.
pub open spec fn chunk_bytes(data: Seq<u8>, cs: Seq<(int, int)>) -> Seq<u8>
    decreases cs.len(),
{
    if cs.len() == 0 {
        Seq::empty()
    } else {
        data.subrange(cs[0].0, cs[0].0 + cs[0].1) + chunk_bytes(data, cs.drop_first())
    }
}

/// The chunks of a read cover the rest of the data exactly, in order.
pub proof fn lemma_chunks_cover(data: Seq<u8>, done: int, m: nat)
    requires
        m > 0,
        0 <= done <= data.len(),
    ensures
        chunk_bytes(data, read_chunks(data.len() as int, done, m)) == data.skip(done),
    decreases data.len() - done,
{
    let cs = read_chunks(data.len() as int, done, m);
    if done < data.len() {
        let n = min_int(m as int, data.len() - done);
        lemma_chunks_cover(data, done + n, m);
        assert(cs.drop_first() == read_chunks(data.len() as int, done + n, m));
        assert(data.subrange(done, done + n) + data.skip(done + n) =~= data.skip(done));
    } else {
        assert(data.skip(done) =~= Seq::<u8>::empty());
    }
}

/// The read transactions for the given chunks, in order.
pub open spec fn chunk_read_steps(offset: int, cs: Seq<(int, int)>, width: AddressWidth) -> Seq<
    StepSpec,
>
    decreases cs.len(),
{
    if cs.len() == 0 {
        Seq::empty()
    } else {
        seq![StepSpec::Transact(read_txn((offset + cs[0].0) as u32, cs[0].1 as nat, width))]
            + chunk_read_steps(offset, cs.drop_first(), width)
    }
}

/// Reading is one read transaction per chunk, at the chunk's own address.
pub proof fn lemma_read_steps_chunks(offset: int, len: int, done: int, width: AddressWidth, m: nat)
    ensures
        read_steps_from(offset, len, done, width, m) == chunk_read_steps(
            offset,
            read_chunks(len, done, m),
            width,
        ),
    decreases len - done,
{
    if done < len && m > 0 && done >= 0 {
        let n = min_int(m as int, len - done);
        lemma_read_steps_chunks(offset, len, done + n, width, m);
        assert(read_chunks(len, done, m).drop_first() == read_chunks(len, done + n, m));
    }
}

/// The verify steps for the given chunks: read the chunk at its address,
/// check it against the image's bytes for that address, count it.
pub open spec fn chunk_verify_steps(
    offset: int,
    expected: Seq<u8>,
    cs: Seq<(int, int)>,
    width: AddressWidth,
    flow: bool,
) -> Seq<StepSpec>
    decreases cs.len(),
{
    if cs.len() == 0 {
        Seq::empty()
    } else {
        let c = cs[0];
        seq![
            StepSpec::Transact(read_txn((offset + c.0) as u32, c.1 as nat, width)),
            StepSpec::Check((offset + c.0) as nat, expected.subrange(c.0, c.0 + c.1)),
            verify_mark(flow, (c.0 + c.1) as nat),
        ] + chunk_verify_steps(offset, expected, cs.drop_first(), width, flow)
    }
}

/// Verification law: verifying reads back every chunk of the image from
/// the address it belongs at and checks it against the image's bytes for
/// that address; the chunks cover the whole image, in order.
pub proof fn lemma_verify_steps_chunks(
    offset: int,
    expected: Seq<u8>,
    done: int,
    width: AddressWidth,
    m: nat,
    flow: bool,
)
    ensures
        verify_steps_from(offset, expected, done, width, m, flow) == chunk_verify_steps(
            offset,
            expected,
            read_chunks(expected.len() as int, done, m),
            width,
            flow,
        ),
        m > 0 && 0 <= done <= expected.len() ==> chunk_bytes(
            expected,
            read_chunks(expected.len() as int, done, m),
        ) == expected.skip(done),
    decreases expected.len() - done,
{
    if done < expected.len() && m > 0 && done >= 0 {
        let n = min_int(m as int, expected.len() - done);
        lemma_verify_steps_chunks(offset, expected, done + n, width, m, flow);
        assert(read_chunks(expected.len() as int, done, m).drop_first() == read_chunks(
            expected.len() as int,
            done + n,
            m,
        ));
    }
    if m > 0 && 0 <= done <= expected.len() {
        lemma_chunks_cover(expected, done, m);
    }
}

} // verus!
