//! The flash core driven against a behavioural SPI-NOR model: every script
//! the library produces is carried out the way a host would.

use norbert::commands::{
    detect_report, info_report, plan_program, program_report, sector_base, sfdp_dump_size,
    sfdp_report, test_pattern,
};
use norbert::diagnose::{
    plan_sector_test, readback_check, sector_pass, sector_test_outcome, test_report, SectorAction,
    SectorTest, READBACK_LEN,
};
use norbert::error::NorbertError;
use norbert::flash::{
    DetectAction, FlashError, FlashId, Flasher, Progress, Script, SpiOp, Step, Transaction,
    WaitDecision, BLOCK_SIZE, CMD_CE, CMD_EN4B, CMD_PP, CMD_RDID, CMD_RDSR, CMD_READ,
    CMD_RELEASE_PD, CMD_SFDP, CMD_WREN, CMD_WRSR, PAGE_SIZE, SR_WIP,
};
use norbert::profile::{AddressWidth, EraseMenu, EraseType, FlashProfile, ProfileSource};
use norbert::ui::{Mode, Ui};
use norbert::voice;

/// A behavioural SPI-NOR: RDID, status, read, page program (bits only
/// clear, wrapping within the page), sector/block/chip erase, SFDP space,
/// 4-byte mode, block protection and deep power-down.
struct FakeFlash {
    mem: Vec<u8>,
    id: [u8; 3],
    wel: bool,
    busy_reads: u32,
    sfdp: Vec<u8>,
    mode4b: bool,
    protected: bool,
    powered_down: bool,
    drop_next_program: bool,
}

impl FakeFlash {
    fn new(size: usize, id: [u8; 3]) -> Self {
        FakeFlash {
            mem: vec![0xFF; size],
            id,
            wel: false,
            busy_reads: 0,
            sfdp: Vec::new(),
            mode4b: false,
            protected: false,
            powered_down: false,
            drop_next_program: false,
        }
    }

    fn preset(&mut self, addr: usize, bytes: &[u8]) {
        self.mem[addr..addr + bytes.len()].copy_from_slice(bytes);
    }

    /// Carry out one transaction; the bytes it reads, in order.
    fn transact(&mut self, t: &Transaction) -> Vec<u8> {
        let mut mosi: Vec<u8> = Vec::new();
        let mut total = 0usize;
        for op in &t.ops {
            match op {
                SpiOp::Write(w) => mosi.extend_from_slice(w),
                SpiOp::Read(n) => total += n,
            }
        }
        let mut resp: Vec<u8> = Vec::new();
        if !mosi.is_empty() {
            let ab = if self.mode4b { 4 } else { 3 };
            let addr_at = |m: &[u8]| -> usize {
                let mut a = 0usize;
                for i in 0..ab {
                    a = (a << 8) | m[1 + i] as usize;
                }
                a
            };
            match mosi[0] {
                CMD_RELEASE_PD => self.powered_down = false,
                0xB9 => self.powered_down = true,
                _ if self.powered_down => {}
                CMD_RDID => resp.extend_from_slice(&self.id),
                CMD_WREN => self.wel = true,
                CMD_EN4B => self.mode4b = true,
                CMD_RDSR => {
                    let wip = if self.busy_reads > 0 {
                        self.busy_reads -= 1;
                        SR_WIP
                    } else {
                        0
                    };
                    let wel = if self.wel { 0x02 } else { 0 };
                    let bp = if self.protected { 0x1C } else { 0 };
                    resp.push(wip | wel | bp);
                }
                CMD_READ => {
                    let a = addr_at(&mosi);
                    for i in 0..total {
                        resp.push(*self.mem.get(a + i).unwrap_or(&0xFF));
                    }
                }
                CMD_SFDP => {
                    let a = u32::from_be_bytes([0, mosi[1], mosi[2], mosi[3]]) as usize;
                    for i in 0..total {
                        resp.push(*self.sfdp.get(a + i).unwrap_or(&0xFF));
                    }
                }
                CMD_WRSR => {
                    if self.wel {
                        let sr = mosi.get(1).copied().unwrap_or(0);
                        self.protected = sr & 0x1C != 0;
                    }
                    self.wel = false;
                }
                CMD_PP => {
                    let a = addr_at(&mosi);
                    if self.drop_next_program {
                        self.drop_next_program = false;
                    } else if self.wel && !self.protected {
                        for (i, b) in mosi[1 + ab..].iter().enumerate() {
                            let page = a & !(PAGE_SIZE - 1);
                            let off = (a + i - page) % PAGE_SIZE;
                            self.mem[page + off] &= *b;
                        }
                    }
                    self.wel = false;
                }
                CMD_CE => {
                    if self.wel {
                        self.mem.iter_mut().for_each(|b| *b = 0xFF);
                    }
                    self.wel = false;
                }
                op @ (0x20 | 0x52 | 0xD8) => {
                    let size = match op {
                        0x20 => 4 * 1024,
                        0x52 => 32 * 1024,
                        _ => 64 * 1024,
                    };
                    let a = addr_at(&mosi);
                    if self.wel {
                        let base = a & !(size - 1);
                        for b in &mut self.mem[base..base + size] {
                            *b = 0xFF;
                        }
                    }
                    self.wel = false;
                }
                _ => {}
            }
        }
        resp.resize(total, 0xFF);
        resp
    }
}

/// A host: the model flash, the flasher, and what the scripts reported.
struct Rig {
    flash: FakeFlash,
    f: Flasher,
    held: bool,
    events: Vec<Progress>,
    erased: usize,
    programmed: usize,
    verified: usize,
    last: Vec<u8>,
    read: Vec<u8>,
}

fn test_profile() -> FlashProfile {
    FlashProfile {
        page_size: 256,
        address_width: AddressWidth::Three,
        capacity: Some(2 * 1024 * 1024),
        erase: EraseMenu::new(vec![EraseType { size: 64 * 1024, opcode: 0xD8 }]).unwrap(),
        source: ProfileSource::Table,
        sfdp_revision: None,
    }
}

impl Rig {
    /// A rig whose flasher has no profile yet.
    fn bare(flash: FakeFlash, max_chunk: usize, timeout_us: u64) -> Rig {
        Rig {
            flash,
            f: Flasher::with_config(max_chunk, 0, timeout_us),
            held: false,
            events: Vec::new(),
            erased: 0,
            programmed: 0,
            verified: 0,
            last: Vec::new(),
            read: Vec::new(),
        }
    }

    /// A rig preloaded with a default profile so geometry operations resolve.
    fn new(flash: FakeFlash, max_chunk: usize) -> Rig {
        let mut r = Rig::bare(flash, max_chunk, 1_000_000);
        r.f.set_profile(test_profile());
        r
    }

    fn run(&mut self, s: Script) -> Result<(), FlashError> {
        for step in s.steps {
            match step {
                Step::Transact(t) => {
                    self.last = self.flash.transact(&t);
                    self.read.extend_from_slice(&self.last);
                }
                Step::WaitReady => {
                    let mut elapsed = 0u64;
                    loop {
                        let st = self.flash.transact(&Flasher::status_transaction())[0];
                        match self.f.wait_decision(st, elapsed) {
                            WaitDecision::Ready => break,
                            WaitDecision::TimedOut => return Err(FlashError::Timeout),
                            WaitDecision::PollAgain(us) => elapsed += us + 1,
                        }
                    }
                }
                Step::Sleep(_) => {}
                Step::AcquireBus => self.held = true,
                Step::ReleaseBus => self.held = false,
                Step::Erased(n) => self.erased = n,
                Step::Programmed(n) => self.programmed = n,
                Step::Verified(n) => self.verified = n,
                Step::Check { addr, expected } => Flasher::check_readback(addr, &expected, &self.last)?,
                Step::Report(p) => self.events.push(p),
                Step::Fail(e) => return Err(e),
            }
        }
        Ok(())
    }

    /// Run detection to its end and adopt the profile it finds.
    fn detect(&mut self) -> Result<(), FlashError> {
        let (mut d, t) = self.f.detect_profile();
        let mut answer = self.flash.transact(&t);
        loop {
            match d.resume(&answer) {
                DetectAction::Transact(t) => answer = self.flash.transact(&t),
                DetectAction::Done(outcome) => {
                    let s = self.f.apply_detection(outcome)?;
                    return self.run(s);
                }
            }
        }
    }

    fn read_id(&mut self) -> FlashId {
        let s = self.f.read_id();
        self.run(s).unwrap();
        FlashId::from_bytes(&self.last)
    }

    fn status(&mut self) -> u8 {
        self.flash.transact(&Flasher::status_transaction())[0]
    }

    fn is_protected(&mut self) -> bool {
        let s = self.f.is_protected();
        self.run(s).unwrap();
        Flasher::status_is_protected(self.last[0])
    }

    fn read(&mut self, offset: usize, len: usize) -> Vec<u8> {
        self.read.clear();
        let s = self.f.read(offset, len).unwrap();
        self.run(s).unwrap();
        self.read.clone()
    }
}

fn sfdp_blob() -> Vec<u8> {
    let mut v = vec![0xFFu8; 0x10];
    v[0..8].copy_from_slice(&[0x53, 0x46, 0x44, 0x50, 0x06, 0x01, 0x00, 0xFF]);
    v[8..16].copy_from_slice(&[0x00, 0x01, 0x01, 0x0B, 0x10, 0x00, 0x00, 0xFF]);
    let mut b = vec![0u8; 11 * 4];
    b[0..4].copy_from_slice(&[0xE5, 0x20, 0x00, 0x00]);
    b[4..8].copy_from_slice(&[0xFF, 0xFF, 0xFF, 0x00]);
    b[28..32].copy_from_slice(&[0x0C, 0x20, 0x0F, 0x52]);
    b[32..36].copy_from_slice(&[0x10, 0xD8, 0x00, 0x00]);
    b[40..44].copy_from_slice(&[0x80, 0x00, 0x00, 0x00]);
    v.extend_from_slice(&b);
    v
}

#[test]
fn capacity_decode() {
    let id = FlashId { manufacturer: 0x20, mem_type: 0x20, capacity_code: 0x15 };
    assert_eq!(id.capacity_bytes(), Some(2 * 1024 * 1024));
    let bad = FlashId { manufacturer: 0, mem_type: 0, capacity_code: 0x00 };
    assert_eq!(bad.capacity_bytes(), None);
}

#[test]
fn read_id_returns_jedec() {
    let mut rig = Rig::new(FakeFlash::new(2 * 1024 * 1024, [0x20, 0x20, 0x15]), 256);
    let id = rig.read_id();
    assert_eq!(id, FlashId { manufacturer: 0x20, mem_type: 0x20, capacity_code: 0x15 });
    assert_eq!(id.capacity_bytes(), Some(2 * 1024 * 1024));
}

#[test]
fn wait_ready_polls_until_wip_clears() {
    let mut flash = FakeFlash::new(1024, [0x20, 0x20, 0x15]);
    flash.busy_reads = 3;
    let mut rig = Rig::new(flash, 256);
    rig.run(Script { steps: vec![Step::Transact(Transaction::write(vec![CMD_WREN]))] }).unwrap();
    assert_eq!(rig.status() & 0x02, 0x02);
    rig.run(Script { steps: vec![Step::WaitReady] }).unwrap();
    assert_eq!(rig.flash.busy_reads, 0);
}

#[test]
fn wait_ready_times_out() {
    let mut flash = FakeFlash::new(1024, [0x20, 0x20, 0x15]);
    flash.busy_reads = u32::MAX;
    let mut rig = Rig::bare(flash, 256, 0);
    assert!(matches!(rig.run(Script { steps: vec![Step::WaitReady] }), Err(FlashError::Timeout)));
}

#[test]
fn erase_range_sets_ff_across_covered_blocks() {
    let size = 256 * 1024;
    let mut flash = FakeFlash::new(size, [0x20, 0x20, 0x15]);
    flash.preset(0, &vec![0x00; size]);
    let mut rig = Rig::new(flash, 256);
    let s = rig.f.erase_range(100, 1).unwrap();
    rig.run(s).unwrap();
    assert!(rig.flash.mem[0..BLOCK_SIZE].iter().all(|&b| b == 0xFF));
    assert!(rig.flash.mem[BLOCK_SIZE..].iter().all(|&b| b == 0x00));
}

#[test]
fn chip_erase_clears_all() {
    let mut flash = FakeFlash::new(BLOCK_SIZE, [0x20, 0x20, 0x15]);
    flash.preset(0, &vec![0x00; BLOCK_SIZE]);
    let mut rig = Rig::new(flash, 256);
    let s = rig.f.chip_erase();
    rig.run(s).unwrap();
    assert!(rig.flash.mem.iter().all(|&b| b == 0xFF));
}

#[test]
fn program_crossing_page_and_small_chunks() {
    let mut rig = Rig::new(FakeFlash::new(64 * 1024, [0x20, 0x20, 0x15]), 8);
    let data: Vec<u8> = (0..300).map(|i| (i % 251) as u8).collect();
    let s = rig.f.erase_range(0, 300).unwrap();
    rig.run(s).unwrap();
    let s = rig.f.program(250, &data).unwrap();
    rig.run(s).unwrap();
    assert_eq!(&rig.flash.mem[250..250 + 300], &data[..]);
    assert_eq!(rig.flash.mem[249], 0xFF);
}

#[test]
fn read_back_and_verify() {
    let mut rig = Rig::new(FakeFlash::new(64 * 1024, [0x20, 0x20, 0x15]), 8);
    let data: Vec<u8> = (0..500).map(|i| (i * 7 % 256) as u8).collect();
    let s = rig.f.erase_range(0, 500).unwrap();
    rig.run(s).unwrap();
    let s = rig.f.program(0, &data).unwrap();
    rig.run(s).unwrap();

    assert_eq!(rig.read(0, 500), data);

    let s = rig.f.verify(0, &data).unwrap();
    rig.run(s).unwrap();

    let mut wrong = data.clone();
    wrong[123] ^= 0xFF;
    let s = rig.f.verify(0, &wrong).unwrap();
    match rig.run(s) {
        Err(FlashError::VerifyMismatch { addr, .. }) => assert_eq!(addr, 123),
        other => panic!("expected mismatch, got {other:?}"),
    }
}

#[test]
fn flash_bitstream_end_to_end() {
    let mut rig = Rig::new(FakeFlash::new(2 * 1024 * 1024, [0x1C, 0x70, 0x15]), 64);
    let image: Vec<u8> = (0..1000).map(|i| (i % 256) as u8).collect();
    let s = rig.f.bitstream_prelude(false);
    rig.run(s).unwrap();
    assert!(rig.held);
    let s = rig.f.flash_bitstream(0, &image, false, true, Some(2 * 1024 * 1024));
    rig.run(s).unwrap();

    assert_eq!(&rig.flash.mem[..1000], &image[..]);
    assert!(!rig.held, "CRESET must be released at the end");
    assert_eq!(rig.events.first(), Some(&Progress::Erasing));
    assert_eq!(rig.events.last(), Some(&Progress::Done));
}

#[test]
fn flash_bitstream_rejects_oversize() {
    let mut rig = Rig::new(FakeFlash::new(1024, [0x20, 0x20, 0x15]), 64);
    rig.f.set_profile(FlashProfile {
        capacity: Some(1024),
        ..test_profile()
    });
    let image = vec![0u8; 2048];
    let s = rig.f.bitstream_prelude(false);
    rig.run(s).unwrap();
    let s = rig.f.flash_bitstream(0, &image, false, false, None);
    assert!(matches!(rig.run(s), Err(FlashError::TooLarge { .. })));
    assert!(!rig.held, "the bus is released before the refusal");
    assert!(rig.flash.mem.iter().all(|&b| b == 0xFF));
}

#[test]
fn flash_bitstream_without_a_profile_stops_where_the_erase_would_start() {
    let mut rig = Rig::bare(FakeFlash::new(1024, [0x20, 0x20, 0x15]), 64, 1_000_000);
    let s = rig.f.flash_bitstream(0, &[1, 2, 3], false, true, None);
    assert!(matches!(rig.run(s), Err(FlashError::NotDetected)));
    assert_eq!(rig.events, vec![Progress::Erasing]);
    assert!(rig.flash.mem.iter().all(|&b| b == 0xFF));
}

#[test]
fn erase_uses_profile_small_sector_at_tail() {
    let size = 256 * 1024;
    let mut flash = FakeFlash::new(size, [0xEF, 0x40, 0x15]);
    flash.preset(0, &vec![0x00; size]);
    let mut rig = Rig::new(flash, 256);
    rig.f.set_profile(FlashProfile {
        capacity: Some(size),
        erase: EraseMenu::new(vec![
            EraseType { size: 64 * 1024, opcode: 0xD8 },
            EraseType { size: 4 * 1024, opcode: 0x20 },
        ])
        .unwrap(),
        source: ProfileSource::Sfdp,
        ..test_profile()
    });
    let s = rig.f.erase_range(0, 131_072 + 100).unwrap();
    rig.run(s).unwrap();
    assert!(rig.flash.mem[0..131_072 + 4096].iter().all(|&b| b == 0xFF));
    assert!(rig.flash.mem[131_072 + 4096..].iter().all(|&b| b == 0x00));
}

#[test]
fn erase_without_profile_is_not_detected() {
    let rig = Rig::bare(FakeFlash::new(1024, [0xEF, 0x40, 0x15]), 256, 1_000_000);
    assert!(matches!(rig.f.erase_range(0, 10), Err(FlashError::NotDetected)));
}

#[test]
fn read_sfdp_returns_blob() {
    let mut flash = FakeFlash::new(1024, [0xEF, 0x40, 0x15]);
    flash.sfdp = vec![0x53, 0x46, 0x44, 0x50, 0x06, 0x01, 0x00, 0xFF];
    let mut rig = Rig::new(flash, 256);
    let s = rig.f.read_sfdp(0, 8);
    rig.run(s).unwrap();
    assert_eq!(&rig.last[0..4], b"SFDP");
}

#[test]
fn detect_via_sfdp_builds_profile() {
    let mut flash = FakeFlash::new(2 * 1024 * 1024, [0xEF, 0x40, 0x15]);
    flash.sfdp = sfdp_blob();
    let mut rig = Rig::bare(flash, 256, 1_000_000);
    rig.detect().unwrap();
    let p = rig.f.profile().unwrap();
    assert_eq!(p.source, ProfileSource::Sfdp);
    assert_eq!(p.page_size, 256);
    assert_eq!(p.capacity, Some(2 * 1024 * 1024));
    assert_eq!(p.erase.iter().len(), 3);
    assert_eq!(p.erase.iter()[0].size, 64 * 1024);
}

#[test]
fn detect_uses_fallback_table_for_m25p16() {
    let mut rig = Rig::bare(FakeFlash::new(2 * 1024 * 1024, [0x20, 0x20, 0x15]), 256, 1_000_000);
    rig.detect().unwrap();
    let p = rig.f.profile().unwrap();
    assert_eq!(p.source, ProfileSource::Table);
    assert_eq!(p.capacity, Some(2 * 1024 * 1024));
    assert_eq!(p.erase.iter(), vec![EraseType { size: 64 * 1024, opcode: 0xD8 }]);
}

#[test]
fn detect_unsupported_chip_errs() {
    let mut rig = Rig::new(FakeFlash::new(1024, [0xAB, 0xCD, 0xEF]), 256);
    assert!(matches!(rig.detect(), Err(FlashError::UnsupportedChip { .. })));
}

#[test]
fn detect_no_flash_errs() {
    let mut rig = Rig::new(FakeFlash::new(1024, [0xFF, 0xFF, 0xFF]), 256);
    assert!(matches!(rig.detect(), Err(FlashError::NoFlash)));
}

#[test]
fn detect_falls_back_when_the_sfdp_has_no_erase_types() {
    let mut flash = FakeFlash::new(2 * 1024 * 1024, [0x20, 0x20, 0x15]);
    let mut blob = sfdp_blob();
    for b in &mut blob[0x10 + 28..0x10 + 36] {
        *b = 0;
    }
    flash.sfdp = blob;
    let mut rig = Rig::bare(flash, 256, 1_000_000);
    rig.detect().unwrap();
    assert_eq!(rig.f.profile().unwrap().source, ProfileSource::Table);
}

#[test]
fn flash_bitstream_detects_first() {
    let mut flash = FakeFlash::new(2 * 1024 * 1024, [0xEF, 0x40, 0x15]);
    flash.sfdp = sfdp_blob();
    let mut rig = Rig::new(flash, 256);
    let image: Vec<u8> = (0..1000).map(|i| (i % 256) as u8).collect();
    let s = rig.f.bitstream_prelude(true);
    rig.run(s).unwrap();
    rig.detect().unwrap();
    let s = rig.f.flash_bitstream(0, &image, false, true, None);
    rig.run(s).unwrap();
    assert_eq!(rig.events.first(), Some(&Progress::Detecting));
    assert_eq!(&rig.flash.mem[..1000], &image[..]);
    assert_eq!(rig.f.profile().unwrap().source, ProfileSource::Sfdp);
}

#[test]
fn four_byte_addressing_roundtrips() {
    let mut rig = Rig::new(FakeFlash::new(1024 * 1024, [0xEF, 0x40, 0x19]), 256);
    let s = rig.f.adopt_profile(FlashProfile {
        address_width: AddressWidth::Four,
        capacity: Some(32 * 1024 * 1024),
        source: ProfileSource::Sfdp,
        ..test_profile()
    });
    rig.run(s).unwrap();
    assert!(rig.flash.mode4b);
    let addr = 0x0002_0000;
    let data: Vec<u8> = (0..600).map(|i| (i % 256) as u8).collect();
    let s = rig.f.erase_range(addr, data.len()).unwrap();
    rig.run(s).unwrap();
    let s = rig.f.program(addr, &data).unwrap();
    rig.run(s).unwrap();
    assert_eq!(rig.read(addr, data.len()), data);
    assert_eq!(&rig.flash.mem[addr..addr + data.len()], &data[..]);
}

#[test]
fn unprotect_enables_programming() {
    let mut flash = FakeFlash::new(1024, [0xEF, 0x40, 0x15]);
    flash.protected = true;
    let mut rig = Rig::new(flash, 256);
    let s = rig.f.program(0, &[1, 2, 3, 4]).unwrap();
    rig.run(s).unwrap();
    assert_eq!(&rig.flash.mem[0..4], &[0xFF, 0xFF, 0xFF, 0xFF]);
    let s = rig.f.unprotect();
    rig.run(s).unwrap();
    let s = rig.f.program(0, &[1, 2, 3, 4]).unwrap();
    rig.run(s).unwrap();
    assert_eq!(&rig.flash.mem[0..4], &[1, 2, 3, 4]);
}

#[test]
fn protect_then_unprotect_roundtrip() {
    let mut rig = Rig::new(FakeFlash::new(1024, [0xEF, 0x40, 0x15]), 256);
    assert!(!rig.is_protected());
    let s = rig.f.protect();
    rig.run(s).unwrap();
    assert!(rig.is_protected());
    let s = rig.f.unprotect();
    rig.run(s).unwrap();
    assert!(!rig.is_protected());
}

#[test]
fn soft_reset_runs() {
    let mut rig = Rig::new(FakeFlash::new(1024, [0xEF, 0x40, 0x15]), 256);
    let s = rig.f.reset_flash();
    rig.run(s).unwrap();
}

#[test]
fn wake_releases_power_down() {
    let mut flash = FakeFlash::new(2 * 1024 * 1024, [0xEF, 0x40, 0x18]);
    flash.powered_down = true;
    let mut rig = Rig::new(flash, 256);
    assert!(!rig.read_id().is_present());
    let s = rig.f.wake();
    rig.run(s).unwrap();
    assert_eq!(rig.read_id(), FlashId { manufacturer: 0xEF, mem_type: 0x40, capacity_code: 0x18 });
}

#[test]
fn acquire_bus_wakes_the_flash() {
    let mut flash = FakeFlash::new(2 * 1024 * 1024, [0xEF, 0x40, 0x18]);
    flash.powered_down = true;
    let mut rig = Rig::new(flash, 256);
    let s = rig.f.acquire_bus();
    rig.run(s).unwrap();
    assert!(rig.held);
    assert!(rig.read_id().is_present());
    let s = rig.f.release_bus();
    rig.run(s).unwrap();
    assert!(!rig.held);
}

#[test]
fn progress_counts_run_to_the_image_size() {
    let mut rig = Rig::new(FakeFlash::new(256 * 1024, [0x20, 0x20, 0x15]), 64);
    let image: Vec<u8> = (0..70_000).map(|i| (i % 253) as u8).collect();
    let plan = rig.f.erase_plan(0, image.len()).unwrap();
    assert_eq!(plan.blocks(), 2);
    let s = rig.f.run_erase(&plan).unwrap();
    rig.run(s).unwrap();
    let s = rig.f.program(0, &image).unwrap();
    rig.run(s).unwrap();
    let s = rig.f.verify(0, &image).unwrap();
    rig.run(s).unwrap();
    assert_eq!((rig.erased, rig.programmed, rig.verified), (2, 70_000, 70_000));
}

#[test]
fn check_readback_reports_the_first_differing_byte() {
    assert!(Flasher::check_readback(10, &[1, 2, 3], &[1, 2, 3]).is_ok());
    match Flasher::check_readback(0x1000, &[1, 2, 3, 4], &[1, 9, 3, 8]) {
        Err(FlashError::VerifyMismatch { addr, expected, got }) => {
            assert_eq!((addr, expected, got), (0x1001, 2, 9))
        }
        other => panic!("expected mismatch, got {other:?}"),
    }
}

#[test]
fn wait_decision_polls_at_the_interval_until_the_timeout() {
    let f = Flasher::with_config(16, 2000, 10_000);
    assert_eq!(f.wait_decision(0x00, 50_000), WaitDecision::Ready);
    assert_eq!(f.wait_decision(0x01, 0), WaitDecision::PollAgain(2000));
    assert_eq!(f.wait_decision(0x03, 10_000), WaitDecision::TimedOut);
    let d = Flasher::new();
    assert_eq!(d.max_chunk(), PAGE_SIZE);
    assert!(d.profile().is_none());
}

// --- The command flows, run the way the host runs them. ---

/// `program`: detect, read protection, plan, run; what was left in flash.
fn program_flow(
    rig: &mut Rig,
    image: &[u8],
    skip_verify: bool,
    unprotect: bool,
) -> Result<usize, NorbertError> {
    let s = rig.f.acquire_bus();
    rig.run(s).map_err(NorbertError::from_flash)?;
    let r = (|| {
        rig.detect().map_err(NorbertError::from_flash)?;
        let protected = rig.is_protected();
        let (script, blocks) = plan_program(&rig.f, protected, 0, image, skip_verify, false, unprotect)?;
        rig.run(script).map_err(NorbertError::from_flash)?;
        Ok(blocks)
    })();
    let s = rig.f.release_bus();
    rig.run(s).map_err(NorbertError::from_flash)?;
    r
}

#[test]
fn program_refuses_a_protected_chip_and_writes_nothing() {
    let mut flash = FakeFlash::new(2 * 1024 * 1024, [0x20, 0x20, 0x15]);
    flash.protected = true;
    let mut rig = Rig::bare(flash, 256, 1_000_000);
    let r = program_flow(&mut rig, &[0xABu8; 512], true, false);
    assert!(matches!(r, Err(NorbertError::Protected)));
    assert!(rig.flash.mem.iter().all(|&b| b == 0xFF), "protected chip was modified");
    assert!(!rig.held);
}

#[test]
fn program_erases_writes_and_verifies_ok() {
    let image: Vec<u8> = (0..600).map(|i| (i % 256) as u8).collect();
    let mut rig = Rig::bare(FakeFlash::new(2 * 1024 * 1024, [0x20, 0x20, 0x15]), 256, 1_000_000);
    let blocks = program_flow(&mut rig, &image, false, false).unwrap();
    assert_eq!(blocks, 1);
    assert_eq!(&rig.flash.mem[..600], &image[..]);
    let mut ui = Ui::captured(Mode::Machine);
    program_report(&mut ui, blocks, image.len(), 12);
    assert_eq!(ui.out().contents(), "OK\n");
    let mut ui = Ui::captured(Mode::Human);
    program_report(&mut ui, blocks, image.len(), 12);
    assert_eq!(ui.out().contents(), "Done. Have a nice boot.  (erased 1 blocks, wrote 600 B in 1.2s)\n");
}

#[test]
fn program_with_unprotect_clears_protection_first() {
    let image: Vec<u8> = (0..300).map(|i| (i % 256) as u8).collect();
    let mut flash = FakeFlash::new(2 * 1024 * 1024, [0x20, 0x20, 0x15]);
    flash.protected = true;
    let mut rig = Rig::bare(flash, 256, 1_000_000);
    program_flow(&mut rig, &image, false, true).unwrap();
    assert_eq!(&rig.flash.mem[..300], &image[..]);
    assert!(!rig.flash.protected);
}

/// `test --sector n`: plan, save, then the passes the self-test hands out
/// until its verdict; "OK" is said on success.
fn sector_test(rig: &mut Rig, ui: &mut Ui, n: usize) -> Result<(), NorbertError> {
    rig.detect().map_err(NorbertError::from_flash)?;
    let protected = rig.is_protected();
    let (base, sec) = plan_sector_test(&rig.f, protected, n)?;
    let backup = rig.read(base, sec);
    let pattern = test_pattern(sec);
    let (mut t, mut pass) = SectorTest::start(&rig.f, base, sec, &pattern, &backup)?;
    let mut passes = 0;
    let r = loop {
        passes += 1;
        let outcome = rig.run(pass).map_err(NorbertError::from_flash);
        match t.resume(outcome) {
            SectorAction::Run(next) => pass = next,
            SectorAction::Done(r) => break r,
        }
    };
    assert_eq!(passes, 2, "the restore pass always follows the pattern pass");
    r?;
    test_report(ui);
    Ok(())
}

const SEC: usize = 64 * 1024;

fn recognizable() -> Vec<u8> {
    (0..SEC).map(|i| (i % 251) as u8).collect()
}

#[test]
fn test_sector_round_trip_restores_original() {
    let mut flash = FakeFlash::new(2 * 1024 * 1024, [0x20, 0x20, 0x15]);
    let original = recognizable();
    flash.preset(0, &original);
    let mut rig = Rig::bare(flash, 256, 1_000_000);
    let mut ui = Ui::captured(Mode::Machine);
    sector_test(&mut rig, &mut ui, 0).unwrap();
    assert_eq!(rig.flash.mem[..SEC], original[..], "sector not restored");
    assert_eq!(ui.out().contents(), "OK\n");
}

#[test]
fn test_sector_refuses_protected_and_writes_nothing() {
    let mut flash = FakeFlash::new(2 * 1024 * 1024, [0x20, 0x20, 0x15]);
    flash.protected = true;
    let mut rig = Rig::bare(flash, 256, 1_000_000);
    let r = sector_test(&mut rig, &mut Ui::captured(Mode::Machine), 0);
    assert!(matches!(r, Err(NorbertError::Protected)));
    assert!(rig.flash.mem.iter().all(|&b| b == 0xFF), "a protected chip was modified");
}

#[test]
fn test_sector_restores_even_when_the_pattern_test_fails() {
    let mut flash = FakeFlash::new(2 * 1024 * 1024, [0x20, 0x20, 0x15]);
    let original = recognizable();
    flash.preset(0, &original);
    flash.drop_next_program = true;
    let mut rig = Rig::bare(flash, 256, 1_000_000);
    let r = sector_test(&mut rig, &mut Ui::captured(Mode::Machine), 0);
    assert!(matches!(r, Err(NorbertError::VerifyMismatch { .. })));
    assert_eq!(rig.flash.mem[..SEC], original[..], "sector not restored after a failed test");
}

#[test]
fn test_sector_out_of_range_is_refused() {
    let mut rig = Rig::bare(FakeFlash::new(2 * 1024 * 1024, [0x20, 0x20, 0x15]), 256, 1_000_000);
    assert!(matches!(
        sector_test(&mut rig, &mut Ui::captured(Mode::Machine), 32),
        Err(NorbertError::Other(_))
    ));
    assert!(sector_base(31, SEC, Some(2 * 1024 * 1024)).is_ok());
}

#[test]
fn test_none_passes_on_consistent_reads() {
    let mut flash = FakeFlash::new(2 * 1024 * 1024, [0x20, 0x20, 0x15]);
    flash.preset(0, &[0x12u8; 4096]);
    let mut rig = Rig::bare(flash, 256, 1_000_000);
    rig.detect().unwrap();
    let a = rig.read(0, READBACK_LEN);
    let b = rig.read(0, READBACK_LEN);
    assert!(readback_check(&a, &b).is_ok());
    let mut ui = Ui::captured(Mode::Machine);
    test_report(&mut ui);
    assert_eq!(ui.out().contents(), "OK\n");
}

#[test]
fn flash_id_reads_as_text_with_its_density() {
    let id = FlashId { manufacturer: 0xEF, mem_type: 0x40, capacity_code: 0x18 };
    assert_eq!(id.to_text(), "mfr=0xEF type=0x40 cap=0x18 (16384 KiB)");
    let odd = FlashId { manufacturer: 0xAB, mem_type: 0xCD, capacity_code: 0xEF };
    assert_eq!(odd.to_text(), "mfr=0xAB type=0xCD cap=0xEF");
    assert_eq!(odd.jedec(), [0xAB, 0xCD, 0xEF]);
    assert!(!FlashId { manufacturer: 0x00, mem_type: 1, capacity_code: 2 }.is_present());
}

/// `detect`: the opener, then the id and the detection outcome reported.
fn detect_flow(rig: &mut Rig, ui: &mut Ui) -> Result<(), NorbertError> {
    ui.say(voice::detect_opener());
    let id = rig.read_id();
    let detected = {
        let (mut d, t) = rig.f.detect_profile();
        let mut answer = rig.flash.transact(&t);
        loop {
            match d.resume(&answer) {
                DetectAction::Transact(t) => answer = rig.flash.transact(&t),
                DetectAction::Done(r) => break r,
            }
        }
    };
    detect_report(ui, &id, detected)
}

#[test]
fn detect_speaks_in_human_and_is_terse_in_machine() {
    let mut rig = Rig::new(FakeFlash::new(2 * 1024 * 1024, [0x20, 0x20, 0x15]), 256);
    let mut ui = Ui::captured(Mode::Human);
    detect_flow(&mut rig, &mut ui).unwrap();
    assert_eq!(
        ui.out().contents(),
        format!("{}\nFound Micron M25P16.\n", voice::detect_opener())
    );

    let mut rig = Rig::new(FakeFlash::new(2 * 1024 * 1024, [0x20, 0x20, 0x15]), 256);
    let mut ui = Ui::captured(Mode::Machine);
    detect_flow(&mut rig, &mut ui).unwrap();
    assert_eq!(ui.out().contents(), "20 20 15\n");
}

#[test]
fn info_machine_is_key_value() {
    let mut rig = Rig::new(FakeFlash::new(2 * 1024 * 1024, [0x20, 0x20, 0x15]), 256);
    let mut ui = Ui::captured(Mode::Machine);
    ui.say(voice::info_opener());
    let id = rig.read_id();
    let detected = if id.is_present() {
        let (mut d, t) = rig.f.detect_profile();
        let mut answer = rig.flash.transact(&t);
        loop {
            match d.resume(&answer) {
                DetectAction::Transact(t) => answer = rig.flash.transact(&t),
                DetectAction::Done(r) => break r,
            }
        }
    } else {
        Err(FlashError::NoFlash)
    };
    info_report(&mut ui, &id, detected).unwrap();
    let s = ui.out().contents();
    assert!(s.contains("jedec=202015\n"), "got:\n{s}");
    assert!(s.contains("source=table\n"), "got:\n{s}");
    assert!(s.contains("address=3-byte\n"), "got:\n{s}");
}

#[test]
fn sfdp_absent_emits_machine_token() {
    let mut rig = Rig::new(FakeFlash::new(2 * 1024 * 1024, [0x20, 0x20, 0x15]), 256);
    let mut ui = Ui::captured(Mode::Machine);
    let s = rig.f.read_sfdp(0, 8);
    rig.run(s).unwrap();
    let header = rig.last.clone();
    let dump = match sfdp_dump_size(&header) {
        Some(n) => {
            let s = rig.f.read_sfdp(0, n);
            rig.run(s).unwrap();
            Some(rig.last.clone())
        }
        None => None,
    };
    sfdp_report(&mut ui, dump.as_deref());
    assert_eq!(ui.out().contents(), "sfdp=absent\n");
}

#[test]
fn sfdp_present_is_dumped_in_full() {
    let mut flash = FakeFlash::new(2 * 1024 * 1024, [0xEF, 0x40, 0x15]);
    flash.sfdp = sfdp_blob();
    let mut rig = Rig::new(flash, 256);
    let mut ui = Ui::captured(Mode::Machine);
    let s = rig.f.read_sfdp(0, 8);
    rig.run(s).unwrap();
    let n = sfdp_dump_size(&rig.last.clone()).unwrap();
    let s = rig.f.read_sfdp(0, n);
    rig.run(s).unwrap();
    let dump = rig.last.clone();
    sfdp_report(&mut ui, Some(&dump));
    let out = ui.out().contents();
    assert_eq!(out.lines().count(), 16);
    assert!(out.starts_with("  0000: 53 46 44 50 06 01 00 FF 00 01 01 0B 10 00 00 FF\n"));
}

#[test]
fn sector_passes_are_the_erase_program_verify_of_each_image() {
    let mut rig = Rig::bare(FakeFlash::new(2 * 1024 * 1024, [0x20, 0x20, 0x15]), 256, 1_000_000);
    rig.detect().unwrap();
    let pattern = test_pattern(SEC);
    let s = sector_pass(&rig.f, 0, SEC, &pattern).unwrap();
    rig.run(s).unwrap();
    assert_eq!(&rig.flash.mem[..SEC], &pattern[..]);
    assert!(sector_test_outcome(Ok(()), Ok(())).is_ok());
}

#[test]
fn a_failed_detection_leaves_the_profile_alone() {
    let mut rig = Rig::new(FakeFlash::new(1024, [0xFF, 0xFF, 0xFF]), 256);
    assert!(matches!(rig.detect(), Err(FlashError::NoFlash)));
    assert_eq!(rig.f.profile().unwrap().source, ProfileSource::Table);
    assert_eq!(rig.f.profile().unwrap().capacity, Some(2 * 1024 * 1024));
}

#[test]
fn a_four_byte_part_is_switched_before_its_profile_is_kept() {
    let mut rig = Rig::bare(FakeFlash::new(1024, [0xEF, 0x40, 0x19]), 256, 1_000_000);
    let four = FlashProfile {
        address_width: AddressWidth::Four,
        ..test_profile()
    };
    let s = rig.f.apply_detection(Ok(four)).unwrap();
    assert_eq!(s.steps.len(), 1);
    rig.run(s).unwrap();
    assert!(rig.flash.mode4b);
    assert_eq!(rig.f.profile().unwrap().address_width, AddressWidth::Four);
    let s = rig.f.apply_detection(Ok(test_profile())).unwrap();
    assert!(s.steps.is_empty());
}

#[test]
fn erase_near_the_top_of_the_address_space_is_planned() {
    let p = test_profile();
    let min = 64 * 1024;
    let offset = usize::MAX - 2 * min + 2;
    assert!(norbert::profile::plan_fits_for(&p, offset, 1));
    let plan = norbert::profile::plan_erase(&p, offset, 1);
    assert_eq!(plan.ops()[0].addr, usize::MAX - 2 * min + 1);
    assert!(!norbert::profile::plan_fits_for(&p, usize::MAX - 5, 3));
}
