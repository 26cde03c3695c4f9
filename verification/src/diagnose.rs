//! The check-up and the self-test: what `doctor` concludes from each probe
//! and says about it, and how `test` plans, checks and judges its work. The
//! host takes the readings; everything here decides and words.

use vstd::prelude::*;

use crate::catalog::{describe, describe_text};
use crate::commands::{
    jedec_compact, jedec_compact_text, jedec_spaced, jedec_spaced_text, sector_base,
    sector_base_result, shown, said,
};
use crate::error::{flash_error_text, norbert_error_text, NorbertError};
use crate::flash::{
    erase_plannable, erase_steps, program_steps_from, verify_steps_from, FlashError, FlashId,
    Flasher, Script,
};
use crate::profile::spec_plan_erase;
use crate::sfdp::SfdpHeader;
use crate::text::{dec_digits, hex_upper, push_dec, push_hex};
use crate::ui::{Mode, Ui};
use crate::voice;

verus! {

/// The SPI clocks the check-up steps through, in Hz, slowest first.
pub open spec fn spec_probe_freqs() -> Seq<u32> {
    seq![1_000_000u32, 5_000_000u32, 10_000_000u32]
}

/// The SPI clocks the check-up steps through, in Hz, slowest first.
pub fn probe_freqs() -> (f: Vec<u32>)
    ensures
        f@ == spec_probe_freqs(),
{
    let f = vec![1_000_000u32, 5_000_000u32, 10_000_000u32];
    proof {
        assert(f@ =~= spec_probe_freqs());
    }
    f
}

/// All three id bytes equal: MISO stuck, or power or wiring wrong.
pub open spec fn miso_stuck(id: FlashId) -> bool {
    id.manufacturer == id.mem_type && id.mem_type == id.capacity_code
}

/// The stuck-bus warning for id bytes that all read `b`.
pub open spec fn stuck_text(b: u8) -> Seq<char> {
    "WARNING: all three JEDEC bytes are 0x"@ + hex_upper(b as nat, 2)
        + " — MISO may be stuck or power/wiring is wrong."@
}

/// The hint after an empty bus.
pub open spec fn wiring_hint() -> Seq<char> {
    "  Check CS (--cs), MISO, GND, power, and that any other bus master is held off (--hold-gpio)."@
}

/// The SFDP line of the check-up, from the header read (or its fault).
pub open spec fn sfdp_line(mode: Mode, header: Result<Vec<u8>, FlashError>) -> Seq<char> {
    match header {
        Ok(h) => if SfdpHeader::spec_parse(h@) is Some {
            shown(mode, "SFDP: present"@, "sfdp=present"@)
        } else {
            shown(mode, "SFDP: absent (will use the fallback table)"@, "sfdp=absent"@)
        },
        Err(e) => shown(mode, "SFDP: read failed ("@ + flash_error_text(e) + ")"@, "sfdp=error"@),
    }
}

/// What the first half of the check-up prints: the id read at the
/// configured clock (or its fault), then, for a chip that answered, its
/// name, a stuck-bus warning when all three id bytes agree, and the SFDP
/// line.
pub open spec fn doctor_head_text(
    mode: Mode,
    freq: u32,
    id_res: Result<FlashId, FlashError>,
    header: Result<Vec<u8>, FlashError>,
) -> Seq<char> {
    match id_res {
        Err(e) => shown(mode, "RDID: failed ("@ + flash_error_text(e) + ")"@, "rdid=fail"@) + shown(
            mode,
            "I couldn't read an ID at all.\n\nCheck the USB connection and the bridge firmware."@,
            "FAIL: rdid"@,
        ),
        Ok(id) => shown(
            mode,
            "RDID @ "@ + dec_digits(freq as nat) + " Hz: "@ + jedec_spaced_text(id.spec_jedec()),
            "rdid="@ + jedec_compact_text(id.spec_jedec()),
        ) + if !id.spec_is_present() {
            shown(mode, "I don't see a flash chip.\n\nIs it plugged in?"@, "FAIL: no chip"@) + said(
                mode,
                wiring_hint(),
            )
        } else {
            shown(
                mode,
                "chip: "@ + describe_text(id.spec_jedec()),
                "chip="@ + describe_text(id.spec_jedec()),
            ) + (if miso_stuck(id) {
                shown(mode, stuck_text(id.manufacturer), "warn=miso"@)
            } else {
                Seq::empty()
            }) + sfdp_line(mode, header)
        },
    }
}

/// The first half of the check-up, once the id and the SFDP header have
/// been read at the configured clock. Says what was found and gives, for a
/// chip that answered, its id and whether the stuck-bus warning was raised;
/// `None` ends the check-up (nothing more to probe).
#[verifier::spinoff_prover]
#[verifier::rlimit(40)]
pub fn doctor_head(
    ui: &mut Ui,
    freq: u32,
    id_res: Result<FlashId, FlashError>,
    header: Result<Vec<u8>, FlashError>,
) -> (r: Option<(FlashId, bool)>)
    ensures
        final(ui).spec_mode() == old(ui).spec_mode(),
        final(ui).spec_err() == old(ui).spec_err(),
        final(ui).spec_out() == old(ui).spec_out() + doctor_head_text(
            old(ui).spec_mode(),
            freq,
            id_res,
            header,
        ),
        r == (match id_res {
            Ok(id) => if id.spec_is_present() {
                Some((id, miso_stuck(id)))
            } else {
                None
            },
            Err(_) => None,
        }),
{
    let ghost mode = ui.spec_mode();
    let ghost start = ui.spec_out();
    let id = match id_res {
        Err(e) => {
            let mut h = String::new();
            h.append("RDID: failed (");
            let m = e.message();
            h.append(m.as_str());
            h.append(")");
            ui.line(h.as_str(), "rdid=fail");
            ui.line(voice::doctor_rdid_fail(), "FAIL: rdid");
            proof {
                assert(ui.spec_out() =~= start + doctor_head_text(mode, freq, id_res, header));
            }
            return None;
        },
        Ok(id) => id,
    };
    let j = id.jedec();
    let mut h = String::new();
    h.append("RDID @ ");
    push_dec(&mut h, freq as usize);
    h.append(" Hz: ");
    let sp = jedec_spaced(j);
    h.append(sp.as_str());
    let mut m = String::new();
    m.append("rdid=");
    let cp = jedec_compact(j);
    m.append(cp.as_str());
    ui.line(h.as_str(), m.as_str());
    let ghost after_rdid = ui.spec_out();
    if !id.is_present() {
        ui.line(voice::no_flash(), "FAIL: no chip");
        ui.say(
            "  Check CS (--cs), MISO, GND, power, and that any other bus master is held off (--hold-gpio).",
        );
        proof {
            assert(ui.spec_out() =~= start + doctor_head_text(mode, freq, id_res, header));
        }
        return None;
    }
    let d = describe(j);
    let mut ch = String::new();
    ch.append("chip: ");
    ch.append(d.as_str());
    let mut cm = String::new();
    cm.append("chip=");
    cm.append(d.as_str());
    ui.line(ch.as_str(), cm.as_str());
    let ghost after_chip = ui.spec_out();
    let stuck = id.manufacturer == id.mem_type && id.mem_type == id.capacity_code;
    if stuck {
        let mut w = String::new();
        w.append("WARNING: all three JEDEC bytes are 0x");
        push_hex(&mut w, id.manufacturer as usize, 2);
        w.append(" — MISO may be stuck or power/wiring is wrong.");
        ui.line(w.as_str(), "warn=miso");
    }
    let ghost after_warn = ui.spec_out();
    match &header {
        Ok(hd) => {
            if SfdpHeader::parse(hd.as_slice()).is_some() {
                ui.line("SFDP: present", "sfdp=present");
            } else {
                ui.line("SFDP: absent (will use the fallback table)", "sfdp=absent");
            }
        },
        Err(e) => {
            let mut t = String::new();
            t.append("SFDP: read failed (");
            let em = e.message();
            t.append(em.as_str());
            t.append(")");
            ui.line(t.as_str(), "sfdp=error");
        },
    }
    proof {
        assert(ui.spec_out() == after_warn + sfdp_line(mode, header));
        assert(ui.spec_out() =~= start + doctor_head_text(mode, freq, id_res, header));
    }
    Some((id, stuck))
}

/// What one clock step of the check-up came to.
pub enum ProbeOutcome {
    /// The bridge could not be opened at this clock; carries the reason.
    ConnectFailed(String),
    /// The bus could not be acquired.
    AcquireFailed,
    /// The id read at this clock, or the fault.
    Read(Result<FlashId, FlashError>),
}

/// The line one clock step prints and whether the step agrees with the id
/// read first.
pub open spec fn probe_text(freq: u32, expected: Seq<u8>, o: ProbeOutcome) -> (Seq<char>, Seq<char>, bool) {
    let hz = "  "@ + dec_digits(freq as nat) + " Hz: "@;
    let tag = dec_digits(freq as nat) + "="@;
    match o {
        ProbeOutcome::ConnectFailed(m) => (hz + "connect failed ("@ + m@ + ")"@, tag + "connect-fail"@, false),
        ProbeOutcome::AcquireFailed => (hz + "bus acquire failed"@, tag + "acquire-fail"@, false),
        ProbeOutcome::Read(Ok(fid)) => if fid.spec_jedec() == expected {
            (hz + jedec_spaced_text(fid.spec_jedec()) + " OK"@, tag + "ok"@, true)
        } else {
            (hz + jedec_spaced_text(fid.spec_jedec()) + " MISMATCH"@, tag + "mismatch"@, false)
        },
        ProbeOutcome::Read(Err(e)) => (hz + "read failed ("@ + flash_error_text(e) + ")"@, tag + "error"@, false),
    }
}

/// Agreement law: a clock step agrees with the first read exactly when it
/// read an id whose three bytes all equal the expected ones; a failure to
/// connect, to acquire the bus or to read never agrees. The machine token
/// is "<freq>=ok" exactly when the step agrees, "<freq>=mismatch" for a
/// different id.
pub proof fn lemma_probe_agreement(freq: u32, expected: Seq<u8>, o: ProbeOutcome)
    requires
        expected.len() == 3,
    ensures
        probe_text(freq, expected, o).2 <==> (o matches ProbeOutcome::Read(Ok(fid))
            && fid.manufacturer == expected[0] && fid.mem_type == expected[1] && fid.capacity_code
            == expected[2]),
        probe_text(freq, expected, o).1 == dec_digits(freq as nat) + "="@ + (if probe_text(
            freq,
            expected,
            o,
        ).2 {
            "ok"@
        } else {
            match o {
                ProbeOutcome::Read(Ok(_)) => "mismatch"@,
                ProbeOutcome::Read(Err(_)) => "error"@,
                ProbeOutcome::AcquireFailed => "acquire-fail"@,
                ProbeOutcome::ConnectFailed(_) => "connect-fail"@,
            }
        }),
{
    if let ProbeOutcome::Read(Ok(fid)) = o {
        if fid.manufacturer == expected[0] && fid.mem_type == expected[1] && fid.capacity_code
            == expected[2] {
            assert(fid.spec_jedec() =~= expected);
        } else if fid.spec_jedec() == expected {
            assert(fid.spec_jedec()[0] == fid.manufacturer);
            assert(fid.spec_jedec()[1] == fid.mem_type);
            assert(fid.spec_jedec()[2] == fid.capacity_code);
        }
    }
}

/// One clock step of the check-up: says how it went and whether the id
/// read there matches `expected`.
pub fn doctor_probe(ui: &mut Ui, freq: u32, expected: [u8; 3], outcome: ProbeOutcome) -> (ok: bool)
    ensures
        final(ui).spec_mode() == old(ui).spec_mode(),
        final(ui).spec_err() == old(ui).spec_err(),
        final(ui).spec_out() == old(ui).spec_out() + shown(
            old(ui).spec_mode(),
            probe_text(freq, expected@, outcome).0,
            probe_text(freq, expected@, outcome).1,
        ),
        ok == probe_text(freq, expected@, outcome).2,
        outcome matches ProbeOutcome::Read(Ok(fid)) ==> (ok <==> (fid.manufacturer == expected[0]
            && fid.mem_type == expected[1] && fid.capacity_code == expected[2])),
        !(outcome matches ProbeOutcome::Read(Ok(_))) ==> !ok,
{
    proof {
        lemma_probe_agreement(freq, expected@, outcome);
    }
    let mut h = String::new();
    h.append("  ");
    push_dec(&mut h, freq as usize);
    h.append(" Hz: ");
    let mut m = String::new();
    push_dec(&mut m, freq as usize);
    m.append("=");
    let ok = match &outcome {
        ProbeOutcome::ConnectFailed(why) => {
            h.append("connect failed (");
            h.append(why.as_str());
            h.append(")");
            m.append("connect-fail");
            false
        },
        ProbeOutcome::AcquireFailed => {
            h.append("bus acquire failed");
            m.append("acquire-fail");
            false
        },
        ProbeOutcome::Read(Ok(fid)) => {
            let fj = fid.jedec();
            let sp = jedec_spaced(fj);
            h.append(sp.as_str());
            let same = fj[0] == expected[0] && fj[1] == expected[1] && fj[2] == expected[2];
            proof {
                assert(same == (fj@ == expected@)) by {
                    if same {
                        assert(fj@ =~= expected@);
                    }
                }
            }
            if same {
                h.append(" OK");
                m.append("ok");
            } else {
                h.append(" MISMATCH");
                m.append("mismatch");
            }
            same
        },
        ProbeOutcome::Read(Err(e)) => {
            h.append("read failed (");
            let em = e.message();
            h.append(em.as_str());
            h.append(")");
            m.append("error");
            false
        },
    };
    proof {
        assert(h@ =~= probe_text(freq, expected@, outcome).0);
        assert(m@ =~= probe_text(freq, expected@, outcome).1);
    }
    ui.line(h.as_str(), m.as_str());
    ok
}

/// How the check-up ends: "Nothing unusual." ("OK") when every clock
/// step agreed and no warning was given, else a hint to check the wiring
/// ("WARN").
pub fn doctor_verdict(ui: &mut Ui, stable: bool, warned: bool)
    ensures
        final(ui).spec_mode() == old(ui).spec_mode(),
        final(ui).spec_err() == old(ui).spec_err(),
        final(ui).spec_out() == old(ui).spec_out() + (if stable && !warned {
            shown(old(ui).spec_mode(), "Nothing unusual."@, "OK"@)
        } else {
            shown(
                old(ui).spec_mode(),
                "Something is off. Check the wiring (CS/MISO/GND/power) and, if another bus master shares the SPI, pass --reset."@,
                "WARN"@,
            )
        }),
{
    if stable && !warned {
        ui.line(voice::nothing_unusual(), "OK");
    } else {
        ui.line(voice::doctor_unstable(), "WARN");
    }
}


/// How many bytes the read-back check reads twice.
pub const READBACK_LEN: usize = 4096;

/// The refusal when two reads of the same region disagree.
pub open spec fn readback_mismatch_text() -> Seq<char> {
    "read-back inconsistent between two reads — signal integrity suspect"@
}

/// `test` without a sector: two reads of the same region must agree.
pub fn readback_check(first: &[u8], second: &[u8]) -> (r: Result<(), NorbertError>)
    ensures
        first@ == second@ ==> r is Ok,
        first@ != second@ ==> (r matches Err(e) && e matches NorbertError::Other(m) && m@
            == readback_mismatch_text()),
{
    let mut same = first.len() == second.len();
    let mut i: usize = 0;
    while same && i < first.len()
        invariant
            0 <= i <= first@.len(),
            same ==> first@.len() == second@.len(),
            same ==> first@.take(i as int) == second@.take(i as int),
            !same ==> first@ != second@,
        decreases (first@.len() - i) * 2 + (if same {
            1int
        } else {
            0int
        }),
    {
        if first[i] != second[i] {
            same = false;
        } else {
            proof {
                assert(first@.take(i + 1) =~= first@.take(i as int).push(first@[i as int]));
                assert(second@.take(i + 1) =~= second@.take(i as int).push(second@[i as int]));
            }
            i = i + 1;
        }
    }
    if same {
        proof {
            assert(first@ =~= first@.take(i as int));
            assert(second@ =~= second@.take(i as int));
        }
        Ok(())
    } else {
        Err(NorbertError::other("read-back inconsistent between two reads — signal integrity suspect"))
    }
}

/// Where the sector self-test works, or why it refuses: nothing without a
/// detected profile, nothing on a protected chip, and nothing past the
/// known capacity. Sectors are the profile's smallest erase granularity.
pub fn plan_sector_test(f: &Flasher, protected: bool, n: usize) -> (r: Result<
    (usize, usize),
    NorbertError,
>)
    ensures
        f.spec_profile() is None ==> (r matches Err(e) && e is NotDetected),
        (f.spec_profile() is Some && protected) ==> (r matches Err(e) && e is Protected),
        f.spec_profile() matches Some(p) ==> (!protected ==> match sector_base_result(
            n,
            p.spec_min_erase(),
            p.capacity,
        ) {
            Ok(b) => (r matches Ok((base, sec)) && base == b && sec == p.spec_min_erase()),
            Err(t) => (r matches Err(e) && e matches NorbertError::Other(m) && m@ == t),
        }),
{
    let p = match f.profile() {
        Some(p) => p,
        None => return Err(NorbertError::NotDetected),
    };
    if protected {
        return Err(NorbertError::Protected);
    }
    let sec = p.min_erase();
    let base = sector_base(n, sec, p.capacity)?;
    Ok((base, sec))
}

/// One pass of the sector self-test over `data`: erase the sector, program
/// `data` into it, verify it.
pub open spec fn sector_pass_steps(
    f: Flasher,
    base: usize,
    sec: usize,
    data: Seq<u8>,
) -> Seq<crate::flash::StepSpec> {
    let p = f.spec_profile().unwrap();
    erase_steps(spec_plan_erase(p.erase@, base as int, sec as int), p.address_width)
        + program_steps_from(
        base as int,
        data,
        0,
        p.page_size as int,
        p.address_width,
        f.spec_max_chunk() as nat,
        false,
    ) + verify_steps_from(base as int, data, 0, p.address_width, f.spec_max_chunk() as nat, false)
}

/// One pass of the sector self-test: erase the sector at `base`, program
/// `data`, verify it. The test runs it with the pattern, then always again
/// with the saved contents.
pub fn sector_pass(f: &Flasher, base: usize, sec: usize, data: &[u8]) -> (r: Result<
    Script,
    NorbertError,
>)
    requires
        base + data@.len() <= usize::MAX,
        f.spec_profile() matches Some(p) ==> p.page_size > 0 && erase_plannable(p, base, sec),
    ensures
        f.spec_profile() is None ==> (r matches Err(e) && e is NotDetected),
        f.spec_profile() is Some ==> (r matches Ok(s) && s@ == sector_pass_steps(*f, base, sec, data@)),
{
    let mut s = match f.erase_range(base, sec) {
        Ok(s) => s,
        Err(e) => return Err(NorbertError::from_flash(e)),
    };
    match f.program(base, data) {
        Ok(pr) => s.extend(pr),
        Err(e) => return Err(NorbertError::from_flash(e)),
    }
    match f.verify(base, data) {
        Ok(v) => s.extend(v),
        Err(e) => return Err(NorbertError::from_flash(e)),
    }
    proof {
        assert(s@ =~= sector_pass_steps(*f, base, sec, data@));
    }
    Ok(s)
}

/// The refusal when the pattern passed but the original could not be put
/// back.
pub open spec fn restore_failed_text(e: NorbertError) -> Seq<char> {
    "sector test passed but restoring the original contents failed: "@ + norbert_error_text(e)
}

/// The sector self-test's verdict from its two passes: the pattern pass's
/// failure first; else a failed restore, said as such; else success.
pub fn sector_test_outcome(test: Result<(), NorbertError>, restore: Result<(), NorbertError>) -> (r:
    Result<(), NorbertError>)
    ensures
        test is Err ==> r == test,
        (test is Ok && restore is Err) ==> (r matches Err(x) && x matches NorbertError::Other(m)
            && m@ == restore_failed_text(restore->Err_0)),
        test is Ok && restore is Ok ==> r is Ok,
{
    match test {
        Err(e) => Err(e),
        Ok(()) => match restore {
            Ok(()) => Ok(()),
            Err(e) => {
                let mut m = String::new();
                m.append("sector test passed but restoring the original contents failed: ");
                let em = e.message();
                m.append(em.as_str());
                Err(NorbertError::Other(m))
            },
        },
    }
}


/// Where the sector self-test stands.
#[derive(Debug, Clone, Copy, PartialEq, Eq, Structural)]
pub enum SectorStage {
    /// The pattern pass has been handed out; its outcome is awaited.
    Pattern,
    /// The restore pass has been handed out; its outcome is awaited.
    Restore,
    /// The verdict has been given.
    Finished,
}

/// The sector self-test: the pattern pass, then the restore pass of the
/// saved contents, which follows whatever the pattern pass came to.
pub struct SectorTest {
    stage: SectorStage,
    restore: Option<Script>,
    test: Option<Result<(), NorbertError>>,
}

/// What the self-test does next.
pub enum SectorAction {
    /// Run this pass and hand its outcome to `SectorTest::resume`.
    Run(Script),
    /// The test is over with this verdict.
    Done(Result<(), NorbertError>),
}

impl SectorTest {
    #[verifier::type_invariant]
    spec fn inv(self) -> bool {
        &&& self.stage == SectorStage::Pattern ==> self.restore is Some && self.test is None
        &&& self.stage == SectorStage::Restore ==> self.test is Some
    }

    pub closed spec fn spec_stage(&self) -> SectorStage {
        self.stage
    }

    /// The restore pass still to be handed out.
    pub closed spec fn spec_restore(&self) -> Seq<crate::flash::StepSpec> {
        match self.restore {
            Some(s) => s@,
            None => Seq::empty(),
        }
    }

    /// The pattern pass's outcome, once it is known.
    pub closed spec fn spec_test(&self) -> Option<Result<(), NorbertError>> {
        self.test
    }

    /// Start the self-test on the sector at `base`: the pattern pass to run
    /// first, and the test that holds the restore pass of `backup`.
    pub fn start(f: &Flasher, base: usize, sec: usize, pattern: &[u8], backup: &[u8]) -> (r: Result<
        (SectorTest, Script),
        NorbertError,
    >)
        requires
            base + pattern@.len() <= usize::MAX,
            base + backup@.len() <= usize::MAX,
            f.spec_profile() matches Some(p) ==> p.page_size > 0 && erase_plannable(p, base, sec),
        ensures
            f.spec_profile() is None ==> (r matches Err(e) && e is NotDetected),
            f.spec_profile() is Some ==> (r matches Ok((t, s)) && s@ == sector_pass_steps(
                *f,
                base,
                sec,
                pattern@,
            ) && t.spec_stage() == SectorStage::Pattern && t.spec_restore() == sector_pass_steps(
                *f,
                base,
                sec,
                backup@,
            )),
    {
        let first = sector_pass(f, base, sec, pattern)?;
        let restore = sector_pass(f, base, sec, backup)?;
        Ok((SectorTest { stage: SectorStage::Pattern, restore: Some(restore), test: None }, first))
    }

    /// Take the outcome of the pass last handed out and decide: after the
    /// pattern pass, always the restore pass; after the restore pass, the
    /// verdict (`sector_test_outcome` of the two outcomes).
    pub fn resume(&mut self, outcome: Result<(), NorbertError>) -> (a: SectorAction)
        requires
            old(self).spec_stage() != SectorStage::Finished,
        ensures
            old(self).spec_stage() == SectorStage::Pattern ==> (a matches SectorAction::Run(s) && s@
                == old(self).spec_restore() && final(self).spec_stage() == SectorStage::Restore
                && final(self).spec_test() == Some(outcome)),
            old(self).spec_stage() == SectorStage::Restore ==> final(self).spec_stage()
                == SectorStage::Finished && (a matches SectorAction::Done(r) && {
                let t = old(self).spec_test().unwrap();
                &&& t is Err ==> r == t
                &&& (t is Ok && outcome is Err) ==> (r matches Err(x) && x matches NorbertError::Other(
                    m,
                ) && m@ == restore_failed_text(outcome->Err_0))
                &&& (t is Ok && outcome is Ok) ==> r is Ok
            }),
    {
        let mut prev = SectorTest { stage: SectorStage::Finished, restore: None, test: None };
        std::mem::swap(self, &mut prev);
        proof {
            use_type_invariant(&prev);
        }
        let SectorTest { stage, restore, test } = prev;
        match stage {
            SectorStage::Pattern => {
                let s = match restore {
                    Some(s) => s,
                    None => {
                        // the invariant keeps the restore pass until it is handed out
                        assert(false);
                        Script::new()
                    },
                };
                *self = SectorTest { stage: SectorStage::Restore, restore: None, test: Some(outcome) };
                SectorAction::Run(s)
            },
            _ => {
                let t = match test {
                    Some(t) => t,
                    None => {
                        // the invariant keeps the pattern outcome once it is known
                        assert(false);
                        Ok(())
                    },
                };
                SectorAction::Done(sector_test_outcome(t, outcome))
            },
        }
    }
}

/// `test`, once it succeeded: "Nothing unusual." for humans, "OK" for
/// scripts.
pub fn test_report(ui: &mut Ui)
    ensures
        final(ui).spec_mode() == old(ui).spec_mode(),
        final(ui).spec_err() == old(ui).spec_err(),
        final(ui).spec_out() == old(ui).spec_out() + shown(
            old(ui).spec_mode(),
            "Nothing unusual."@,
            "OK"@,
        ),
{
    ui.line(voice::nothing_unusual(), "OK");
}

} // verus!
