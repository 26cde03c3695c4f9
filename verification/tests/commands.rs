use norbert::commands::{
    detect_report, erase_length, human_bytes, info_report, info_rows, jedec_compact,
    jedec_report, jedec_spaced, list, plan_program, read_report, sector_base, sfdp_dump_size,
    sfdp_report, test_pattern,
};
use norbert::diagnose::{
    doctor_head, doctor_probe, doctor_verdict, probe_freqs, readback_check, sector_test_outcome,
    ProbeOutcome,
};
use norbert::catalog::lookup_fallback;
use norbert::error::NorbertError;
use norbert::flash::{FlashError, FlashId, Flasher};
use norbert::ui::{Mode, Ui};
use norbert::voice;

fn m25p16() -> FlashId {
    FlashId { manufacturer: 0x20, mem_type: 0x20, capacity_code: 0x15 }
}

#[test]
fn list_frames_in_human_and_is_bare_in_machine() {
    let mut ui = Ui::captured(Mode::Machine);
    list(&mut ui);
    let m = ui.out().contents();
    assert!(m.contains("20 20 15  Micron M25P16\n"), "got:\n{m}");
    assert!(!m.contains(voice::list_opener()));
    assert!(!m.contains(voice::list_note()));

    let mut ui = Ui::captured(Mode::Human);
    list(&mut ui);
    let h = ui.out().contents();
    assert!(h.starts_with(voice::list_opener()));
    assert!(h.contains("20 20 15  Micron M25P16\n"));
    assert!(h.trim_end().ends_with(voice::list_note()));
}

#[test]
fn human_bytes_uses_kib_only_when_exact() {
    assert_eq!(human_bytes(512 * 1024), "512 KiB");
    assert_eq!(human_bytes(600), "600 B");
    assert_eq!(human_bytes(1025), "1025 B");
    assert_eq!(human_bytes(0), "0 B");
}

#[test]
fn jedec_forms() {
    assert_eq!(jedec_spaced([0xEF, 0x40, 0x18]), "EF 40 18");
    assert_eq!(jedec_compact([0xEF, 0x40, 0x18]), "EF4018");
}

#[test]
fn jedec_is_terse_in_both_modes() {
    let mut ui = Ui::captured(Mode::Human);
    jedec_report(&mut ui, &m25p16());
    assert_eq!(ui.out().contents(), "20 20 15\n");
    let mut ui = Ui::captured(Mode::Machine);
    jedec_report(&mut ui, &m25p16());
    assert_eq!(ui.out().contents(), "202015\n");
}

#[test]
fn detect_names_the_part_or_gives_up_quietly() {
    let p = lookup_fallback([0x20, 0x20, 0x15]).unwrap();
    let mut ui = Ui::captured(Mode::Human);
    assert!(detect_report(&mut ui, &m25p16(), Ok(p)).is_ok());
    assert_eq!(ui.out().contents(), "Found Micron M25P16.\n");

    let mut ui = Ui::captured(Mode::Machine);
    let r = detect_report(&mut ui, &m25p16(), Err(FlashError::UnsupportedChip { jedec: [0x20, 0x20, 0x15] }));
    assert!(matches!(r, Err(NorbertError::Unsupported([0x20, 0x20, 0x15]))));
    assert_eq!(ui.out().contents(), "");
}

#[test]
fn info_rows_for_a_table_chip() {
    let p = lookup_fallback([0x20, 0x20, 0x15]).unwrap();
    let mut ui = Ui::captured(Mode::Machine);
    info_report(&mut ui, &m25p16(), Ok(p)).unwrap();
    assert_eq!(
        ui.out().contents(),
        "jedec=202015\nchip=Micron M25P16\nsource=table\npage=256\naddress=3-byte\n\
         capacity=2097152\nerase=65536:D8\n"
    );
}

#[test]
fn info_human_aligns_and_adds_a_note() {
    let p = lookup_fallback([0x20, 0x20, 0x15]).unwrap();
    let mut ui = Ui::captured(Mode::Human);
    info_report(&mut ui, &m25p16(), Ok(p)).unwrap();
    assert_eq!(
        ui.out().contents(),
        "JEDEC id: mfr=0x20 type=0x20 cap=0x15 (2048 KiB)\n\
         chip:     Micron M25P16\n\
         source:   table\n\
         page:     256 B\n\
         address:  3-byte\n\
         capacity: 2048 KiB\n\
         erase:    65536:D8\n\
         No SFDP on this one. I looked it up in my book.\n"
    );
}

#[test]
fn info_on_an_unknown_chip_is_a_note_not_a_failure() {
    let id = FlashId { manufacturer: 0xAB, mem_type: 0xCD, capacity_code: 0xEF };
    let mut ui = Ui::captured(Mode::Machine);
    let r = info_report(&mut ui, &id, Err(FlashError::UnsupportedChip { jedec: [0xAB, 0xCD, 0xEF] }));
    assert!(r.is_ok());
    assert_eq!(ui.out().contents(), "jedec=ABCDEF\nchip=unknown flash (AB CD EF)\n");
    assert_eq!(info_rows(&id, None).len(), 2);
}

#[test]
fn info_without_a_chip_fails() {
    let id = FlashId { manufacturer: 0xFF, mem_type: 0xFF, capacity_code: 0xFF };
    let mut ui = Ui::captured(Mode::Machine);
    let r = info_report(&mut ui, &id, Err(FlashError::NoFlash));
    assert!(matches!(r, Err(NorbertError::NoFlash)));
    assert_eq!(ui.out().contents(), "");
    let r = info_report(&mut ui, &m25p16(), Err(FlashError::Timeout));
    assert!(matches!(r, Err(NorbertError::Timeout)));
}

#[test]
fn sfdp_dump_only_when_the_signature_is_there() {
    assert_eq!(sfdp_dump_size(&[0x53, 0x46, 0x44, 0x50, 0x06, 0x01, 0x00, 0xFF]), Some(256));
    assert_eq!(sfdp_dump_size(&[0xFF; 8]), None);
    let mut ui = Ui::captured(Mode::Machine);
    sfdp_report(&mut ui, None);
    assert_eq!(ui.out().contents(), "sfdp=absent\n");
    let mut ui = Ui::captured(Mode::Machine);
    sfdp_report(&mut ui, Some(&[0x53, 0x46]));
    assert_eq!(ui.out().contents(), "  0000: 53 46\n");
}

#[test]
fn read_report_gives_the_count_to_scripts() {
    let mut ui = Ui::captured(Mode::Machine);
    read_report(&mut ui, 4096, "dump.bin");
    assert_eq!(ui.out().contents(), "4096\n");
    let mut ui = Ui::captured(Mode::Human);
    read_report(&mut ui, 4096, "dump.bin");
    assert_eq!(ui.out().contents(), "Read 4096 bytes into dump.bin.\n");
}

#[test]
fn erase_needs_a_length_or_the_chip() {
    assert!(matches!(erase_length(None, true), Ok(None)));
    assert!(matches!(erase_length(Some(10), false), Ok(Some(10))));
    match erase_length(None, false) {
        Err(NorbertError::Other(m)) => assert_eq!(m, "erase needs --length N or --chip"),
        other => panic!("expected the usage error, got {other:?}"),
    }
}

#[test]
fn plan_program_refusals() {
    let image = vec![0u8; 16];
    let f = Flasher::new();
    assert!(matches!(plan_program(&f, false, 0, &image, false, false, false), Err(NorbertError::NotDetected)));

    let mut f = Flasher::new();
    f.set_profile(lookup_fallback([0x20, 0x20, 0x15]).unwrap());
    assert!(matches!(plan_program(&f, true, 0, &image, false, false, false), Err(NorbertError::Protected)));
    let (s, blocks) = plan_program(&f, true, 0, &image, false, false, true).unwrap();
    assert_eq!(blocks, 1);
    assert!(!s.steps.is_empty());
    let big = vec![0u8; 2 * 1024 * 1024];
    match plan_program(&f, false, 1, &big, false, false, false) {
        Err(NorbertError::Other(m)) => {
            assert_eq!(m, "image needs 2097153 bytes but flash is 2097152 bytes")
        }
        other => panic!("expected too-large, got {other:?}"),
    }
}

#[test]
fn sector_bounds() {
    assert_eq!(sector_base(3, 65536, Some(2 * 1024 * 1024)).unwrap(), 3 * 65536);
    match sector_base(32, 65536, Some(2 * 1024 * 1024)) {
        Err(NorbertError::Other(m)) => assert_eq!(
            m,
            "sector 32 is out of range (chip holds 32 sectors of 65536 bytes)"
        ),
        other => panic!("expected out of range, got {other:?}"),
    }
    assert_eq!(sector_base(usize::MAX, 2, None).unwrap(), usize::MAX);
}

#[test]
fn pattern_is_index_xor_a5() {
    let p = test_pattern(300);
    assert_eq!(p.len(), 300);
    assert_eq!(p[0], 0xA5);
    assert_eq!(p[1], 0xA4);
    assert_eq!(p[256], 0xA5);
    assert_eq!(p[255], 0xFF ^ 0xA5);
}

#[test]
fn readback_check_compares_both_reads() {
    assert!(readback_check(&[1, 2, 3], &[1, 2, 3]).is_ok());
    match readback_check(&[1, 2, 3], &[1, 2, 4]) {
        Err(NorbertError::Other(m)) => {
            assert_eq!(m, "read-back inconsistent between two reads — signal integrity suspect")
        }
        other => panic!("expected inconsistency, got {other:?}"),
    }
}

#[test]
fn sector_outcome_puts_the_test_failure_first() {
    assert!(sector_test_outcome(Ok(()), Ok(())).is_ok());
    assert!(matches!(
        sector_test_outcome(Err(NorbertError::VerifyMismatch { addr: 7 }), Err(NorbertError::Timeout)),
        Err(NorbertError::VerifyMismatch { addr: 7 })
    ));
    match sector_test_outcome(Ok(()), Err(NorbertError::Timeout)) {
        Err(NorbertError::Other(m)) => assert_eq!(
            m,
            "sector test passed but restoring the original contents failed: timed out waiting for the flash"
        ),
        other => panic!("expected restore failure, got {other:?}"),
    }
}

#[test]
fn doctor_reports_a_healthy_chip() {
    let mut ui = Ui::captured(Mode::Machine);
    let head = doctor_head(&mut ui, 10_000_000, Ok(m25p16()), Ok(vec![0xFF; 8]));
    assert_eq!(head, Some((m25p16(), false)));
    let mut stable = true;
    for f in probe_freqs() {
        stable &= doctor_probe(&mut ui, f, [0x20, 0x20, 0x15], ProbeOutcome::Read(Ok(m25p16())));
    }
    doctor_verdict(&mut ui, stable, false);
    assert_eq!(
        ui.out().contents(),
        "rdid=202015\nchip=Micron M25P16\nsfdp=absent\n1000000=ok\n5000000=ok\n10000000=ok\nOK\n"
    );
}

#[test]
fn doctor_warns_on_a_stuck_bus_and_unstable_clocks() {
    let stuck = FlashId { manufacturer: 0x5A, mem_type: 0x5A, capacity_code: 0x5A };
    let mut ui = Ui::captured(Mode::Human);
    let head = doctor_head(&mut ui, 1_000_000, Ok(stuck), Err(FlashError::Timeout));
    assert_eq!(head, Some((stuck, true)));
    let ok = doctor_probe(&mut ui, 5_000_000, [0x5A, 0x5A, 0x5A], ProbeOutcome::AcquireFailed);
    assert!(!ok);
    let ok = doctor_probe(
        &mut ui,
        10_000_000,
        [0x5A, 0x5A, 0x5A],
        ProbeOutcome::Read(Ok(m25p16())),
    );
    assert!(!ok);
    doctor_verdict(&mut ui, false, true);
    let out = ui.out().contents();
    assert!(out.starts_with("RDID @ 1000000 Hz: 5A 5A 5A\nchip: unknown flash (5A 5A 5A)\n"));
    assert!(out.contains(
        "WARNING: all three JEDEC bytes are 0x5A — MISO may be stuck or power/wiring is wrong.\n"
    ));
    assert!(out.contains("SFDP: read failed (timed out waiting for flash WIP to clear)\n"));
    assert!(out.contains("  5000000 Hz: bus acquire failed\n"));
    assert!(out.contains("  10000000 Hz: 20 20 15 MISMATCH\n"));
    assert!(out.ends_with(&format!("{}\n", voice::doctor_unstable())));
}

#[test]
fn doctor_stops_without_an_id_or_a_chip() {
    let mut ui = Ui::captured(Mode::Machine);
    assert_eq!(doctor_head(&mut ui, 1, Err(FlashError::Spi("usb".to_string())), Ok(vec![])), None);
    assert_eq!(ui.out().contents(), "rdid=fail\nFAIL: rdid\n");
    let mut ui = Ui::captured(Mode::Machine);
    let none = FlashId { manufacturer: 0xFF, mem_type: 0xFF, capacity_code: 0xFF };
    assert_eq!(doctor_head(&mut ui, 1, Ok(none), Ok(vec![])), None);
    assert_eq!(ui.out().contents(), "rdid=FFFFFF\nFAIL: no chip\n");
    let mut ui = Ui::captured(Mode::Machine);
    let ok = doctor_probe(&mut ui, 1, [1, 2, 3], ProbeOutcome::ConnectFailed("no device".to_string()));
    assert!(!ok);
    assert_eq!(ui.out().contents(), "1=connect-fail\n");
}
