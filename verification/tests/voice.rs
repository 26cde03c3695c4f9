use norbert::voice::{
    cancelled, detect_opener, doctor_intro, doctor_rdid_fail, doctor_unstable, erased, found,
    info_opener, info_sfdp_note, list_note, list_opener, no_flash, no_sfdp, not_detected,
    nothing_unusual, program_summary, programmed, programming, programming_intro, protect_done,
    protected, read_done, reset_done, sfdp_opener, timeout, unprotect_done, unsupported,
    verify_fail, verify_ok, version,
};

#[test]
fn norbert_never_shouts() {
    let lines = [
        found("Winbond W25Q128JV"),
        no_flash().to_string(),
        programming().to_string(),
        programmed().to_string(),
        verify_ok().to_string(),
        verify_fail(0x3A1280),
        erased().to_string(),
        protected().to_string(),
        unsupported([0xAB, 0xCD, 0xEF]),
        reset_done().to_string(),
        version(),
    ];
    for line in lines {
        assert!(!line.contains('!'), "Norbert used an exclamation point: {line:?}");
    }
}

#[test]
fn failures_carry_the_fact() {
    assert!(verify_fail(0x3A1280).contains("0x3A1280"));
}

#[test]
fn the_newer_lines_never_shout_either() {
    let lines = [
        detect_opener().to_string(),
        protect_done().to_string(),
        unprotect_done().to_string(),
        nothing_unusual().to_string(),
        info_opener().to_string(),
        sfdp_opener().to_string(),
        no_sfdp().to_string(),
        list_opener().to_string(),
        list_note().to_string(),
        doctor_intro().to_string(),
        doctor_rdid_fail().to_string(),
        doctor_unstable().to_string(),
        timeout().to_string(),
        not_detected().to_string(),
        cancelled().to_string(),
        info_sfdp_note(true).to_string(),
        info_sfdp_note(false).to_string(),
        read_done(4096, "dump.bin"),
        programming_intro("firmware.bin", "512 KiB", 0),
        program_summary(8, "512 KiB", 42),
    ];
    for line in lines {
        assert!(!line.contains('!'), "Norbert used an exclamation point: {line:?}");
    }
}

#[test]
fn exact_wording_of_the_formatted_lines() {
    assert_eq!(found("Micron M25P16"), "Found Micron M25P16.");
    assert_eq!(
        verify_fail(0x3A1280),
        "Interesting.\n\nByte mismatch at 0x3A1280.\n\nLet's not program that into production."
    );
    assert_eq!(
        unsupported([0xAB, 0xCD, 0xEF]),
        "I don't recognize this one.\n\nJEDEC [AB, CD, EF] — no SFDP, and it's not in my book yet."
    );
    assert_eq!(read_done(4096, "dump.bin"), "Read 4096 bytes into dump.bin.");
    assert!(version().starts_with("Norbert 0.1.0"));
}

#[test]
fn programming_lines_carry_name_size_offset_and_time() {
    assert_eq!(
        programming_intro("firmware.bin", "512 KiB", 0),
        "Programming firmware.bin — 512 KiB at 0x000000."
    );
    assert_eq!(
        program_summary(8, "512 KiB", 42),
        "Done. Have a nice boot.  (erased 8 blocks, wrote 512 KiB in 4.2s)"
    );
}
