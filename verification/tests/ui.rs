use norbert::cli::choose_mode;
use norbert::error::NorbertError;
use norbert::ui::{Mode, ProgressPlan, Row, Ui};
use norbert::voice;

#[test]
fn say_dropped_in_machine_but_shown_in_human() {
    let mut ui = Ui::captured(Mode::Machine);
    ui.say("Hmm.");
    assert_eq!(ui.out().contents(), "");
    let mut ui = Ui::captured(Mode::Human);
    ui.say("Hmm.");
    assert_eq!(ui.out().contents(), "Hmm.\n");
}

#[test]
fn line_picks_the_right_channel() {
    let mut ui = Ui::captured(Mode::Machine);
    ui.line("Found it.", "EF4018");
    assert_eq!(ui.out().contents(), "EF4018\n");
    let mut ui = Ui::captured(Mode::Human);
    ui.line("Found it.", "EF4018");
    assert_eq!(ui.out().contents(), "Found it.\n");
}

#[test]
fn rows_align_in_human_and_kv_in_machine() {
    let rows = [
        Row::split("capacity", "capacity", "16384 KiB", "16777216"),
        Row::split("page", "page", "256 B", "256"),
    ];
    let mut ui = Ui::captured(Mode::Machine);
    ui.rows(&rows);
    assert_eq!(ui.out().contents(), "capacity=16777216\npage=256\n");
    let mut ui = Ui::captured(Mode::Human);
    ui.rows(&rows);
    assert_eq!(ui.out().contents(), "capacity: 16384 KiB\npage:     256 B\n");
}

#[test]
fn fail_is_voice_in_human_and_token_in_machine() {
    let mut ui = Ui::captured(Mode::Machine);
    let _ = ui.fail(&NorbertError::Protected);
    assert_eq!(ui.err().contents(), "FAIL: protected\n");
    let mut ui = Ui::captured(Mode::Human);
    let _ = ui.fail(&NorbertError::Protected);
    assert_eq!(ui.err().contents(), format!("{}\n", voice::protected()));
}

#[test]
fn fail_cancelled_yields_exit_130() {
    let mut ui = Ui::captured(Mode::Machine);
    assert_eq!(ui.fail(&NorbertError::Cancelled), 130);
    let mut ui = Ui::captured(Mode::Machine);
    assert_eq!(ui.fail(&NorbertError::Protected), 1);
}

#[test]
fn hexdump_wraps_at_16_and_addresses_from_base() {
    let mut ui = Ui::captured(Mode::Human);
    let bytes: Vec<u8> = (0..20).collect();
    ui.hexdump(0x100, &bytes);
    assert_eq!(
        ui.out().contents(),
        "  0100: 00 01 02 03 04 05 06 07 08 09 0A 0B 0C 0D 0E 0F\n\
         \x20 0110: 10 11 12 13\n",
    );
}

#[test]
fn inert_in_machine_mode() {
    let plan = ProgressPlan {
        erase_blocks: Some(3),
        program_bytes: Some(100),
        verify_bytes: None,
    };
    let ui = Ui::captured(Mode::Machine);
    assert_eq!(
        ui.progress(plan),
        ProgressPlan {
            erase_blocks: None,
            program_bytes: None,
            verify_bytes: None
        }
    );
    let ui = Ui::captured(Mode::Human);
    assert_eq!(ui.progress(plan), plan);
}

#[test]
fn fail_words_each_error_for_both_audiences() {
    let cases: Vec<(NorbertError, &str, String)> = vec![
        (NorbertError::NoFlash, "FAIL: no chip", voice::no_flash().to_string()),
        (
            NorbertError::Unsupported([0xAB, 0xCD, 0xEF]),
            "FAIL: unsupported AB CD EF",
            voice::unsupported([0xAB, 0xCD, 0xEF]),
        ),
        (
            NorbertError::VerifyMismatch { addr: 0x1234 },
            "FAIL: verify @0x001234",
            voice::verify_fail(0x1234),
        ),
        (NorbertError::Timeout, "FAIL: timeout", voice::timeout().to_string()),
        (NorbertError::NotDetected, "FAIL: not detected", voice::not_detected().to_string()),
        (NorbertError::Other("disk full".to_string()), "FAIL: disk full", "disk full".to_string()),
    ];
    for (e, machine, human) in cases {
        let mut ui = Ui::captured(Mode::Machine);
        assert_eq!(ui.fail(&e), 1);
        assert_eq!(ui.err().contents(), format!("{machine}\n"));
        assert_eq!(ui.out().contents(), "");
        let mut ui = Ui::captured(Mode::Human);
        ui.fail(&e);
        assert_eq!(ui.err().contents(), format!("{human}\n"));
    }
}

#[test]
fn take_output_hands_over_and_empties_both_channels() {
    let mut ui = Ui::captured(Mode::Human);
    ui.say("one");
    ui.fail(&NorbertError::Timeout);
    let (out, err) = ui.take_output();
    assert_eq!(out, "one\n");
    assert_eq!(err, format!("{}\n", voice::timeout()));
    assert_eq!(ui.out().contents(), "");
    assert_eq!(ui.err().contents(), "");
}

#[test]
fn quiet_or_a_pipe_means_machine_mode() {
    assert_eq!(choose_mode(false, true), Mode::Human);
    assert_eq!(choose_mode(true, true), Mode::Machine);
    assert_eq!(choose_mode(false, false), Mode::Machine);
    assert!(Ui::from_parts(Mode::Human).is_human());
    assert_eq!(Ui::from_parts(Mode::Machine).mode(), Mode::Machine);
}

#[test]
fn hexdump_reaches_the_top_of_the_address_space() {
    let mut ui = Ui::captured(Mode::Machine);
    ui.hexdump(usize::MAX, &[0xAB]);
    assert_eq!(ui.out().contents(), format!("  {:04X}: AB\n", usize::MAX));
}
