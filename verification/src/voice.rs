//! Norbert's voice: the only module with personality.
//!
//! No exclamation points; dry, understated, mildly paternal; every failure
//! carries the technical fact. Pure string builders.

use vstd::prelude::*;

use crate::text::{
    dec_digits, hex_list3, hex_upper, lemma_no_bang_concat, lemma_numerals_no_bang, no_bang,
    push_dec, push_hex, push_hex_list3,
};

verus! {

/// The version this build reports.
pub const VERSION: &'static str = "0.1.0";

pub fn detect_opener() -> (s: &'static str)
    ensures
        s@ == "Hmm... let's see what we've got here."@,
        no_bang(s@),
{
    proof {
        reveal_strlit("Hmm... let's see what we've got here.");
    }
    "Hmm... let's see what we've got here."
}

pub fn no_flash() -> (s: &'static str)
    ensures
        s@ == "I don't see a flash chip.\n\nIs it plugged in?"@,
        no_bang(s@),
{
    proof {
        reveal_strlit("I don't see a flash chip.\n\nIs it plugged in?");
    }
    "I don't see a flash chip.\n\nIs it plugged in?"
}

pub fn programming() -> (s: &'static str)
    ensures
        s@ == "Programming..."@,
        no_bang(s@),
{
    proof {
        reveal_strlit("Programming...");
    }
    "Programming..."
}

pub fn programmed() -> (s: &'static str)
    ensures
        s@ == "Done. Have a nice boot."@,
        no_bang(s@),
{
    proof {
        reveal_strlit("Done. Have a nice boot.");
    }
    "Done. Have a nice boot."
}

pub fn verify_ok() -> (s: &'static str)
    ensures
        s@ == "Everything checks out."@,
        no_bang(s@),
{
    proof {
        reveal_strlit("Everything checks out.");
    }
    "Everything checks out."
}

pub fn erased() -> (s: &'static str)
    ensures
        s@ == "Erasing...\nDone.\n\nYou can never be too careful."@,
        no_bang(s@),
{
    proof {
        reveal_strlit("Erasing...\nDone.\n\nYou can never be too careful.");
    }
    "Erasing...\nDone.\n\nYou can never be too careful."
}

pub fn protected() -> (s: &'static str)
    ensures
        s@ == "Write protection is enabled.\n\nThat's not happening today."@,
        no_bang(s@),
{
    proof {
        reveal_strlit("Write protection is enabled.\n\nThat's not happening today.");
    }
    "Write protection is enabled.\n\nThat's not happening today."
}

pub fn protect_done() -> (s: &'static str)
    ensures
        s@ == "That should hold."@,
        no_bang(s@),
{
    proof {
        reveal_strlit("That should hold.");
    }
    "That should hold."
}

pub fn unprotect_done() -> (s: &'static str)
    ensures
        s@ == "There. Wide open."@,
        no_bang(s@),
{
    proof {
        reveal_strlit("There. Wide open.");
    }
    "There. Wide open."
}

pub fn reset_done() -> (s: &'static str)
    ensures
        s@ == "There. As if nothing happened."@,
        no_bang(s@),
{
    proof {
        reveal_strlit("There. As if nothing happened.");
    }
    "There. As if nothing happened."
}

pub fn nothing_unusual() -> (s: &'static str)
    ensures
        s@ == "Nothing unusual."@,
        no_bang(s@),
{
    proof {
        reveal_strlit("Nothing unusual.");
    }
    "Nothing unusual."
}

pub fn info_opener() -> (s: &'static str)
    ensures
        s@ == "Let me see what this one says about itself."@,
        no_bang(s@),
{
    proof {
        reveal_strlit("Let me see what this one says about itself.");
    }
    "Let me see what this one says about itself."
}

pub fn sfdp_opener() -> (s: &'static str)
    ensures
        s@ == "Here is what it keeps in its parameter tables."@,
        no_bang(s@),
{
    proof {
        reveal_strlit("Here is what it keeps in its parameter tables.");
    }
    "Here is what it keeps in its parameter tables."
}

pub fn no_sfdp() -> (s: &'static str)
    ensures
        s@ == "No SFDP here. This one doesn't keep notes."@,
        no_bang(s@),
{
    proof {
        reveal_strlit("No SFDP here. This one doesn't keep notes.");
    }
    "No SFDP here. This one doesn't keep notes."
}

pub fn list_opener() -> (s: &'static str)
    ensures
        s@ == "These are the chips I know without asking."@,
        no_bang(s@),
{
    proof {
        reveal_strlit("These are the chips I know without asking.");
    }
    "These are the chips I know without asking."
}

pub fn list_note() -> (s: &'static str)
    ensures
        s@ == "Anything else should describe itself via SFDP."@,
        no_bang(s@),
{
    proof {
        reveal_strlit("Anything else should describe itself via SFDP.");
    }
    "Anything else should describe itself via SFDP."
}

pub fn doctor_intro() -> (s: &'static str)
    ensures
        s@ == "Let's have a look at the wiring."@,
        no_bang(s@),
{
    proof {
        reveal_strlit("Let's have a look at the wiring.");
    }
    "Let's have a look at the wiring."
}

pub fn doctor_rdid_fail() -> (s: &'static str)
    ensures
        s@ == "I couldn't read an ID at all.\n\nCheck the USB connection and the bridge firmware."@,
        no_bang(s@),
{
    proof {
        reveal_strlit("I couldn't read an ID at all.\n\nCheck the USB connection and the bridge firmware.");
    }
    "I couldn't read an ID at all.\n\nCheck the USB connection and the bridge firmware."
}

pub fn doctor_unstable() -> (s: &'static str)
    ensures
        s@ == "Something is off. Check the wiring (CS/MISO/GND/power) and, if another bus master shares the SPI, pass --reset."@,
        no_bang(s@),
{
    proof {
        reveal_strlit("Something is off. Check the wiring (CS/MISO/GND/power) and, if another bus master shares the SPI, pass --reset.");
    }
    "Something is off. Check the wiring (CS/MISO/GND/power) and, if another bus master shares the SPI, pass --reset."
}

pub fn timeout() -> (s: &'static str)
    ensures
        s@ == "The flash stopped answering.\n\nIt may be busy, or gone."@,
        no_bang(s@),
{
    proof {
        reveal_strlit("The flash stopped answering.\n\nIt may be busy, or gone.");
    }
    "The flash stopped answering.\n\nIt may be busy, or gone."
}

pub fn not_detected() -> (s: &'static str)
    ensures
        s@ == "I don't know this flash's geometry yet.\n\nRun detect first."@,
        no_bang(s@),
{
    proof {
        reveal_strlit("I don't know this flash's geometry yet.\n\nRun detect first.");
    }
    "I don't know this flash's geometry yet.\n\nRun detect first."
}

pub fn cancelled() -> (s: &'static str)
    ensures
        s@ == "Stopped. The bus is released."@,
        no_bang(s@),
{
    proof {
        reveal_strlit("Stopped. The bus is released.");
    }
    "Stopped. The bus is released."
}

/// Whether the chip described itself, said after the profile.
pub fn info_sfdp_note(present: bool) -> (s: &'static str)
    ensures
        present ==> s@ == "It told me all that itself. I appreciate a chip that keeps notes."@,
        !present ==> s@ == "No SFDP on this one. I looked it up in my book."@,
        no_bang(s@),
{
    proof {
        reveal_strlit("It told me all that itself. I appreciate a chip that keeps notes.");
        reveal_strlit("No SFDP on this one. I looked it up in my book.");
    }
    if present {
        "It told me all that itself. I appreciate a chip that keeps notes."
    } else {
        "No SFDP on this one. I looked it up in my book."
    }
}

pub open spec fn found_text(name: Seq<char>) -> Seq<char> {
    "Found "@ + name + "."@
}

pub fn found(name: &str) -> (s: String)
    ensures
        s@ == found_text(name@),
        no_bang(name@) ==> no_bang(s@),
{
    let mut s = String::new();
    s.append("Found ");
    s.append(name);
    s.append(".");
    proof {
        reveal_strlit("Found ");
        reveal_strlit(".");
        assert(s@ =~= found_text(name@));
        if no_bang(name@) {
            lemma_no_bang_concat("Found "@, name@);
            lemma_no_bang_concat("Found "@ + name@, "."@);
        }
    }
    s
}

pub open spec fn verify_fail_text(addr: usize) -> Seq<char> {
    "Interesting.\n\nByte mismatch at 0x"@ + hex_upper(addr as nat, 6)
        + ".\n\nLet's not program that into production."@
}

/// A verify failure, with the address of the first differing byte.
pub fn verify_fail(addr: usize) -> (s: String)
    ensures
        s@ == verify_fail_text(addr),
        no_bang(s@),
{
    let mut s = String::new();
    s.append("Interesting.\n\nByte mismatch at 0x");
    push_hex(&mut s, addr, 6);
    s.append(".\n\nLet's not program that into production.");
    proof {
        reveal_strlit("Interesting.\n\nByte mismatch at 0x");
        reveal_strlit(".\n\nLet's not program that into production.");
        assert(s@ =~= verify_fail_text(addr));
        lemma_numerals_no_bang(addr as nat, 6);
        lemma_no_bang_concat("Interesting.\n\nByte mismatch at 0x"@, hex_upper(addr as nat, 6));
        lemma_no_bang_concat(
            "Interesting.\n\nByte mismatch at 0x"@ + hex_upper(addr as nat, 6),
            ".\n\nLet's not program that into production."@,
        );
    }
    s
}

pub open spec fn unsupported_text(jedec: Seq<u8>) -> Seq<char> {
    "I don't recognize this one.\n\nJEDEC "@ + hex_list3(jedec)
        + " — no SFDP, and it's not in my book yet."@
}

/// A chip with neither SFDP nor a fallback-table row, with its raw id.
pub fn unsupported(jedec: [u8; 3]) -> (s: String)
    ensures
        s@ == unsupported_text(jedec@),
        no_bang(s@),
{
    let mut s = String::new();
    s.append("I don't recognize this one.\n\nJEDEC ");
    push_hex_list3(&mut s, jedec);
    s.append(" — no SFDP, and it's not in my book yet.");
    proof {
        reveal_strlit("I don't recognize this one.\n\nJEDEC ");
        reveal_strlit(" — no SFDP, and it's not in my book yet.");
        reveal_strlit("[");
        reveal_strlit(", ");
        reveal_strlit("]");
        assert(s@ =~= unsupported_text(jedec@));
        lemma_numerals_no_bang(jedec@[0] as nat, 2);
        lemma_numerals_no_bang(jedec@[1] as nat, 2);
        lemma_numerals_no_bang(jedec@[2] as nat, 2);
        let h0 = hex_upper(jedec@[0] as nat, 2);
        let h1 = hex_upper(jedec@[1] as nat, 2);
        let h2 = hex_upper(jedec@[2] as nat, 2);
        lemma_no_bang_concat("["@, h0);
        lemma_no_bang_concat("["@ + h0, ", "@);
        lemma_no_bang_concat("["@ + h0 + ", "@, h1);
        lemma_no_bang_concat("["@ + h0 + ", "@ + h1, ", "@);
        lemma_no_bang_concat("["@ + h0 + ", "@ + h1 + ", "@, h2);
        lemma_no_bang_concat("["@ + h0 + ", "@ + h1 + ", "@ + h2, "]"@);
        assert(hex_list3(jedec@) == "["@ + h0 + ", "@ + h1 + ", "@ + h2 + "]"@);
        lemma_no_bang_concat("I don't recognize this one.\n\nJEDEC "@, hex_list3(jedec@));
        lemma_no_bang_concat(
            "I don't recognize this one.\n\nJEDEC "@ + hex_list3(jedec@),
            " — no SFDP, and it's not in my book yet."@,
        );
    }
    s
}

pub open spec fn version_text() -> Seq<char> {
    "Norbert "@ + VERSION@ + "\nReliable since Tuesday."@
}

pub fn version() -> (s: String)
    ensures
        s@ == version_text(),
        no_bang(s@),
{
    let mut s = String::new();
    s.append("Norbert ");
    s.append(VERSION);
    s.append("\nReliable since Tuesday.");
    proof {
        reveal_strlit("Norbert ");
        reveal_strlit("0.1.0");
        reveal_strlit("\nReliable since Tuesday.");
        assert(s@ =~= version_text());
        lemma_no_bang_concat("Norbert "@, VERSION@);
        lemma_no_bang_concat("Norbert "@ + VERSION@, "\nReliable since Tuesday."@);
    }
    s
}

pub open spec fn read_done_text(n: usize, path: Seq<char>) -> Seq<char> {
    "Read "@ + dec_digits(n as nat) + " bytes into "@ + path + "."@
}

/// A finished read-back: how many bytes, and where they went.
pub fn read_done(n: usize, path: &str) -> (s: String)
    ensures
        s@ == read_done_text(n, path@),
        no_bang(path@) ==> no_bang(s@),
{
    let mut s = String::new();
    s.append("Read ");
    push_dec(&mut s, n);
    s.append(" bytes into ");
    s.append(path);
    s.append(".");
    proof {
        reveal_strlit("Read ");
        reveal_strlit(" bytes into ");
        reveal_strlit(".");
        assert(s@ =~= read_done_text(n, path@));
        if no_bang(path@) {
            lemma_numerals_no_bang(n as nat, 0);
            let d = dec_digits(n as nat);
            lemma_no_bang_concat("Read "@, d);
            lemma_no_bang_concat("Read "@ + d, " bytes into "@);
            lemma_no_bang_concat("Read "@ + d + " bytes into "@, path@);
            lemma_no_bang_concat("Read "@ + d + " bytes into "@ + path@, "."@);
        }
    }
    s
}

pub open spec fn programming_intro_text(name: Seq<char>, bytes: Seq<char>, offset: usize) -> Seq<
    char,
> {
    "Programming "@ + name + " — "@ + bytes + " at 0x"@ + hex_upper(offset as nat, 6) + "."@
}

/// Said before programming: what, how much, and where.
pub fn programming_intro(name: &str, bytes: &str, offset: usize) -> (s: String)
    ensures
        s@ == programming_intro_text(name@, bytes@, offset),
        no_bang(name@) && no_bang(bytes@) ==> no_bang(s@),
{
    let mut s = String::new();
    s.append("Programming ");
    s.append(name);
    s.append(" — ");
    s.append(bytes);
    s.append(" at 0x");
    push_hex(&mut s, offset, 6);
    s.append(".");
    proof {
        reveal_strlit("Programming ");
        reveal_strlit(" — ");
        reveal_strlit(" at 0x");
        reveal_strlit(".");
        assert(s@ =~= programming_intro_text(name@, bytes@, offset));
        if no_bang(name@) && no_bang(bytes@) {
            lemma_numerals_no_bang(offset as nat, 6);
            let h = hex_upper(offset as nat, 6);
            lemma_no_bang_concat("Programming "@, name@);
            lemma_no_bang_concat("Programming "@ + name@, " — "@);
            lemma_no_bang_concat("Programming "@ + name@ + " — "@, bytes@);
            lemma_no_bang_concat("Programming "@ + name@ + " — "@ + bytes@, " at 0x"@);
            lemma_no_bang_concat("Programming "@ + name@ + " — "@ + bytes@ + " at 0x"@, h);
            lemma_no_bang_concat("Programming "@ + name@ + " — "@ + bytes@ + " at 0x"@ + h, "."@);
        }
    }
    s
}

pub open spec fn program_summary_text(blocks: usize, bytes: Seq<char>, tenths: usize) -> Seq<char> {
    "Done. Have a nice boot.  (erased "@ + dec_digits(blocks as nat) + " blocks, wrote "@ + bytes
        + " in "@ + dec_digits((tenths / 10) as nat) + "."@ + dec_digits((tenths % 10) as nat)
        + "s)"@
}

/// Said after programming: blocks erased, bytes written, time taken
/// (in tenths of a second).
pub fn program_summary(blocks: usize, bytes: &str, tenths: usize) -> (s: String)
    ensures
        s@ == program_summary_text(blocks, bytes@, tenths),
        no_bang(bytes@) ==> no_bang(s@),
{
    let mut s = String::new();
    s.append("Done. Have a nice boot.  (erased ");
    push_dec(&mut s, blocks);
    s.append(" blocks, wrote ");
    s.append(bytes);
    s.append(" in ");
    let whole = tenths / 10;
    let frac = tenths % 10;
    push_dec(&mut s, whole);
    s.append(".");
    push_dec(&mut s, frac);
    s.append("s)");
    proof {
        reveal_strlit("Done. Have a nice boot.  (erased ");
        reveal_strlit(" blocks, wrote ");
        reveal_strlit(" in ");
        reveal_strlit(".");
        reveal_strlit("s)");
        assert(s@ =~= program_summary_text(blocks, bytes@, tenths));
        if no_bang(bytes@) {
            lemma_numerals_no_bang(blocks as nat, 0);
            lemma_numerals_no_bang(whole as nat, 0);
            lemma_numerals_no_bang(frac as nat, 0);
            let a = dec_digits(blocks as nat);
            let b = dec_digits(whole as nat);
            let c = dec_digits(frac as nat);
            let p0 = "Done. Have a nice boot.  (erased "@;
            lemma_no_bang_concat(p0, a);
            lemma_no_bang_concat(p0 + a, " blocks, wrote "@);
            lemma_no_bang_concat(p0 + a + " blocks, wrote "@, bytes@);
            lemma_no_bang_concat(p0 + a + " blocks, wrote "@ + bytes@, " in "@);
            lemma_no_bang_concat(p0 + a + " blocks, wrote "@ + bytes@ + " in "@, b);
            lemma_no_bang_concat(p0 + a + " blocks, wrote "@ + bytes@ + " in "@ + b, "."@);
            lemma_no_bang_concat(p0 + a + " blocks, wrote "@ + bytes@ + " in "@ + b + "."@, c);
            lemma_no_bang_concat(
                p0 + a + " blocks, wrote "@ + bytes@ + " in "@ + b + "."@ + c,
                "s)"@,
            );
        }
    }
    s
}

} // verus!
