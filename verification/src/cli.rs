//! The command-line surface as plain data: the global flags and the
//! subcommands with their arguments. The host parses the arguments into
//! these values.

use vstd::prelude::*;

use crate::ui::Mode;

verus! {

/// The global flags and the chosen subcommand.
#[derive(Debug, PartialEq, Eq)]
pub struct Cli {
    /// A specific Pico de Gallo, by USB serial number.
    pub serial: Option<String>,
    /// SPI clock in Hz.
    pub freq: u32,
    /// Hold a shared bus master off the SPI while working, then release it.
    pub reset: bool,
    /// Machine-friendly output.
    pub quiet: bool,
    /// Print the version.
    pub version: bool,
    pub cmd: Option<Cmd>,
}

/// The subcommands.
#[derive(Debug, PartialEq, Eq)]
#[allow(inconsistent_fields)]
pub enum Cmd {
    /// Read the raw 3-byte JEDEC ID.
    Jedec,
    /// Erase + program + verify a bitstream at an offset, then boot it.
    Program {
        bitstream: String,
        offset: usize,
        /// Skip read-back verification.
        skip_verify: bool,
        /// Full chip erase instead of just the covered blocks.
        chip_erase: bool,
        /// Clear block protection before erase/program.
        unprotect: bool,
    },
    /// Dump `length` bytes from `offset` to a file.
    Read { out: String, length: usize, offset: usize },
    /// Compare flash contents against a file.
    Verify { bitstream: String, offset: usize },
    /// Erase (covered blocks for a size, or the whole chip).
    Erase { offset: usize, length: Option<usize>, chip: bool },
    /// Detect and print the flash profile the tool will use.
    Detect,
    /// Read + print JEDEC ID and SFDP/profile info.
    Info,
    /// Dump raw SFDP.
    Sfdp,
    /// List the chips known without SFDP (the fallback table).
    List,
    /// Set status-register block-protection bits.
    Protect,
    /// Clear status-register block-protection bits.
    Unprotect,
    /// Flash soft-reset; also reboots a held master.
    Reset,
    /// Wiring/power/speed check-up (read-only).
    Doctor,
    /// Read-back consistency check; with a sector, a destructive self-test.
    Test { sector: Option<usize> },
}

/// The SPI clock used when none is given, in Hz.
pub const DEFAULT_FREQ: u32 = 10_000_000;

/// The output mode of a run: Machine when `--quiet` was given or standard
/// output is not a terminal, Human otherwise.
pub fn choose_mode(quiet: bool, stdout_is_terminal: bool) -> (m: Mode)
    ensures
        m == (if quiet || !stdout_is_terminal {
            Mode::Machine
        } else {
            Mode::Human
        }),
{
    if quiet || !stdout_is_terminal {
        Mode::Machine
    } else {
        Mode::Human
    }
}

} // verus!
