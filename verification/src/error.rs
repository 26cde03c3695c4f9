//! The single application-level error, and the words each error is shown
//! with. `FlashError` belongs to the flash core; `NorbertError` is what the
//! commands return and the presentation layer renders.

use vstd::prelude::*;

use crate::flash::FlashError;
use crate::text::{dec_digits, hex_list3, hex_upper, owned, push_dec, push_hex, push_hex_list3};

verus! {

/// The text a flash error is shown with.
pub open spec fn flash_error_text(e: FlashError) -> Seq<char> {
    match e {
        FlashError::Spi(m) => "SPI error: "@ + m@,
        FlashError::Bus(m) => "bus-hold error: "@ + m@,
        FlashError::Timeout => "timed out waiting for flash WIP to clear"@,
        FlashError::VerifyMismatch { addr, expected, got } => "verify mismatch @0x"@ + hex_upper(
            addr as nat,
            6,
        ) + ": expected 0x"@ + hex_upper(expected as nat, 2) + ", got 0x"@ + hex_upper(
            got as nat,
            2,
        ),
        FlashError::TooLarge { need, have } => "image needs "@ + dec_digits(need as nat)
            + " bytes but flash is "@ + dec_digits(have as nat) + " bytes"@,
        FlashError::NoFlash => "no SPI-NOR flash detected (RDID read all 0x00/0xFF)"@,
        FlashError::UnsupportedChip { jedec } => "unsupported flash: JEDEC "@ + hex_list3(jedec@)
            + " has no SFDP and no fallback-table entry (add one)"@,
        FlashError::NotDetected => "flash geometry unknown; run `detect` first"@,
    }
}

impl FlashError {
    /// The words this error is shown with.
    pub fn message(&self) -> (m: String)
        ensures
            m@ == flash_error_text(*self),
    {
        let mut s = String::new();
        match self {
            FlashError::Spi(e) => {
                s.append("SPI error: ");
                s.append(e.as_str());
            },
            FlashError::Bus(e) => {
                s.append("bus-hold error: ");
                s.append(e.as_str());
            },
            FlashError::Timeout => {
                s.append("timed out waiting for flash WIP to clear");
            },
            FlashError::VerifyMismatch { addr, expected, got } => {
                s.append("verify mismatch @0x");
                push_hex(&mut s, *addr, 6);
                s.append(": expected 0x");
                push_hex(&mut s, *expected as usize, 2);
                s.append(", got 0x");
                push_hex(&mut s, *got as usize, 2);
            },
            FlashError::TooLarge { need, have } => {
                s.append("image needs ");
                push_dec(&mut s, *need);
                s.append(" bytes but flash is ");
                push_dec(&mut s, *have);
                s.append(" bytes");
            },
            FlashError::NoFlash => {
                s.append("no SPI-NOR flash detected (RDID read all 0x00/0xFF)");
            },
            FlashError::UnsupportedChip { jedec } => {
                s.append("unsupported flash: JEDEC ");
                push_hex_list3(&mut s, *jedec);
                s.append(" has no SFDP and no fallback-table entry (add one)");
            },
            FlashError::NotDetected => {
                s.append("flash geometry unknown; run `detect` first");
            },
        }
        proof {
            assert(s@ =~= flash_error_text(*self));
        }
        s
    }
}

/// The single application-level error the commands return.
#[derive(Debug)]
pub enum NorbertError {
    /// No SPI-NOR flash responded to RDID.
    NoFlash,
    /// A chip responded but has neither SFDP nor a fallback-table entry;
    /// carries its raw 3-byte JEDEC id.
    Unsupported([u8; 3]),
    /// Read-back did not match the expected image at byte `addr`.
    VerifyMismatch { addr: usize },
    /// A write was refused because status-register block-protection is on.
    Protected,
    /// The flash stopped answering within the poll timeout.
    Timeout,
    /// A geometry operation was attempted before a profile was detected.
    NotDetected,
    /// The operation was interrupted (Ctrl-C); maps to exit code 130.
    Cancelled,
    /// Any other error (transport faults, I/O, argument validation), as text.
    Other(String),
}

/// `n` is what the flash error `e` becomes: domain faults keep their kind
/// (and the id or address they carry); transport faults and the rest keep
/// their fact as text.
pub open spec fn from_flash_spec(e: FlashError, n: NorbertError) -> bool {
    match e {
        FlashError::NoFlash => n is NoFlash,
        FlashError::UnsupportedChip { jedec } => n matches NorbertError::Unsupported(j) && j == jedec,
        FlashError::VerifyMismatch { addr, .. } => n matches NorbertError::VerifyMismatch { addr: a }
            && a == addr,
        FlashError::Timeout => n is Timeout,
        FlashError::NotDetected => n is NotDetected,
        _ => n matches NorbertError::Other(m) && m@ == flash_error_text(e),
    }
}

/// The text an application error is shown with.
pub open spec fn norbert_error_text(e: NorbertError) -> Seq<char> {
    match e {
        NorbertError::NoFlash => "no SPI-NOR flash detected"@,
        NorbertError::Unsupported(j) => "unsupported flash "@ + hex_list3(j@),
        NorbertError::VerifyMismatch { addr } => "verify mismatch at 0x"@ + hex_upper(addr as nat, 6),
        NorbertError::Protected => "write protection enabled"@,
        NorbertError::Timeout => "timed out waiting for the flash"@,
        NorbertError::NotDetected => "flash geometry unknown; run detect first"@,
        NorbertError::Cancelled => "cancelled"@,
        NorbertError::Other(m) => m@,
    }
}

impl NorbertError {
    /// Collapse a flash-core error into the application error.
    pub fn from_flash(e: FlashError) -> (n: NorbertError)
        ensures
            from_flash_spec(e, n),
    {
        match e {
            FlashError::NoFlash => NorbertError::NoFlash,
            FlashError::UnsupportedChip { jedec } => NorbertError::Unsupported(jedec),
            FlashError::VerifyMismatch { addr, .. } => NorbertError::VerifyMismatch { addr },
            FlashError::Timeout => NorbertError::Timeout,
            FlashError::NotDetected => NorbertError::NotDetected,
            _ => NorbertError::Other(e.message()),
        }
    }

    /// The words this error is shown with.
    pub fn message(&self) -> (m: String)
        ensures
            m@ == norbert_error_text(*self),
    {
        let mut s = String::new();
        match self {
            NorbertError::NoFlash => {
                s.append("no SPI-NOR flash detected");
            },
            NorbertError::Unsupported(j) => {
                s.append("unsupported flash ");
                push_hex_list3(&mut s, *j);
            },
            NorbertError::VerifyMismatch { addr } => {
                s.append("verify mismatch at 0x");
                push_hex(&mut s, *addr, 6);
            },
            NorbertError::Protected => {
                s.append("write protection enabled");
            },
            NorbertError::Timeout => {
                s.append("timed out waiting for the flash");
            },
            NorbertError::NotDetected => {
                s.append("flash geometry unknown; run detect first");
            },
            NorbertError::Cancelled => {
                s.append("cancelled");
            },
            NorbertError::Other(m) => {
                s.append(m.as_str());
            },
        }
        proof {
            assert(s@ =~= norbert_error_text(*self));
        }
        s
    }

    /// An error that carries only a fact, as text.
    pub fn other(fact: &str) -> (n: NorbertError)
        ensures
            n matches NorbertError::Other(m) && m@ == fact@,
    {
        NorbertError::Other(owned(fact))
    }
}

} // verus!
