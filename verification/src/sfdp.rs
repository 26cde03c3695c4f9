//! SFDP byte parsing: header, parameter headers, and the Basic Flash
//! Parameter Table.

use vstd::prelude::*;

use crate::profile::{AddressWidth, EraseType, sort_by_size_desc, sort_desc};

verus! {

/// The SFDP signature, "SFDP" in ASCII, at the start of the parameter space.
pub open spec fn has_sfdp_signature(b: Seq<u8>) -> bool {
    &&& b.len() >= 4
    &&& b[0] == 0x53u8
    &&& b[1] == 0x46u8
    &&& b[2] == 0x44u8
    &&& b[3] == 0x50u8
}

/// 8-byte SFDP header. `major`/`minor` carry the SFDP revision; `nph` drives
/// parameter-header discovery.
#[derive(Debug, Clone, Copy, PartialEq, Eq, Structural)]
pub struct SfdpHeader {
    pub major: u8,
    pub minor: u8,
    pub nph: u8,
}

impl SfdpHeader {
    /// The header encoded by `b`, if `b` holds one.
    pub open spec fn spec_parse(b: Seq<u8>) -> Option<SfdpHeader> {
        if b.len() >= 8 && has_sfdp_signature(b) {
            Some(SfdpHeader { minor: b[4], major: b[5], nph: b[6] })
        } else {
            None
        }
    }

    pub fn parse(b: &[u8]) -> (h: Option<SfdpHeader>)
        ensures
            h == Self::spec_parse(b@),
    {
        if b.len() < 8 || b[0] != 0x53 || b[1] != 0x46 || b[2] != 0x44 || b[3] != 0x50 {
            return None;
        }
        Some(SfdpHeader { minor: b[4], major: b[5], nph: b[6] })
    }

    /// Parameter-header count (`nph` is the count minus one).
    pub fn param_header_count(&self) -> (n: usize)
        ensures
            n == self.nph + 1,
    {
        self.nph as usize + 1
    }
}

/// The parameter-header id of the JEDEC Basic Flash Parameter Table.
pub const BFPT_ID: u16 = 0xFF00;

/// 8-byte parameter header.
#[derive(Debug, Clone, Copy, PartialEq, Eq, Structural)]
pub struct ParamHeader {
    pub id: u16,
    pub length_dwords: u8,
    pub table_pointer: u32,
}

impl ParamHeader {
    /// The parameter header encoded by `b`, if `b` is long enough: id from
    /// bytes 7 (MSB) and 0 (LSB), length in dwords from byte 3, and the table
    /// pointer from bytes 4..7, little-endian.
    pub open spec fn spec_parse(b: Seq<u8>) -> Option<ParamHeader> {
        if b.len() >= 8 {
            Some(
                ParamHeader {
                    id: (b[7] as int * 256 + b[0] as int) as u16,
                    length_dwords: b[3],
                    table_pointer: (b[4] as int + b[5] as int * 256 + b[6] as int * 65536) as u32,
                },
            )
        } else {
            None
        }
    }

    pub fn parse(b: &[u8]) -> (p: Option<ParamHeader>)
        ensures
            p == Self::spec_parse(b@),
    {
        if b.len() < 8 {
            return None;
        }
        Some(
            ParamHeader {
                id: (b[7] as u16) * 256 + b[0] as u16,
                length_dwords: b[3],
                table_pointer: b[4] as u32 + (b[5] as u32) * 256 + (b[6] as u32) * 65536,
            },
        )
    }
}

/// Little-endian 32-bit value of `b[o..o+4]`.
pub open spec fn le_u32(b: Seq<u8>, o: int) -> u32 {
    (b[o] as int + b[o + 1] as int * 256 + b[o + 2] as int * 65536 + b[o + 3] as int
        * 16777216) as u32
}

/// Dword number `idx1` (1-based) of a parameter table, if present.
pub open spec fn spec_dword(b: Seq<u8>, idx1: int) -> Option<u32> {
    let off = (idx1 - 1) * 4;
    if off + 4 <= b.len() {
        Some(le_u32(b, off))
    } else {
        None
    }
}

fn dword(b: &[u8], idx1: usize) -> (d: Option<u32>)
    requires
        1 <= idx1 <= 16,
    ensures
        d == spec_dword(b@, idx1 as int),
{
    let off = (idx1 - 1) * 4;
    if off + 4 <= b.len() {
        Some(
            b[off] as u32 + (b[off + 1] as u32) * 256 + (b[off + 2] as u32) * 65536 + (b[off
                + 3] as u32) * 16777216,
        )
    } else {
        None
    }
}

/// Fields decoded from the JEDEC Basic Flash Parameter Table.
#[derive(Debug, PartialEq, Eq)]
pub struct Bfpt {
    pub address_width: AddressWidth,
    pub page_size: usize,
    pub capacity: Option<usize>,
    /// Decoded erase granularities, sorted largest-size first.
    pub erase_types: Vec<EraseType>,
}

/// Address width from dword 1 bits 17..18: the value 2 means 4-byte only.
pub open spec fn spec_address_width(b: Seq<u8>) -> AddressWidth {
    let d1 = match spec_dword(b, 1) {
        Some(d) => d,
        None => 0,
    };
    if (d1 >> 17u32) & 3u32 == 2 {
        AddressWidth::Four
    } else {
        AddressWidth::Three
    }
}

/// Address-width law: a BFPT selects 4-byte addressing exactly when bits
/// 17..18 of dword 1 (bits 1..2 of its third byte) read 0b10, "4-byte
/// addressing only"; 0b00 ("3-byte only"), 0b01 ("3- or 4-byte") and 0b11
/// give 3-byte addressing, as does a table too short to hold dword 1.
pub proof fn lemma_address_width_bits(b: Seq<u8>)
    ensures
        b.len() >= 4 ==> (spec_address_width(b) == AddressWidth::Four <==> b[2] & 0x06u8 == 0x04u8),
        b.len() < 4 ==> spec_address_width(b) == AddressWidth::Three,
{
    if b.len() >= 4 {
        let b0 = b[0];
        let b1 = b[1];
        let b2 = b[2];
        let b3 = b[3];
        let d1 = le_u32(b, 0);
        assert(d1 == (b0 as u32) + (b1 as u32) * 256 + (b2 as u32) * 65536 + (b3 as u32)
            * 16777216) by {
            assert(b0 as int + b1 as int * 256 + b2 as int * 65536 + b3 as int * 16777216
                < 0x1_0000_0000) by (nonlinear_arith)
                requires
                    b0 < 256,
                    b1 < 256,
                    b2 < 256,
                    b3 < 256,
            ;
        }
        assert(((d1 >> 17u32) & 3u32 == 2) <==> (b2 & 0x06u8 == 0x04u8)) by (bit_vector)
            requires
                d1 == (b0 as u32) + (b1 as u32) * 256 + (b2 as u32) * 65536 + (b3 as u32)
                    * 16777216,
        ;
    } else {
        assert((0u32 >> 17u32) & 3u32 == 0) by (bit_vector);
    }
}

/// Density from dword 2: bit 31 clear gives the size in bits minus one;
/// set gives `2^n` bits, representable only for `3 <= n < usize::BITS`.
pub open spec fn spec_capacity(b: Seq<u8>) -> Option<usize> {
    match spec_dword(b, 2) {
        None => None,
        Some(d2) => if d2 & 0x8000_0000u32 == 0 {
            Some(((d2 as int + 1) / 8) as usize)
        } else {
            let n = d2 & 0x7FFF_FFFFu32;
            if 3 <= n < usize::BITS {
                Some(1usize << ((n - 3) as u32))
            } else {
                None
            }
        },
    }
}

/// One erase-type slot of dword 8 or 9 (`lo`: bits 0..15, else 16..31):
/// a size exponent byte and an opcode byte. An exponent of 0 means unused;
/// one of `usize::BITS` or more cannot be represented and is skipped.
pub open spec fn spec_erase_slot(b: Seq<u8>, dw: int, lo: bool) -> Option<EraseType> {
    match spec_dword(b, dw) {
        None => None,
        Some(d) => {
            let size_field = if lo {
                (d & 0xFFu32) as u8
            } else {
                ((d >> 16u32) & 0xFFu32) as u8
            };
            let opcode = if lo {
                ((d >> 8u32) & 0xFFu32) as u8
            } else {
                ((d >> 24u32) & 0xFFu32) as u8
            };
            if size_field != 0 && (size_field as u32) < usize::BITS {
                Some(EraseType { size: 1usize << size_field, opcode })
            } else {
                None
            }
        },
    }
}

pub open spec fn opt_seq(o: Option<EraseType>) -> Seq<EraseType> {
    match o {
        Some(e) => seq![e],
        None => Seq::empty(),
    }
}

/// The erase slots in table order: dword 8 low, dword 8 high, dword 9 low,
/// dword 9 high.
pub open spec fn spec_raw_erase_types(b: Seq<u8>) -> Seq<EraseType> {
    opt_seq(spec_erase_slot(b, 8, true)) + opt_seq(spec_erase_slot(b, 8, false)) + opt_seq(
        spec_erase_slot(b, 9, true),
    ) + opt_seq(spec_erase_slot(b, 9, false))
}

/// Page size from dword 11 bits 4..7 as a power of two; 256 when absent.
pub open spec fn spec_page_size(b: Seq<u8>) -> usize {
    match spec_dword(b, 11) {
        Some(d11) => {
            let p = 1usize << ((d11 >> 4u32) & 0xFu32);
            if p >= 1 {
                p
            } else {
                256
            }
        },
        None => 256,
    }
}

fn erase_slot(b: &[u8], dw: usize, lo: bool) -> (e: Option<EraseType>)
    requires
        dw == 8 || dw == 9,
    ensures
        e == spec_erase_slot(b@, dw as int, lo),
{
    match dword(b, dw) {
        None => None,
        Some(d) => {
            let size_field = if lo {
                (d & 0xFF) as u8
            } else {
                ((d >> 16) & 0xFF) as u8
            };
            let opcode = if lo {
                ((d >> 8) & 0xFF) as u8
            } else {
                ((d >> 24) & 0xFF) as u8
            };
            if size_field != 0 && (size_field as u32) < usize::BITS {
                Some(EraseType { size: 1usize << size_field, opcode })
            } else {
                None
            }
        },
    }
}

fn push_slot(v: &mut Vec<EraseType>, e: Option<EraseType>)
    ensures
        final(v)@ == old(v)@ + opt_seq(e),
{
    if let Some(t) = e {
        v.push(t);
    }
}

impl Bfpt {
    /// Decode a BFPT. Defensive: missing dwords fall back to sane defaults
    /// and out-of-range encodings are reported as unknown, so any bytes parse.
    pub fn parse(b: &[u8]) -> (r: Bfpt)
        ensures
            r.address_width == spec_address_width(b@),
            b@.len() >= 4 ==> (r.address_width == AddressWidth::Four <==> b@[2] & 0x06u8
                == 0x04u8),
            b@.len() < 4 ==> r.address_width == AddressWidth::Three,
            r.page_size == spec_page_size(b@),
            r.capacity == spec_capacity(b@),
            r.erase_types@ == sort_desc(spec_raw_erase_types(b@)),
    {
        proof {
            lemma_address_width_bits(b@);
        }
        let d1 = match dword(b, 1) {
            Some(d) => d,
            None => 0,
        };
        let address_width = if (d1 >> 17) & 3 == 2 {
            AddressWidth::Four
        } else {
            AddressWidth::Three
        };

        let capacity = match dword(b, 2) {
            None => None,
            Some(d2) => {
                if d2 & 0x8000_0000 == 0 {
                    assert(d2 & 0x8000_0000u32 == 0 ==> d2 < 0x8000_0000u32) by (bit_vector);
                    Some((d2 as usize + 1) / 8)
                } else {
                    let n = d2 & 0x7FFF_FFFF;
                    if 3 <= n && n < usize::BITS {
                        Some(1usize << (n - 3))
                    } else {
                        None
                    }
                }
            },
        };

        let mut raw: Vec<EraseType> = Vec::new();
        push_slot(&mut raw, erase_slot(b, 8, true));
        push_slot(&mut raw, erase_slot(b, 8, false));
        push_slot(&mut raw, erase_slot(b, 9, true));
        push_slot(&mut raw, erase_slot(b, 9, false));
        let erase_types = sort_by_size_desc(&raw);

        let page_size = match dword(b, 11) {
            Some(d11) => {
                assert((d11 >> 4u32) & 0xFu32 <= 15) by (bit_vector);
                let p = 1usize << ((d11 >> 4) & 0xF);
                if p >= 1 {
                    p
                } else {
                    256
                }
            },
            None => 256,
        };

        Bfpt { address_width, page_size, capacity, erase_types }
    }
}

} // verus!
