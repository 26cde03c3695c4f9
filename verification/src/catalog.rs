//! "Norbert's book": human names for flash chips and the no-SFDP fallback
//! table. Pure tables; extend freely, keeping each sorted by JEDEC id.

use vstd::prelude::*;

use crate::profile::{
    copy_erase_types, dedup_sizes, sort_desc, AddressWidth, EraseMenu, EraseType, FlashProfile,
    ProfileSource,
};
use crate::text::{hex_upper, push_hex};

verus! {

/// JEDEC manufacturer id to name (JEP106, common subset).
pub open spec fn manufacturer_name(id: u8) -> Option<Seq<char>> {
    if id == 0xEF {
        Some("Winbond"@)
    } else if id == 0x20 {
        Some("Micron/Numonyx"@)
    } else if id == 0xC2 {
        Some("Macronix"@)
    } else if id == 0xC8 {
        Some("GigaDevice"@)
    } else if id == 0x1C {
        Some("EON"@)
    } else if id == 0x01 {
        Some("Cypress/Spansion"@)
    } else if id == 0xBF {
        Some("SST"@)
    } else if id == 0x9D {
        Some("ISSI"@)
    } else if id == 0x89 {
        Some("Intel"@)
    } else if id == 0x8C {
        Some("ESMT"@)
    } else if id == 0x68 {
        Some("Boya"@)
    } else {
        None
    }
}

/// JEDEC manufacturer id to name (JEP106, common subset).
pub fn manufacturer(id: u8) -> (m: Option<&'static str>)
    ensures
        m is Some <==> manufacturer_name(id) is Some,
        m matches Some(name) ==> name@ == manufacturer_name(id).unwrap(),
{
    match id {
        0xEF => Some("Winbond"),
        0x20 => Some("Micron/Numonyx"),
        0xC2 => Some("Macronix"),
        0xC8 => Some("GigaDevice"),
        0x1C => Some("EON"),
        0x01 => Some("Cypress/Spansion"),
        0xBF => Some("SST"),
        0x9D => Some("ISSI"),
        0x89 => Some("Intel"),
        0x8C => Some("ESMT"),
        0x68 => Some("Boya"),
        _ => None,
    }
}

/// Two JEDEC ids are the same three bytes.
pub fn same_jedec(a: [u8; 3], b: [u8; 3]) -> (r: bool)
    ensures
        r == (a@ == b@),
{
    let r = a[0] == b[0] && a[1] == b[1] && a[2] == b[2];
    proof {
        if r {
            assert(a@ =~= b@);
        }
        if a@ == b@ {
            assert(a@[0] == b@[0] && a@[1] == b@[1] && a@[2] == b@[2]);
        }
    }
    r
}

/// JEDEC ids in table order: lexicographic by byte.
pub open spec fn jedec_lt(a: Seq<u8>, b: Seq<u8>) -> bool {
    ||| a[0] < b[0]
    ||| a[0] == b[0] && a[1] < b[1]
    ||| a[0] == b[0] && a[1] == b[1] && a[2] < b[2]
}

/// Known part by full 3-byte JEDEC id (pretty names for `detect`/`list`).
pub struct NamedChip {
    pub jedec: [u8; 3],
    pub name: &'static str,
}

/// The named parts as (JEDEC id, name), ascending by id.
pub open spec fn spec_chip_names() -> Seq<(Seq<u8>, Seq<char>)> {
    seq![
        (seq![0x1Cu8, 0x70u8, 0x15u8], "EON EN25QH16B"@),
        (seq![0x20u8, 0x20u8, 0x15u8], "Micron M25P16"@),
        (seq![0xC2u8, 0x20u8, 0x18u8], "Macronix MX25L128"@),
        (seq![0xC8u8, 0x40u8, 0x15u8], "GigaDevice GD25Q16"@),
        (seq![0xEFu8, 0x40u8, 0x16u8], "Winbond W25Q32"@),
        (seq![0xEFu8, 0x40u8, 0x17u8], "Winbond W25Q64"@),
        (seq![0xEFu8, 0x40u8, 0x18u8], "Winbond W25Q128JV"@),
    ]
}

fn named(jedec: [u8; 3], name: &'static str) -> (c: NamedChip)
    ensures
        c.jedec == jedec,
        c.name == name,
{
    NamedChip { jedec, name }
}

/// The named parts, ascending by JEDEC id.
pub fn chip_names() -> (t: Vec<NamedChip>)
    ensures
        t@.len() == spec_chip_names().len(),
        forall|i: int|
            0 <= i < t@.len() ==> (#[trigger] t@[i]).jedec@ == spec_chip_names()[i].0
                && t@[i].name@ == spec_chip_names()[i].1,
{
    let mut t: Vec<NamedChip> = Vec::new();
    t.push(named([0x1C, 0x70, 0x15], "EON EN25QH16B"));
    t.push(named([0x20, 0x20, 0x15], "Micron M25P16"));
    t.push(named([0xC2, 0x20, 0x18], "Macronix MX25L128"));
    t.push(named([0xC8, 0x40, 0x15], "GigaDevice GD25Q16"));
    t.push(named([0xEF, 0x40, 0x16], "Winbond W25Q32"));
    t.push(named([0xEF, 0x40, 0x17], "Winbond W25Q64"));
    t.push(named([0xEF, 0x40, 0x18], "Winbond W25Q128JV"));
    proof {
        let s = spec_chip_names();
        assert(t@[0].jedec@ =~= s[0].0);
        assert(t@[1].jedec@ =~= s[1].0);
        assert(t@[2].jedec@ =~= s[2].0);
        assert(t@[3].jedec@ =~= s[3].0);
        assert(t@[4].jedec@ =~= s[4].0);
        assert(t@[5].jedec@ =~= s[5].0);
        assert(t@[6].jedec@ =~= s[6].0);
    }
    t
}

/// The name of the first table row with id `j`, if any.
pub open spec fn name_lookup(t: Seq<(Seq<u8>, Seq<char>)>, j: Seq<u8>) -> Option<Seq<char>>
    decreases t.len(),
{
    if t.len() == 0 {
        None
    } else if t[0].0 == j {
        Some(t[0].1)
    } else {
        name_lookup(t.drop_first(), j)
    }
}

/// A byte as two upper-case hex digits.
pub open spec fn hex_byte(b: u8) -> Seq<char> {
    hex_upper(b as nat, 2)
}

/// "(AA BB CC)" for a JEDEC id.
pub open spec fn jedec_paren(j: Seq<u8>) -> Seq<char> {
    "("@ + hex_byte(j[0]) + " "@ + hex_byte(j[1]) + " "@ + hex_byte(j[2]) + ")"@
}

/// Best-effort label: the exact part if known, else the manufacturer's
/// "SPI NOR" with the raw id, else "unknown flash" with the raw id.
pub open spec fn describe_text(j: Seq<u8>) -> Seq<char> {
    match name_lookup(spec_chip_names(), j) {
        Some(n) => n,
        None => match manufacturer_name(j[0]) {
            Some(m) => m + " SPI NOR "@ + jedec_paren(j),
            None => "unknown flash "@ + jedec_paren(j),
        },
    }
}

fn push_jedec_paren(s: &mut String, j: [u8; 3])
    ensures
        final(s)@ == old(s)@ + jedec_paren(j@),
{
    s.append("(");
    push_hex(s, j[0] as usize, 2);
    s.append(" ");
    push_hex(s, j[1] as usize, 2);
    s.append(" ");
    push_hex(s, j[2] as usize, 2);
    s.append(")");
    proof {
        assert(s@ =~= old(s)@ + jedec_paren(j@));
    }
}

/// Best-effort label: exact part if known, else "<Manufacturer> SPI NOR (id)",
/// else "unknown flash (id)".
pub fn describe(jedec: [u8; 3]) -> (d: String)
    ensures
        d@ == describe_text(jedec@),
{
    let t = chip_names();
    let mut i: usize = 0;
    assert(spec_chip_names().skip(0) == spec_chip_names());
    while i < t.len()
        invariant
            0 <= i <= t@.len(),
            t@.len() == spec_chip_names().len(),
            forall|k: int|
                0 <= k < t@.len() ==> (#[trigger] t@[k]).jedec@ == spec_chip_names()[k].0
                    && t@[k].name@ == spec_chip_names()[k].1,
            name_lookup(spec_chip_names(), jedec@) == name_lookup(
                spec_chip_names().skip(i as int),
                jedec@,
            ),
        decreases t@.len() - i,
    {
        let c = &t[i];
        proof {
            let rest = spec_chip_names().skip(i as int);
            assert(rest[0] == spec_chip_names()[i as int]);
            assert(rest.drop_first() == spec_chip_names().skip(i + 1));
        }
        if same_jedec(c.jedec, jedec) {
            return String::from_str(c.name);
        }
        i = i + 1;
    }
    let mut s = String::new();
    match manufacturer(jedec[0]) {
        Some(m) => {
            s.append(m);
            s.append(" SPI NOR ");
        },
        None => {
            s.append("unknown flash ");
        },
    }
    push_jedec_paren(&mut s, jedec);
    proof {
        assert(spec_chip_names().skip(i as int).len() == 0);
        assert(jedec@[0] == jedec[0]);
    }
    s
}

/// A known SPI-NOR part that lacks SFDP, described from its datasheet.
pub struct KnownChip {
    pub jedec: [u8; 3],
    pub name: &'static str,
    pub page_size: usize,
    pub address_bytes: u8,
    pub capacity: usize,
    pub erase_types: Vec<EraseType>,
}

/// A fallback row as plain values: (JEDEC id, page size, address bytes,
/// capacity, erase types).
pub type KnownRow = (Seq<u8>, usize, u8, usize, Seq<EraseType>);

impl KnownChip {
    pub open spec fn row(&self) -> KnownRow {
        (self.jedec@, self.page_size, self.address_bytes, self.capacity, self.erase_types@)
    }
}

/// The no-SFDP fallback table, ascending by JEDEC id.
pub open spec fn spec_fallback_table() -> Seq<KnownRow> {
    seq![
        (
            seq![0x20u8, 0x20u8, 0x15u8],
            256usize,
            3u8,
            2097152usize,
            seq![EraseType { size: 65536, opcode: 0xD8 }],
        ),
    ]
}

/// Fallback table: parts we support that don't self-describe via SFDP.
/// Add a row (datasheet values) to support a new no-SFDP chip.
pub fn fallback_table() -> (t: Vec<KnownChip>)
    ensures
        t@.len() == spec_fallback_table().len(),
        forall|i: int| 0 <= i < t@.len() ==> (#[trigger] t@[i]).row() == spec_fallback_table()[i],
{
    let mut t: Vec<KnownChip> = Vec::new();
    let mut m25p16_erase: Vec<EraseType> = Vec::new();
    m25p16_erase.push(EraseType { size: 64 * 1024, opcode: 0xD8 });
    t.push(
        KnownChip {
            jedec: [0x20, 0x20, 0x15],
            name: "Micron/Numonyx M25P16",
            page_size: 256,
            address_bytes: 3,
            capacity: 2 * 1024 * 1024,
            erase_types: m25p16_erase,
        },
    );
    proof {
        let s = spec_fallback_table();
        assert(t@[0].jedec@ =~= s[0].0);
        assert(t@[0].erase_types@ =~= s[0].4);
    }
    t
}

/// The index of the first row of `t` with id `j` (`t.len()` if none).
pub open spec fn row_index(t: Seq<KnownRow>, j: Seq<u8>) -> int
    decreases t.len(),
{
    if t.len() == 0 {
        0
    } else if t[0].0 == j {
        0
    } else {
        1 + row_index(t.drop_first(), j)
    }
}

proof fn lemma_row_index(t: Seq<KnownRow>, j: Seq<u8>)
    ensures
        0 <= row_index(t, j) <= t.len(),
        row_index(t, j) < t.len() ==> t[row_index(t, j)].0 == j,
        forall|k: int| 0 <= k < row_index(t, j) ==> t[k].0 != j,
    decreases t.len(),
{
    if t.len() > 0 && t[0].0 != j {
        lemma_row_index(t.drop_first(), j);
        assert forall|k: int| 0 <= k < row_index(t, j) implies t[k].0 != j by {
            if k > 0 {
                assert(t[k] == t.drop_first()[k - 1]);
            }
        }
    }
}

/// The width a fallback row's address-byte count stands for.
pub open spec fn width_of(address_bytes: u8) -> AddressWidth {
    if address_bytes == 4 {
        AddressWidth::Four
    } else {
        AddressWidth::Three
    }
}

/// The profile that a fallback row describes matches `p`.
pub open spec fn profile_from_row(p: FlashProfile, r: KnownRow) -> bool {
    &&& p.page_size == r.1
    &&& p.address_width == width_of(r.2)
    &&& p.capacity == Some(r.3)
    &&& p.erase@ == dedup_sizes(sort_desc(r.4))
    &&& p.source == ProfileSource::Table
    &&& p.sfdp_revision is None
}

/// Build a `FlashProfile` for a chip in the fallback table, else `None`.
pub fn lookup_fallback(jedec: [u8; 3]) -> (p: Option<FlashProfile>)
    ensures
        ({
            let t = spec_fallback_table();
            let i = row_index(t, jedec@);
            &&& p is Some <==> i < t.len()
            &&& p matches Some(p) ==> profile_from_row(p, t[i])
        }),
{
    let t = fallback_table();
    proof {
        lemma_row_index(spec_fallback_table(), jedec@);
    }
    let mut i: usize = 0;
    while i < t.len()
        invariant
            0 <= i <= t@.len(),
            t@.len() == spec_fallback_table().len(),
            forall|k: int| 0 <= k < t@.len() ==> (#[trigger] t@[k]).row() == spec_fallback_table()[k],
            forall|k: int| 0 <= k < i ==> spec_fallback_table()[k].0 != jedec@,
            row_index(spec_fallback_table(), jedec@) >= i,
        decreases t@.len() - i,
    {
        let c = &t[i];
        proof {
            assert(c.row() == spec_fallback_table()[i as int]);
        }
        if same_jedec(c.jedec, jedec) {
            proof {
                let ri = row_index(spec_fallback_table(), jedec@);
                if ri > i {
                    assert(spec_fallback_table()[i as int].0 != jedec@);
                }
                assert(spec_fallback_table()[i as int].4.len() > 0);
            }
            let address_width = if c.address_bytes == 4 {
                AddressWidth::Four
            } else {
                AddressWidth::Three
            };
            let erase = match EraseMenu::new(copy_erase_types(&c.erase_types)) {
                Some(m) => m,
                None => {
                    // every row carries at least one erase type
                    assert(false);
                    return None;
                },
            };
            return Some(
                FlashProfile {
                    page_size: c.page_size,
                    address_width,
                    capacity: Some(c.capacity),
                    erase,
                    source: ProfileSource::Table,
                    sfdp_revision: None,
                },
            );
        }
        proof {
            lemma_row_index(spec_fallback_table(), jedec@);
        }
        i = i + 1;
    }
    None
}

/// Both tables are ascending by JEDEC id (so no id appears twice), and every
/// fallback row carries at least one erase type, so each of its rows yields a
/// profile.
pub proof fn lemma_tables_well_formed()
    ensures
        forall|i: int, j: int|
            0 <= i < j < spec_chip_names().len() ==> jedec_lt(
                spec_chip_names()[i].0,
                spec_chip_names()[j].0,
            ),
        forall|i: int, j: int|
            0 <= i < j < spec_fallback_table().len() ==> jedec_lt(
                spec_fallback_table()[i].0,
                spec_fallback_table()[j].0,
            ),
        forall|i: int|
            0 <= i < spec_fallback_table().len() ==> (#[trigger] spec_fallback_table()[i]).4.len()
                > 0,
        forall|i: int|
            0 <= i < spec_fallback_table().len() ==> row_index(
                spec_fallback_table(),
                #[trigger] spec_fallback_table()[i].0,
            ) == i,
{
    let s = spec_chip_names();
    assert forall|i: int, j: int| 0 <= i < j < s.len() implies jedec_lt(s[i].0, s[j].0) by {
        assert(s[0].0[0] == 0x1C && s[1].0[0] == 0x20 && s[2].0[0] == 0xC2 && s[3].0[0] == 0xC8);
        assert(s[4].0 =~= seq![0xEFu8, 0x40u8, 0x16u8]);
        assert(s[5].0 =~= seq![0xEFu8, 0x40u8, 0x17u8]);
        assert(s[6].0 =~= seq![0xEFu8, 0x40u8, 0x18u8]);
    }
    let t = spec_fallback_table();
    assert forall|i: int| 0 <= i < t.len() implies row_index(t, #[trigger] t[i].0) == i by {
        assert(t[0].0 == t[0].0);
    }
}

} // verus!
