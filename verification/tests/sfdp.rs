use norbert::profile::{AddressWidth, EraseType};
use norbert::sfdp::{Bfpt, ParamHeader, SfdpHeader};

fn sample_bfpt() -> Vec<u8> {
    let mut b = vec![0u8; 11 * 4];
    b[0..4].copy_from_slice(&[0xE5, 0x20, 0x00, 0x00]);
    b[4..8].copy_from_slice(&[0xFF, 0xFF, 0xFF, 0x00]);
    b[28..32].copy_from_slice(&[0x0C, 0x20, 0x0F, 0x52]);
    b[32..36].copy_from_slice(&[0x10, 0xD8, 0x00, 0x00]);
    b[40..44].copy_from_slice(&[0x80, 0x00, 0x00, 0x00]);
    b
}

#[test]
fn bfpt_decodes_geometry_and_erase_menu() {
    let bfpt = Bfpt::parse(&sample_bfpt());
    assert_eq!(bfpt.address_width, AddressWidth::Three);
    assert_eq!(bfpt.page_size, 256);
    assert_eq!(bfpt.capacity, Some(2 * 1024 * 1024));
    assert_eq!(
        bfpt.erase_types,
        vec![
            EraseType { size: 64 * 1024, opcode: 0xD8 },
            EraseType { size: 32 * 1024, opcode: 0x52 },
            EraseType { size: 4 * 1024, opcode: 0x20 },
        ]
    );
}

#[test]
fn header_signature_check() {
    assert!(SfdpHeader::parse(&[0x53, 0x46, 0x44, 0x50, 0x06, 0x01, 0x00, 0xFF]).is_some());
    assert!(SfdpHeader::parse(&[0xFF; 8]).is_none());
}

#[test]
fn bfpt_parse_survives_garbage_without_panicking() {
    let bfpt = Bfpt::parse(&[0xFF; 11 * 4]);
    assert_eq!(bfpt.capacity, None);
    assert!(bfpt.erase_types.is_empty());
}

#[test]
fn header_fields_and_count() {
    let h = SfdpHeader::parse(&[0x53, 0x46, 0x44, 0x50, 0x06, 0x01, 0x02, 0xFF]).unwrap();
    assert_eq!((h.major, h.minor, h.nph), (1, 6, 2));
    assert_eq!(h.param_header_count(), 3);
    assert!(SfdpHeader::parse(&[0x53, 0x46, 0x44]).is_none());
}

#[test]
fn param_header_decodes_id_length_and_pointer() {
    let p = ParamHeader::parse(&[0x00, 0x01, 0x01, 0x0B, 0x10, 0x00, 0x00, 0xFF]).unwrap();
    assert_eq!(p.id, 0xFF00);
    assert_eq!(p.length_dwords, 11);
    assert_eq!(p.table_pointer, 0x10);
    assert!(ParamHeader::parse(&[0x00; 7]).is_none());
}

#[test]
fn short_bfpt_keeps_defaults() {
    // Only dword 1 present: 3-byte addressing, 256-byte pages, size unknown,
    // no erase types (those live in dwords 8 and 9).
    let bfpt = Bfpt::parse(&[0xE5, 0x20, 0x00, 0x00]);
    assert_eq!(bfpt.page_size, 256);
    assert_eq!(bfpt.capacity, None);
    assert_eq!(bfpt.address_width, AddressWidth::Three);
    assert!(bfpt.erase_types.is_empty());
}
