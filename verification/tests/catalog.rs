use norbert::catalog::{describe, fallback_table, lookup_fallback, manufacturer, chip_names};
use norbert::profile::{AddressWidth, EraseType, ProfileSource};

#[test]
fn m25p16_is_in_the_fallback_table() {
    let p = lookup_fallback([0x20, 0x20, 0x15]).expect("M25P16 is a known chip");
    assert_eq!(p.source, ProfileSource::Table);
    assert_eq!(p.address_width, AddressWidth::Three);
    assert_eq!(p.capacity, Some(2 * 1024 * 1024));
    assert_eq!(
        p.erase.iter(),
        vec![EraseType {
            size: 64 * 1024,
            opcode: 0xD8
        }]
    );
    assert!(lookup_fallback([0xAB, 0xCD, 0xEF]).is_none()); // unknown → not supported
}

#[test]
fn every_fallback_row_has_a_usable_erase_menu() {
    for c in fallback_table() {
        assert!(
            lookup_fallback(c.jedec).is_some(),
            "fallback row {:02X?} has an empty erase menu",
            c.jedec
        );
    }
}

#[test]
fn names_and_manufacturers() {
    assert_eq!(describe([0xEF, 0x40, 0x18]), "Winbond W25Q128JV");
    assert_eq!(manufacturer(0xEF), Some("Winbond"));
    assert!(describe([0xEF, 0x40, 0x99]).starts_with("Winbond SPI NOR"));
    assert!(describe([0x77, 0x77, 0x77]).starts_with("unknown flash"));

    assert_eq!(manufacturer(0xC8), Some("GigaDevice"));
    assert_eq!(describe([0xC8, 0x40, 0x15]), "GigaDevice GD25Q16");
    assert!(describe([0xC8, 0x40, 0x99]).starts_with("GigaDevice SPI NOR"));
}

#[test]
fn describe_gives_the_vendor_and_raw_id_for_unnamed_parts() {
    assert_eq!(describe([0xEF, 0x40, 0x99]), "Winbond SPI NOR (EF 40 99)");
    assert_eq!(describe([0x77, 0x77, 0x77]), "unknown flash (77 77 77)");
    assert_eq!(manufacturer(0x77), None);
}

#[test]
fn both_tables_are_sorted_ascending_by_jedec_id() {
    let names = chip_names();
    for w in names.windows(2) {
        assert!(w[0].jedec < w[1].jedec, "{:02X?} !< {:02X?}", w[0].jedec, w[1].jedec);
    }
    let table = fallback_table();
    for w in table.windows(2) {
        assert!(w[0].jedec < w[1].jedec);
    }
}

#[test]
fn fallback_profile_mirrors_its_row() {
    for c in fallback_table() {
        let p = lookup_fallback(c.jedec).unwrap();
        assert_eq!(p.page_size, c.page_size);
        assert_eq!(p.capacity, Some(c.capacity));
        assert_eq!(p.sfdp_revision, None);
        assert_eq!(p.address_width.bytes(), c.address_bytes);
    }
}
