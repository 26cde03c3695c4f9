use norbert::profile::{
    plan_erase, AddressWidth, EraseMenu, ErasePlan, EraseType, FlashProfile, ProfileSource,
};

fn profile_with(sizes: &[(usize, u8)]) -> FlashProfile {
    FlashProfile {
        page_size: 256,
        address_width: AddressWidth::Three,
        capacity: Some(2 * 1024 * 1024),
        erase: EraseMenu::new(
            sizes
                .iter()
                .map(|(s, o)| EraseType { size: *s, opcode: *o })
                .collect(),
        )
        .expect("test menu is non-empty"),
        source: ProfileSource::Sfdp,
        sfdp_revision: None,
    }
}

fn plan_addrs(p: &ErasePlan) -> Vec<(usize, u8)> {
    p.ops().iter().map(|o| (o.addr, o.ty.opcode)).collect()
}

#[test]
fn address_width_bytes_and_display() {
    assert_eq!(AddressWidth::Three.bytes(), 3);
    assert_eq!(AddressWidth::Four.bytes(), 4);
    assert!(AddressWidth::Four.is_four_byte());
    assert!(!AddressWidth::Three.is_four_byte());
    assert_eq!(AddressWidth::Three.to_text(), "3-byte");
}

#[test]
fn four_byte_width_reads_as_such() {
    assert_eq!(AddressWidth::Four.to_text(), "4-byte");
}

#[test]
fn erase_menu_rejects_empty() {
    assert!(EraseMenu::new(vec![]).is_none());
}

#[test]
fn erase_menu_sorts_desc_and_dedups() {
    let m = EraseMenu::new(vec![
        EraseType { size: 4096, opcode: 0x20 },
        EraseType { size: 65536, opcode: 0xD8 },
        EraseType { size: 4096, opcode: 0x20 },
    ])
    .unwrap();
    assert_eq!(m.largest().size, 65536);
    assert_eq!(m.smallest().size, 4096);
    assert_eq!(m.iter().len(), 2); // duplicate 4096 dropped
}

#[test]
fn erase_menu_keeps_the_first_entry_of_a_repeated_size() {
    let m = EraseMenu::new(vec![
        EraseType { size: 4096, opcode: 0x20 },
        EraseType { size: 4096, opcode: 0x21 },
        EraseType { size: 32768, opcode: 0x52 },
    ])
    .unwrap();
    assert_eq!(
        m.iter(),
        vec![
            EraseType { size: 32768, opcode: 0x52 },
            EraseType { size: 4096, opcode: 0x20 },
        ]
    );
}

#[test]
fn rebuilding_a_menu_from_its_entries_changes_nothing() {
    let m = EraseMenu::new(vec![
        EraseType { size: 4096, opcode: 0x20 },
        EraseType { size: 65536, opcode: 0xD8 },
        EraseType { size: 32768, opcode: 0x52 },
    ])
    .unwrap();
    let again = EraseMenu::new(m.iter()).unwrap();
    assert_eq!(again.iter(), m.iter());
}

#[test]
fn single_granularity_plan_is_64k_blocks() {
    let p = profile_with(&[(64 * 1024, 0xD8)]);
    assert_eq!(
        plan_addrs(&plan_erase(&p, 0, 135_100)),
        vec![(0, 0xD8), (65_536, 0xD8), (131_072, 0xD8)]
    );
}

#[test]
fn mixed_granularity_uses_small_sector_at_tail() {
    let p = profile_with(&[(4 * 1024, 0x20), (32 * 1024, 0x52), (64 * 1024, 0xD8)]);
    assert_eq!(
        plan_addrs(&plan_erase(&p, 0, 131_072 + 100)),
        vec![(0, 0xD8), (65_536, 0xD8), (131_072, 0x20)]
    );
}

#[test]
fn zero_len_is_empty() {
    assert!(plan_erase(&profile_with(&[(64 * 1024, 0xD8)]), 0, 0).is_empty());
}

#[test]
fn unaligned_start_uses_small_sectors_up_to_the_next_block() {
    let p = profile_with(&[(4 * 1024, 0x20), (64 * 1024, 0xD8)]);
    let plan = plan_erase(&p, 60 * 1024 + 5, 10 * 1024);
    assert_eq!(
        plan_addrs(&plan),
        vec![(60 * 1024, 0x20), (64 * 1024, 0x20), (68 * 1024, 0x20)]
    );
    assert_eq!(plan.blocks(), 3);
    assert!(!plan.is_empty());
}

#[test]
fn every_byte_of_the_range_is_covered() {
    let p = profile_with(&[(4 * 1024, 0x20), (32 * 1024, 0x52), (64 * 1024, 0xD8)]);
    let (offset, len) = (3 * 4096 + 17, 200_000);
    let plan = plan_erase(&p, offset, len);
    let ops = plan.ops();
    assert_eq!(ops[0].addr, offset / 4096 * 4096);
    for w in ops.windows(2) {
        assert_eq!(w[0].addr + w[0].ty.size, w[1].addr);
    }
    let last = ops.last().unwrap();
    assert!(last.addr + last.ty.size >= offset + len);
    assert_eq!(p.min_erase(), 4096);
}
