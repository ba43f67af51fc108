use semitile_core::EntryFormat;
use semitile_core::Tilemap;
use semitile_core::TilemapEntry;

#[test]
fn test_tilemap_entry_new() {
    let entry = TilemapEntry::new(EntryFormat::RevisionA, 100, 5, true, false, false);
    assert_eq!(entry.tile_index(), 100);
    assert_eq!(entry.palette_idx(), 5);
    assert_eq!(entry.h_flip(), true);
    assert_eq!(entry.v_flip(), false);
    assert_eq!(entry.priority(), false);
}

#[test]
fn test_tilemap_entry_new_clamps() {
    let entry = TilemapEntry::new(EntryFormat::RevisionA, 2000, 20, false, false, false);
    assert_eq!(entry.tile_index(), 1023); // Clamped to max
    assert_eq!(entry.palette_idx(), 7); // Clamped to max (backgrounds use 0-7)
}

#[test]
fn test_tilemap_entry_new_clamps_rev_b() {
    let entry = TilemapEntry::new(EntryFormat::RevisionB, 2000, 20, false, false, false);
    assert_eq!(entry.tile_index(), 1023); // Clamped to max
    assert_eq!(entry.palette_idx(), 15); // Clamped to the 4-bit maximum
}

#[test]
fn test_tilemap_entry_u16_conversion() {
    let entry = TilemapEntry::new(EntryFormat::RevisionA, 512, 7, true, true, true);
    let value = entry.to_u16();

    // 512 | (7 << 10) | (1 << 13) | (1 << 14) | (1 << 15)
    // Revision A: bits 0-9=tile, 10-12=palette, 13=hflip, 14=vflip, 15=priority
    let expected = 512 | (7 << 10) | (1 << 13) | (1 << 14) | (1 << 15);
    assert_eq!(value, expected);

    let entry2 = TilemapEntry::from_u16(EntryFormat::RevisionA, value);
    assert_eq!(entry, entry2);
}

#[test]
fn test_tilemap_entry_u16_no_flips() {
    let entry = TilemapEntry::new(EntryFormat::RevisionA, 123, 3, false, false, false);
    let value = entry.to_u16();

    // 123 | (3 << 10) per the Revision A layout
    let expected = 123 | (3 << 10);
    assert_eq!(value, expected);

    let entry2 = TilemapEntry::from_u16(EntryFormat::RevisionA, value);
    assert_eq!(entry, entry2);
}

#[test]
fn test_tilemap_entry_u16_conversion_rev_b() {
    let entry = TilemapEntry::new(EntryFormat::RevisionB, 512, 13, true, true, false);
    let value = entry.to_u16();

    // Revision B: bits 0-9=tile, 10=hflip, 11=vflip, 12-15=palette
    let expected = 512 | (1 << 10) | (1 << 11) | (13 << 12);
    assert_eq!(value, expected);

    let entry2 = TilemapEntry::from_u16(EntryFormat::RevisionB, value);
    assert_eq!(entry, entry2);
}

#[test]
fn test_tilemap_entry_default() {
    let entry = TilemapEntry::default_for(EntryFormat::RevisionA);
    assert_eq!(entry.tile_index(), 0);
    assert_eq!(entry.palette_idx(), 0);
    assert_eq!(entry.h_flip(), false);
    assert_eq!(entry.v_flip(), false);
    assert_eq!(entry.priority(), false);
}

#[test]
fn test_tilemap_entry_setters() {
    let mut entry = TilemapEntry::default_for(EntryFormat::RevisionA);

    entry.set_tile_index(456);
    entry.set_palette_idx(6);
    entry.set_h_flip(true);
    entry.set_v_flip(true);
    entry.set_priority(true);

    assert_eq!(entry.tile_index(), 456);
    assert_eq!(entry.palette_idx(), 6);
    assert_eq!(entry.h_flip(), true);
    assert_eq!(entry.v_flip(), true);
    assert_eq!(entry.priority(), true);
}

#[test]
fn test_tilemap_entry_rev_b_priority() {
    // Revision B has no priority bit: setting it is a silent no-op.
    let mut entry = TilemapEntry::default_for(EntryFormat::RevisionB);
    entry.set_priority(true);
    assert_eq!(entry.priority(), false);

    let entry2 = TilemapEntry::new(EntryFormat::RevisionB, 1, 1, false, false, true);
    assert_eq!(entry2.priority(), false);
}

#[test]
fn test_tilemap_new() {
    let tilemap = Tilemap::new(EntryFormat::RevisionA, 32, 30);
    assert_eq!(tilemap.width(), 32);
    assert_eq!(tilemap.height(), 30);

    // All entries should be default
    for y in 0usize..30 {
        for x in 0usize..32 {
            assert_eq!(
                tilemap.get_entry(x, y),
                Some(TilemapEntry::default_for(EntryFormat::RevisionA))
            );
        }
    }
}

#[test]
fn test_tilemap_dimensions_clamp() {
    let tilemap = Tilemap::new(EntryFormat::RevisionA, 300, 0);
    assert_eq!(tilemap.width(), 256); // Clamped to max
    assert_eq!(tilemap.height(), 1); // Clamped to min
}

#[test]
fn test_tilemap_set_and_get() {
    let mut tilemap = Tilemap::new(EntryFormat::RevisionA, 10, 10);
    let entry = TilemapEntry::new(EntryFormat::RevisionA, 42, 3, true, false, false);

    tilemap.set_entry(5, 7, entry);
    assert_eq!(tilemap.get_entry(5, 7), Some(entry));
    assert_eq!(
        tilemap.get_entry(0, 0),
        Some(TilemapEntry::default_for(EntryFormat::RevisionA))
    );
}

#[test]
fn test_tilemap_out_of_bounds() {
    let mut tilemap = Tilemap::new(EntryFormat::RevisionA, 10, 10);
    let entry = TilemapEntry::new(EntryFormat::RevisionA, 100, 5, false, false, false);

    // Out of bounds set should do nothing
    tilemap.set_entry(10, 0, entry);
    tilemap.set_entry(0, 10, entry);
    tilemap.set_entry(20, 20, entry);

    // Out of bounds get should return None
    assert_eq!(tilemap.get_entry(10, 0), None);
    assert_eq!(tilemap.get_entry(0, 10), None);
    assert_eq!(tilemap.get_entry(20, 20), None);
}

#[test]
fn test_tilemap_set_entry_format_mismatch() {
    // An entry of the other revision is never stored: the layouts must not
    // be mixed.
    let mut tilemap = Tilemap::new(EntryFormat::RevisionA, 4, 4);
    let entry = TilemapEntry::new(EntryFormat::RevisionB, 99, 9, false, false, false);

    tilemap.set_entry(1, 1, entry);
    assert_eq!(
        tilemap.get_entry(1, 1),
        Some(TilemapEntry::default_for(EntryFormat::RevisionA))
    );
}

#[test]
fn test_tilemap_binary_export() {
    let mut tilemap = Tilemap::new(EntryFormat::RevisionA, 4, 4);

    tilemap.set_entry(0, 0, TilemapEntry::new(EntryFormat::RevisionA, 1, 0, false, false, false));
    tilemap.set_entry(1, 0, TilemapEntry::new(EntryFormat::RevisionA, 2, 1, true, false, false));
    tilemap.set_entry(0, 1, TilemapEntry::new(EntryFormat::RevisionA, 3, 2, false, true, false));

    let binary = tilemap.export_binary();
    assert_eq!(binary.len(), 4 * 4 * 2); // 32 bytes

    // Check first entry (tile 1, palette 0, no flips, no priority) = 0x0001
    assert_eq!(binary[0], 0x01);
    assert_eq!(binary[1], 0x00);

    // Check second entry (tile 2, palette 1, h_flip)
    // Revision A: bits 0-9=tile(2), 10-12=pal(1), 13=hflip(1), 14=vflip(0), 15=priority(0)
    let expected = 2 | (1 << 10) | (1 << 13);
    assert_eq!(binary[2], (expected & 0xFF) as u8);
    assert_eq!(binary[3], ((expected >> 8) & 0xFF) as u8);
}

#[test]
fn test_tilemap_binary_import() {
    let mut tilemap1 = Tilemap::new(EntryFormat::RevisionA, 8, 8);

    // Set up a pattern
    for y in 0usize..8 {
        for x in 0usize..8 {
            let entry = TilemapEntry::new(
                EntryFormat::RevisionA,
                (y * 8 + x) as u16,
                (x % 8) as u8,
                x % 2 == 0,
                y % 2 == 0,
                (x + y) % 2 == 0,
            );
            tilemap1.set_entry(x, y, entry);
        }
    }

    let binary = tilemap1.export_binary();
    let tilemap2 = Tilemap::import_binary(EntryFormat::RevisionA, &binary, 8, 8).unwrap();

    assert_eq!(tilemap1, tilemap2);
}

#[test]
fn test_tilemap_binary_import_rev_b() {
    let mut tilemap1 = Tilemap::new(EntryFormat::RevisionB, 4, 4);

    for y in 0usize..4 {
        for x in 0usize..4 {
            let entry = TilemapEntry::new(
                EntryFormat::RevisionB,
                (y * 4 + x) as u16,
                (x + y) as u8,
                x % 2 == 1,
                y % 2 == 1,
                false,
            );
            tilemap1.set_entry(x, y, entry);
        }
    }

    let binary = tilemap1.export_binary();
    let tilemap2 = Tilemap::import_binary(EntryFormat::RevisionB, &binary, 4, 4).unwrap();

    assert_eq!(tilemap1, tilemap2);
}

#[test]
fn test_tilemap_binary_import_wrong_size() {
    let data = vec![0u8; 100]; // Wrong size
    assert!(Tilemap::import_binary(EntryFormat::RevisionA, &data, 10, 10).is_none());
}

#[test]
fn test_tilemap_resize_grow() {
    let mut tilemap = Tilemap::new(EntryFormat::RevisionA, 4, 4);
    let entry = TilemapEntry::new(EntryFormat::RevisionA, 123, 5, true, true, false);
    tilemap.set_entry(2, 2, entry);

    tilemap.resize(8, 8);
    assert_eq!(tilemap.width(), 8);
    assert_eq!(tilemap.height(), 8);

    // Old entry should be preserved
    assert_eq!(tilemap.get_entry(2, 2), Some(entry));

    // New entries should be default
    assert_eq!(
        tilemap.get_entry(7, 7),
        Some(TilemapEntry::default_for(EntryFormat::RevisionA))
    );
}

#[test]
fn test_tilemap_resize_shrink() {
    let mut tilemap = Tilemap::new(EntryFormat::RevisionA, 10, 10);
    let entry1 = TilemapEntry::new(EntryFormat::RevisionA, 111, 3, false, false, false);
    let entry2 = TilemapEntry::new(EntryFormat::RevisionA, 222, 7, true, true, true);

    tilemap.set_entry(2, 2, entry1);
    tilemap.set_entry(8, 8, entry2);

    tilemap.resize(5, 5);
    assert_eq!(tilemap.width(), 5);
    assert_eq!(tilemap.height(), 5);

    // Entry within bounds should be preserved
    assert_eq!(tilemap.get_entry(2, 2), Some(entry1));

    // Entry that was outside new bounds is lost
    assert_eq!(tilemap.get_entry(8, 8), None);
}

#[test]
fn test_tilemap_clear() {
    let mut tilemap = Tilemap::new(EntryFormat::RevisionA, 4, 4);
    let entry = TilemapEntry::new(EntryFormat::RevisionA, 100, 5, true, true, false);

    tilemap.fill(entry);
    assert_eq!(tilemap.get_entry(0, 0), Some(entry));
    assert_eq!(tilemap.get_entry(3, 3), Some(entry));

    tilemap.clear();
    assert_eq!(
        tilemap.get_entry(0, 0),
        Some(TilemapEntry::default_for(EntryFormat::RevisionA))
    );
    assert_eq!(
        tilemap.get_entry(3, 3),
        Some(TilemapEntry::default_for(EntryFormat::RevisionA))
    );
}

#[test]
fn test_tilemap_fill() {
    let mut tilemap = Tilemap::new(EntryFormat::RevisionA, 5, 5);
    let entry = TilemapEntry::new(EntryFormat::RevisionA, 42, 7, false, true, true);

    tilemap.fill(entry);

    for y in 0usize..5 {
        for x in 0usize..5 {
            assert_eq!(tilemap.get_entry(x, y), Some(entry));
        }
    }
}

#[test]
fn test_tilemap_fill_format_mismatch() {
    // Filling with an entry of the other revision is a silent no-op.
    let mut tilemap = Tilemap::new(EntryFormat::RevisionB, 3, 3);
    let entry = TilemapEntry::new(EntryFormat::RevisionA, 42, 7, false, true, true);

    tilemap.fill(entry);
    assert_eq!(
        tilemap.get_entry(0, 0),
        Some(TilemapEntry::default_for(EntryFormat::RevisionB))
    );
}

#[test]
fn test_tilemap_entry_all_combinations() {
    // Test all flip combinations with various tile and palette values
    for priority in [false, true] {
        for h_flip in [false, true] {
            for v_flip in [false, true] {
                for tile_idx in [0u16, 511, 1023] {
                    for pal_idx in [0u8, 3, 7] {
                        let entry = TilemapEntry::new(
                            EntryFormat::RevisionA,
                            tile_idx,
                            pal_idx,
                            h_flip,
                            v_flip,
                            priority,
                        );
                        let value = entry.to_u16();
                        let entry2 = TilemapEntry::from_u16(EntryFormat::RevisionA, value);
                        assert_eq!(
                            entry, entry2,
                            "Round-trip failed for tile={}, pal={}, h_flip={}, v_flip={}, priority={}",
                            tile_idx, pal_idx, h_flip, v_flip, priority
                        );
                    }
                }
            }
        }
    }
}

#[test]
fn test_tilemap_entry_all_combinations_rev_b() {
    // Revision B: every tile index in the sample set with every 4-bit
    // palette and every flip combination round-trips exactly.
    for h_flip in [false, true] {
        for v_flip in [false, true] {
            for tile_idx in [0u16, 511, 1023] {
                for pal_idx in 0u8..16 {
                    let entry = TilemapEntry::new(
                        EntryFormat::RevisionB,
                        tile_idx,
                        pal_idx,
                        h_flip,
                        v_flip,
                        false,
                    );
                    let value = entry.to_u16();
                    let entry2 = TilemapEntry::from_u16(EntryFormat::RevisionB, value);
                    assert_eq!(
                        entry, entry2,
                        "Round-trip failed for tile={}, pal={}, h_flip={}, v_flip={}",
                        tile_idx, pal_idx, h_flip, v_flip
                    );
                }
            }
        }
    }
}
