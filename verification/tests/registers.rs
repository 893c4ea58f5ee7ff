use byteos::regs::{low_mask, reg_transfer, Field, SD_DRIVER_ADDR};

#[test]
fn field_new_accepts_what_fits() {
    assert_eq!(Field::new(0, 12), Some(Field { shift: 0, width: 12 }));
    assert_eq!(Field::new(16, 16), Some(Field { shift: 16, width: 16 }));
    assert_eq!(Field::new(0, 32), Some(Field { shift: 0, width: 32 }));
    assert_eq!(Field::new(31, 1), Some(Field { shift: 31, width: 1 }));
}

#[test]
fn field_new_refuses_what_does_not_fit() {
    assert_eq!(Field::new(0, 0), None);
    assert_eq!(Field::new(31, 2), None);
    assert_eq!(Field::new(32, 1), None);
    assert_eq!(Field::new(0, 33), None);
    assert_eq!(Field::new(u32::MAX, 1), None);
    assert_eq!(Field::new(1, u32::MAX), None);
}

#[test]
fn low_mask_values() {
    assert_eq!(low_mask(0), 0);
    assert_eq!(low_mask(1), 1);
    assert_eq!(low_mask(12), 0xFFF);
    assert_eq!(low_mask(31), 0x7FFF_FFFF);
    assert_eq!(low_mask(32), 0xFFFF_FFFF);
    assert_eq!(low_mask(40), 0xFFFF_FFFF);
}

#[test]
fn field_bits_extract_insert() {
    let freq_sel = Field { shift: 8, width: 8 };
    assert_eq!(freq_sel.bits(), 0x0000_FF00);
    assert_eq!(freq_sel.extract(0x1234_5678), 0x56);
    assert_eq!(freq_sel.insert(0x1234_5678, 0x04), 0x1234_0478);
    assert_eq!(freq_sel.insert(0x1234_5678, 0x1FF), 0x1234_FF78);
    let whole = Field { shift: 0, width: 32 };
    assert_eq!(whole.bits(), 0xFFFF_FFFF);
    assert_eq!(whole.extract(0xDEAD_BEEF), 0xDEAD_BEEF);
    assert_eq!(whole.insert(0xDEAD_BEEF, 7), 7);
    let top = Field { shift: 31, width: 1 };
    assert_eq!(top.bits(), 0x8000_0000);
    assert_eq!(top.extract(0x8000_0000), 1);
    assert_eq!(top.insert(0, 3), 0x8000_0000);
}

#[test]
fn insert_keeps_the_other_fields() {
    let blk_cnt = Field { shift: 16, width: 16 };
    let blk_size = Field { shift: 0, width: 12 };
    let word = blk_cnt.insert(0x0000_7200, 1);
    assert_eq!(word, 0x0001_7200);
    assert_eq!(blk_size.extract(word), 0x200);
    assert_eq!(blk_cnt.extract(word), 1);
}

#[test]
fn reg_transfer_adds_the_base() {
    assert_eq!(reg_transfer(0), SD_DRIVER_ADDR);
    assert_eq!(reg_transfer(0x24), 0x0431_0024);
    assert_eq!(reg_transfer(0xFF), 0x0431_00FF);
}
