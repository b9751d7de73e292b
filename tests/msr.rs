use ab_os_bel::msr::{
    free_mtrr_pair, next_power_of_two, read_field, set_mtrr_wc, write_field, Feature, MsrError,
    MtrrUpdate,
};

#[test]
fn read_fields() {
    assert_eq!(read_field(0x0000_0000_0000_0D0A, 0, 7), 0x0A);
    assert_eq!(read_field(0x0000_0000_0000_0D0A, 10, 10), 1);
    assert_eq!(read_field(0x0000_0000_0000_0D0A, 11, 11), 1);
    assert_eq!(read_field(0xF000_0000_0000_0000, 60, 63), 0xF);
    assert_eq!(read_field(0x1234_5678_9ABC_DEF0, 0, 63), 0x1234_5678_9ABC_DEF0);
}

#[test]
fn write_fields() {
    assert_eq!(write_field(0xFFFF_FFFF_FFFF_FFFF, 12, 47, 0), Ok(0xFFFF_0000_0000_0FFF));
    assert_eq!(write_field(0, 11, 11, 1), Ok(0x800));
    assert_eq!(write_field(0xAB, 0, 7, 1), Ok(0x01));
    assert_eq!(write_field(0, 0, 63, u64::MAX), Ok(u64::MAX));
}

#[test]
fn write_field_rejects_wide_values() {
    assert_eq!(write_field(0, 11, 11, 2), Err(MsrError::ValueExceedsBitRange));
    assert_eq!(write_field(0, 12, 47, 1 << 36), Err(MsrError::ValueExceedsBitRange));
    assert_eq!(write_field(0, 12, 47, (1 << 36) - 1), Ok(0x0000_FFFF_FFFF_F000));
}

#[test]
fn powers_of_two() {
    assert_eq!(next_power_of_two(0), 1);
    assert_eq!(next_power_of_two(1), 1);
    assert_eq!(next_power_of_two(3), 4);
    assert_eq!(next_power_of_two(0x30_0000), 0x40_0000);
    assert_eq!(next_power_of_two(1 << 63), 1 << 63);
}

#[test]
fn first_unused_pair() {
    let p = free_mtrr_pair(&vec![0x800, 0xFFF, 0x7FF, 0]).unwrap();
    assert_eq!((p.base_reg(), p.mask_reg()), (0x204, 0x205));
    assert!(free_mtrr_pair(&vec![0x800, 0x800]).is_none());
    assert!(free_mtrr_pair(&vec![]).is_none());
}

#[test]
fn write_combining_update() {
    let cap = 0x0000_0000_0000_0D04;
    let bases = vec![0x6, 0x0, 0x0, 0x0];
    let masks = vec![0xFFFF_F000_0800, 0x0, 0x0, 0x0];
    let u = set_mtrr_wc(true, cap, 0x6, &bases, &masks, 0xFD00_0000, 0x30_0000).unwrap();
    assert_eq!(
        u,
        MtrrUpdate {
            def_type: 0x806,
            base_reg: 0x202,
            base_value: 0xFD00_0001,
            mask_reg: 0x203,
            mask_value: 0xFFFF_FFC0_0800,
        }
    );
}

#[test]
fn write_combining_refusals() {
    let bases = vec![0; 2];
    let free = vec![0; 2];
    let used = vec![0x800; 2];
    assert_eq!(set_mtrr_wc(false, 0x402, 0, &bases, &free, 0, 0x1000), Err(MsrError::NoMsrSupport));
    assert_eq!(set_mtrr_wc(true, 0x002, 0, &bases, &free, 0, 0x1000), Err(MsrError::NoWCTypeSupport));
    assert_eq!(set_mtrr_wc(true, 0x402, 0, &bases, &used, 0, 0x1000), Err(MsrError::NoFreeMtrPair));
    assert_eq!(
        set_mtrr_wc(true, 0x402, 0, &bases, &free, 1 << 48, 0x1000),
        Err(MsrError::ValueExceedsBitRange)
    );
}

#[test]
fn cpu_features() {
    let f = Feature::mtrr();
    assert!(f.is_set_in(1 << 12));
    assert!(!f.is_set_in(!(1 << 12)));
}
