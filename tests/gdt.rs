use ab_os_bel::gdt::{
    init, Gdt, GdtArr, GdtFlags, GdtNormalAccess, GdtNormalDescriptor, GdtSystemAccess,
    GdtSystemDescriptor, TaskStateSegment,
};

fn code_access(accessed: bool) -> GdtNormalAccess {
    GdtNormalAccess {
        present: true,
        privilege: 0,
        descriptor_type: 1,
        executable: true,
        conforming: 0,
        readable_writable: 1,
        accessed,
    }
}

#[test]
fn code_access_byte_encodes_and_decodes() {
    assert_eq!(code_access(false).value(), 0x9A);
    assert_eq!(GdtNormalAccess::from_u8(0x9A), code_access(false));
}

#[test]
fn accessed_bit_is_bit_zero() {
    assert_eq!(code_access(true).value(), 0x9B);
    assert_eq!(GdtNormalAccess::from_u8(0x9B), code_access(true));
}

#[test]
fn data_access_byte() {
    let a = GdtNormalAccess::from_u8(0x92);
    assert!(a.present && !a.executable && !a.accessed);
    assert_eq!((a.privilege, a.descriptor_type, a.conforming, a.readable_writable), (0, 1, 0, 1));
    assert_eq!(a.value(), 0x92);
}

#[test]
fn access_fields_keep_only_their_bits() {
    let a = GdtNormalAccess {
        present: false,
        privilege: 7,
        descriptor_type: 2,
        executable: false,
        conforming: 3,
        readable_writable: 2,
        accessed: false,
    };
    assert_eq!(a.value(), 0b0111_0100);
}

#[test]
fn system_access_byte() {
    let a = GdtSystemAccess { present: true, privilege: 0, descriptor_type: 0, segment_type: 0x9 };
    assert_eq!(a.value(), 0x89);
    assert_eq!(GdtSystemAccess::from_u8(0x89), a);
    assert_eq!(GdtSystemAccess::from_u8(0xEB).value(), 0xEB);
}

#[test]
fn flag_nibbles() {
    assert_eq!(GdtFlags { granularity: 1, size: 0, long_mode_code: 1 }.value(), 0xA);
    assert_eq!(GdtFlags { granularity: 1, size: 1, long_mode_code: 0 }.value(), 0xC);
    assert_eq!(GdtFlags::from_u8(0xC), GdtFlags { granularity: 1, size: 1, long_mode_code: 0 });
}

#[test]
fn normal_descriptor_layout() {
    let d = GdtNormalDescriptor::new(
        0x1234_5678,
        0xA_BCDE,
        code_access(false),
        GdtFlags { granularity: 1, size: 0, long_mode_code: 1 },
    );
    assert_eq!(d.to_raw(), 0x12AA_9A34_5678_BCDE);
    assert_eq!(GdtNormalDescriptor::null_descriptor().to_raw(), 0);
}

#[test]
fn limit_keeps_twenty_bits() {
    let d = GdtNormalDescriptor::new(0, 0xFFF0_1234, code_access(false), GdtFlags::from_u8(0));
    assert_eq!(d.to_raw(), 0x0000_9A00_0000_1234);
}

#[test]
fn system_descriptor_layout_and_rebase() {
    let access = GdtSystemAccess::from_u8(0x89);
    let mut d = GdtSystemDescriptor::new(0x1122_3344_5566_7788, 103, access, GdtFlags::from_u8(0));
    assert_eq!(d.to_raw(), (0x5500_8966_7788_0067, 0x1122_3344));
    d.change_base(0xFFFF_8000_0012_3456);
    assert_eq!(d.to_raw(), (0x0000_8912_3456_0067, 0xFFFF_8000));
}

#[test]
fn kernel_table_layout() {
    let gdt = GdtArr::new();
    assert_eq!(
        gdt.to_raw(),
        vec![0, 0x00AF_9A00_0000_FFFF, 0x00CF_9200_0000_FFFF, 0x0000_8900_0000_0067, 0]
    );
}

#[test]
fn init_points_tss_descriptor_at_tss() {
    let gdt = init(0xFFFF_8000_DEAD_B000);
    let raw = gdt.to_raw();
    assert_eq!(raw[3], 0x0000_89AD_B000_0067 | (0xDEu64 << 56));
    assert_eq!(raw[4], 0xFFFF_8000);
    let mut other = GdtArr::new();
    other.change_tss_base(0xFFFF_8000_DEAD_B000);
    assert_eq!(other, gdt);
}

#[test]
fn gdt_table_operand() {
    let g = Gdt::new(0x1000);
    assert_eq!((g.limit, g.base), (39, 0x1000));
}

#[test]
fn task_state_segments() {
    assert_eq!(TaskStateSegment::empty(), TaskStateSegment::new(0, 0, 0, 0, 0, 0, 0, 0, 0, 0));
    assert_eq!(
        TaskStateSegment::for_double_fault_stack(0x9000),
        TaskStateSegment::new(0, 0, 0, 0x9000, 0, 0, 0, 0, 0, 0)
    );
    assert_ne!(TaskStateSegment::for_double_fault_stack(0x9000), TaskStateSegment::empty());
}
