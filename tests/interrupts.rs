use ab_os_bel::interrupts::{init_idt, IDTEntry, IDTGateType, Idt, IdtArr};

#[test]
fn gate_layout() {
    let e = IDTEntry::new(0x1234_5678_9ABC_DEF0, 0x08, 0, IDTGateType::InterruptGate, 0);
    assert_eq!(e.to_raw(), (0x9ABC_8E00_0008_DEF0, 0x1234_5678));
    let t = IDTEntry::new(0xFFFF_FFFF_8000_0010, 0x08, 1, IDTGateType::TrapGate, 3);
    assert_eq!(t.to_raw(), (0x8000_EF01_0008_0010, 0xFFFF_FFFF));
    assert_eq!(IDTEntry::null().to_raw(), (0, 0));
}

#[test]
fn new_table_has_no_present_gate() {
    let idt = IdtArr::new();
    let raw = idt.to_raw();
    assert_eq!(raw.len(), 512);
    assert!(raw.iter().all(|&w| w == 0));
}

#[test]
fn set_entry_replaces_one_gate() {
    let mut idt = IdtArr::new();
    let e = IDTEntry::new(0x4000, 0x08, 0, IDTGateType::InterruptGate, 0);
    idt.set_entry(3, e);
    assert_eq!(idt.entry(3), e);
    assert_eq!(idt.entry(4), IDTEntry::null());
}

#[test]
fn kernel_table_binds_handlers() {
    let mut handlers: Vec<Option<u64>> = vec![None; 22];
    for v in [0usize, 1, 2, 3, 8, 13, 14, 21] {
        handlers[v] = Some(0x10_0000 + 0x100 * v as u64);
    }
    let idt = init_idt(&handlers);
    assert_eq!(idt.entry(0), IDTEntry::new(0x10_0000, 0x08, 0, IDTGateType::InterruptGate, 0));
    assert_eq!(idt.entry(14), IDTEntry::new(0x10_0E00, 0x08, 0, IDTGateType::InterruptGate, 0));
    assert_eq!(idt.entry(8), IDTEntry::new(0x10_0800, 0x08, 1, IDTGateType::InterruptGate, 0));
    assert_eq!(idt.entry(9), IDTEntry::null());
    assert_eq!(idt.entry(200), IDTEntry::null());
    assert_eq!(idt.entry(13).to_raw(), (0x0010_8E00_0008_0D00, 0));
}

#[test]
fn idt_table_operand() {
    let i = Idt::new(0xFFFF_8000_0000_2000);
    assert_eq!((i.limit, i.base), (4095, 0xFFFF_8000_0000_2000));
}
