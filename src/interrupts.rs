//! The interrupt descriptor table: 256 gates binding exception and
//! interrupt vectors to handler addresses.
use vstd::prelude::*;

use crate::gdt::{DOUBLE_FAULT_IST_INDEX, KERNEL_CODE_SELECTOR};

verus! {

/// Number of gates in the table.
pub const IDT_ENTRY_COUNT: usize = 256;

/// Vector of the double-fault exception.
pub const DOUBLE_FAULT_VECTOR: usize = 8;

/// Kind of a gate.
#[derive(Debug, Clone, Copy, PartialEq, Eq, Structural)]
pub enum IDTGateType {
    /// Interrupts stay disabled while the handler runs.
    InterruptGate,
    /// Interrupts stay enabled while the handler runs.
    TrapGate,
}

impl IDTGateType {
    pub open spec fn spec_value(self) -> u8 {
        match self {
            IDTGateType::InterruptGate => 0b1110,
            IDTGateType::TrapGate => 0b1111,
        }
    }

    /// The type field of the descriptor's flag byte.
    pub fn value(&self) -> (r: u8)
        ensures
            r == self.spec_value(),
    {
        match self {
            IDTGateType::InterruptGate => 0b1110,
            IDTGateType::TrapGate => 0b1111,
        }
    }
}

/// One gate of the table: 16 bytes.
#[derive(Debug, Clone, Copy, PartialEq, Eq, Structural)]
pub struct IDTEntry {
    offset_low: u16,
    selector: u16,
    ist: u8,
    flags: u8,
    offset_mid: u16,
    offset_high: u32,
}

impl IDTEntry {
    /// Address of the handler.
    pub closed spec fn offset(&self) -> int {
        self.offset_low + 0x1_0000 * self.offset_mid + 0x1_0000_0000 * self.offset_high
    }

    /// Code segment selector the handler runs in.
    pub closed spec fn selector(&self) -> u16 {
        self.selector
    }

    /// Slot of the interrupt stack table plus one; 0 keeps the current stack.
    pub closed spec fn ist(&self) -> u8 {
        self.ist
    }

    /// Present bit, privilege level and gate type.
    pub closed spec fn flag_byte(&self) -> u8 {
        self.flags
    }

    /// The low eight bytes as the CPU reads them.
    pub open spec fn raw_low(&self) -> int {
        self.offset() % 0x1_0000 + 0x1_0000 * self.selector() + 0x1_0000_0000 * self.ist()
            + 0x100_0000_0000 * self.flag_byte() + 0x1_0000_0000_0000 * ((self.offset()
            / 0x1_0000) % 0x1_0000)
    }

    /// The high eight bytes: offset bits 32-63, then a reserved word.
    pub open spec fn raw_high(&self) -> int {
        self.offset() / 0x1_0000_0000
    }

    /// A present gate to the handler at `offset`, run in code segment
    /// `selector` on interrupt stack `ist` (0 for none), of type `gate_type`,
    /// callable from privilege level `dpl` and above.
    pub fn new(offset: u64, selector: u16, ist: u8, gate_type: IDTGateType, dpl: u8) -> (r:
        IDTEntry)
        requires
            ist < 8,
            dpl < 4,
        ensures
            r.offset() == offset,
            r.selector() == selector,
            r.ist() == ist,
            r.flag_byte() == 0x80 + 0x20 * dpl + gate_type.spec_value(),
    {
        IDTEntry {
            offset_low: (offset % 0x1_0000) as u16,
            selector,
            ist,
            flags: 0x80 + dpl * 0x20 + gate_type.value(),
            offset_mid: ((offset / 0x1_0000) % 0x1_0000) as u16,
            offset_high: (offset / 0x1_0000_0000) as u32,
        }
    }

    /// A gate that is not present: every bit clear.
    pub fn null() -> (r: IDTEntry)
        ensures
            r.offset() == 0,
            r.selector() == 0,
            r.ist() == 0,
            r.flag_byte() == 0,
    {
        IDTEntry { offset_low: 0, selector: 0, ist: 0, flags: 0, offset_mid: 0, offset_high: 0 }
    }

    /// The descriptor as the CPU reads it: low eight bytes, then high eight.
    pub fn to_raw(&self) -> (r: (u64, u64))
        ensures
            r.0 == self.raw_low(),
            r.1 == self.raw_high(),
    {
        proof {
            let hi = self.offset_mid as int + 0x1_0000 * self.offset_high;
            assert(self.offset() == self.offset_low + 0x1_0000 * hi);
            assert(self.offset() % 0x1_0000 == self.offset_low && self.offset() / 0x1_0000 == hi)
                by (nonlinear_arith)
                requires
                    self.offset() == self.offset_low + 0x1_0000 * hi,
                    0 <= self.offset_low < 0x1_0000,
                    hi >= 0,
            ;
            assert(hi % 0x1_0000 == self.offset_mid);
            assert(self.offset() / 0x1_0000_0000 == self.offset_high) by (nonlinear_arith)
                requires
                    self.offset() == self.offset_low + 0x1_0000 * (self.offset_mid + 0x1_0000
                        * self.offset_high),
                    0 <= self.offset_low < 0x1_0000,
                    0 <= self.offset_mid < 0x1_0000,
                    self.offset_high >= 0,
            ;
        }
        let low = self.offset_low as u64 + 0x1_0000 * (self.selector as u64) + 0x1_0000_0000 * (
        self.ist as u64) + 0x100_0000_0000 * (self.flags as u64) + 0x1_0000_0000_0000 * (
        self.offset_mid as u64);
        (low, self.offset_high as u64)
    }
}

/// `e` is the kernel's interrupt gate to `handler`, on interrupt stack `ist`.
pub open spec fn is_kernel_gate(e: IDTEntry, handler: u64, ist: u8) -> bool {
    &&& e.offset() == handler
    &&& e.selector() == KERNEL_CODE_SELECTOR
    &&& e.ist() == ist
    &&& e.flag_byte() == 0x8E
}

/// `e` is a gate that is not present.
pub open spec fn is_null_gate(e: IDTEntry) -> bool {
    e.offset() == 0 && e.selector() == 0 && e.ist() == 0 && e.flag_byte() == 0
}

/// The interrupt stack field for exception `vector`: the double fault runs on
/// its own stack, every other handler on the current one.
pub open spec fn ist_for(vector: int) -> u8 {
    if vector == DOUBLE_FAULT_VECTOR {
        (DOUBLE_FAULT_IST_INDEX + 1) as u8
    } else {
        0
    }
}

/// The 256 gates.
pub struct IdtArr {
    entries: Vec<IDTEntry>,
}

impl View for IdtArr {
    type V = Seq<IDTEntry>;

    closed spec fn view(&self) -> Seq<IDTEntry> {
        self.entries@
    }
}

impl IdtArr {
    /// A table of 256 gates that are not present.
    pub fn new() -> (r: IdtArr)
        ensures
            r@.len() == IDT_ENTRY_COUNT,
            forall|i: int| 0 <= i < IDT_ENTRY_COUNT ==> is_null_gate(#[trigger] r@[i]),
    {
        let mut entries: Vec<IDTEntry> = Vec::new();
        let mut i: usize = 0;
        while i < IDT_ENTRY_COUNT
            invariant
                i <= IDT_ENTRY_COUNT,
                entries@.len() == i,
                forall|k: int| 0 <= k < i ==> is_null_gate(#[trigger] entries@[k]),
            decreases IDT_ENTRY_COUNT - i,
        {
            entries.push(IDTEntry::null());
            i = i + 1;
        }
        IdtArr { entries }
    }

    /// Puts `entry` at vector `index`.
    pub fn set_entry(&mut self, index: usize, entry: IDTEntry)
        requires
            index < old(self)@.len(),
        ensures
            final(self)@ == old(self)@.update(index as int, entry),
    {
        self.entries.set(index, entry);
    }

    /// The descriptor at vector `index`.
    pub fn entry(&self, index: usize) -> (r: IDTEntry)
        requires
            index < self@.len(),
        ensures
            r == self@[index as int],
    {
        self.entries[index]
    }

    /// The table as the CPU reads it, in 8-byte words.
    pub fn to_raw(&self) -> (r: Vec<u64>)
        ensures
            r@.len() == 2 * self@.len(),
            forall|i: int|
                0 <= i < self@.len() ==> r@[2 * i] == #[trigger] self@[i].raw_low() && r@[2 * i
                    + 1] == self@[i].raw_high(),
    {
        let mut r: Vec<u64> = Vec::new();
        let mut i: usize = 0;
        while i < self.entries.len()
            invariant
                i <= self@.len(),
                r@.len() == 2 * i,
                forall|k: int|
                    0 <= k < i ==> r@[2 * k] == #[trigger] self@[k].raw_low() && r@[2 * k + 1]
                        == self@[k].raw_high(),
            decreases self@.len() - i,
        {
            let (low, high) = self.entries[i].to_raw();
            r.push(low);
            r.push(high);
            i = i + 1;
        }
        r
    }
}

/// Size in bytes of the table.
pub const IDT_SIZE: u16 = 4096;

/// The operand of the instruction that loads the interrupt table: size in
/// bytes minus one, and address.
#[derive(Debug, Clone, Copy, PartialEq, Eq, Structural)]
pub struct Idt {
    pub limit: u16,
    pub base: u64,
}

impl Idt {
    /// The operand for a table of 256 gates placed at `base`.
    pub fn new(base: u64) -> (r: Idt)
        ensures
            r.limit == IDT_SIZE - 1,
            r.base == base,
    {
        Idt { limit: IDT_SIZE - 1, base }
    }
}

/// The kernel's interrupt table: vector `v` gets an interrupt gate to
/// `handlers[v]` in the kernel code segment, when there is one; the double
/// fault runs on its own interrupt stack. Every other gate is not present.
pub fn init_idt(handlers: &Vec<Option<u64>>) -> (r: IdtArr)
    requires
        handlers@.len() <= IDT_ENTRY_COUNT,
    ensures
        r@.len() == IDT_ENTRY_COUNT,
        forall|v: int|
            0 <= v < IDT_ENTRY_COUNT ==> match (if v < handlers@.len() {
                handlers@[v]
            } else {
                None
            }) {
                Some(h) => is_kernel_gate(#[trigger] r@[v], h, ist_for(v)),
                None => is_null_gate(r@[v]),
            },
{
    let mut idt = IdtArr::new();
    let mut v: usize = 0;
    while v < handlers.len()
        invariant
            handlers@.len() <= IDT_ENTRY_COUNT,
            v <= handlers@.len(),
            idt@.len() == IDT_ENTRY_COUNT,
            forall|k: int|
                0 <= k < IDT_ENTRY_COUNT ==> match (if k < v {
                    handlers@[k]
                } else {
                    None
                }) {
                    Some(h) => is_kernel_gate(#[trigger] idt@[k], h, ist_for(k)),
                    None => is_null_gate(idt@[k]),
                },
        decreases handlers@.len() - v,
    {
        if let Some(h) = handlers[v] {
            let ist: u8 = if v == DOUBLE_FAULT_VECTOR {
                (DOUBLE_FAULT_IST_INDEX + 1) as u8
            } else {
                0
            };
            idt.set_entry(
                v,
                IDTEntry::new(h, KERNEL_CODE_SELECTOR, ist, IDTGateType::InterruptGate, 0),
            );
        }
        v = v + 1;
    }
    idt
}

} // verus!
