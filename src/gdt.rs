//! The global descriptor table: access bytes, flags, segment descriptors,
//! the task state segment, and the table the kernel loads.
use vstd::prelude::*;

verus! {

/// 1 for `true`, 0 for `false`.
pub open spec fn bit(b: bool) -> int {
    if b {
        1
    } else {
        0
    }
}

/// Access byte of a code or data segment descriptor.
#[derive(Debug, Clone, Copy, PartialEq, Eq, Structural)]
pub struct GdtNormalAccess {
    /// Bit 7: the segment is valid.
    pub present: bool,
    /// Bits 5 and 6: ring level, 0 to 3.
    pub privilege: u8,
    /// Bit 4: 0 for a system segment, 1 for code or data.
    pub descriptor_type: u8,
    /// Bit 3: code segment rather than data.
    pub executable: bool,
    /// Bit 2: data grows down, or code may run from lower privilege levels.
    pub conforming: u8,
    /// Bit 1: data is writable, or code is readable.
    pub readable_writable: u8,
    /// Bit 0: set by the CPU on access.
    pub accessed: bool,
}

/// The access byte of `a`; each field keeps only the bits it has room for.
pub open spec fn normal_access_byte(a: GdtNormalAccess) -> int {
    128 * bit(a.present) + 32 * (a.privilege % 4) + 16 * bit(a.descriptor_type != 0) + 8 * bit(
        a.executable,
    ) + 4 * (a.conforming % 2) + 2 * (a.readable_writable % 2) + bit(a.accessed)
}

/// The fields that the access byte `v` holds.
pub open spec fn decode_normal_access(v: u8) -> GdtNormalAccess {
    GdtNormalAccess {
        present: (v / 128) % 2 == 1,
        privilege: ((v / 32) % 4) as u8,
        descriptor_type: ((v / 16) % 2) as u8,
        executable: (v / 8) % 2 == 1,
        conforming: ((v / 4) % 2) as u8,
        readable_writable: ((v / 2) % 2) as u8,
        accessed: v % 2 == 1,
    }
}

/// Every field of `a` fits the bits it is given.
pub open spec fn normal_access_in_range(a: GdtNormalAccess) -> bool {
    a.privilege < 4 && a.descriptor_type < 2 && a.conforming < 2 && a.readable_writable < 2
}

impl GdtNormalAccess {
    /// The access byte.
    pub fn value(&self) -> (r: u8)
        ensures
            r == normal_access_byte(*self),
    {
        let mut value: u8 = 0;
        if self.present {
            value = value + 128;
        }
        value = value + (self.privilege % 4) * 32;
        if self.descriptor_type != 0 {
            value = value + 16;
        }
        if self.executable {
            value = value + 8;
        }
        value = value + (self.conforming % 2) * 4;
        value = value + (self.readable_writable % 2) * 2;
        if self.accessed {
            value = value + 1;
        }
        value
    }

    /// The fields of the access byte `value`.
    pub fn from_u8(value: u8) -> (r: GdtNormalAccess)
        ensures
            r == decode_normal_access(value),
    {
        GdtNormalAccess {
            present: (value / 128) % 2 == 1,
            privilege: (value / 32) % 4,
            descriptor_type: (value / 16) % 2,
            executable: (value / 8) % 2 == 1,
            conforming: (value / 4) % 2,
            readable_writable: (value / 2) % 2,
            accessed: value % 2 == 1,
        }
    }
}

/// Access byte of a system segment descriptor.
#[derive(Debug, Clone, Copy, PartialEq, Eq, Structural)]
pub struct GdtSystemAccess {
    /// Bit 7: the segment is valid.
    pub present: bool,
    /// Bits 5 and 6: ring level, 0 to 3.
    pub privilege: u8,
    /// Bit 4: 0 for a system segment, 1 for code or data.
    pub descriptor_type: u8,
    /// Bits 0 to 3: in long mode 0x2 is an LDT, 0x9 an available 64-bit task
    /// state segment, 0xB a busy one.
    pub segment_type: u8,
}

/// The access byte of `a`.
pub open spec fn system_access_byte(a: GdtSystemAccess) -> int {
    128 * bit(a.present) + 32 * (a.privilege % 4) + 16 * bit(a.descriptor_type != 0) + (
    a.segment_type % 16)
}

/// The fields that the access byte `v` holds.
pub open spec fn decode_system_access(v: u8) -> GdtSystemAccess {
    GdtSystemAccess {
        present: (v / 128) % 2 == 1,
        privilege: ((v / 32) % 4) as u8,
        descriptor_type: ((v / 16) % 2) as u8,
        segment_type: (v % 16) as u8,
    }
}

impl GdtSystemAccess {
    /// The access byte.
    pub fn value(&self) -> (r: u8)
        ensures
            r == system_access_byte(*self),
    {
        let mut value: u8 = 0;
        if self.present {
            value = value + 128;
        }
        value = value + (self.privilege % 4) * 32;
        if self.descriptor_type != 0 {
            value = value + 16;
        }
        value + self.segment_type % 16
    }

    /// The fields of the access byte `value`.
    pub fn from_u8(value: u8) -> (r: GdtSystemAccess)
        ensures
            r == decode_system_access(value),
    {
        GdtSystemAccess {
            present: (value / 128) % 2 == 1,
            privilege: (value / 32) % 4,
            descriptor_type: (value / 16) % 2,
            segment_type: value % 16,
        }
    }
}

/// The four flag bits of a descriptor.
#[derive(Debug, Clone, Copy, PartialEq, Eq, Structural)]
pub struct GdtFlags {
    /// Bit 3: the limit counts 4 KiB pages rather than bytes.
    pub granularity: u8,
    /// Bit 2: 32-bit rather than 16-bit segment; clear for long-mode code.
    pub size: u8,
    /// Bit 1: long-mode code segment.
    pub long_mode_code: u8,
}

/// The flag nibble of `f`; bit 0 is reserved and stays clear.
pub open spec fn flags_nibble(f: GdtFlags) -> int {
    8 * (f.granularity % 2) + 4 * (f.size % 2) + 2 * (f.long_mode_code % 2)
}

/// The fields that the flag nibble in the low bits of `v` holds.
pub open spec fn decode_flags(v: u8) -> GdtFlags {
    GdtFlags {
        granularity: ((v / 8) % 2) as u8,
        size: ((v / 4) % 2) as u8,
        long_mode_code: ((v / 2) % 2) as u8,
    }
}

impl GdtFlags {
    /// The flag nibble.
    pub fn value(&self) -> (r: u8)
        ensures
            r == flags_nibble(*self),
    {
        (self.granularity % 2) * 8 + (self.size % 2) * 4 + (self.long_mode_code % 2) * 2
    }

    /// The flags in the low four bits of `value`.
    pub fn from_u8(value: u8) -> (r: GdtFlags)
        ensures
            r == decode_flags(value),
    {
        GdtFlags {
            granularity: (value / 8) % 2,
            size: (value / 4) % 2,
            long_mode_code: (value / 2) % 2,
        }
    }
}

/// Fields packed into a byte at their bit positions come back out.
proof fn lemma_byte_fields(p: u8, pr: u8, d: u8, e: u8, c: u8, rw: u8, acc: u8)
    by (bit_vector)
    requires
        p < 2,
        pr < 4,
        d < 2,
        e < 2,
        c < 2,
        rw < 2,
        acc < 2,
    ensures
        (128 * p + 32 * pr + 16 * d + 8 * e + 4 * c + 2 * rw + acc) < 256,
        ((128 * p + 32 * pr + 16 * d + 8 * e + 4 * c + 2 * rw + acc) / 128) % 2 == p,
        ((128 * p + 32 * pr + 16 * d + 8 * e + 4 * c + 2 * rw + acc) / 32) % 4 == pr,
        ((128 * p + 32 * pr + 16 * d + 8 * e + 4 * c + 2 * rw + acc) / 16) % 2 == d,
        ((128 * p + 32 * pr + 16 * d + 8 * e + 4 * c + 2 * rw + acc) / 8) % 2 == e,
        ((128 * p + 32 * pr + 16 * d + 8 * e + 4 * c + 2 * rw + acc) / 4) % 2 == c,
        ((128 * p + 32 * pr + 16 * d + 8 * e + 4 * c + 2 * rw + acc) / 2) % 2 == rw,
        (128 * p + 32 * pr + 16 * d + 8 * e + 4 * c + 2 * rw + acc) % 2 == acc,
{
}

/// A byte is the sum of its fields at their bit positions.
proof fn lemma_byte_split(v: u8)
    by (bit_vector)
    ensures
        128 * ((v / 128) % 2) + 32 * ((v / 32) % 4) + 16 * ((v / 16) % 2) + 8 * ((v / 8) % 2) + 4
            * ((v / 4) % 2) + 2 * ((v / 2) % 2) + v % 2 == v,
{
}

/// Decoding an access byte gives back the fields it was built from, and
/// building one from decoded fields gives back the byte.
pub proof fn lemma_normal_access_round_trip(a: GdtNormalAccess, v: u8)
    requires
        normal_access_in_range(a),
    ensures
        0 <= normal_access_byte(a) < 256,
        decode_normal_access(normal_access_byte(a) as u8) == a,
        normal_access_byte(decode_normal_access(v)) == v,
{
    let p: u8 = if a.present { 1 } else { 0 };
    let e: u8 = if a.executable { 1 } else { 0 };
    let acc: u8 = if a.accessed { 1 } else { 0 };
    lemma_byte_fields(p, a.privilege, a.descriptor_type, e, a.conforming, a.readable_writable, acc);
    lemma_byte_split(v);
}

/// A code or data segment descriptor: 8 bytes.
#[derive(Debug, Clone, Copy, PartialEq, Eq, Structural)]
pub struct GdtNormalDescriptor {
    limit_low: u16,
    base_low: u16,
    base_mid: u8,
    access: u8,
    flags_limit_high: u8,
    base_high: u8,
}

impl GdtNormalDescriptor {
    /// The segment's base address.
    pub closed spec fn base(&self) -> int {
        self.base_low + 0x1_0000 * self.base_mid + 0x100_0000 * self.base_high
    }

    /// The segment's limit: 20 bits.
    pub closed spec fn limit(&self) -> int {
        self.limit_low + 0x1_0000 * (self.flags_limit_high % 16)
    }

    /// The access byte.
    pub closed spec fn access_byte(&self) -> int {
        self.access as int
    }

    /// The flag nibble.
    pub closed spec fn flags(&self) -> int {
        self.flags_limit_high as int / 16
    }

    /// The descriptor as the CPU reads it: limit bits 0-15, base bits 0-23,
    /// access byte, limit bits 16-19, flags, base bits 24-31.
    pub open spec fn raw(&self) -> int {
        self.limit() % 0x1_0000 + 0x1_0000 * (self.base() % 0x100_0000) + 0x100_0000_0000
            * self.access_byte() + 0x1_0000_0000_0000 * (self.limit() / 0x1_0000)
            + 0x10_0000_0000_0000 * self.flags() + 0x100_0000_0000_0000 * (self.base()
            / 0x100_0000)
    }

    /// A descriptor for the segment at `base`, with the low 20 bits of `limit`.
    pub fn new(base: u32, limit: u32, access: GdtNormalAccess, flags: GdtFlags) -> (r:
        GdtNormalDescriptor)
        ensures
            r.base() == base,
            r.limit() == limit % 0x10_0000,
            r.access_byte() == normal_access_byte(access),
            r.flags() == flags_nibble(flags),
    {
        GdtNormalDescriptor {
            limit_low: (limit % 0x1_0000) as u16,
            base_low: (base % 0x1_0000) as u16,
            base_mid: ((base / 0x1_0000) % 0x100) as u8,
            access: access.value(),
            flags_limit_high: flags.value() * 16 + ((limit / 0x1_0000) % 16) as u8,
            base_high: (base / 0x100_0000) as u8,
        }
    }

    /// The descriptor the CPU requires in the first slot: every bit clear.
    pub fn null_descriptor() -> (r: GdtNormalDescriptor)
        ensures
            r.raw() == 0,
            r.base() == 0,
            r.limit() == 0,
            r.access_byte() == 0,
            r.flags() == 0,
    {
        Self::new(
            0,
            0,
            GdtNormalAccess {
                present: false,
                privilege: 0,
                descriptor_type: 0,
                executable: false,
                conforming: 0,
                readable_writable: 0,
                accessed: false,
            },
            GdtFlags { granularity: 0, size: 0, long_mode_code: 0 },
        )
    }

    /// The descriptor as the CPU reads it.
    pub fn to_raw(&self) -> (r: u64)
        ensures
            r == self.raw(),
    {
        self.limit_low as u64 + 0x1_0000 * (self.base_low as u64) + 0x1_0000_0000 * (
        self.base_mid as u64) + 0x100_0000_0000 * (self.access as u64) + 0x1_0000_0000_0000 * (
        self.flags_limit_high as u64) + 0x100_0000_0000_0000 * (self.base_high as u64)
    }
}

/// A system segment descriptor (a task state segment): 16 bytes.
#[derive(Debug, Clone, Copy, PartialEq, Eq, Structural)]
pub struct GdtSystemDescriptor {
    limit_low: u16,
    base_low: u16,
    base_mid: u8,
    access: u8,
    flags_limit_high: u8,
    base_high: u8,
    base_very_high: u32,
}

impl GdtSystemDescriptor {
    /// The segment's 64-bit base address.
    pub closed spec fn base(&self) -> int {
        self.base_low + 0x1_0000 * self.base_mid + 0x100_0000 * self.base_high + 0x1_0000_0000
            * self.base_very_high
    }

    /// The segment's limit: 20 bits.
    pub closed spec fn limit(&self) -> int {
        self.limit_low + 0x1_0000 * (self.flags_limit_high % 16)
    }

    /// The access byte.
    pub closed spec fn access_byte(&self) -> int {
        self.access as int
    }

    /// The flag nibble.
    pub closed spec fn flags(&self) -> int {
        self.flags_limit_high as int / 16
    }

    /// The low eight bytes as the CPU reads them; laid out as a normal descriptor.
    pub open spec fn raw_low(&self) -> int {
        self.limit() % 0x1_0000 + 0x1_0000 * (self.base() % 0x100_0000) + 0x100_0000_0000
            * self.access_byte() + 0x1_0000_0000_0000 * (self.limit() / 0x1_0000)
            + 0x10_0000_0000_0000 * self.flags() + 0x100_0000_0000_0000 * ((self.base()
            / 0x100_0000) % 0x100)
    }

    /// The high eight bytes: base bits 32-63, then a reserved word.
    pub open spec fn raw_high(&self) -> int {
        self.base() / 0x1_0000_0000
    }

    /// A descriptor for the system segment at `base`, with the low 20 bits of `limit`.
    pub fn new(base: u64, limit: u32, access: GdtSystemAccess, flags: GdtFlags) -> (r:
        GdtSystemDescriptor)
        ensures
            r.base() == base,
            r.limit() == limit % 0x10_0000,
            r.access_byte() == system_access_byte(access),
            r.flags() == flags_nibble(flags),
    {
        GdtSystemDescriptor {
            limit_low: (limit % 0x1_0000) as u16,
            base_low: (base % 0x1_0000) as u16,
            base_mid: ((base / 0x1_0000) % 0x100) as u8,
            access: access.value(),
            flags_limit_high: flags.value() * 16 + ((limit / 0x1_0000) % 16) as u8,
            base_high: ((base / 0x100_0000) % 0x100) as u8,
            base_very_high: (base / 0x1_0000_0000) as u32,
        }
    }

    /// Moves the segment to `base`; nothing else changes.
    pub fn change_base(&mut self, base: u64)
        ensures
            final(self).base() == base,
            final(self).limit() == old(self).limit(),
            final(self).access_byte() == old(self).access_byte(),
            final(self).flags() == old(self).flags(),
    {
        self.base_very_high = (base / 0x1_0000_0000) as u32;
        self.base_high = ((base / 0x100_0000) % 0x100) as u8;
        self.base_mid = ((base / 0x1_0000) % 0x100) as u8;
        self.base_low = (base % 0x1_0000) as u16;
    }

    /// The descriptor as the CPU reads it: low eight bytes, then high eight.
    pub fn to_raw(&self) -> (r: (u64, u64))
        ensures
            r.0 == self.raw_low(),
            r.1 == self.raw_high(),
    {
        proof {
            let lo = self.base_low as int + 0x1_0000 * self.base_mid;
            let hi = self.base_high as int + 0x100 * self.base_very_high;
            assert(self.base() == lo + 0x100_0000 * hi);
            assert(0 <= lo < 0x100_0000);
            assert(self.base() % 0x100_0000 == lo) by (nonlinear_arith)
                requires
                    self.base() == lo + 0x100_0000 * hi,
                    0 <= lo < 0x100_0000,
                    hi >= 0,
            ;
            assert(self.base() / 0x100_0000 == hi) by (nonlinear_arith)
                requires
                    self.base() == lo + 0x100_0000 * hi,
                    0 <= lo < 0x100_0000,
                    hi >= 0,
            ;
            assert(hi % 0x100 == self.base_high);
            assert(self.base() / 0x1_0000_0000 == self.base_very_high) by (nonlinear_arith)
                requires
                    self.base() == lo + 0x100_0000 * (self.base_high + 0x100 * self.base_very_high),
                    0 <= lo < 0x100_0000,
                    0 <= self.base_high < 0x100,
                    self.base_very_high >= 0,
            ;
        }
        let low = self.limit_low as u64 + 0x1_0000 * (self.base_low as u64) + 0x1_0000_0000 * (
        self.base_mid as u64) + 0x100_0000_0000 * (self.access as u64) + 0x1_0000_0000_0000 * (
        self.flags_limit_high as u64) + 0x100_0000_0000_0000 * (self.base_high as u64);
        (low, self.base_very_high as u64)
    }
}

/// Size in bytes of a task state segment.
pub const TSS_SIZE: u16 = 104;

/// The task state segment: the stacks the CPU switches to on a privilege
/// change or through the interrupt stack table.
#[derive(Debug, Clone, Copy, PartialEq, Eq, Structural)]
pub struct TaskStateSegment {
    rsp0: u64,
    rsp1: u64,
    rsp2: u64,
    ist1: u64,
    ist2: u64,
    ist3: u64,
    ist4: u64,
    ist5: u64,
    ist6: u64,
    ist7: u64,
    iopb: u16,
}

impl TaskStateSegment {
    /// The stack pointers for rings 0 to 2.
    pub closed spec fn privilege_stacks(&self) -> Seq<u64> {
        seq![self.rsp0, self.rsp1, self.rsp2]
    }

    /// The seven slots of the interrupt stack table.
    pub closed spec fn interrupt_stacks(&self) -> Seq<u64> {
        seq![self.ist1, self.ist2, self.ist3, self.ist4, self.ist5, self.ist6, self.ist7]
    }

    /// Offset of the I/O permission bitmap.
    pub closed spec fn iopb_offset(&self) -> u16 {
        self.iopb
    }

    /// A segment with the given stacks. The I/O permission bitmap offset is
    /// the segment's size, which leaves no bitmap.
    pub fn new(
        rsp0: u64,
        rsp1: u64,
        rsp2: u64,
        ist1: u64,
        ist2: u64,
        ist3: u64,
        ist4: u64,
        ist5: u64,
        ist6: u64,
        ist7: u64,
    ) -> (r: TaskStateSegment)
        ensures
            r.privilege_stacks() == seq![rsp0, rsp1, rsp2],
            r.interrupt_stacks() == seq![ist1, ist2, ist3, ist4, ist5, ist6, ist7],
            r.iopb_offset() == TSS_SIZE,
    {
        TaskStateSegment {
            rsp0,
            rsp1,
            rsp2,
            ist1,
            ist2,
            ist3,
            ist4,
            ist5,
            ist6,
            ist7,
            iopb: TSS_SIZE,
        }
    }

    /// Stack pointer for ring `ring` (0 to 2).
    pub fn privilege_stack(&self, ring: usize) -> (r: u64)
        requires
            ring < 3,
        ensures
            r == self.privilege_stacks()[ring as int],
    {
        if ring == 0 {
            self.rsp0
        } else if ring == 1 {
            self.rsp1
        } else {
            self.rsp2
        }
    }

    /// Slot `slot` (0 to 6) of the interrupt stack table.
    pub fn interrupt_stack(&self, slot: usize) -> (r: u64)
        requires
            slot < 7,
        ensures
            r == self.interrupt_stacks()[slot as int],
    {
        if slot == 0 {
            self.ist1
        } else if slot == 1 {
            self.ist2
        } else if slot == 2 {
            self.ist3
        } else if slot == 3 {
            self.ist4
        } else if slot == 4 {
            self.ist5
        } else if slot == 5 {
            self.ist6
        } else {
            self.ist7
        }
    }

    /// Offset of the I/O permission bitmap.
    pub fn iopb(&self) -> (r: u16)
        ensures
            r == self.iopb_offset(),
    {
        self.iopb
    }

    /// A segment whose stack pointers are all zero.
    pub fn empty() -> (r: TaskStateSegment)
        ensures
            r.privilege_stacks() == seq![0u64, 0u64, 0u64],
            r.interrupt_stacks() == seq![0u64, 0u64, 0u64, 0u64, 0u64, 0u64, 0u64],
            r.iopb_offset() == TSS_SIZE,
    {
        TaskStateSegment::new(0, 0, 0, 0, 0, 0, 0, 0, 0, 0)
    }

    /// A segment whose first interrupt-stack slot holds `stack_top`, the stack
    /// the double-fault handler runs on; every other stack pointer is zero.
    pub fn for_double_fault_stack(stack_top: u64) -> (r: TaskStateSegment)
        ensures
            r.privilege_stacks() == seq![0u64, 0u64, 0u64],
            r.interrupt_stacks()[DOUBLE_FAULT_IST_INDEX as int] == stack_top,
            r.interrupt_stacks() == seq![stack_top, 0u64, 0u64, 0u64, 0u64, 0u64, 0u64],
            r.iopb_offset() == TSS_SIZE,
    {
        TaskStateSegment::new(0, 0, 0, stack_top, 0, 0, 0, 0, 0, 0)
    }
}

/// Slot of the interrupt stack table that holds the double-fault stack.
pub const DOUBLE_FAULT_IST_INDEX: u16 = 0;

/// Selector of the kernel code segment: the table's second slot.
pub const KERNEL_CODE_SELECTOR: u16 = 0x08;

/// Selector of the kernel data segment: the table's third slot.
pub const KERNEL_DATA_SELECTOR: u16 = 0x10;

/// Selector of the task state segment: the table's fourth slot.
pub const TSS_SELECTOR: u16 = 0x18;

/// Size in bytes of the table: three 8-byte descriptors and a 16-byte one.
pub const GDT_SIZE: u16 = 40;

/// The kernel's descriptor table: the null descriptor, flat ring-0 code and
/// data segments, and the task state segment.
#[derive(Debug, Clone, Copy, PartialEq, Eq, Structural)]
pub struct GdtArr {
    pub null_descriptor: GdtNormalDescriptor,
    pub kernel_code_descriptor: GdtNormalDescriptor,
    pub kernel_data_descriptor: GdtNormalDescriptor,
    pub tss_descriptor: GdtSystemDescriptor,
}

/// The descriptors of `g` are those of the kernel's flat layout; the task
/// state segment is at `tss_base`.
pub open spec fn flat_layout(g: GdtArr, tss_base: int) -> bool {
    &&& g.null_descriptor.raw() == 0
    &&& g.kernel_code_descriptor.base() == 0
    &&& g.kernel_code_descriptor.limit() == 0xF_FFFF
    &&& g.kernel_code_descriptor.access_byte() == 0x9A
    &&& g.kernel_code_descriptor.flags() == 0xA
    &&& g.kernel_data_descriptor.base() == 0
    &&& g.kernel_data_descriptor.limit() == 0xF_FFFF
    &&& g.kernel_data_descriptor.access_byte() == 0x92
    &&& g.kernel_data_descriptor.flags() == 0xC
    &&& g.tss_descriptor.base() == tss_base
    &&& g.tss_descriptor.limit() == TSS_SIZE - 1
    &&& g.tss_descriptor.access_byte() == 0x89
    &&& g.tss_descriptor.flags() == 0
}

impl GdtArr {
    /// The kernel's table, with the task state segment at address 0 until
    /// its address is known.
    pub fn new() -> (r: GdtArr)
        ensures
            flat_layout(r, 0),
    {
        let code_access = GdtNormalAccess {
            present: true,
            privilege: 0,
            descriptor_type: 1,
            executable: true,
            conforming: 0,
            readable_writable: 1,
            accessed: false,
        };
        let data_access = GdtNormalAccess {
            present: true,
            privilege: 0,
            descriptor_type: 1,
            executable: false,
            conforming: 0,
            readable_writable: 1,
            accessed: false,
        };
        let tss_access = GdtSystemAccess {
            present: true,
            privilege: 0,
            descriptor_type: 0,
            segment_type: 0x9,
        };
        let kernel_code_descriptor = GdtNormalDescriptor::new(
            0,
            0xF_FFFF,
            code_access,
            GdtFlags { granularity: 1, size: 0, long_mode_code: 1 },
        );
        let kernel_data_descriptor = GdtNormalDescriptor::new(
            0,
            0xF_FFFF,
            data_access,
            GdtFlags { granularity: 1, size: 1, long_mode_code: 0 },
        );
        let tss_descriptor = GdtSystemDescriptor::new(
            0,
            (TSS_SIZE - 1) as u32,
            tss_access,
            GdtFlags { granularity: 0, size: 0, long_mode_code: 0 },
        );
        GdtArr {
            null_descriptor: GdtNormalDescriptor::null_descriptor(),
            kernel_code_descriptor,
            kernel_data_descriptor,
            tss_descriptor,
        }
    }

    /// Points the task state segment descriptor at `base`.
    pub fn change_tss_base(&mut self, base: u64)
        ensures
            final(self).tss_descriptor.base() == base,
            final(self).tss_descriptor.limit() == old(self).tss_descriptor.limit(),
            final(self).tss_descriptor.access_byte() == old(self).tss_descriptor.access_byte(),
            final(self).tss_descriptor.flags() == old(self).tss_descriptor.flags(),
            final(self).null_descriptor == old(self).null_descriptor,
            final(self).kernel_code_descriptor == old(self).kernel_code_descriptor,
            final(self).kernel_data_descriptor == old(self).kernel_data_descriptor,
    {
        self.tss_descriptor.change_base(base);
    }

    /// The table as the CPU reads it, in 8-byte words.
    pub fn to_raw(&self) -> (r: Vec<u64>)
        ensures
            r@ == seq![
                self.null_descriptor.raw() as u64,
                self.kernel_code_descriptor.raw() as u64,
                self.kernel_data_descriptor.raw() as u64,
                self.tss_descriptor.raw_low() as u64,
                self.tss_descriptor.raw_high() as u64,
            ],
    {
        let (tss_low, tss_high) = self.tss_descriptor.to_raw();
        let mut r: Vec<u64> = Vec::new();
        r.push(self.null_descriptor.to_raw());
        r.push(self.kernel_code_descriptor.to_raw());
        r.push(self.kernel_data_descriptor.to_raw());
        r.push(tss_low);
        r.push(tss_high);
        assert(r@ =~= seq![
            self.null_descriptor.raw() as u64,
            self.kernel_code_descriptor.raw() as u64,
            self.kernel_data_descriptor.raw() as u64,
            self.tss_descriptor.raw_low() as u64,
            self.tss_descriptor.raw_high() as u64,
        ]);
        r
    }
}

/// The operand of the instruction that loads a descriptor table: size in
/// bytes minus one, and address.
#[derive(Debug, Clone, Copy, PartialEq, Eq, Structural)]
pub struct Gdt {
    pub limit: u16,
    pub base: u64,
}

impl Gdt {
    /// The operand for the kernel's table placed at `base`.
    pub fn new(base: u64) -> (r: Gdt)
        ensures
            r.limit == GDT_SIZE - 1,
            r.base == base,
    {
        Gdt { limit: GDT_SIZE - 1, base }
    }
}

/// The kernel's descriptor table with its task state segment at `tss_address`,
/// ready to be loaded.
pub fn init(tss_address: u64) -> (r: GdtArr)
    ensures
        flat_layout(r, tss_address as int),
{
    let mut gdt = GdtArr::new();
    gdt.change_tss_base(tss_address);
    gdt
}

} // verus!
