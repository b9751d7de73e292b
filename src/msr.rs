//! Model-specific register fields and the decisions behind marking a range
//! of physical memory write-combining through a variable MTRR pair. Reading
//! and writing the registers themselves is left to the caller.
use vstd::prelude::*;

verus! {

/// Why a register update was refused.
#[derive(Debug, Clone, Copy, PartialEq, Eq, Structural)]
pub enum MsrError {
    /// The CPU has no model-specific registers.
    NoMsrSupport,
    /// The CPU has no write-combining memory type.
    NoWCTypeSupport,
    /// Every variable MTRR pair is in use.
    NoFreeMtrPair,
    /// The value does not fit the register field.
    ValueExceedsBitRange,
}

/// Index of the register that describes the MTRR capabilities.
pub const IA32_MTRRCAP: u32 = 0xFE;

/// Index of the register that enables the MTRRs.
pub const IA32_MTRR_DEF_TYPE: u32 = 0x2FF;

/// Index of the base register of the first variable MTRR pair.
pub const IA32_MTRR_PHYSBASE0: u32 = 0x200;

/// Memory type code of write-combining.
pub const WC_MEMORY_TYPE: u64 = 1;

/// Width of physical addresses that the MTRR masks cover.
pub const ADDRESS_WIDTH: u64 = 48;

/// Bit `b` of `w`.
pub open spec fn bit_of(w: u64, b: u64) -> bool {
    (w >> b) & 1 == 1
}

/// A single bit is 0 or 1.
proof fn lemma_bit_values(w: u64, b: u64)
    ensures
        (w >> b) & 1 == 0 || (w >> b) & 1 == 1,
{
    assert((w >> b) & 1 == 0 || (w >> b) & 1 == 1) by (bit_vector);
}

/// Bits `lo` to `hi` of `w`, both included, as a number.
pub fn read_field(w: u64, lo: u64, hi: u64) -> (r: u64)
    requires
        lo <= hi < 64,
    ensures
        forall|b: u64| b < 64 ==> bit_of(r, b) == (b <= hi - lo && bit_of(w, (b + lo) as u64)),
{
    let width = hi - lo + 1;
    let low_mask: u64 = u64::MAX >> (64 - width);
    let r = (w >> lo) & low_mask;
    assert forall|b: u64| b < 64 implies bit_of(r, b) == (b <= hi - lo && bit_of(w, (b + lo) as u64))
        by {
        assert(((((w >> lo) & low_mask) >> b) & 1 == 1) == (b <= hi - lo && ((w >> ((b + lo) as u64))
            & 1 == 1))) by (bit_vector)
            requires
                lo <= hi < 64,
                b < 64,
                width == hi - lo + 1,
                low_mask == 0xffff_ffff_ffff_ffffu64 >> ((64 - width) as u64),
        ;
    }
    r
}

/// The bits `lo` to `hi`, both included.
pub open spec fn field_mask(lo: u64, hi: u64) -> u64 {
    (0xffff_ffff_ffff_ffffu64 >> ((63 - hi) as u64)) & (0xffff_ffff_ffff_ffffu64 << lo)
}

/// `w` with bits `lo` to `hi` taken from the low bits of `value`.
pub open spec fn with_field(w: u64, lo: u64, hi: u64, value: u64) -> u64 {
    (w & !field_mask(lo, hi)) | ((value << lo) & field_mask(lo, hi))
}

/// `w` with bits `lo` to `hi` replaced by `value`; refused when `value` has
/// a bit set above the field's width.
pub fn write_field(w: u64, lo: u64, hi: u64, value: u64) -> (r: Result<u64, MsrError>)
    requires
        lo <= hi < 64,
    ensures
        r is Err <==> (hi - lo < 63 && value >> ((hi - lo + 1) as u64) != 0),
        r is Err ==> r == Err::<u64, MsrError>(MsrError::ValueExceedsBitRange),
        r matches Ok(n) ==> n == with_field(w, lo, hi, value),
        r matches Ok(n) ==> forall|b: u64|
            b < 64 ==> bit_of(n, b) == if lo <= b <= hi {
                bit_of(value, (b - lo) as u64)
            } else {
                bit_of(w, b)
            },
{
    let width = hi - lo + 1;
    if width < 64 && (value >> width) != 0 {
        return Err(MsrError::ValueExceedsBitRange);
    }
    assert forall|b: u64| hi - lo < b < 64 implies !bit_of(value, b) by {
        assert(!(((value >> b) & 1) == 1)) by (bit_vector)
            requires
                width == hi - lo + 1,
                hi - lo < b < 64,
                width == 64 || value >> width == 0,
        ;
    }
    let mask: u64 = (u64::MAX >> (63 - hi)) & (u64::MAX << lo);
    let n = (w & !mask) | ((value << lo) & mask);
    assert forall|b: u64| b < 64 implies bit_of(n, b) == if lo <= b <= hi {
        bit_of(value, (b - lo) as u64)
    } else {
        bit_of(w, b)
    } by {
        assert((((w & !mask) | ((value << lo) & mask)) >> b) & 1 == 1 <==> if lo <= b && b <= hi {
            (value >> ((b - lo) as u64)) & 1 == 1
        } else {
            (w >> b) & 1 == 1
        }) by (bit_vector)
            requires
                lo <= hi < 64,
                b < 64,
                mask == (0xffff_ffff_ffff_ffffu64 >> ((63 - hi) as u64)) & (0xffff_ffff_ffff_ffffu64
                    << lo),
        ;
    }
    Ok(n)
}

/// Bits 0 to 7 of the capability register: the number of variable MTRR pairs.
pub open spec fn pair_count(cap: u64) -> int {
    cap as int % 256
}

/// The number of variable MTRR pairs the capability register `cap` reports.
pub fn pair_count_of(cap: u64) -> (r: usize)
    ensures
        r == pair_count(cap),
{
    (cap % 256) as usize
}

/// A variable MTRR pair, named by the index of its base register; the mask
/// register follows it.
#[derive(Debug, Clone, Copy, PartialEq, Eq, Structural)]
pub struct MtrrPhysPair {
    base: u32,
}

impl View for MtrrPhysPair {
    type V = u32;

    closed spec fn view(&self) -> u32 {
        self.base
    }
}

impl MtrrPhysPair {
    /// Index of the pair's base register.
    pub fn base_reg(&self) -> (r: u32)
        ensures
            r == self@,
    {
        self.base
    }

    /// Index of the pair's mask register.
    pub fn mask_reg(&self) -> (r: u32)
        requires
            self@ < u32::MAX,
        ensures
            r == self@ + 1,
    {
        self.base + 1
    }
}

/// The pair whose mask register holds `mask` is in use: its valid bit (11) is set.
pub open spec fn pair_in_use(mask: u64) -> bool {
    bit_of(mask, 11)
}

/// The first pair not in use, given the values of the mask registers of the
/// pairs in order.
pub fn free_mtrr_pair(masks: &Vec<u64>) -> (r: Option<MtrrPhysPair>)
    requires
        masks@.len() < 256,
    ensures
        r matches Some(p) ==> exists|i: int|
            0 <= i < masks@.len() && p@ == IA32_MTRR_PHYSBASE0 + 2 * i && !pair_in_use(
                #[trigger] masks@[i],
            ) && forall|j: int| 0 <= j < i ==> pair_in_use(#[trigger] masks@[j]),
        r is None ==> forall|i: int| 0 <= i < masks@.len() ==> pair_in_use(#[trigger] masks@[i]),
{
    let mut i: usize = 0;
    while i < masks.len()
        invariant
            i <= masks@.len() < 256,
            forall|j: int| 0 <= j < i ==> pair_in_use(#[trigger] masks@[j]),
        decreases masks@.len() - i,
    {
        proof {
            lemma_bit_values(masks@[i as int], 11);
        }
        if (masks[i] >> 11u64) & 1 == 0 {
            return Some(MtrrPhysPair { base: IA32_MTRR_PHYSBASE0 + 2 * (i as u32) });
        }
        i = i + 1;
    }
    None
}

/// The first of `p`, `2p`, `4p`, ... that is not below `size`.
pub open spec fn double_until(size: int, p: int) -> int
    decreases (if size > p {
        size - p
    } else {
        0
    }),
    when p > 0
{
    if p >= size {
        p
    } else {
        double_until(size, 2 * p)
    }
}

/// The smallest power of two not below `size`.
pub fn next_power_of_two(size: u64) -> (r: u64)
    requires
        size <= 0x8000_0000_0000_0000,
    ensures
        r == double_until(size as int, 1),
        r >= size,
        r == 1 || r / 2 < size,
{
    let mut p: u64 = 1;
    while p < size
        invariant
            size <= 0x8000_0000_0000_0000,
            1 <= p,
            double_until(size as int, p as int) == double_until(size as int, 1),
            p == 1 || p / 2 < size,
        decreases (if size > p {
            size - p
        } else {
            0
        }),
    {
        p = p * 2;
    }
    p
}

/// The mask register value that covers `size` bytes rounded up to a power
/// of two, within the physical address width.
pub open spec fn range_mask(p: u64) -> u64 {
    !((p - 1) as u64) & 0xffff_ffff_ffffu64
}

/// The register writes that mark a memory range write-combining.
#[derive(Debug, Clone, Copy, PartialEq, Eq, Structural)]
pub struct MtrrUpdate {
    /// New value of the default-type register, with the MTRRs enabled.
    pub def_type: u64,
    /// Index of the pair's base register, and its new value.
    pub base_reg: u32,
    pub base_value: u64,
    /// Index of the pair's mask register, and its new value.
    pub mask_reg: u32,
    pub mask_value: u64,
}

/// Decides how to mark `size` bytes from `addr` write-combining, from what the
/// registers hold: whether the CPU has model-specific registers, the
/// capability register, the default-type register, and the base and mask
/// registers of each variable pair. The range is rounded up to a power of two.
pub fn set_mtrr_wc(
    has_msr: bool,
    cap: u64,
    def_type: u64,
    bases: &Vec<u64>,
    masks: &Vec<u64>,
    addr: u64,
    size: u64,
) -> (r: Result<MtrrUpdate, MsrError>)
    requires
        bases@.len() == pair_count(cap),
        masks@.len() == pair_count(cap),
        size <= 0x8000_0000_0000_0000,
    ensures
        !has_msr ==> r == Err::<MtrrUpdate, MsrError>(MsrError::NoMsrSupport),
        has_msr && !bit_of(cap, 10) ==> r == Err::<MtrrUpdate, MsrError>(MsrError::NoWCTypeSupport),
        has_msr && bit_of(cap, 10) && (forall|i: int|
            0 <= i < masks@.len() ==> pair_in_use(#[trigger] masks@[i])) ==> r == Err::<
            MtrrUpdate,
            MsrError,
        >(MsrError::NoFreeMtrPair),
        has_msr && bit_of(cap, 10) && (exists|i: int|
            0 <= i < masks@.len() && !pair_in_use(#[trigger] masks@[i])) ==> if addr >> 48u64
            == 0 {
            r is Ok
        } else {
            r == Err::<MtrrUpdate, MsrError>(MsrError::ValueExceedsBitRange)
        },
        r matches Ok(u) ==> exists|i: int|
            {
                let p = double_until(size as int, 1) as u64;
                &&& 0 <= i < masks@.len()
                &&& !pair_in_use(#[trigger] masks@[i])
                &&& forall|j: int| 0 <= j < i ==> pair_in_use(#[trigger] masks@[j])
                &&& u.base_reg == IA32_MTRR_PHYSBASE0 + 2 * i
                &&& u.mask_reg == u.base_reg + 1
                &&& u.def_type == with_field(def_type, 11, 11, 1)
                &&& u.base_value == with_field(
                    with_field(bases@[i], 12, 47, addr >> 12u64),
                    0,
                    7,
                    WC_MEMORY_TYPE,
                )
                &&& u.mask_value == with_field(
                    with_field(masks@[i], 12, 47, range_mask(p) >> 12u64),
                    11,
                    11,
                    1,
                )
            },
{
    if !has_msr {
        return Err(MsrError::NoMsrSupport);
    }
    proof {
        lemma_bit_values(cap, 10);
    }
    if (cap >> 10u64) & 1 != 1 {
        return Err(MsrError::NoWCTypeSupport);
    }
    let pair = match free_mtrr_pair(masks) {
        Some(pair) => pair,
        None => {
            return Err(MsrError::NoFreeMtrPair);
        },
    };
    let i = ((pair.base_reg() - IA32_MTRR_PHYSBASE0) / 2) as usize;
    let ghost gi = i as int;
    assert(!pair_in_use(masks@[gi]) && forall|j: int| 0 <= j < gi ==> pair_in_use(
        #[trigger] masks@[j],
    ));
    assert(1u64 >> 1u64 == 0 && 1u64 >> 8u64 == 0) by (bit_vector);
    assert(((addr >> 12u64) >> 36u64 == 0) == (addr >> 48u64 == 0)) by (bit_vector);
    let def_type = match write_field(def_type, 11, 11, 1) {
        Ok(v) => v,
        Err(e) => {
            return Err(e);
        },
    };
    let p = next_power_of_two(size);
    let range = !(p - 1) & 0xffff_ffff_ffffu64;
    let base_value = match write_field(bases[i], 12, 47, addr >> 12u64) {
        Ok(v) => v,
        Err(e) => {
            return Err(e);
        },
    };
    let base_value = match write_field(base_value, 0, 7, WC_MEMORY_TYPE) {
        Ok(v) => v,
        Err(e) => {
            return Err(e);
        },
    };
    assert((range >> 12u64) >> 36u64 == 0) by (bit_vector)
        requires
            range == !((p - 1) as u64) & 0xffff_ffff_ffffu64,
    ;
    let mask_value = match write_field(masks[i], 12, 47, range >> 12u64) {
        Ok(v) => v,
        Err(e) => {
            return Err(e);
        },
    };
    let mask_value = match write_field(mask_value, 11, 11, 1) {
        Ok(v) => v,
        Err(e) => {
            return Err(e);
        },
    };
    let base_reg = pair.base_reg();
    Ok(MtrrUpdate { def_type, base_reg, base_value, mask_reg: base_reg + 1, mask_value })
}

/// A CPU feature reported by `cpuid`: bit `bit` of EDX for leaf `leaf`.
#[derive(Debug, Clone, Copy, PartialEq, Eq, Structural)]
pub struct Feature {
    pub leaf: u32,
    pub bit: u8,
}

impl Feature {
    /// Memory type range registers: leaf 1, bit 12.
    pub fn mtrr() -> (r: Feature)
        ensures
            r.leaf == 1 && r.bit == 12,
    {
        Feature { leaf: 1, bit: 12 }
    }

    /// The feature is present, given the EDX value `cpuid` returned for its leaf.
    pub fn is_set_in(&self, edx: u32) -> (r: bool)
        requires
            self.bit < 32,
        ensures
            r == ((edx >> self.bit) & 1 == 1),
    {
        (edx >> self.bit) & 1 == 1
    }
}

} // verus!
