//! What the kernel keeps of the boot information structure: the memory map,
//! the bounds of its own image, and the framebuffer.
use vstd::prelude::*;

use crate::frame_alloc::{
    first_frame, lowest_qualifying, region_fits, region_usable, AreaFrameAllocator,
    FrameAllocatorCell, MemoryRegion, PAGE_SIZE,
};

verus! {

/// One section of the kernel's ELF image: bytes `start_address` up to
/// `end_address`, the latter excluded.
#[derive(Debug, Clone, Copy, PartialEq, Eq, Structural)]
pub struct ElfSection {
    pub start_address: usize,
    pub end_address: usize,
}

/// The framebuffer the bootloader set up.
#[derive(Debug, Clone, Copy, PartialEq, Eq, Structural)]
pub struct FramebufferInfo {
    pub address: u64,
    pub pitch: u32,
    pub width: u32,
    pub height: u32,
    pub bpp: u8,
}

/// The parts of the boot information structure the kernel uses; a part the
/// bootloader did not provide is `None`.
#[derive(Debug)]
pub struct BootInfo {
    /// Address of the structure's first byte.
    pub start_address: usize,
    /// Address one past the structure's last byte.
    pub end_address: usize,
    pub memory_regions: Option<Vec<MemoryRegion>>,
    pub elf_sections: Option<Vec<ElfSection>>,
    pub framebuffer: Option<FramebufferInfo>,
}

/// Lowest start address among `sections`; `usize::MAX` when there is none.
pub open spec fn lowest_start(sections: Seq<ElfSection>) -> int
    decreases sections.len(),
{
    if sections.len() == 0 {
        usize::MAX as int
    } else {
        let rest = lowest_start(sections.drop_last());
        let s = sections.last().start_address as int;
        if s < rest {
            s
        } else {
            rest
        }
    }
}

/// Highest end address among `sections`; 0 when there is none.
pub open spec fn highest_end(sections: Seq<ElfSection>) -> int
    decreases sections.len(),
{
    if sections.len() == 0 {
        0
    } else {
        let rest = highest_end(sections.drop_last());
        let e = sections.last().end_address as int;
        if e > rest {
            e
        } else {
            rest
        }
    }
}

/// The bytes the kernel image spans: from the lowest section start to the
/// highest section end.
pub fn kernel_bounds(sections: &Vec<ElfSection>) -> (r: (usize, usize))
    ensures
        r.0 == lowest_start(sections@),
        r.1 == highest_end(sections@),
{
    let mut start: usize = usize::MAX;
    let mut end: usize = 0;
    let mut i: usize = 0;
    while i < sections.len()
        invariant
            i <= sections@.len(),
            start == lowest_start(sections@.subrange(0, i as int)),
            end == highest_end(sections@.subrange(0, i as int)),
        decreases sections@.len() - i,
    {
        assert(sections@.subrange(0, i + 1).drop_last() =~= sections@.subrange(0, i as int));
        let section = &sections[i];
        if section.start_address < start {
            start = section.start_address;
        }
        if section.end_address > end {
            end = section.end_address;
        }
        i = i + 1;
    }
    assert(sections@.subrange(0, sections@.len() as int) =~= sections@);
    (start, end)
}

/// Why a frame allocator could not be built from the boot information.
#[derive(Debug, Clone, Copy, PartialEq, Eq, Structural)]
pub enum BootInfoError {
    /// The bootloader gave no memory map.
    MissingMemoryMap,
    /// The bootloader gave no ELF sections for the kernel image.
    MissingElfSections,
    /// The frame allocator has already been set.
    AlreadyInitialised,
}

/// Every region of `regions` lies inside the address space.
pub open spec fn regions_fit(regions: Seq<MemoryRegion>) -> bool {
    forall|i: int| 0 <= i < regions.len() ==> region_fits(#[trigger] regions[i])
}

/// `a` is the frame allocator for `boot_info`: over its memory map, skipping
/// the kernel image (lowest section start to highest section end) and the
/// boot information structure itself, with its cursor where `new` puts it.
pub open spec fn allocator_for(a: AreaFrameAllocator, boot_info: BootInfo) -> bool {
    let sections = boot_info.elf_sections->Some_0@;
    &&& boot_info.memory_regions is Some
    &&& boot_info.elf_sections is Some
    &&& a.wf()
    &&& a.regions() == boot_info.memory_regions->Some_0@
    &&& a.kernel_frames() == (
        lowest_start(sections) / PAGE_SIZE as int,
        highest_end(sections) / PAGE_SIZE as int,
    )
    &&& a.boot_info_frames() == (
        boot_info.start_address as int / PAGE_SIZE as int,
        boot_info.end_address as int / PAGE_SIZE as int,
    )
    &&& forall|g: int| 0 <= g < a.next_free() ==> !a.is_free(g)
    &&& match a.current_region() {
        Some(i) => lowest_qualifying(a.regions(), 0, i) && a.next_free() == first_frame(
            a.regions()[i],
        ),
        None => a.next_free() == 0 && forall|j: int|
            0 <= j < a.regions().len() ==> !region_usable(#[trigger] a.regions()[j]),
    }
}

/// Builds the frame allocator for `boot_info`.
pub fn frame_allocator_for(boot_info: &BootInfo) -> (r: Result<AreaFrameAllocator, BootInfoError>)
    requires
        boot_info.memory_regions matches Some(m) ==> regions_fit(m@),
    ensures
        boot_info.memory_regions is None ==> r == Err::<AreaFrameAllocator, BootInfoError>(
            BootInfoError::MissingMemoryMap,
        ),
        boot_info.memory_regions is Some && boot_info.elf_sections is None ==> r == Err::<
            AreaFrameAllocator,
            BootInfoError,
        >(BootInfoError::MissingElfSections),
        r matches Ok(a) ==> allocator_for(a, *boot_info),
        (boot_info.memory_regions is Some && boot_info.elf_sections is Some) ==> r is Ok,
{
    let regions = match &boot_info.memory_regions {
        Some(m) => m.clone(),
        None => {
            return Err(BootInfoError::MissingMemoryMap);
        },
    };
    let sections = match &boot_info.elf_sections {
        Some(s) => s,
        None => {
            return Err(BootInfoError::MissingElfSections);
        },
    };
    let (kernel_start, kernel_end) = kernel_bounds(sections);
    Ok(
        AreaFrameAllocator::new(
            kernel_start,
            kernel_end,
            boot_info.start_address,
            boot_info.end_address,
            regions,
        ),
    )
}

/// Sets the frame allocator for `boot_info` in `cell`, once: a second call is
/// refused and leaves the first allocator in place.
pub fn init_frame_alloc(cell: &mut FrameAllocatorCell, boot_info: &BootInfo) -> (r: Result<
    (),
    BootInfoError,
>)
    requires
        boot_info.memory_regions matches Some(m) ==> regions_fit(m@),
    ensures
        old(cell)@ is Some ==> r == Err::<(), BootInfoError>(BootInfoError::AlreadyInitialised),
        old(cell)@ is None && boot_info.memory_regions is None ==> r == Err::<(), BootInfoError>(
            BootInfoError::MissingMemoryMap,
        ),
        old(cell)@ is None && boot_info.memory_regions is Some && boot_info.elf_sections is None
            ==> r == Err::<(), BootInfoError>(BootInfoError::MissingElfSections),
        r is Err ==> final(cell)@ == old(cell)@,
        r is Ok ==> (final(cell)@ matches Some(a) && allocator_for(a, *boot_info)),
        old(cell)@ is None && boot_info.memory_regions is Some && boot_info.elf_sections is Some
            ==> r is Ok,
{
    if cell.is_set() {
        return Err(BootInfoError::AlreadyInitialised);
    }
    match frame_allocator_for(boot_info) {
        Ok(a) => {
            cell.set(a);
            Ok(())
        },
        Err(e) => Err(e),
    }
}

#[verifier::external_type_specification]
#[verifier::external_body]
#[verifier::reject_recursive_types(T)]
#[verifier::reject_recursive_types(R)]
pub struct ExOnce<T, R>(spin::once::Once<T, R>);

#[verifier::external_type_specification]
#[verifier::external_body]
pub struct ExSpin(spin::relax::Spin);

/// What a `spin::Once` holds: nothing, or the one value it was given.
pub uninterp spec fn once_contents(o: spin::Once<BootInfo>) -> Seq<BootInfo>;

/// Relies on `spin::Once::new`: a new cell holds nothing.
#[verifier::external_body]
fn once_new() -> (r: spin::Once<BootInfo>)
    ensures
        once_contents(r) == Seq::<BootInfo>::empty(),
{
    spin::Once::new()
}

/// Relies on `spin::Once::call_once`: an empty cell runs the closure and
/// keeps its value; a full one keeps what it holds and runs nothing. The
/// closure cannot panic, so the cell is never left poisoned, and the `&mut`
/// borrow rules out a second initializer running at the same time.
#[verifier::external_body]
fn once_call_once(o: &mut spin::Once<BootInfo>, info: BootInfo)
    ensures
        once_contents(*final(o)) == if once_contents(*old(o)).len() == 0 {
            seq![info]
        } else {
            once_contents(*old(o))
        },
{
    o.call_once(|| info);
}

/// Relies on `spin::Once::get`: the value the cell holds, if any.
#[verifier::external_body]
fn once_get(o: &spin::Once<BootInfo>) -> (r: Option<&BootInfo>)
    ensures
        r is None <==> once_contents(*o).len() == 0,
        r matches Some(i) ==> *i == once_contents(*o)[0],
{
    o.get()
}

/// A slot written at most once: the first value stays for good.
pub struct BootInfoCell {
    info: spin::Once<BootInfo>,
}

impl View for BootInfoCell {
    type V = Option<BootInfo>;

    closed spec fn view(&self) -> Option<BootInfo> {
        if once_contents(self.info).len() == 0 {
            None
        } else {
            Some(once_contents(self.info)[0])
        }
    }
}

impl BootInfoCell {
    /// A cell with nothing in it.
    pub fn new() -> (r: BootInfoCell)
        ensures
            r@ is None,
    {
        BootInfoCell { info: once_new() }
    }

    /// Stores `info` when the cell is empty; otherwise keeps what it holds.
    /// Returns whether `info` was stored.
    pub fn call_once(&mut self, info: BootInfo) -> (r: bool)
        ensures
            r == old(self)@ is None,
            final(self)@ == (if old(self)@ is None {
                Some(info)
            } else {
                old(self)@
            }),
    {
        let fresh = once_get(&self.info).is_none();
        once_call_once(&mut self.info, info);
        fresh
    }

    /// What the cell holds.
    pub fn get(&self) -> (r: Option<&BootInfo>)
        ensures
            r matches Some(i) ==> self@ == Some(*i),
            r is None ==> self@ is None,
    {
        once_get(&self.info)
    }
}

} // verus!
