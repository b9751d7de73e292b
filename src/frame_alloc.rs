//! Physical frames and the bump-style area frame allocator.
use vstd::prelude::*;

verus! {

/// Size in bytes of one page and of one physical frame.
pub const PAGE_SIZE: usize = 0x1000;

/// One page-aligned unit of physical memory, named by its index.
#[derive(Debug, Clone, Copy, PartialEq, Eq, Structural, PartialOrd, Ord)]
pub struct Frame {
    pub number: usize,
}

impl Frame {
    /// The frame that contains the physical byte `address`.
    pub fn from_address(address: usize) -> (r: Frame)
        ensures
            r.number == address / PAGE_SIZE,
    {
        Frame { number: address / PAGE_SIZE }
    }

    /// The physical address of the first byte of the frame.
    pub fn start_address(&self) -> (r: usize)
        requires
            self.number * PAGE_SIZE <= usize::MAX,
        ensures
            r == self.number * PAGE_SIZE,
    {
        self.number * PAGE_SIZE
    }
}

/// What the boot-time memory map says of a region.
#[derive(Debug, Clone, Copy, PartialEq, Eq, Structural)]
pub enum MemoryRegionKind {
    Available,
    Reserved,
}

/// One entry of the boot-time memory map: `length` bytes from `start_address`.
#[derive(Debug, Clone, Copy, PartialEq, Eq, Structural)]
pub struct MemoryRegion {
    pub start_address: u64,
    pub length: u64,
    pub kind: MemoryRegionKind,
}

/// The region lies inside the 64-bit address space.
pub open spec fn region_fits(r: MemoryRegion) -> bool {
    &&& r.start_address + r.length <= u64::MAX + 1
    &&& (r.start_address + r.length) / (PAGE_SIZE as int) < usize::MAX
}

/// The region is available and holds at least one byte.
pub open spec fn region_usable(r: MemoryRegion) -> bool {
    r.kind == MemoryRegionKind::Available && r.length > 0
}

/// Number of the frame holding the region's first byte.
pub open spec fn first_frame(r: MemoryRegion) -> int {
    r.start_address as int / PAGE_SIZE as int
}

/// Number of the frame holding the region's last byte.
pub open spec fn last_frame(r: MemoryRegion) -> int {
    (r.start_address + r.length - 1) / PAGE_SIZE as int
}

/// Frame `f` overlaps the usable region `r`.
pub open spec fn region_holds(r: MemoryRegion, f: int) -> bool {
    region_usable(r) && first_frame(r) <= f <= last_frame(r)
}

/// Frame `f` overlaps some usable region of `regions`.
pub open spec fn available(regions: Seq<MemoryRegion>, f: int) -> bool {
    exists|i: int| 0 <= i < regions.len() && #[trigger] region_holds(regions[i], f)
}

/// A source of physical frames.
pub trait FrameAllocator {
    /// The allocator's own consistency condition.
    spec fn inv(&self) -> bool;

    /// Hands out one frame, or `None` when no frame is left.
    fn allocate_frame(&mut self) -> (r: Option<Frame>)
        requires
            old(self).inv(),
        ensures
            final(self).inv(),
    ;

    /// Takes a frame back.
    fn deallocate_frame(&mut self, frame: Frame) -> (r: Result<(), AllocError>)
        requires
            old(self).inv(),
        ensures
            final(self).inv(),
    ;
}

/// Why an allocator refused a request.
#[derive(Debug, Clone, Copy, PartialEq, Eq, Structural)]
pub enum AllocError {
    /// Frames cannot be given back to this allocator.
    Unsupported,
}

/// Hands out the frames of the available memory regions in increasing order,
/// skipping the kernel image and the boot information structure. Never frees.
#[derive(Debug)]
pub struct AreaFrameAllocator {
    next_free_frame: Frame,
    current_area: Option<usize>,
    areas: Vec<MemoryRegion>,
    kernel_start: Frame,
    kernel_end: Frame,
    multiboot_start: Frame,
    multiboot_end: Frame,
}

/// The region is usable and reaches frame `n` or beyond.
pub open spec fn qualifies(r: MemoryRegion, n: int) -> bool {
    region_usable(r) && last_frame(r) >= n
}

/// `regions[i]` qualifies for frame `n` and starts no later than any other
/// region that does.
pub open spec fn lowest_qualifying(regions: Seq<MemoryRegion>, n: int, i: int) -> bool {
    &&& 0 <= i < regions.len()
    &&& qualifies(regions[i], n)
    &&& forall|j: int|
        0 <= j < regions.len() && #[trigger] qualifies(regions[j], n) ==> regions[i].start_address
            <= regions[j].start_address
}

impl AreaFrameAllocator {
    /// Index of the region the allocator is consuming, if any.
    pub closed spec fn current_region(&self) -> Option<int> {
        match self.current_area {
            Some(i) => Some(i as int),
            None => None,
        }
    }

    /// No region is left: every later allocation returns `None`.
    pub open spec fn exhausted(&self) -> bool {
        self.current_region() is None
    }

    /// The cursor: no frame below it will be handed out.
    pub closed spec fn next_free(&self) -> int {
        self.next_free_frame.number as int
    }

    /// The memory map the allocator draws from.
    pub closed spec fn regions(&self) -> Seq<MemoryRegion> {
        self.areas@
    }

    /// First and last frame of the kernel image.
    pub closed spec fn kernel_frames(&self) -> (int, int) {
        (self.kernel_start.number as int, self.kernel_end.number as int)
    }

    /// First and last frame of the boot information structure.
    pub closed spec fn boot_info_frames(&self) -> (int, int) {
        (self.multiboot_start.number as int, self.multiboot_end.number as int)
    }

    /// Frame `f` may be handed out: it lies in a usable region and in neither
    /// excluded range (both ranges include their last frame).
    pub open spec fn is_free(&self, f: int) -> bool {
        &&& available(self.regions(), f)
        &&& !(self.kernel_frames().0 <= f <= self.kernel_frames().1)
        &&& !(self.boot_info_frames().0 <= f <= self.boot_info_frames().1)
    }

    /// The allocator's configuration is the same in `self` and `other`.
    pub open spec fn same_layout(&self, other: &Self) -> bool {
        &&& self.regions() == other.regions()
        &&& self.kernel_frames() == other.kernel_frames()
        &&& self.boot_info_frames() == other.boot_info_frames()
    }

    /// The configuration keeps all frame arithmetic in range.
    closed spec fn layout_ok(&self) -> bool {
        &&& self.kernel_end.number < usize::MAX
        &&& self.multiboot_end.number < usize::MAX
        &&& forall|i: int| 0 <= i < self.areas@.len() ==> region_fits(#[trigger] self.areas@[i])
    }

    /// The allocator's invariant: the current region, when there is one, is
    /// usable and starts at or below the cursor; without one, no available
    /// frame is left at or above the cursor.
    pub closed spec fn wf(&self) -> bool {
        &&& self.layout_ok()
        &&& match self.current_area {
            None => forall|f: int| f >= self.next_free() ==> !available(self.regions(), f),
            Some(i) => {
                &&& i < self.areas@.len()
                &&& region_usable(self.areas@[i as int])
                &&& first_frame(self.areas@[i as int]) <= self.next_free()
            },
        }
    }

    /// Measure of the work left before `allocate_frame` returns.
    closed spec fn pending(&self) -> int {
        (if self.next_free() <= self.kernel_frames().1 { 2int } else { 0int })
        + (if self.next_free() <= self.boot_info_frames().1 { 2int } else { 0int })
        + match self.current_area {
            Some(i) => if i < self.areas@.len() && self.next_free() > last_frame(
                self.areas@[i as int],
            ) {
                1int
            } else {
                0int
            },
            None => 0int,
        }
    }
}

/// `r` is what one allocation from `pre` returns, and `post` the allocator after it:
/// the lowest free frame at or above the cursor, with the cursor moved past it;
/// `None` exactly when no free frame is left at or above the cursor.
pub open spec fn allocation_step(
    pre: AreaFrameAllocator,
    post: AreaFrameAllocator,
    r: Option<Frame>,
) -> bool {
    &&& post.same_layout(&pre)
    &&& (pre.exhausted() ==> r is None && post == pre)
    &&& (r is None ==> post.exhausted())
    &&& match r {
        Some(f) => {
            &&& pre.next_free() <= f.number
            &&& pre.is_free(f.number as int)
            &&& forall|g: int| pre.next_free() <= g < f.number ==> !pre.is_free(g)
            &&& post.next_free() == f.number + 1
        },
        None => {
            &&& forall|g: int| g >= pre.next_free() ==> !pre.is_free(g)
            &&& post.next_free() >= pre.next_free()
        },
    }
}

/// Number of the frame holding the last byte of a region that holds one.
fn region_last_frame(r: &MemoryRegion) -> (n: usize)
    requires
        region_fits(*r),
        r.length > 0,
    ensures
        n == last_frame(*r),
        n < usize::MAX,
{
    proof {
        vstd::arithmetic::div_mod::lemma_div_is_ordered(
            r.start_address + r.length - 1,
            r.start_address + r.length,
            PAGE_SIZE as int,
        );
    }
    ((r.start_address + (r.length - 1)) / (PAGE_SIZE as u64)) as usize
}

/// Number of the frame holding the first byte of a region.
fn region_first_frame(r: &MemoryRegion) -> (n: usize)
    requires
        region_fits(*r),
    ensures
        n == first_frame(*r),
{
    (r.start_address / (PAGE_SIZE as u64)) as usize
}

impl AreaFrameAllocator {
    /// An allocator over `memory_areas` that never hands out a frame between
    /// the frames of `kernel_start` and `kernel_end`, nor between those of
    /// `multiboot_start` and `multiboot_end` (both bounds included).
    pub fn new(
        kernel_start: usize,
        kernel_end: usize,
        multiboot_start: usize,
        multiboot_end: usize,
        memory_areas: Vec<MemoryRegion>,
    ) -> (r: AreaFrameAllocator)
        requires
            forall|i: int| 0 <= i < memory_areas@.len() ==> region_fits(#[trigger] memory_areas@[i]),
        ensures
            r.wf(),
            r.regions() == memory_areas@,
            r.kernel_frames() == ((kernel_start / PAGE_SIZE) as int, (kernel_end / PAGE_SIZE) as int),
            r.boot_info_frames() == (
                (multiboot_start / PAGE_SIZE) as int,
                (multiboot_end / PAGE_SIZE) as int,
            ),
            forall|g: int| 0 <= g < r.next_free() ==> !r.is_free(g),
            match r.current_region() {
                Some(i) => lowest_qualifying(memory_areas@, 0, i) && r.next_free() == first_frame(
                    memory_areas@[i],
                ),
                None => r.next_free() == 0 && forall|j: int|
                    0 <= j < memory_areas@.len() ==> !region_usable(#[trigger] memory_areas@[j]),
            },
    {
        let mut allocator = AreaFrameAllocator {
            next_free_frame: Frame::from_address(0),
            current_area: None,
            areas: memory_areas,
            kernel_start: Frame::from_address(kernel_start),
            kernel_end: Frame::from_address(kernel_end),
            multiboot_start: Frame::from_address(multiboot_start),
            multiboot_end: Frame::from_address(multiboot_end),
        };
        allocator.choose_next_area();
        assert forall|j: int| 0 <= j < allocator.areas@.len() && region_usable(
            #[trigger] allocator.areas@[j],
        ) implies qualifies(allocator.areas@[j], 0) by {}
        allocator
    }

    /// Moves to the available region with the lowest start address whose last
    /// frame is not below the cursor, and lifts the cursor to its first frame.
    fn choose_next_area(&mut self)
        requires
            old(self).layout_ok(),
        ensures
            final(self).wf(),
            final(self).same_layout(&*old(self)),
            final(self).next_free() >= old(self).next_free(),
            forall|g: int|
                old(self).next_free() <= g < final(self).next_free() ==> !available(
                    final(self).regions(),
                    g,
                ),
            final(self).current_area matches Some(i) ==> i < final(self).areas@.len()
                && final(self).next_free() <= last_frame(final(self).areas@[i as int]),
            match final(self).current_region() {
                Some(i) => {
                    &&& lowest_qualifying(old(self).regions(), old(self).next_free(), i)
                    &&& final(self).next_free() == if old(self).next_free() < first_frame(
                        old(self).regions()[i],
                    ) {
                        first_frame(old(self).regions()[i])
                    } else {
                        old(self).next_free()
                    }
                },
                None => {
                    &&& final(self).next_free() == old(self).next_free()
                    &&& forall|j: int|
                        0 <= j < old(self).regions().len() ==> !#[trigger] qualifies(
                            old(self).regions()[j],
                            old(self).next_free(),
                        )
                },
            },
    {
        let next = self.next_free_frame.number;
        let mut best: Option<usize> = None;
        let mut i: usize = 0;
        while i < self.areas.len()
            invariant
                i <= self.areas@.len(),
                self.next_free_frame.number == next,
                forall|k: int| 0 <= k < self.areas@.len() ==> region_fits(#[trigger] self.areas@[k]),
                match best {
                    None => forall|k: int|
                        0 <= k < i ==> !(region_usable(#[trigger] self.areas@[k]) && last_frame(
                            self.areas@[k],
                        ) >= next),
                    Some(b) => {
                        &&& b < i
                        &&& region_usable(self.areas@[b as int])
                        &&& last_frame(self.areas@[b as int]) >= next
                        &&& forall|k: int|
                            0 <= k < i && region_usable(#[trigger] self.areas@[k]) && last_frame(
                                self.areas@[k],
                            ) >= next ==> self.areas@[b as int].start_address
                                <= self.areas@[k].start_address
                    },
                },
            decreases self.areas@.len() - i,
        {
            let area = &self.areas[i];
            if area.kind == MemoryRegionKind::Available && area.length > 0 && region_last_frame(area)
                >= next {
                let better = match best {
                    None => true,
                    Some(b) => area.start_address < self.areas[b].start_address,
                };
                if better {
                    best = Some(i);
                }
            }
            i = i + 1;
        }
        self.current_area = best;
        if let Some(b) = best {
            let start_frame = region_first_frame(&self.areas[b]);
            if next < start_frame {
                self.next_free_frame = Frame { number: start_frame };
            }
            assert forall|g: int|
                next <= g < self.next_free() implies !available(self.regions(), g) by {
                if available(self.regions(), g) {
                    let k = choose|k: int|
                        0 <= k < self.regions().len() && #[trigger] region_holds(
                            self.regions()[k],
                            g,
                        );
                    assert(self.areas@[b as int].start_address <= self.areas@[k].start_address);
                    assert(first_frame(self.areas@[b as int]) <= first_frame(self.areas@[k])) by {
                        vstd::arithmetic::div_mod::lemma_div_is_ordered(
                            self.areas@[b as int].start_address as int,
                            self.areas@[k].start_address as int,
                            PAGE_SIZE as int,
                        );
                    }
                }
            }
        } else {
            assert forall|f: int| f >= self.next_free() implies !available(self.regions(), f) by {
                if available(self.regions(), f) {
                    let k = choose|k: int|
                        0 <= k < self.regions().len() && #[trigger] region_holds(
                            self.regions()[k],
                            f,
                        );
                    assert(!(region_usable(self.areas@[k]) && last_frame(self.areas@[k]) >= next));
                }
            }
        }
    }

    /// Hands out the lowest free frame at or above the cursor and moves the
    /// cursor past it; `None` once no free frame is left.
    pub fn allocate_frame(&mut self) -> (r: Option<Frame>)
        requires
            old(self).wf(),
        ensures
            final(self).wf(),
            allocation_step(*old(self), *final(self), r),
    {
        let ghost start = self.next_free();
        loop
            invariant
                self.wf(),
                self.same_layout(old(self)),
                old(self).exhausted() ==> *self == *old(self),
                start == old(self).next_free(),
                start <= self.next_free(),
                forall|g: int| start <= g < self.next_free() ==> !old(self).is_free(g),
            decreases self.pending(),
        {
            match self.current_area {
                None => {
                    return None;
                },
                Some(i) => {
                    let n = self.next_free_frame.number;
                    let last = region_last_frame(&self.areas[i]);
                    if n > last {
                        self.choose_next_area();
                    } else if n >= self.kernel_start.number && n <= self.kernel_end.number {
                        self.next_free_frame = Frame { number: self.kernel_end.number + 1 };
                    } else if n >= self.multiboot_start.number && n <= self.multiboot_end.number {
                        self.next_free_frame = Frame { number: self.multiboot_end.number + 1 };
                    } else {
                        self.next_free_frame = Frame { number: n + 1 };
                        assert(region_holds(self.areas@[i as int], n as int));
                        return Some(Frame { number: n });
                    }
                },
            }
        }
    }
}

impl FrameAllocator for AreaFrameAllocator {
    open spec fn inv(&self) -> bool {
        self.wf()
    }

    fn allocate_frame(&mut self) -> (r: Option<Frame>)
        ensures
            allocation_step(*old(self), *final(self), r),
    {
        AreaFrameAllocator::allocate_frame(self)
    }

    /// Frames are never given back in this design: the request is refused.
    fn deallocate_frame(&mut self, frame: Frame) -> (r: Result<(), AllocError>)
        ensures
            r == Err::<(), AllocError>(AllocError::Unsupported),
            *final(self) == *old(self),
    {
        Err(AllocError::Unsupported)
    }
}

/// A run of allocations: `results[k]` and `states[k + 1]` come from one
/// allocation out of `states[k]`.
pub open spec fn allocation_run(states: Seq<AreaFrameAllocator>, results: Seq<Option<Frame>>) -> bool {
    &&& states.len() == results.len() + 1
    &&& forall|k: int|
        0 <= k < results.len() ==> allocation_step(states[k], states[k + 1], #[trigger] results[k])
}

/// The free frames at or above the cursor of `a`.
pub open spec fn frames_left(a: AreaFrameAllocator) -> Set<int> {
    Set::new(|f: int| f >= a.next_free() && a.is_free(f))
}

/// Two allocators with one layout agree on which frames are free.
proof fn lemma_same_layout_free(a: AreaFrameAllocator, b: AreaFrameAllocator)
    requires
        a.same_layout(&b),
    ensures
        forall|f: int| #[trigger] a.is_free(f) == b.is_free(f),
{
}

/// Along a run the layout stays that of the first state and the cursor never
/// moves down.
proof fn lemma_run_prefix(states: Seq<AreaFrameAllocator>, results: Seq<Option<Frame>>, j: int)
    requires
        allocation_run(states, results),
        0 <= j < states.len(),
    ensures
        states[j].same_layout(&states[0]),
        forall|i: int| 0 <= i <= j ==> states[i].next_free() <= states[j].next_free(),
    decreases j,
{
    if j > 0 {
        lemma_run_prefix(states, results, j - 1);
        assert(allocation_step(states[j - 1], states[j], results[j - 1]));
    }
}

/// Frames handed out along any run of allocations strictly increase, and none
/// lies in the kernel image or in the boot information structure.
pub proof fn lemma_frames_strictly_increase(
    states: Seq<AreaFrameAllocator>,
    results: Seq<Option<Frame>>,
)
    requires
        allocation_run(states, results),
    ensures
        forall|i: int, j: int|
            0 <= i < j < results.len() && results[i] is Some && results[j] is Some
                ==> results[i]->0.number < results[j]->0.number,
        forall|i: int|
            0 <= i < results.len() && #[trigger] results[i] is Some ==> {
                let f = results[i]->0.number as int;
                &&& !(states[0].kernel_frames().0 <= f <= states[0].kernel_frames().1)
                &&& !(states[0].boot_info_frames().0 <= f <= states[0].boot_info_frames().1)
            },
{
    assert forall|i: int, j: int|
        0 <= i < j < results.len() && results[i] is Some && results[j]
            is Some implies results[i]->0.number < results[j]->0.number by {
        lemma_run_prefix(states, results, j);
        assert(allocation_step(states[i], states[i + 1], results[i]));
        assert(allocation_step(states[j], states[j + 1], results[j]));
    }
    assert forall|i: int| 0 <= i < results.len() && #[trigger] results[i] is Some implies {
        let f = results[i]->0.number as int;
        &&& !(states[0].kernel_frames().0 <= f <= states[0].kernel_frames().1)
        &&& !(states[0].boot_info_frames().0 <= f <= states[0].boot_info_frames().1)
    } by {
        lemma_run_prefix(states, results, i);
        assert(allocation_step(states[i], states[i + 1], results[i]));
    }
}

/// Once a run of allocations returns `None`, it returns `None` from then on.
proof fn lemma_none_persists(
    states: Seq<AreaFrameAllocator>,
    results: Seq<Option<Frame>>,
    k: int,
    j: int,
)
    requires
        allocation_run(states, results),
        0 <= k <= j < results.len(),
        results[k] is None,
    ensures
        results[j] is None,
    decreases j - k,
{
    if j > k {
        lemma_none_persists(states, results, k, j - 1);
        lemma_run_prefix(states, results, j);
        lemma_run_prefix(states, results, k);
        assert(allocation_step(states[k], states[k + 1], results[k]));
        assert(allocation_step(states[j], states[j + 1], results[j]));
        assert(allocation_step(states[j - 1], states[j], results[j - 1]));
        if results[j] is Some {
            let f = results[j]->0.number as int;
            assert(states[j].is_free(f));
            assert(states[k].is_free(f));
        }
    }
}

/// The frames handed out by the first `j` allocations of a run in which all
/// of them succeed are the free frames between the first cursor and the `j`-th.
proof fn lemma_handed_out(states: Seq<AreaFrameAllocator>, results: Seq<Option<Frame>>, j: int)
    requires
        allocation_run(states, results),
        0 <= j < states.len(),
        forall|i: int| 0 <= i < j ==> #[trigger] results[i] is Some,
    ensures
        Set::new(
            |f: int|
                states[0].next_free() <= f < states[j].next_free() && states[0].is_free(f),
        ).finite(),
        Set::new(
            |f: int|
                states[0].next_free() <= f < states[j].next_free() && states[0].is_free(f),
        ).len() == j,
    decreases j,
{
    let s0 = states[0];
    let cur = Set::new(|f: int| s0.next_free() <= f < states[j].next_free() && s0.is_free(f));
    lemma_run_prefix(states, results, j);
    if j == 0 {
        assert(cur =~= Set::empty());
    } else {
        lemma_handed_out(states, results, j - 1);
        lemma_run_prefix(states, results, j - 1);
        let prev = Set::new(
            |f: int| s0.next_free() <= f < states[j - 1].next_free() && s0.is_free(f),
        );
        assert(results[j - 1] is Some);
        assert(allocation_step(states[j - 1], states[j], results[j - 1]));
        let g = results[j - 1]->0.number as int;
        lemma_same_layout_free(states[j - 1], s0);
        assert(states[0].next_free() <= states[j - 1].next_free());
        assert forall|f: int| cur.contains(f) <==> prev.insert(g).contains(f) by {
            if states[j - 1].next_free() <= f < g {
                assert(!states[j - 1].is_free(f));
            }
        }
        assert(cur =~= prev.insert(g));
        assert(!prev.contains(g));
    }
}

/// A run of allocations succeeds exactly as many times as there are free
/// frames at or above the first cursor, and returns `None` from then on.
pub proof fn lemma_exhaustion_count(states: Seq<AreaFrameAllocator>, results: Seq<Option<Frame>>)
    requires
        allocation_run(states, results),
        states[0].wf(),
    ensures
        frames_left(states[0]).finite(),
        forall|k: int|
            0 <= k < results.len() ==> (#[trigger] results[k] is Some <==> k < frames_left(
                states[0],
            ).len()),
{
    let s0 = states[0];
    let left = frames_left(s0);
    assert(left.subset_of(vstd::set_lib::set_int_range(s0.next_free(), usize::MAX as int))) by {
        assert forall|f: int| left.contains(f) implies f < usize::MAX by {
            let r = choose|r: int| 0 <= r < s0.regions().len() && #[trigger] region_holds(s0.regions()[r], f);
            assert(region_fits(s0.areas@[r]));
            vstd::arithmetic::div_mod::lemma_div_is_ordered(
                s0.areas@[r].start_address + s0.areas@[r].length - 1,
                s0.areas@[r].start_address + s0.areas@[r].length,
                PAGE_SIZE as int,
            );
        }
    }
    if s0.next_free() <= usize::MAX {
        vstd::set_lib::lemma_int_range(s0.next_free(), usize::MAX as int);
        vstd::set_lib::lemma_len_subset(left, vstd::set_lib::set_int_range(s0.next_free(), usize::MAX as int));
    } else {
        assert(left =~= Set::empty());
    }
    assert forall|k: int| 0 <= k < results.len() implies (#[trigger] results[k] is Some <==> k
        < left.len()) by {
        lemma_count_at(states, results, k);
    }
}

/// Allocation `k` of a run succeeds exactly when more than `k` free frames
/// were left at the start.
proof fn lemma_count_at(states: Seq<AreaFrameAllocator>, results: Seq<Option<Frame>>, k: int)
    requires
        allocation_run(states, results),
        frames_left(states[0]).finite(),
        0 <= k < results.len(),
    ensures
        results[k] is Some <==> k < frames_left(states[0]).len(),
    decreases k,
{
    let s0 = states[0];
    let left = frames_left(s0);
    if exists|i: int| 0 <= i < k && #[trigger] results[i] is None {
        let i = choose|i: int| 0 <= i < k && #[trigger] results[i] is None;
        lemma_none_persists(states, results, i, k);
        lemma_count_at(states, results, i);
    } else {
        lemma_handed_out(states, results, k);
        lemma_run_prefix(states, results, k);
        let done = Set::new(
            |f: int| s0.next_free() <= f < states[k].next_free() && s0.is_free(f),
        );
        assert(allocation_step(states[k], states[k + 1], results[k]));
        if results[k] is Some {
            lemma_handed_out(states, results, k + 1);
            lemma_run_prefix(states, results, k + 1);
            let more = Set::new(
                |f: int| s0.next_free() <= f < states[k + 1].next_free() && s0.is_free(f),
            );
            vstd::set_lib::lemma_len_subset(more, left);
        } else {
            lemma_same_layout_free(states[k], s0);
            assert(states[0].next_free() <= states[k].next_free());
            assert forall|f: int| done.contains(f) <==> left.contains(f) by {
                if f >= states[k].next_free() {
                    assert(!states[k].is_free(f));
                }
            }
            assert(done =~= left);
        }
    }
}

/// Total length in bytes of `regions`.
pub open spec fn total_length(regions: Seq<MemoryRegion>) -> int
    decreases regions.len(),
{
    if regions.len() == 0 {
        0
    } else {
        total_length(regions.drop_last()) + regions.last().length
    }
}

/// Every region is available and page aligned, and no two regions overlap.
pub open spec fn plain_memory_map(regions: Seq<MemoryRegion>) -> bool {
    &&& forall|i: int|
        0 <= i < regions.len() ==> {
            &&& (#[trigger] regions[i]).kind == MemoryRegionKind::Available
            &&& regions[i].start_address as int % PAGE_SIZE as int == 0
            &&& regions[i].length as int % PAGE_SIZE as int == 0
        }
    &&& forall|i: int, j: int|
        0 <= i < regions.len() && 0 <= j < regions.len() && i != j ==> #[trigger] regions[i].start_address
            + regions[i].length <= #[trigger] regions[j].start_address || regions[j].start_address
            + regions[j].length <= regions[i].start_address
}

/// Frames overlapping one of the first `m` usable regions.
spec fn covered(regions: Seq<MemoryRegion>, m: int) -> Set<int> {
    Set::new(|f: int| exists|i: int| 0 <= i < m && #[trigger] region_holds(regions[i], f))
}

/// The frames of an aligned region are the `length / PAGE_SIZE` frames from
/// its first one.
proof fn lemma_aligned_region_frames(r: MemoryRegion, f: int)
    requires
        r.kind == MemoryRegionKind::Available,
        r.start_address as int % PAGE_SIZE as int == 0,
        r.length as int % PAGE_SIZE as int == 0,
    ensures
        region_holds(r, f) <==> first_frame(r) <= f < first_frame(r) + r.length as int / PAGE_SIZE as int,
{
    let a = r.start_address as int / PAGE_SIZE as int;
    let k = r.length as int / PAGE_SIZE as int;
    assert(r.start_address == PAGE_SIZE * a);
    assert(r.length == PAGE_SIZE * k);
    if r.length > 0 {
        assert((r.start_address + r.length - 1) / PAGE_SIZE as int == a + k - 1);
    }
}

/// The usable frames of the first `m` regions of a plain map number their
/// bytes over `PAGE_SIZE`.
proof fn lemma_covered_len(regions: Seq<MemoryRegion>, m: int)
    requires
        plain_memory_map(regions),
        0 <= m <= regions.len(),
    ensures
        covered(regions, m).finite(),
        covered(regions, m).len() * PAGE_SIZE == total_length(regions.take(m)),
    decreases m,
{
    if m == 0 {
        assert(covered(regions, 0) =~= Set::empty());
        assert(regions.take(0) =~= Seq::empty());
    } else {
        lemma_covered_len(regions, m - 1);
        let r = regions[m - 1];
        let a = first_frame(r);
        let k = r.length as int / PAGE_SIZE as int;
        let frames = vstd::set_lib::set_int_range(a, a + k);
        vstd::set_lib::lemma_int_range(a, a + k);
        let prev = covered(regions, m - 1);
        assert forall|f: int| #[trigger] covered(regions, m).contains(f) <==> (prev + frames).contains(f) by {
            lemma_aligned_region_frames(r, f);
            if covered(regions, m).contains(f) {
                let i = choose|i: int| 0 <= i < m && #[trigger] region_holds(regions[i], f);
                if i < m - 1 {
                    assert(prev.contains(f));
                }
            }
            if frames.contains(f) {
                assert(region_holds(regions[m - 1], f));
            }
        }
        assert(covered(regions, m) =~= prev + frames);
        assert forall|f: int| prev.contains(f) implies !frames.contains(f) by {
            let i = choose|i: int| 0 <= i < m - 1 && #[trigger] region_holds(regions[i], f);
            lemma_aligned_region_frames(regions[i], f);
            lemma_aligned_region_frames(r, f);
            let ri = regions[i];
            assert(ri.start_address + ri.length <= r.start_address || r.start_address + r.length
                <= ri.start_address);
            assert(ri.start_address == PAGE_SIZE * first_frame(ri));
            assert(r.start_address == PAGE_SIZE * a);
            assert(ri.length == PAGE_SIZE * (ri.length as int / PAGE_SIZE as int));
            assert(r.length == PAGE_SIZE * k);
        }
        assert(prev.disjoint(frames));
        vstd::set_lib::lemma_set_disjoint_lens(prev, frames);
        assert(regions.take(m).drop_last() =~= regions.take(m - 1));
        assert(r.length == PAGE_SIZE * k);
    }
}

/// Over a fully available, page-aligned memory map without overlaps, and
/// with both excluded ranges outside it, a new allocator hands out exactly
/// one frame per `PAGE_SIZE` bytes of the map, then `None` from then on.
pub proof fn lemma_exhaustion_after_all_bytes(
    states: Seq<AreaFrameAllocator>,
    results: Seq<Option<Frame>>,
)
    requires
        allocation_run(states, results),
        states[0].wf(),
        forall|g: int| 0 <= g < states[0].next_free() ==> !states[0].is_free(g),
        plain_memory_map(states[0].regions()),
        forall|f: int|
            #[trigger] available(states[0].regions(), f) ==> {
                &&& !(states[0].kernel_frames().0 <= f <= states[0].kernel_frames().1)
                &&& !(states[0].boot_info_frames().0 <= f <= states[0].boot_info_frames().1)
            },
    ensures
        forall|k: int|
            0 <= k < results.len() ==> (#[trigger] results[k] is Some <==> k < total_length(
                states[0].regions(),
            ) / PAGE_SIZE as int),
{
    let s0 = states[0];
    let regions = s0.regions();
    lemma_exhaustion_count(states, results);
    lemma_covered_len(regions, regions.len() as int);
    assert(regions.take(regions.len() as int) =~= regions);
    assert forall|f: int| frames_left(s0).contains(f) <==> covered(regions, regions.len() as int).contains(f) by {
        if covered(regions, regions.len() as int).contains(f) {
            assert(available(regions, f));
            assert(s0.is_free(f));
        }
    }
    assert(frames_left(s0) =~= covered(regions, regions.len() as int));
    let n = frames_left(s0).len() as int;
    assert(total_length(regions) / PAGE_SIZE as int == n);
}

/// A frame allocator that is set at most once and draws from then on.
pub struct FrameAllocatorCell {
    allocator: Option<AreaFrameAllocator>,
}

impl View for FrameAllocatorCell {
    type V = Option<AreaFrameAllocator>;

    closed spec fn view(&self) -> Option<AreaFrameAllocator> {
        self.allocator
    }
}

impl FrameAllocatorCell {
    /// A cell with no allocator yet.
    pub fn new() -> (r: FrameAllocatorCell)
        ensures
            r@ is None,
    {
        FrameAllocatorCell { allocator: None }
    }

    /// An allocator has been set.
    pub fn is_set(&self) -> (r: bool)
        ensures
            r == self@ is Some,
    {
        self.allocator.is_some()
    }

    /// Stores `allocator` when the cell is empty; otherwise refuses it and
    /// keeps what it holds. Returns whether it was stored.
    pub fn set(&mut self, allocator: AreaFrameAllocator) -> (r: bool)
        ensures
            r == old(self)@ is None,
            final(self)@ == (if old(self)@ is None {
                Some(allocator)
            } else {
                old(self)@
            }),
    {
        if self.allocator.is_none() {
            self.allocator = Some(allocator);
            true
        } else {
            false
        }
    }
}

impl FrameAllocator for FrameAllocatorCell {
    open spec fn inv(&self) -> bool {
        match self@ {
            Some(a) => a.wf(),
            None => true,
        }
    }

    /// Draws from the stored allocator; `None` while there is none.
    fn allocate_frame(&mut self) -> (r: Option<Frame>)
        ensures
            match old(self)@ {
                Some(a) => final(self)@ matches Some(b) && allocation_step(a, b, r),
                None => r is None && final(self)@ is None,
            },
    {
        match &mut self.allocator {
            Some(a) => a.allocate_frame(),
            None => None,
        }
    }

    /// Frames are never given back in this design: the request is refused.
    fn deallocate_frame(&mut self, frame: Frame) -> (r: Result<(), AllocError>)
        ensures
            r == Err::<(), AllocError>(AllocError::Unsupported),
            final(self)@ == old(self)@,
    {
        Err(AllocError::Unsupported)
    }
}

} // verus!
