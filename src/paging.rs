//! Four-level page tables: entries, tables of 512 entries, and the walker
//! that translates, maps and unmaps pages.
use vstd::prelude::*;

use crate::frame_alloc::{Frame, FrameAllocator, PAGE_SIZE};

verus! {

/// Number of entries in a table of any level.
pub const ENTRY_COUNT: usize = 512;

/// An address in physical memory.
pub type PhysicalAddress = usize;

/// An address in virtual memory.
pub type VirtualAddress = usize;

/// Bits 12 to 51 of an entry: the physical address it points to.
pub const ADDRESS_MASK: u64 = 0x000f_ffff_ffff_f000;

/// The bits of an entry that carry flags.
pub const FLAG_MASK: u64 = 0x8000_0000_0000_01ff;

/// The entry is in use.
pub const PRESENT: u64 = 0x1;

/// Writes are allowed.
pub const WRITABLE: u64 = 0x2;

/// Ring 3 may access the page.
pub const USER_ACCESSIBLE: u64 = 0x4;

/// Writes go straight to memory.
pub const WRITE_THROUGH: u64 = 0x8;

/// The page is not cached.
pub const NO_CACHE: u64 = 0x10;

/// Set by the CPU on access.
pub const ACCESSED: u64 = 0x20;

/// Set by the CPU on write.
pub const DIRTY: u64 = 0x40;

/// In a level-3 or level-2 entry: a 1 GiB or 2 MiB page rather than a table.
pub const HUGE_PAGE: u64 = 0x80;

/// The translation survives address-space switches.
pub const GLOBAL: u64 = 0x100;

/// Instructions may not be fetched from the page.
pub const NO_EXECUTE: u64 = 0x8000_0000_0000_0000;

/// Frames per huge page of the third level (1 GiB).
pub const FRAMES_PER_GIB: usize = 0x40000;

/// Largest frame number whose address fits in bits 12 to 51 of an entry.
pub const MAX_TABLE_FRAME: u64 = 0xff_ffff_ffff;

/// A frame can be written into an entry, and every address that an entry
/// pointing to it translates to fits in a `usize`.
pub open spec fn mappable(n: int) -> bool {
    &&& 0 <= n <= MAX_TABLE_FRAME
    &&& n * PAGE_SIZE + FRAMES_PER_GIB * PAGE_SIZE <= usize::MAX + 1
}

/// Bits 47 to 63 of the address are all equal.
pub open spec fn canonical(address: int) -> bool {
    address < 0x0000_8000_0000_0000 || 0xffff_8000_0000_0000 <= address
}

/// The entry word has the present bit set.
pub open spec fn is_present(e: u64) -> bool {
    e & PRESENT != 0
}

/// The entry word has the huge-page bit set.
pub open spec fn is_huge(e: u64) -> bool {
    e & HUGE_PAGE != 0
}

/// Number of the frame that the entry word points to.
pub open spec fn target_frame(e: u64) -> int {
    (e & ADDRESS_MASK) as int / PAGE_SIZE as int
}

/// The frame of the next-level table that an entry word leads to, if any.
pub open spec fn next_frame(e: u64) -> Option<int> {
    if is_present(e) && !is_huge(e) {
        Some(target_frame(e))
    } else {
        None
    }
}

/// An entry word for frame `n` with the flag bits `flags`.
pub open spec fn encode_entry(n: int, flags: u64) -> u64 {
    ((n * PAGE_SIZE) as u64 | flags) as u64
}

/// An entry word built from a frame and flag bits gives both back.
proof fn lemma_encode_entry(n: u64, flags: u64)
    requires
        n <= MAX_TABLE_FRAME,
        flags & !FLAG_MASK == 0,
    ensures
        ((n * 4096) as u64 | flags) & ADDRESS_MASK == n * 4096,
        ((n * 4096) as u64 | flags) & FLAG_MASK == flags,
        ((n * 4096) as u64 | flags) & PRESENT == flags & PRESENT,
        ((n * 4096) as u64 | flags) & HUGE_PAGE == flags & HUGE_PAGE,
{
    assert(((n * 4096) as u64 | flags) & 0x000f_ffff_ffff_f000u64 == n * 4096) by (bit_vector)
        requires
            n <= 0xff_ffff_ffffu64,
            flags & !0x8000_0000_0000_01ffu64 == 0,
    ;
    assert(((n * 4096) as u64 | flags) & 0x8000_0000_0000_01ffu64 == flags) by (bit_vector)
        requires
            n <= 0xff_ffff_ffffu64,
            flags & !0x8000_0000_0000_01ffu64 == 0,
    ;
    assert(((n * 4096) as u64 | flags) & 1u64 == flags & 1u64) by (bit_vector)
        requires
            n <= 0xff_ffff_ffffu64,
    ;
    assert(((n * 4096) as u64 | flags) & 0x80u64 == flags & 0x80u64) by (bit_vector)
        requires
            n <= 0xff_ffff_ffffu64,
    ;
}

/// Flags of a page-table entry. Holds no bit outside the flag bits.
#[derive(Debug, Clone, Copy, PartialEq, Eq, Structural)]
pub struct EntryFlags {
    bits: u64,
}

impl EntryFlags {
    #[verifier::type_invariant]
    spec fn only_flag_bits(self) -> bool {
        self.bits & !FLAG_MASK == 0
    }

    /// The flag word.
    pub closed spec fn value(self) -> u64 {
        self.bits
    }

    /// The flags among `bits`; other bits are dropped.
    pub fn from_bits_truncate(bits: u64) -> (r: EntryFlags)
        ensures
            r.value() == bits & FLAG_MASK,
    {
        let v = bits & FLAG_MASK;
        assert(v & !FLAG_MASK == 0) by (bit_vector)
            requires
                v == bits & 0x8000_0000_0000_01ffu64,
        ;
        EntryFlags { bits: v }
    }

    /// No flag set.
    pub fn empty() -> (r: EntryFlags)
        ensures
            r.value() == 0,
    {
        assert(0u64 & !FLAG_MASK == 0) by (bit_vector);
        EntryFlags { bits: 0 }
    }

    pub fn bits(&self) -> (r: u64)
        ensures
            r == self.value(),
            r & !FLAG_MASK == 0,
    {
        proof {
            use_type_invariant(self);
        }
        self.bits
    }

    /// Every flag of `other` is set in `self`.
    pub fn contains(&self, other: EntryFlags) -> (r: bool)
        ensures
            r == (self.value() & other.value() == other.value()),
    {
        self.bits & other.bits == other.bits
    }

    /// The flags set in `self` or in `other`.
    pub fn union(&self, other: EntryFlags) -> (r: EntryFlags)
        ensures
            r.value() == self.value() | other.value(),
    {
        proof {
            use_type_invariant(self);
            use_type_invariant(&other);
        }
        let a = self.bits;
        let b = other.bits;
        assert((a | b) & !FLAG_MASK == 0) by (bit_vector)
            requires
                a & !0x8000_0000_0000_01ffu64 == 0,
                b & !0x8000_0000_0000_01ffu64 == 0,
        ;
        EntryFlags { bits: a | b }
    }
}

/// Index into the level-4 table of page number `n`.
pub open spec fn p4_index_of(n: int) -> int {
    (n / 0x800_0000) % 512
}

/// Index into the level-3 table of page number `n`.
pub open spec fn p3_index_of(n: int) -> int {
    (n / 0x4_0000) % 512
}

/// Index into the level-2 table of page number `n`.
pub open spec fn p2_index_of(n: int) -> int {
    (n / 0x200) % 512
}

/// Index into the level-1 table of page number `n`.
pub open spec fn p1_index_of(n: int) -> int {
    n % 512
}

/// Bits 47 to 63 of `address` are all equal.
pub fn is_canonical(address: VirtualAddress) -> (r: bool)
    ensures
        r == canonical(address as int),
{
    let a = address as u64;
    a < 0x0000_8000_0000_0000u64 || 0xffff_8000_0000_0000u64 <= a
}

/// A page of virtual memory, named by its index.
#[derive(Debug, Clone, Copy, PartialEq, Eq, Structural)]
pub struct Page {
    number: usize,
}

impl View for Page {
    type V = int;

    closed spec fn view(&self) -> int {
        self.number as int
    }
}

impl Page {
    /// The page that contains `address`, which has to be canonical (bits 47
    /// to 63 all equal).
    pub fn from_address(address: VirtualAddress) -> (r: Page)
        requires
            canonical(address as int),
        ensures
            r@ == address / PAGE_SIZE,
    {
        Page { number: address / PAGE_SIZE }
    }

    /// The virtual address of the page's first byte.
    pub fn start_address(&self) -> (r: usize)
        requires
            self@ * PAGE_SIZE <= usize::MAX,
        ensures
            r == self@ * PAGE_SIZE,
    {
        self.number * PAGE_SIZE
    }

    fn p4_index(&self) -> (r: usize)
        ensures
            r == p4_index_of(self@),
    {
        let n = self.number;
        assert((n >> 27usize) & 0o777usize == (n / 0x800_0000usize) % 512usize) by (bit_vector);
        (n >> 27usize) & 0o777usize
    }

    fn p3_index(&self) -> (r: usize)
        ensures
            r == p3_index_of(self@),
    {
        let n = self.number;
        assert((n >> 18usize) & 0o777usize == (n / 0x4_0000usize) % 512usize) by (bit_vector);
        (n >> 18usize) & 0o777usize
    }

    fn p2_index(&self) -> (r: usize)
        ensures
            r == p2_index_of(self@),
    {
        let n = self.number;
        assert((n >> 9usize) & 0o777usize == (n / 0x200usize) % 512usize) by (bit_vector);
        (n >> 9usize) & 0o777usize
    }

    fn p1_index(&self) -> (r: usize)
        ensures
            r == p1_index_of(self@),
    {
        let n = self.number;
        assert(n & 0o777usize == n % 512usize) by (bit_vector);
        n & 0o777usize
    }
}

/// One 64-bit word of a page table: flags, and in bits 12 to 51 the address
/// of a frame.
#[derive(Debug)]
pub struct Entry(u64);

impl View for Entry {
    type V = u64;

    closed spec fn view(&self) -> u64 {
        self.0
    }
}

impl Entry {
    #[verifier::type_invariant]
    spec fn address_fits(self) -> bool {
        (self.0 & ADDRESS_MASK) as int + FRAMES_PER_GIB * PAGE_SIZE <= usize::MAX + 1
    }

    /// An entry with no bit set.
    pub fn unused() -> (r: Entry)
        ensures
            r@ == 0,
    {
        assert(0u64 & ADDRESS_MASK == 0) by (bit_vector);
        Entry(0)
    }

    /// The entry word.
    pub fn value(&self) -> (r: u64)
        ensures
            r == self@,
    {
        self.0
    }

    /// The huge-page bit is set.
    pub fn is_huge_page(&self) -> (r: bool)
        ensures
            r == is_huge(self@),
    {
        let v = self.0;
        assert(v & FLAG_MASK & HUGE_PAGE == HUGE_PAGE <==> v & HUGE_PAGE != 0) by (bit_vector);
        assert(HUGE_PAGE & FLAG_MASK == HUGE_PAGE) by (bit_vector);
        self.flags().contains(EntryFlags::from_bits_truncate(HUGE_PAGE))
    }

    /// No bit of the entry is set.
    pub fn is_unused(&self) -> (r: bool)
        ensures
            r == (self@ == 0),
    {
        self.0 == 0
    }

    /// Clears every bit of the entry.
    pub fn set_unused(&mut self)
        ensures
            final(self)@ == 0,
    {
        assert(0u64 & ADDRESS_MASK == 0) by (bit_vector);
        self.0 = 0;
    }

    /// The flag bits of the entry.
    pub fn flags(&self) -> (r: EntryFlags)
        ensures
            r.value() == self@ & FLAG_MASK,
    {
        EntryFlags::from_bits_truncate(self.0)
    }

    /// The frame the entry points to, when it is present.
    pub fn pointed_frame(&self) -> (r: Option<Frame>)
        ensures
            r == (if is_present(self@) {
                Some(Frame { number: target_frame(self@) as usize })
            } else {
                None
            }),
            r matches Some(f) ==> f.number == target_frame(self@) && mappable(f.number as int),
    {
        proof {
            use_type_invariant(self);
        }
        let flags = self.flags();
        let present = EntryFlags::from_bits_truncate(PRESENT);
        let v = self.0;
        assert(v & FLAG_MASK & PRESENT == PRESENT <==> v & PRESENT != 0) by (bit_vector);
        assert(PRESENT & FLAG_MASK == PRESENT) by (bit_vector);
        assert((v & ADDRESS_MASK) / 4096 <= MAX_TABLE_FRAME) by (bit_vector);
        assert((v & ADDRESS_MASK) % 4096 == 0) by (bit_vector);
        if flags.contains(present) {
            Some(Frame::from_address((self.0 & ADDRESS_MASK) as usize))
        } else {
            None
        }
    }

    /// Points the entry at `frame` with exactly the flags `flags`.
    pub fn set(&mut self, frame: Frame, flags: EntryFlags)
        requires
            mappable(frame.number as int),
        ensures
            final(self)@ == encode_entry(frame.number as int, flags.value()),
            target_frame(final(self)@) == frame.number,
            is_present(final(self)@) == (flags.value() & PRESENT != 0),
            is_huge(final(self)@) == (flags.value() & HUGE_PAGE != 0),
    {
        let bits = flags.bits();
        let start = frame.start_address() as u64;
        proof {
            lemma_encode_entry(frame.number as u64, bits);
            let a = ((frame.number as u64) * 4096) as u64;
            assert((a | bits) & ADDRESS_MASK == a);
        }
        self.0 = start | bits;
    }
}

/// Marks the level of a page table.
pub trait TableLevel {}

pub enum Level4 {
    Marker,
}

pub enum Level3 {
    Marker,
}

pub enum Level2 {
    Marker,
}

pub enum Level1 {
    Marker,
}

impl TableLevel for Level4 {}

impl TableLevel for Level3 {}

impl TableLevel for Level2 {}

impl TableLevel for Level1 {}

/// A level whose entries lead to tables of the level below.
pub trait HierarchicalLevel: TableLevel {
    type NextLevel: TableLevel;
}

impl HierarchicalLevel for Level4 {
    type NextLevel = Level3;
}

impl HierarchicalLevel for Level3 {
    type NextLevel = Level2;
}

impl HierarchicalLevel for Level2 {
    type NextLevel = Level1;
}

/// A page table of level `L`: 512 entries.
pub struct Table<L: TableLevel> {
    entries: Vec<Entry>,
    level: core::marker::PhantomData<L>,
}

impl<L: TableLevel> View for Table<L> {
    type V = Seq<u64>;

    closed spec fn view(&self) -> Seq<u64> {
        self.entries@.map_values(|e: Entry| e@)
    }
}

impl<L: TableLevel> Table<L> {
    /// A table whose entries are all unused.
    pub fn new() -> (r: Table<L>)
        ensures
            r@ == Seq::new(ENTRY_COUNT as nat, |i: int| 0u64),
    {
        let mut entries: Vec<Entry> = Vec::new();
        let mut i: usize = 0;
        while i < ENTRY_COUNT
            invariant
                i <= ENTRY_COUNT,
                entries@.len() == i,
                forall|k: int| 0 <= k < i ==> #[trigger] entries@[k]@ == 0,
            decreases ENTRY_COUNT - i,
        {
            entries.push(Entry::unused());
            i = i + 1;
        }
        let r = Table { entries, level: core::marker::PhantomData };
        assert(r@ =~= Seq::new(ENTRY_COUNT as nat, |i: int| 0u64));
        r
    }

    /// The entry at `index`.
    pub fn entry(&self, index: usize) -> (r: &Entry)
        requires
            index < self@.len(),
        ensures
            r@ == self@[index as int],
    {
        &self.entries[index]
    }

    /// Points entry `index` at `frame` with the flags `flags`.
    fn set_entry(&mut self, index: usize, frame: Frame, flags: EntryFlags)
        requires
            index < old(self)@.len(),
            mappable(frame.number as int),
        ensures
            final(self)@ == old(self)@.update(index as int, encode_entry(frame.number as int, flags.value())),
    {
        let mut e = Entry::unused();
        e.set(frame, flags);
        self.entries.set(index, e);
        assert(self@ =~= old(self)@.update(index as int, encode_entry(frame.number as int, flags.value())));
    }

    /// Clears entry `index`.
    fn clear_entry(&mut self, index: usize)
        requires
            index < old(self)@.len(),
        ensures
            final(self)@ == old(self)@.update(index as int, 0u64),
    {
        self.entries.set(index, Entry::unused());
        assert(self@ =~= old(self)@.update(index as int, 0u64));
    }

    /// Marks every entry unused.
    pub fn clear_all_entries(&mut self)
        requires
            old(self)@.len() == ENTRY_COUNT,
        ensures
            final(self)@ == Seq::new(ENTRY_COUNT as nat, |i: int| 0u64),
    {
        let mut i: usize = 0;
        while i < ENTRY_COUNT
            invariant
                i <= ENTRY_COUNT,
                self.entries@.len() == ENTRY_COUNT,
                forall|k: int| 0 <= k < i ==> #[trigger] self.entries@[k]@ == 0,
            decreases ENTRY_COUNT - i,
        {
            self.entries.set(i, Entry::unused());
            i = i + 1;
        }
        assert(self@ =~= Seq::new(ENTRY_COUNT as nat, |i: int| 0u64));
    }
}

/// Why a page could not be mapped.
#[derive(Debug, Clone, Copy, PartialEq, Eq, Structural)]
pub enum MapToError {
    /// The allocator had no frame left for a missing table.
    FrameAllocationFailed,
    /// The allocator handed out a frame that already holds a table of that
    /// level, or that an entry cannot point to.
    UnusableFrame,
}

/// A table of 512 unused entries.
pub open spec fn empty_table() -> Seq<u64> {
    Seq::new(ENTRY_COUNT as nat, |i: int| 0u64)
}

/// The tables of one level, by frame, as entry words.
pub open spec fn table_views<L: TableLevel>(m: Map<usize, Table<L>>) -> Map<usize, Seq<u64>> {
    m.map_values(|t: Table<L>| t@)
}

/// The table that an entry word leads to among `tables`, if any.
pub open spec fn lookup(tables: Map<usize, Seq<u64>>, e: u64) -> Option<Seq<u64>> {
    match next_frame(e) {
        Some(f) => if tables.contains_key(f as usize) {
            Some(tables[f as usize])
        } else {
            None
        },
        None => None,
    }
}

/// Every table of `tables` has 512 entries.
pub open spec fn all_full(tables: Map<usize, Seq<u64>>) -> bool {
    forall|k: usize| tables.contains_key(k) ==> #[trigger] tables[k].len() == ENTRY_COUNT
}

/// Outcome of `next_table_create` on entry `index` of `pre`, whose children
/// are `pre_tables`; `post` and `post_tables` are the results.
pub open spec fn next_table_outcome(
    pre: Seq<u64>,
    post: Seq<u64>,
    pre_tables: Map<usize, Seq<u64>>,
    post_tables: Map<usize, Seq<u64>>,
    index: int,
    r: Result<usize, MapToError>,
) -> bool {
    match lookup(pre_tables, pre[index]) {
        Some(t) => {
            &&& r is Ok
            &&& next_frame(pre[index]) == Some(r->Ok_0 as int)
            &&& post == pre
            &&& post_tables == pre_tables
        },
        None => match r {
            Ok(f) => {
                &&& !pre_tables.contains_key(f)
                &&& mappable(f as int)
                &&& post == pre.update(index, encode_entry(f as int, PRESENT | WRITABLE))
                &&& post_tables == pre_tables.insert(f, empty_table())
            },
            Err(e) => {
                &&& (e == MapToError::FrameAllocationFailed || e == MapToError::UnusableFrame)
                &&& post == pre
                &&& post_tables == pre_tables
            },
        },
    }
}

/// The frame can be written into an entry.
pub fn frame_is_mappable(frame: &Frame) -> (r: bool)
    ensures
        r == mappable(frame.number as int),
{
    (frame.number as u64) <= MAX_TABLE_FRAME && frame.number <= (usize::MAX - (FRAMES_PER_GIB
        * PAGE_SIZE - 1)) / PAGE_SIZE
}

impl<L: HierarchicalLevel> Table<L> {
    /// Frame of the next-level table that entry `index` leads to: the entry
    /// is present and no huge page.
    fn next_table_frame(&self, index: usize) -> (r: Option<usize>)
        requires
            index < self@.len(),
        ensures
            r matches Some(f) ==> next_frame(self@[index as int]) == Some(f as int),
            r is None ==> next_frame(self@[index as int]) is None,
    {
        let e = &self.entries[index];
        let flags = e.flags();
        let ghost v = e@;
        assert(v & FLAG_MASK & PRESENT == PRESENT <==> v & PRESENT != 0) by (bit_vector);
        assert(v & FLAG_MASK & HUGE_PAGE == HUGE_PAGE <==> v & HUGE_PAGE != 0) by (bit_vector);
        assert(PRESENT & FLAG_MASK == PRESENT) by (bit_vector);
        assert(HUGE_PAGE & FLAG_MASK == HUGE_PAGE) by (bit_vector);
        if flags.contains(EntryFlags::from_bits_truncate(PRESENT)) && !flags.contains(
            EntryFlags::from_bits_truncate(HUGE_PAGE),
        ) {
            match e.pointed_frame() {
                Some(f) => Some(f.number),
                None => None,
            }
        } else {
            None
        }
    }

    /// The table of the next level that entry `index` leads to, among `tables`.
    pub fn next_table<'a>(
        &self,
        index: usize,
        tables: &'a std::collections::HashMap<usize, Table<L::NextLevel>>,
    ) -> (r: Option<&'a Table<L::NextLevel>>)
        requires
            index < self@.len(),
        ensures
            r matches Some(t) ==> lookup(table_views(tables@), self@[index as int]) == Some(t@),
            r is None ==> lookup(table_views(tables@), self@[index as int]) is None,
    {
        broadcast use vstd::std_specs::hash::group_hash_axioms;

        match self.next_table_frame(index) {
            Some(f) => tables.get(&f),
            None => None,
        }
    }

    /// Links entry `index`, which leads to no table, to a new empty table in
    /// the frame `frame` that an allocator handed out: refused when there is
    /// no frame, or when the frame cannot be pointed to or already holds a
    /// table of that level.
    pub fn link_new_table(
        &mut self,
        index: usize,
        tables: &mut std::collections::HashMap<usize, Table<L::NextLevel>>,
        frame: Option<Frame>,
    ) -> (r: Result<usize, MapToError>)
        requires
            index < old(self)@.len(),
        ensures
            frame is None ==> r == Err::<usize, MapToError>(MapToError::FrameAllocationFailed)
                && final(self)@ == old(self)@ && final(tables)@ == old(tables)@,
            frame is Some && (!mappable(frame->Some_0.number as int) || old(tables)@.contains_key(
                frame->Some_0.number,
            )) ==> r == Err::<usize, MapToError>(MapToError::UnusableFrame) && final(self)@ == old(
                self,
            )@ && final(tables)@ == old(tables)@,
            frame is Some && mappable(frame->Some_0.number as int) && !old(tables)@.contains_key(
                frame->Some_0.number,
            ) ==> r == Ok::<usize, MapToError>(frame->Some_0.number) && final(self)@ == old(
                self,
            )@.update(index as int, encode_entry(frame->Some_0.number as int, PRESENT | WRITABLE))
                && table_views(final(tables)@) == table_views(old(tables)@).insert(
                frame->Some_0.number,
                empty_table(),
            ),
    {
        broadcast use vstd::std_specs::hash::group_hash_axioms;

        let frame = match frame {
            Some(frame) => frame,
            None => {
                return Err(MapToError::FrameAllocationFailed);
            },
        };
        if !frame_is_mappable(&frame) || tables.contains_key(&frame.number) {
            return Err(MapToError::UnusableFrame);
        }
        let flags = EntryFlags::from_bits_truncate(PRESENT | WRITABLE);
        assert((PRESENT | WRITABLE) & FLAG_MASK == PRESENT | WRITABLE) by (bit_vector);
        self.set_entry(index, frame, flags);
        tables.insert(frame.number, Table::new());
        assert(table_views(tables@) =~= table_views(old(tables)@).insert(frame.number, empty_table()));
        Ok(frame.number)
    }

    /// The frame of the next-level table that entry `index` leads to; when
    /// there is none, the frame `allocator` hands out becomes an empty table
    /// there. The entry must not be a huge page: mapping does not split them.
    pub fn next_table_create<A: FrameAllocator>(
        &mut self,
        index: usize,
        tables: &mut std::collections::HashMap<usize, Table<L::NextLevel>>,
        allocator: &mut A,
    ) -> (r: Result<usize, MapToError>)
        requires
            index < old(self)@.len(),
            old(allocator).inv(),
            lookup(table_views(old(tables)@), old(self)@[index as int]) is Some || !is_huge(
                old(self)@[index as int],
            ),
        ensures
            final(allocator).inv(),
            lookup(table_views(old(tables)@), old(self)@[index as int]) is Some ==> *final(allocator)
                == *old(allocator),
            next_table_outcome(
                old(self)@,
                final(self)@,
                table_views(old(tables)@),
                table_views(final(tables)@),
                index as int,
                r,
            ),
    {
        broadcast use vstd::std_specs::hash::group_hash_axioms;

        if let Some(f) = self.next_table_frame(index) {
            if tables.contains_key(&f) {
                return Ok(f);
            }
        }
        let frame = allocator.allocate_frame();
        let r = self.link_new_table(index, tables, frame);
        proof {
            if r is Err {
                assert(table_views(tables@) == table_views(old(tables)@));
            }
        }
        r
    }
}

/// Every entry of a table in `parents` that leads to a table leads to one in
/// `children`.
pub open spec fn links_resolve(parents: Map<usize, Seq<u64>>, children: Map<usize, Seq<u64>>) -> bool {
    forall|k: usize, i: int|
        parents.contains_key(k) && 0 <= i < ENTRY_COUNT && #[trigger] next_frame(parents[k][i])
            is Some ==> children.contains_key(next_frame(parents[k][i])->0 as usize)
}

/// No two entries of the tables in `parents` lead to the same table.
pub open spec fn links_unique(parents: Map<usize, Seq<u64>>) -> bool {
    forall|k1: usize, i1: int, k2: usize, i2: int|
        parents.contains_key(k1) && parents.contains_key(k2) && 0 <= i1 < ENTRY_COUNT && 0 <= i2
            < ENTRY_COUNT && (k1 != k2 || i1 != i2) && next_frame(parents[k1][i1]) is Some
            && next_frame(parents[k2][i2]) is Some ==> (#[trigger] next_frame(
            parents[k1][i1],
        ))->0 as usize != (#[trigger] next_frame(parents[k2][i2]))->0 as usize
}

/// Linking entry `idx` of table `pk` to a new empty table at a frame that is
/// not yet a table keeps every table reachable from one entry only.
proof fn lemma_link_fresh(
    grandparents: Map<usize, Seq<u64>>,
    parents: Map<usize, Seq<u64>>,
    children: Map<usize, Seq<u64>>,
    grandchildren: Map<usize, Seq<u64>>,
    pk: usize,
    idx: int,
    f: usize,
    entry: u64,
    inner: bool,
)
    requires
        links_resolve(grandparents, parents),
        links_resolve(parents, children),
        inner ==> links_resolve(children, grandchildren),
        links_unique(parents),
        inner ==> links_unique(children),
        all_full(parents),
        parents.contains_key(pk),
        0 <= idx < ENTRY_COUNT,
        !children.contains_key(f),
        next_frame(entry) == Some(f as int),
    ensures
        links_resolve(grandparents, parents.insert(pk, parents[pk].update(idx, entry))),
        links_resolve(
            parents.insert(pk, parents[pk].update(idx, entry)),
            children.insert(f, empty_table()),
        ),
        inner ==> links_resolve(children.insert(f, empty_table()), grandchildren),
        links_unique(parents.insert(pk, parents[pk].update(idx, entry))),
        inner ==> links_unique(children.insert(f, empty_table())),
{
    lemma_zero_entry();
    let p2 = parents.insert(pk, parents[pk].update(idx, entry));
    let c2 = children.insert(f, empty_table());
    assert forall|k: usize, i: int|
        grandparents.contains_key(k) && 0 <= i < ENTRY_COUNT && #[trigger] next_frame(
            grandparents[k][i],
        ) is Some implies p2.contains_key(next_frame(grandparents[k][i])->0 as usize) by {}
    assert forall|k: usize, i: int|
        p2.contains_key(k) && 0 <= i < ENTRY_COUNT && #[trigger] next_frame(p2[k][i])
            is Some implies c2.contains_key(next_frame(p2[k][i])->0 as usize) by {
        if !(k == pk && i == idx) {
            assert(p2[k][i] == parents[k][i]);
        }
    }
    if inner {
        assert forall|k: usize, i: int|
            c2.contains_key(k) && 0 <= i < ENTRY_COUNT && #[trigger] next_frame(c2[k][i])
                is Some implies grandchildren.contains_key(next_frame(c2[k][i])->0 as usize) by {
            if k == f {
                assert(c2[k][i] == 0u64);
            }
        }
    }
    assert forall|k1: usize, i1: int, k2: usize, i2: int|
        p2.contains_key(k1) && p2.contains_key(k2) && 0 <= i1 < ENTRY_COUNT && 0 <= i2
            < ENTRY_COUNT && (k1 != k2 || i1 != i2) && next_frame(p2[k1][i1]) is Some
            && next_frame(p2[k2][i2]) is Some implies (#[trigger] next_frame(p2[k1][i1]))->0 as usize
        != (#[trigger] next_frame(p2[k2][i2]))->0 as usize by {
        let new1 = k1 == pk && i1 == idx;
        let new2 = k2 == pk && i2 == idx;
        if new1 && !new2 {
            assert(p2[k2][i2] == parents[k2][i2]);
            if next_frame(parents[k2][i2]) is Some {
                assert(children.contains_key(next_frame(parents[k2][i2])->0 as usize));
            }
        } else if new2 && !new1 {
            assert(p2[k1][i1] == parents[k1][i1]);
            assert(children.contains_key(next_frame(parents[k1][i1])->0 as usize));
        } else if !new1 && !new2 {
            assert(p2[k1][i1] == parents[k1][i1]);
            assert(p2[k2][i2] == parents[k2][i2]);
        }
    }
    if inner {
        assert forall|k1: usize, i1: int, k2: usize, i2: int|
            c2.contains_key(k1) && c2.contains_key(k2) && 0 <= i1 < ENTRY_COUNT && 0 <= i2
                < ENTRY_COUNT && (k1 != k2 || i1 != i2) && next_frame(c2[k1][i1]) is Some
                && next_frame(c2[k2][i2]) is Some implies (#[trigger] next_frame(
            c2[k1][i1],
        ))->0 as usize != (#[trigger] next_frame(c2[k2][i2]))->0 as usize by {
            if k1 == f {
                assert(c2[k1][i1] == 0u64);
            }
            if k2 == f {
                assert(c2[k2][i2] == 0u64);
            }
        }
    }
}

/// The page-table hierarchy: the level-4 root, and the tables of each lower
/// level by the number of the frame that holds them.
pub struct ActivePageTable {
    p4: Table<Level4>,
    p3: std::collections::HashMap<usize, Table<Level3>>,
    p2: std::collections::HashMap<usize, Table<Level2>>,
    p1: std::collections::HashMap<usize, Table<Level1>>,
}

impl ActivePageTable {
    /// Entry words of the root table.
    pub closed spec fn root(&self) -> Seq<u64> {
        self.p4@
    }

    /// Tables of level `level` (1 to 3), by frame number.
    pub closed spec fn tables(&self, level: int) -> Map<usize, Seq<u64>> {
        if level == 3 {
            table_views(self.p3@)
        } else if level == 2 {
            table_views(self.p2@)
        } else {
            table_views(self.p1@)
        }
    }

    /// The root as the only table of its level.
    pub open spec fn roots(&self) -> Map<usize, Seq<u64>> {
        map![0usize => self.root()]
    }

    /// Every table has 512 entries; every huge-page entry is aligned to the
    /// size of its page; the tables form a tree: each entry that leads to a
    /// table leads to a stored one, and no two entries lead to the same one.
    pub open spec fn wf(&self) -> bool {
        &&& self.root().len() == ENTRY_COUNT
        &&& links_resolve(self.roots(), self.tables(3))
        &&& links_resolve(self.tables(3), self.tables(2))
        &&& links_resolve(self.tables(2), self.tables(1))
        &&& links_unique(self.roots())
        &&& links_unique(self.tables(3))
        &&& links_unique(self.tables(2))
        &&& all_full(self.tables(3))
        &&& all_full(self.tables(2))
        &&& all_full(self.tables(1))
        &&& forall|k: usize, i: int|
            self.tables(3).contains_key(k) && 0 <= i < ENTRY_COUNT && is_present(
                #[trigger] self.tables(3)[k][i],
            ) && is_huge(self.tables(3)[k][i]) ==> target_frame(self.tables(3)[k][i])
                % FRAMES_PER_GIB as int == 0
        &&& forall|k: usize, i: int|
            self.tables(2).contains_key(k) && 0 <= i < ENTRY_COUNT && is_present(
                #[trigger] self.tables(2)[k][i],
            ) && is_huge(self.tables(2)[k][i]) ==> target_frame(self.tables(2)[k][i])
                % ENTRY_COUNT as int == 0
    }

    /// The level-3 table that the walk for page `n` reaches.
    pub open spec fn walk3(&self, n: int) -> Option<Seq<u64>> {
        lookup(self.tables(3), self.root()[p4_index_of(n)])
    }

    /// The level-2 table that the walk for page `n` reaches.
    pub open spec fn walk2(&self, n: int) -> Option<Seq<u64>> {
        match self.walk3(n) {
            Some(t) => lookup(self.tables(2), t[p3_index_of(n)]),
            None => None,
        }
    }

    /// The level-1 table that the walk for page `n` reaches.
    pub open spec fn walk1(&self, n: int) -> Option<Seq<u64>> {
        match self.walk2(n) {
            Some(t) => lookup(self.tables(1), t[p2_index_of(n)]),
            None => None,
        }
    }

    /// The level-1 entry of page `n`, when the walk reaches its table.
    pub open spec fn l1_slot(&self, n: int) -> Option<u64> {
        match self.walk1(n) {
            Some(t) => Some(t[p1_index_of(n)]),
            None => None,
        }
    }

    /// Frame that page `n` maps to through a huge page, if any.
    pub open spec fn huge_translation(&self, n: int) -> Option<int> {
        match self.walk3(n) {
            Some(t3) => {
                let e3 = t3[p3_index_of(n)];
                if is_present(e3) && is_huge(e3) {
                    Some(target_frame(e3) + p2_index_of(n) * ENTRY_COUNT + p1_index_of(n))
                } else {
                    match self.walk2(n) {
                        Some(t2) => {
                            let e2 = t2[p2_index_of(n)];
                            if is_present(e2) && is_huge(e2) {
                                Some(target_frame(e2) + p1_index_of(n))
                            } else {
                                None
                            }
                        },
                        None => None,
                    }
                }
            },
            None => None,
        }
    }

    /// Frame that page `n` maps to.
    pub open spec fn translation(&self, n: int) -> Option<int> {
        match self.l1_slot(n) {
            Some(e) if is_present(e) => Some(target_frame(e)),
            _ => self.huge_translation(n),
        }
    }

    /// Physical address that the virtual address `va` maps to.
    pub open spec fn translation_of_address(&self, va: int) -> Option<int> {
        if canonical(va) {
            match self.translation(va / PAGE_SIZE as int) {
                Some(f) => Some(f * PAGE_SIZE + va % PAGE_SIZE as int),
                None => None,
            }
        } else {
            None
        }
    }

    /// A hierarchy whose root maps nothing.
    pub fn new() -> (r: ActivePageTable)
        ensures
            r.wf(),
            r.root() == empty_table(),
            r.tables(3).is_empty(),
            r.tables(2).is_empty(),
            r.tables(1).is_empty(),
    {
        let r = ActivePageTable {
            p4: Table::new(),
            p3: std::collections::HashMap::new(),
            p2: std::collections::HashMap::new(),
            p1: std::collections::HashMap::new(),
        };
        assert(r.tables(3) =~= Map::empty());
        assert(r.tables(2) =~= Map::empty());
        assert(r.tables(1) =~= Map::empty());
        proof {
            lemma_zero_entry();
            assert forall|k: usize, i: int|
                r.roots().contains_key(k) && 0 <= i < ENTRY_COUNT implies #[trigger] next_frame(
                r.roots()[k][i],
            ) is None by {
                assert(r.roots()[k][i] == 0u64);
            }
        }
        r
    }

    /// Physical address that `virtual_address` maps to; `None` when it is not
    /// canonical or not mapped.
    pub fn translate(&self, virtual_address: VirtualAddress) -> (r: Option<PhysicalAddress>)
        requires
            self.wf(),
        ensures
            r matches Some(a) ==> self.translation_of_address(virtual_address as int) == Some(
                a as int,
            ),
            r is None ==> self.translation_of_address(virtual_address as int) is None,
    {
        if !is_canonical(virtual_address) {
            return None;
        }
        let offset = virtual_address % PAGE_SIZE;
        match self.translate_page(Page::from_address(virtual_address)) {
            Some(frame) => Some(frame.number * PAGE_SIZE + offset),
            None => None,
        }
    }

    /// The frame that `page` maps to.
    pub fn translate_page(&self, page: Page) -> (r: Option<Frame>)
        requires
            self.wf(),
        ensures
            r matches Some(f) ==> self.translation(page@) == Some(f.number as int)
                && f.number * PAGE_SIZE + PAGE_SIZE <= usize::MAX + 1,
            r is None ==> self.translation(page@) is None,
    {
        let i4 = page.p4_index();
        let i3 = page.p3_index();
        let i2 = page.p2_index();
        let i1 = page.p1_index();
        let p3 = match self.p4.next_table(i4, &self.p3) {
            Some(p3) => p3,
            None => {
                return None;
            },
        };
        let p2 = p3.next_table(i3, &self.p2);
        if let Some(p2) = p2 {
            if let Some(p1) = p2.next_table(i2, &self.p1) {
                if let Some(frame) = p1.entry(i1).pointed_frame() {
                    return Some(frame);
                }
            }
        }
        let huge = EntryFlags::from_bits_truncate(HUGE_PAGE);
        assert(HUGE_PAGE & FLAG_MASK == HUGE_PAGE) by (bit_vector);
        let e3 = p3.entry(i3);
        let ghost v3 = e3@;
        assert(v3 & FLAG_MASK & HUGE_PAGE == HUGE_PAGE <==> v3 & HUGE_PAGE != 0) by (bit_vector);
        if let Some(start) = e3.pointed_frame() {
            if e3.flags().contains(huge) {
                return Some(Frame { number: start.number + i2 * ENTRY_COUNT + i1 });
            }
        }
        if let Some(p2) = p2 {
            let e2 = p2.entry(i2);
            let ghost v2 = e2@;
            assert(v2 & FLAG_MASK & HUGE_PAGE == HUGE_PAGE <==> v2 & HUGE_PAGE != 0) by (bit_vector);
            if let Some(start) = e2.pointed_frame() {
                if e2.flags().contains(huge) {
                    return Some(Frame { number: start.number + i1 });
                }
            }
        }
        None
    }
}


/// An unused entry is neither present nor huge.
proof fn lemma_zero_entry()
    ensures
        !is_present(0u64),
        !is_huge(0u64),
        next_frame(0u64) is None,
{
    assert(0u64 & PRESENT == 0) by (bit_vector);
    assert(0u64 & HUGE_PAGE == 0) by (bit_vector);
}

/// An entry written for a new table leads to that table.
proof fn lemma_table_link(f: int)
    requires
        mappable(f),
    ensures
        next_frame(encode_entry(f, PRESENT | WRITABLE)) == Some(f),
{
    assert((PRESENT | WRITABLE) & !FLAG_MASK == 0) by (bit_vector);
    lemma_encode_entry(f as u64, PRESENT | WRITABLE);
    assert((PRESENT | WRITABLE) & PRESENT == PRESENT) by (bit_vector);
    assert((PRESENT | WRITABLE) & HUGE_PAGE == 0) by (bit_vector);
}

/// An entry written for a page is present and leads to the page's frame.
proof fn lemma_leaf_entry(f: int, flags: u64)
    requires
        mappable(f),
        flags & !FLAG_MASK == 0,
    ensures
        is_present(encode_entry(f, flags | PRESENT)),
        target_frame(encode_entry(f, flags | PRESENT)) == f,
        encode_entry(f, flags | PRESENT) != 0,
{
    assert((flags | PRESENT) & !FLAG_MASK == 0) by (bit_vector)
        requires
            flags & !FLAG_MASK == 0,
    ;
    assert((flags | PRESENT) & PRESENT == PRESENT) by (bit_vector);
    lemma_encode_entry(f as u64, flags | PRESENT);
    let e = encode_entry(f, flags | PRESENT);
    assert(e != 0) by (bit_vector)
        requires
            e & 1u64 == 1u64,
    ;
}

/// Viewing the tables after an insertion is inserting the view.
proof fn lemma_views_insert<L: TableLevel>(m: Map<usize, Table<L>>, k: usize, t: Table<L>)
    ensures
        table_views(m.insert(k, t)) == table_views(m).insert(k, t@),
{
    assert(table_views(m.insert(k, t)) =~= table_views(m).insert(k, t@));
}

/// Viewing the tables after a removal is removing from the view.
proof fn lemma_views_remove<L: TableLevel>(m: Map<usize, Table<L>>, k: usize)
    ensures
        table_views(m.remove(k)) == table_views(m).remove(k),
{
    assert(table_views(m.remove(k)) =~= table_views(m).remove(k));
}

/// Pages `m` and `n` use the same entry at every level.
pub open spec fn same_slot(m: int, n: int) -> bool {
    &&& p4_index_of(m) == p4_index_of(n)
    &&& p3_index_of(m) == p3_index_of(n)
    &&& p2_index_of(m) == p2_index_of(n)
    &&& p1_index_of(m) == p1_index_of(n)
}

/// Every page translates alike in `pre` and `post`.
pub open spec fn same_translations(pre: ActivePageTable, post: ActivePageTable) -> bool {
    forall|m: int| #[trigger] post.translation(m) == pre.translation(m)
}

/// Tables with the same views translate alike.
proof fn lemma_same_views(a: ActivePageTable, b: ActivePageTable)
    requires
        a.root() == b.root(),
        a.tables(3) == b.tables(3),
        a.tables(2) == b.tables(2),
        a.tables(1) == b.tables(1),
    ensures
        same_translations(a, b),
{
}

proof fn lemma_same_trans(a: ActivePageTable, b: ActivePageTable, c: ActivePageTable)
    requires
        same_translations(a, b),
        same_translations(b, c),
    ensures
        same_translations(a, c),
{
}

proof fn lemma_index_ranges(m: int)
    ensures
        0 <= p4_index_of(m) < ENTRY_COUNT,
        0 <= p3_index_of(m) < ENTRY_COUNT,
        0 <= p2_index_of(m) < ENTRY_COUNT,
        0 <= p1_index_of(m) < ENTRY_COUNT,
{
}

/// Pointing a root entry that led to no table at a new empty level-3 table
/// changes no translation.
proof fn lemma_fresh_root_link(pre: ActivePageTable, post: ActivePageTable, i4: int, f: usize)
    requires
        pre.wf(),
        0 <= i4 < ENTRY_COUNT,
        lookup(pre.tables(3), pre.root()[i4]) is None,
        !is_huge(pre.root()[i4]),
        !pre.tables(3).contains_key(f),
        next_frame(post.root()[i4]) == Some(f as int),
        post.root() == pre.root().update(i4, post.root()[i4]),
        post.tables(3) == pre.tables(3).insert(f, empty_table()),
        post.tables(2) == pre.tables(2),
        post.tables(1) == pre.tables(1),
    ensures
        same_translations(pre, post),
{
    lemma_zero_entry();
    assert forall|m: int| #[trigger] post.translation(m) == pre.translation(m) by {
        lemma_index_ranges(m);
        let j = p4_index_of(m);
        if j == i4 {
            assert(pre.walk3(m) is None);
            assert(post.walk3(m) == Some(empty_table()));
            assert(post.walk3(m)->0[p3_index_of(m)] == 0u64);
        } else {
            assert(post.root()[j] == pre.root()[j]);
            if next_frame(pre.root()[j]) is Some {
                assert(pre.roots().contains_key(0usize) && pre.roots()[0usize][j] == pre.root()[j]);
                assert(pre.tables(3).contains_key(next_frame(pre.root()[j])->0 as usize));
            }
            assert(post.walk3(m) == pre.walk3(m));
        }
    }
}

/// Pointing an entry of a level-3 table that led to no table at a new empty
/// level-2 table changes no translation.
proof fn lemma_fresh_l3_link(
    pre: ActivePageTable,
    post: ActivePageTable,
    k3: usize,
    i3: int,
    f: usize,
    e: u64,
)
    requires
        pre.wf(),
        pre.tables(3).contains_key(k3),
        0 <= i3 < ENTRY_COUNT,
        lookup(pre.tables(2), pre.tables(3)[k3][i3]) is None,
        !is_huge(pre.tables(3)[k3][i3]),
        !pre.tables(2).contains_key(f),
        next_frame(e) == Some(f as int),
        post.root() == pre.root(),
        post.tables(3) == pre.tables(3).insert(k3, pre.tables(3)[k3].update(i3, e)),
        post.tables(2) == pre.tables(2).insert(f, empty_table()),
        post.tables(1) == pre.tables(1),
    ensures
        same_translations(pre, post),
{
    lemma_zero_entry();
    assert forall|m: int| #[trigger] post.translation(m) == pre.translation(m) by {
        lemma_index_ranges(m);
        let j = p3_index_of(m);
        if let Some(a) = next_frame(pre.root()[p4_index_of(m)]) {
            if pre.tables(3).contains_key(a as usize) {
                let t = pre.tables(3)[a as usize];
                if a as usize == k3 && j == i3 {
                    assert(pre.walk2(m) is None);
                    assert(post.walk3(m) == Some(pre.tables(3)[k3].update(i3, e)));
                    assert(post.walk2(m) == Some(empty_table()));
                    assert(post.walk2(m)->0[p2_index_of(m)] == 0u64);
                } else {
                    assert(post.walk3(m)->0[j] == t[j]);
                    if next_frame(t[j]) is Some {
                        assert(pre.tables(2).contains_key(next_frame(t[j])->0 as usize));
                    }
                    assert(post.walk2(m) == pre.walk2(m));
                }
            }
        }
    }
}

/// Pointing an entry of a level-2 table that led to no table at a new empty
/// level-1 table changes no translation.
proof fn lemma_fresh_l2_link(
    pre: ActivePageTable,
    post: ActivePageTable,
    k2: usize,
    i2: int,
    f: usize,
    e: u64,
)
    requires
        pre.wf(),
        pre.tables(2).contains_key(k2),
        0 <= i2 < ENTRY_COUNT,
        lookup(pre.tables(1), pre.tables(2)[k2][i2]) is None,
        !is_huge(pre.tables(2)[k2][i2]),
        !pre.tables(1).contains_key(f),
        next_frame(e) == Some(f as int),
        post.root() == pre.root(),
        post.tables(3) == pre.tables(3),
        post.tables(2) == pre.tables(2).insert(k2, pre.tables(2)[k2].update(i2, e)),
        post.tables(1) == pre.tables(1).insert(f, empty_table()),
    ensures
        same_translations(pre, post),
{
    lemma_zero_entry();
    assert forall|m: int| #[trigger] post.translation(m) == pre.translation(m) by {
        lemma_index_ranges(m);
        let j = p2_index_of(m);
        assert(post.walk3(m) == pre.walk3(m));
        if let Some(t3) = pre.walk3(m) {
            if let Some(b) = next_frame(t3[p3_index_of(m)]) {
                if pre.tables(2).contains_key(b as usize) {
                    let t = pre.tables(2)[b as usize];
                    if b as usize == k2 && j == i2 {
                        assert(pre.walk1(m) is None);
                        assert(post.walk2(m) == Some(pre.tables(2)[k2].update(i2, e)));
                        assert(post.walk1(m) == Some(empty_table()));
                        assert(post.l1_slot(m) == Some(0u64));
                    } else {
                        assert(post.walk2(m)->0[j] == t[j]);
                        if next_frame(t[j]) is Some {
                            assert(pre.tables(1).contains_key(next_frame(t[j])->0 as usize));
                        }
                        assert(post.walk1(m) == pre.walk1(m));
                    }
                }
            }
        }
    }
}

/// The frame an entry word leads to, as a key of the tables.
pub open spec fn link_key(e: u64) -> usize {
    next_frame(e)->0 as usize
}

/// Rewriting the level-1 entry of page `n` changes the translation of no page
/// that uses another entry: the tables form a tree, so only the pages of that
/// entry reach it.
#[verifier::rlimit(60)]
proof fn lemma_leaf_write(pre: ActivePageTable, post: ActivePageTable, n: int, k1: usize, e: u64)
    requires
        pre.wf(),
        pre.walk2(n) is Some,
        next_frame(pre.walk2(n)->0[p2_index_of(n)]) is Some,
        link_key(pre.walk2(n)->0[p2_index_of(n)]) == k1,
        pre.tables(1).contains_key(k1),
        post.root() == pre.root(),
        post.tables(3) == pre.tables(3),
        post.tables(2) == pre.tables(2),
        post.tables(1) == pre.tables(1).insert(k1, pre.tables(1)[k1].update(p1_index_of(n), e)),
    ensures
        forall|m: int| !same_slot(m, n) ==> #[trigger] post.translation(m) == pre.translation(m),
{
    assert forall|m: int| !same_slot(m, n) implies #[trigger] post.translation(m)
        == pre.translation(m) by {
        lemma_index_ranges(m);
        lemma_index_ranges(n);
        assert(post.walk2(m) == pre.walk2(m));
        if let Some(t2) = pre.walk2(m) {
            if next_frame(t2[p2_index_of(m)]) is Some && link_key(t2[p2_index_of(m)]) == k1 {
                lemma_same_path(pre, m, n);
                assert(p1_index_of(m) != p1_index_of(n));
            }
        }
    }
}

/// Two pages whose walks reach the same level-1 table through their level-2
/// entries use the same entries at levels 4, 3 and 2.
proof fn lemma_same_path(pt: ActivePageTable, m: int, n: int)
    requires
        pt.wf(),
        pt.walk2(m) is Some,
        pt.walk2(n) is Some,
        next_frame(pt.walk2(m)->0[p2_index_of(m)]) is Some,
        next_frame(pt.walk2(n)->0[p2_index_of(n)]) is Some,
        link_key(pt.walk2(m)->0[p2_index_of(m)]) == link_key(pt.walk2(n)->0[p2_index_of(n)]),
    ensures
        p4_index_of(m) == p4_index_of(n),
        p3_index_of(m) == p3_index_of(n),
        p2_index_of(m) == p2_index_of(n),
{
    lemma_index_ranges(m);
    lemma_index_ranges(n);
    let r = pt.root();
    let (i4m, i4n) = (p4_index_of(m), p4_index_of(n));
    let (i3m, i3n) = (p3_index_of(m), p3_index_of(n));
    let (i2m, i2n) = (p2_index_of(m), p2_index_of(n));
    let a_m = link_key(r[i4m]);
    let a_n = link_key(r[i4n]);
    let b_m = link_key(pt.tables(3)[a_m][i3m]);
    let b_n = link_key(pt.tables(3)[a_n][i3n]);
    assert(pt.walk2(m)->0 == pt.tables(2)[b_m]);
    assert(pt.walk2(n)->0 == pt.tables(2)[b_n]);
    assert(links_unique(pt.tables(2)));
    assert(b_m == b_n && i2m == i2n);
    assert(a_m == a_n && i3m == i3n);
    assert(pt.roots()[0usize][i4m] == r[i4m]);
    assert(pt.roots()[0usize][i4n] == r[i4n]);
    assert(i4m == i4n);
}

/// The walk for page `n` stops at an entry with the huge-page bit, where
/// mapping the page would need a table.
pub open spec fn blocked_by_huge_page(pt: ActivePageTable, n: int) -> bool {
    match pt.walk3(n) {
        None => is_huge(pt.root()[p4_index_of(n)]),
        Some(t3) => match pt.walk2(n) {
            None => is_huge(t3[p3_index_of(n)]),
            Some(t2) => match pt.walk1(n) {
                None => is_huge(t2[p2_index_of(n)]),
                Some(_) => false,
            },
        },
    }
}

/// Page `n` of `pt` maps to frame `f` through a level-1 entry with `flags`
/// and the present bit.
pub open spec fn maps_page(pt: ActivePageTable, n: int, f: int, flags: u64) -> bool {
    &&& mappable(f)
    &&& pt.translation(n) == Some(f)
    &&& pt.l1_slot(n) == Some(encode_entry(f, flags | PRESENT))
}

/// Page `n` may be mapped: its level-1 entry, if the walk reaches one, is
/// unused, and no huge-page entry stands where a table would be created.
pub open spec fn map_allowed(pt: ActivePageTable, n: int) -> bool {
    &&& !(pt.l1_slot(n) is Some && pt.l1_slot(n)->Some_0 != 0)
    &&& !blocked_by_huge_page(pt, n)
}

/// From `pre` to `post` the tables of one level change only at entry `idx`
/// of the table at `key`; a table that is new is the one at `key`, and all
/// its other entries are unused.
pub open spec fn level_change(
    pre: Map<usize, Seq<u64>>,
    post: Map<usize, Seq<u64>>,
    key: usize,
    idx: int,
) -> bool {
    &&& forall|k: usize| pre.contains_key(k) ==> #[trigger] post.contains_key(k)
    &&& forall|k: usize, i: int|
        pre.contains_key(k) && 0 <= i < ENTRY_COUNT && !(k == key && i == idx) ==> #[trigger] post[k][i]
            == pre[k][i]
    &&& forall|k: usize| #[trigger] post.contains_key(k) && !pre.contains_key(k) ==> k == key
    &&& !pre.contains_key(key) && post.contains_key(key) ==> forall|i: int|
        0 <= i < ENTRY_COUNT && i != idx ==> #[trigger] post[key][i] == 0u64
}

/// Frame of the level-3 table that the walk for page `n` reaches.
pub open spec fn path_l3_key(pt: ActivePageTable, n: int) -> usize {
    link_key(pt.root()[p4_index_of(n)])
}

/// Frame of the level-2 table that the walk for page `n` reaches.
pub open spec fn path_l2_key(pt: ActivePageTable, n: int) -> usize {
    link_key(pt.walk3(n)->Some_0[p3_index_of(n)])
}

/// From `pre` to `post` only entries on the path of page `n` change, and
/// every table created on it is unused apart from its path entry.
pub open spec fn only_path_changes(pre: ActivePageTable, post: ActivePageTable, n: int) -> bool {
    &&& forall|i: int|
        0 <= i < ENTRY_COUNT && i != p4_index_of(n) ==> #[trigger] post.root()[i] == pre.root()[i]
    &&& level_change(pre.tables(3), post.tables(3), path_l3_key(post, n), p3_index_of(n))
    &&& level_change(pre.tables(2), post.tables(2), path_l2_key(post, n), p2_index_of(n))
    &&& level_change(pre.tables(1), post.tables(1), path_l1_key(post, n), p1_index_of(n))
}

/// `r` and `post` are what mapping page `n` to frame `frame` with `flags`
/// makes of `pre`: it succeeds whenever no table has to be created; it fails
/// only for want of a usable frame, and then no translation changes.
pub open spec fn map_to_outcome(
    pre: ActivePageTable,
    post: ActivePageTable,
    n: int,
    frame: int,
    flags: u64,
    r: Result<(), MapToError>,
) -> bool {
    &&& (pre.l1_slot(n) == Some(0u64) ==> r is Ok)
    &&& (r is Err ==> pre.l1_slot(n) is None && same_translations(pre, post))
    &&& (r is Ok ==> {
        &&& post.l1_slot(n) == Some(encode_entry(frame, flags | PRESENT))
        &&& only_path_changes(pre, post, n)
        &&& post.translation(n) == Some(frame)
        &&& forall|m: int| !same_slot(m, n) ==> #[trigger] post.translation(m) == pre.translation(m)
    })
}

/// Page `n` is mapped through a present level-1 entry.
pub open spec fn mapped_by_l1(pt: ActivePageTable, n: int) -> bool {
    pt.l1_slot(n) is Some && is_present(pt.l1_slot(n)->Some_0)
}

/// Frame of the level-1 table that the walk for page `n` reaches.
pub open spec fn path_l1_key(pt: ActivePageTable, n: int) -> usize {
    link_key(pt.walk2(n)->Some_0[p2_index_of(n)])
}

/// `post` is `pre` with the level-1 entry of page `n` cleared and nothing
/// else changed.
pub open spec fn unmap_outcome(pre: ActivePageTable, post: ActivePageTable, n: int) -> bool {
    &&& post.root() == pre.root()
    &&& post.tables(3) == pre.tables(3)
    &&& post.tables(2) == pre.tables(2)
    &&& post.tables(1) == pre.tables(1).insert(
        path_l1_key(pre, n),
        pre.tables(1)[path_l1_key(pre, n)].update(p1_index_of(n), 0u64),
    )
    &&& post.l1_slot(n) == Some(0u64)
    &&& forall|m: int| !same_slot(m, n) ==> #[trigger] post.translation(m) == pre.translation(m)
}

impl ActivePageTable {
    /// Maps `page` to `frame` with `flags` and the present bit, creating the
    /// missing tables on the way with frames from `allocator`. A page whose
    /// level-1 entry is in use must be unmapped first, and mapping does not
    /// split huge pages: both are caller errors, left out by `requires`.
    #[verifier::rlimit(40)]
    pub fn map_to<A: FrameAllocator>(
        &mut self,
        page: Page,
        frame: Frame,
        flags: EntryFlags,
        allocator: &mut A,
    ) -> (r: Result<(), MapToError>)
        requires
            old(self).wf(),
            old(allocator).inv(),
            mappable(frame.number as int),
            map_allowed(*old(self), page@),
        ensures
            final(self).wf(),
            final(allocator).inv(),
            map_to_outcome(*old(self), *final(self), page@, frame.number as int, flags.value(), r),
    {
        broadcast use vstd::std_specs::hash::group_hash_axioms;

        let i4 = page.p4_index();
        let i3 = page.p3_index();
        let i2 = page.p2_index();
        let i1 = page.p1_index();
        let ghost s0 = *self;
        proof {
            lemma_zero_entry();
        }
        let f3 = match self.p4.next_table_create(i4, &mut self.p3, allocator) {
            Ok(f) => f,
            Err(e) => {
                return Err(e);
            },
        };
        let ghost s1 = *self;
        proof {
            if lookup(s0.tables(3), s0.root()[i4 as int]) is None {
                lemma_table_link(f3 as int);
                let e = encode_entry(f3 as int, PRESENT | WRITABLE);
                lemma_link_fresh(
                    Map::empty(),
                    s0.roots(),
                    s0.tables(3),
                    s0.tables(2),
                    0,
                    i4 as int,
                    f3,
                    e,
                    true,
                );
                assert(s1.roots() =~= s0.roots().insert(0, s0.roots()[0].update(i4 as int, e)));
                lemma_fresh_root_link(s0, s1, i4 as int, f3);
            } else {
                lemma_same_views(s0, s1);
            }
        }
        assert(self.tables(3).contains_key(f3));
        let ghost p3_before = self.p3@;
        let mut t3 = match self.p3.remove(&f3) {
            Some(t) => t,
            None => {
                return Err(MapToError::UnusableFrame);
            },
        };
        proof {
            lemma_views_remove(p3_before, f3);
            assert(t3@ == s1.tables(3)[f3]);
        }
        let r2 = t3.next_table_create(i3, &mut self.p2, allocator);
        self.p3.insert(f3, t3);
        proof {
            lemma_views_insert(p3_before.remove(f3), f3, t3);
            assert(p3_before.remove(f3).insert(f3, t3) == self.p3@);
        }
        let ghost s2 = *self;
        let f2 = match r2 {
            Ok(f) => f,
            Err(e) => {
                proof {
                    assert(s2.tables(3) =~= s1.tables(3));
                    lemma_same_views(s1, s2);
                    lemma_same_trans(s0, s1, s2);
                }
                return Err(e);
            },
        };
        proof {
            if lookup(s1.tables(2), s1.tables(3)[f3][i3 as int]) is None {
                lemma_table_link(f2 as int);
                lemma_link_fresh(
                    s1.roots(),
                    s1.tables(3),
                    s1.tables(2),
                    s1.tables(1),
                    f3,
                    i3 as int,
                    f2,
                    encode_entry(f2 as int, PRESENT | WRITABLE),
                    true,
                );
                let e = encode_entry(f2 as int, PRESENT | WRITABLE);
                assert(s2.tables(3) =~= s1.tables(3).insert(f3, s1.tables(3)[f3].update(i3 as int, e)));
                lemma_fresh_l3_link(s1, s2, f3, i3 as int, f2, e);
            } else {
                assert(s2.tables(3) =~= s1.tables(3));
                lemma_same_views(s1, s2);
            }
            assert(s2.roots() == s1.roots());
            lemma_same_trans(s0, s1, s2);
        }
        assert(self.tables(2).contains_key(f2));
        let ghost p2_before = self.p2@;
        let mut t2 = match self.p2.remove(&f2) {
            Some(t) => t,
            None => {
                return Err(MapToError::UnusableFrame);
            },
        };
        proof {
            lemma_views_remove(p2_before, f2);
            assert(t2@ == s2.tables(2)[f2]);
        }
        let r1 = t2.next_table_create(i2, &mut self.p1, allocator);
        self.p2.insert(f2, t2);
        proof {
            lemma_views_insert(p2_before.remove(f2), f2, t2);
        }
        let ghost s3 = *self;
        let f1 = match r1 {
            Ok(f) => f,
            Err(e) => {
                proof {
                    assert(s3.tables(2) =~= s2.tables(2));
                    lemma_same_views(s2, s3);
                    lemma_same_trans(s0, s2, s3);
                }
                return Err(e);
            },
        };
        proof {
            if lookup(s2.tables(1), s2.tables(2)[f2][i2 as int]) is None {
                lemma_table_link(f1 as int);
                lemma_link_fresh(
                    s2.tables(3),
                    s2.tables(2),
                    s2.tables(1),
                    Map::empty(),
                    f2,
                    i2 as int,
                    f1,
                    encode_entry(f1 as int, PRESENT | WRITABLE),
                    false,
                );
                let e = encode_entry(f1 as int, PRESENT | WRITABLE);
                assert(s3.tables(2) =~= s2.tables(2).insert(f2, s2.tables(2)[f2].update(i2 as int, e)));
                lemma_fresh_l2_link(s2, s3, f2, i2 as int, f1, e);
            } else {
                assert(s3.tables(2) =~= s2.tables(2));
                lemma_same_views(s2, s3);
            }
            assert(s3.roots() == s2.roots());
            lemma_same_trans(s0, s2, s3);
        }
        assert(self.tables(1).contains_key(f1));
        let ghost p1_before = self.p1@;
        let mut t1 = match self.p1.remove(&f1) {
            Some(t) => t,
            None => {
                return Err(MapToError::UnusableFrame);
            },
        };
        proof {
            lemma_views_remove(p1_before, f1);
            assert(t1@ == s3.tables(1)[f1]);
        }
        let present = EntryFlags::from_bits_truncate(PRESENT);
        assert(PRESENT & FLAG_MASK == PRESENT) by (bit_vector);
        proof {
            use_type_invariant(&flags);
            lemma_leaf_entry(frame.number as int, flags.value());
        }
        t1.set_entry(i1, frame, flags.union(present));
        self.p1.insert(f1, t1);
        proof {
            lemma_views_insert(p1_before.remove(f1), f1, t1);
            let e = encode_entry(frame.number as int, flags.value() | PRESENT);
            assert(self.tables(1) =~= s3.tables(1).insert(f1, s3.tables(1)[f1].update(i1 as int, e)));
            lemma_leaf_write(s3, *self, page@, f1, e);
        }
        Ok(())
    }
}

impl ActivePageTable {
    /// Maps `page` to the frame an allocator handed out, as `map_to` does:
    /// refused when there is no frame or it cannot be pointed to.
    pub fn map_allocated<A: FrameAllocator>(
        &mut self,
        page: Page,
        frame: Option<Frame>,
        flags: EntryFlags,
        allocator: &mut A,
    ) -> (r: Result<Frame, MapToError>)
        requires
            old(self).wf(),
            old(allocator).inv(),
            map_allowed(*old(self), page@),
        ensures
            final(self).wf(),
            final(allocator).inv(),
            frame is None ==> r == Err::<Frame, MapToError>(MapToError::FrameAllocationFailed)
                && *final(self) == *old(self) && *final(allocator) == *old(allocator),
            frame is Some && !mappable(frame->Some_0.number as int) ==> r == Err::<
                Frame,
                MapToError,
            >(MapToError::UnusableFrame) && *final(self) == *old(self) && *final(allocator)
                == *old(allocator),
            frame is Some && mappable(frame->Some_0.number as int) ==> {
                &&& (r is Ok ==> r->Ok_0 == frame->Some_0)
                &&& map_to_outcome(
                    *old(self),
                    *final(self),
                    page@,
                    frame->Some_0.number as int,
                    flags.value(),
                    match r {
                        Ok(_) => Ok(()),
                        Err(e) => Err(e),
                    },
                )
            },
    {
        let frame = match frame {
            Some(frame) => frame,
            None => {
                return Err(MapToError::FrameAllocationFailed);
            },
        };
        if !frame_is_mappable(&frame) {
            return Err(MapToError::UnusableFrame);
        }
        match self.map_to(page, frame, flags, allocator) {
            Ok(()) => Ok(frame),
            Err(e) => Err(e),
        }
    }

    /// Maps `page` to a frame drawn from `allocator`, as `map_to` does, and
    /// returns that frame.
    pub fn map<A: FrameAllocator>(&mut self, page: Page, flags: EntryFlags, allocator: &mut A) -> (r:
        Result<Frame, MapToError>)
        requires
            old(self).wf(),
            old(allocator).inv(),
            map_allowed(*old(self), page@),
        ensures
            final(self).wf(),
            final(allocator).inv(),
            r matches Ok(f) ==> map_to_outcome(
                *old(self),
                *final(self),
                page@,
                f.number as int,
                flags.value(),
                Ok(()),
            ),
            r is Err ==> same_translations(*old(self), *final(self)),
    {
        let frame = allocator.allocate_frame();
        self.map_allocated(page, frame, flags, allocator)
    }

    /// Maps the page whose address is the start address of `frame` to `frame`.
    pub fn identity_map<A: FrameAllocator>(
        &mut self,
        frame: Frame,
        flags: EntryFlags,
        allocator: &mut A,
    ) -> (r: Result<(), MapToError>)
        requires
            old(self).wf(),
            old(allocator).inv(),
            mappable(frame.number as int),
            canonical(frame.number * PAGE_SIZE),
            map_allowed(*old(self), frame.number as int),
        ensures
            final(self).wf(),
            final(allocator).inv(),
            map_to_outcome(
                *old(self),
                *final(self),
                frame.number as int,
                frame.number as int,
                flags.value(),
                r,
            ),
    {
        let page = Page::from_address(frame.start_address());
        assert(page@ == frame.number) by (nonlinear_arith)
            requires
                page@ == (frame.number * PAGE_SIZE) / PAGE_SIZE as int,
        ;
        self.map_to(page, frame, flags, allocator)
    }

    /// Whether `page` may be mapped: see `map_allowed`.
    pub fn may_map(&self, page: Page) -> (r: bool)
        requires
            self.wf(),
        ensures
            r == map_allowed(*self, page@),
    {
        let i4 = page.p4_index();
        let i3 = page.p3_index();
        let i2 = page.p2_index();
        let i1 = page.p1_index();
        match self.p4.next_table(i4, &self.p3) {
            None => !self.p4.entry(i4).is_huge_page(),
            Some(t3) => match t3.next_table(i3, &self.p2) {
                None => !t3.entry(i3).is_huge_page(),
                Some(t2) => match t2.next_table(i2, &self.p1) {
                    None => !t2.entry(i2).is_huge_page(),
                    Some(t1) => t1.entry(i1).is_unused(),
                },
            },
        }
    }

    /// The level-1 entry of `page`, when the walk reaches its table.
    pub fn level1_entry(&self, page: Page) -> (r: Option<u64>)
        requires
            self.wf(),
        ensures
            r == self.l1_slot(page@),
    {
        let i4 = page.p4_index();
        let i3 = page.p3_index();
        let i2 = page.p2_index();
        let i1 = page.p1_index();
        match self.p4.next_table(i4, &self.p3) {
            None => None,
            Some(t3) => match t3.next_table(i3, &self.p2) {
                None => None,
                Some(t2) => match t2.next_table(i2, &self.p1) {
                    None => None,
                    Some(t1) => Some(t1.entry(i1).value()),
                },
            },
        }
    }

    /// Clears the level-1 entry of `page` and returns the frame it pointed
    /// to; nothing else changes. Empty tables stay in place.
    pub fn unmap_entry(&mut self, page: Page) -> (r: Frame)
        requires
            old(self).wf(),
            mapped_by_l1(*old(self), page@),
        ensures
            final(self).wf(),
            unmap_outcome(*old(self), *final(self), page@),
            r.number == target_frame(old(self).l1_slot(page@)->Some_0),
    {
        broadcast use vstd::std_specs::hash::group_hash_axioms;

        proof {
            lemma_zero_entry();
        }
        let i4 = page.p4_index();
        let i3 = page.p3_index();
        let i2 = page.p2_index();
        let i1 = page.p1_index();
        let none = Frame { number: 0 };
        let f3 = match self.p4.next_table_frame(i4) {
            Some(f) => f,
            None => {
                return none;
            },
        };
        let t3 = match self.p3.get(&f3) {
            Some(t) => t,
            None => {
                return none;
            },
        };
        let f2 = match t3.next_table_frame(i3) {
            Some(f) => f,
            None => {
                return none;
            },
        };
        let t2 = match self.p2.get(&f2) {
            Some(t) => t,
            None => {
                return none;
            },
        };
        let f1 = match t2.next_table_frame(i2) {
            Some(f) => f,
            None => {
                return none;
            },
        };
        let ghost p1_before = self.p1@;
        let mut t1 = match self.p1.remove(&f1) {
            Some(t) => t,
            None => {
                return none;
            },
        };
        proof {
            lemma_views_remove(p1_before, f1);
        }
        let frame = match t1.entry(i1).pointed_frame() {
            Some(frame) => frame,
            None => {
                return none;
            },
        };
        t1.clear_entry(i1);
        self.p1.insert(f1, t1);
        proof {
            lemma_views_insert(p1_before.remove(f1), f1, t1);
            assert(self.tables(1) =~= old(self).tables(1).insert(
                f1,
                old(self).tables(1)[f1].update(page@ % 512, 0u64),
            ));
            lemma_leaf_write(*old(self), *self, page@, f1, 0u64);
        }
        frame
    }

    /// Clears the level-1 entry of `page` and hands the frame it pointed to
    /// back to `allocator`; returns what the allocator answered. Tables left
    /// empty are not reclaimed. The caller flushes the page from the
    /// translation cache.
    pub fn unmap<A: FrameAllocator>(&mut self, page: Page, allocator: &mut A) -> (r: Result<
        (),
        crate::frame_alloc::AllocError,
    >)
        requires
            old(self).wf(),
            old(allocator).inv(),
            mapped_by_l1(*old(self), page@),
        ensures
            final(self).wf(),
            final(allocator).inv(),
            unmap_outcome(*old(self), *final(self), page@),
    {
        let frame = self.unmap_entry(page);
        allocator.deallocate_frame(frame)
    }
}

/// Once `map_to` has mapped page `n` to frame `f`, every address in the page
/// translates to the same offset in the frame.
pub proof fn lemma_map_then_translate(
    pre: ActivePageTable,
    post: ActivePageTable,
    n: int,
    f: int,
    flags: u64,
    va: int,
)
    requires
        map_to_outcome(pre, post, n, f, flags, Ok(())),
        canonical(va),
        va / PAGE_SIZE as int == n,
    ensures
        post.translation_of_address(va) == Some(f * PAGE_SIZE + va % PAGE_SIZE as int),
{
}

/// Once a page is mapped, mapping it again, with no unmapping in between,
/// is excluded: `map_allowed` no longer holds, and the first mapping stands.
pub proof fn lemma_double_map_excluded(
    s0: ActivePageTable,
    s1: ActivePageTable,
    n: int,
    f1: int,
    flags1: u64,
)
    requires
        mappable(f1),
        flags1 & !FLAG_MASK == 0,
        map_to_outcome(s0, s1, n, f1, flags1, Ok(())),
    ensures
        !map_allowed(s1, n),
        s1.translation(n) == Some(f1),
{
    lemma_leaf_entry(f1, flags1);
}

/// Once `unmap` has cleared page `n`, the page translates to nothing.
pub proof fn lemma_unmap_clears(pre: ActivePageTable, post: ActivePageTable, n: int)
    requires
        unmap_outcome(pre, post, n),
    ensures
        post.translation(n) is None,
        forall|va: int|
            va / PAGE_SIZE as int == n ==> #[trigger] post.translation_of_address(va) is None,
{
    lemma_zero_entry();
}

} // verus!
