//! Early-boot core of a 64-bit kernel: physical frame allocation, four-level
//! page tables, segment and interrupt descriptor tables, and the boot-time
//! view of the memory map.
pub mod frame_alloc;
pub mod paging;
pub mod gdt;
pub mod interrupts;
pub mod boot_info;
pub mod msr;
