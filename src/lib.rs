//! Guest page-table walking for x86 address spaces, with batched
//! virtual-to-physical translation and a time-bounded physical page cache.
pub mod types;
pub mod arch;
pub mod mem;
pub mod mmu;
pub mod translate;
pub mod cache;
