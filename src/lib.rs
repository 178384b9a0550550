//! The core of a small Sv32 RISC-V kernel, modelled as plain data: page and
//! size-class allocators, page tables, processes and their scheduler, resource
//! descriptors, the syscall dispatcher, virtio queues and devices, and ext2
//! file access.

pub mod bitset;
pub mod shared;
pub mod error;
pub mod sbi;
pub mod atomic;
pub mod cell;
pub mod sync;
pub mod page_alloc;
pub mod raw_alloc;
pub mod rc;
pub mod csr;
pub mod page_table;
pub mod memory;
pub mod virtio;
pub mod bytebuf;
pub mod ext2;
pub mod resource_desc;
pub mod proc;
pub mod syscall;
