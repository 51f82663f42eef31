//! Heap-memory subsystem of a bare-metal kernel: a one-time heap-region
//! activation plan and three interchangeable dynamic-allocation strategies
//! (bump, free-list, fixed-size-block), each exposing the same
//! allocate/deallocate interface over raw addresses.

pub mod align;
pub mod bump;
pub mod errors;
pub mod fixed_size_block;
pub mod heap;
pub mod linked_list;
pub mod locked;
pub mod qemu;
pub mod strategy;
