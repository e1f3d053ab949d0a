//! The verified core of a small RISC-V kernel.
//!
//! Its centre is Sv39 virtual memory: canonical addresses, the packed
//! page-table entry, the three-level table, the translation walk and the
//! mapper that grows the table tree on demand, with the theorems that tie
//! mapper and walk together. Beside it stand the decoding that the drivers
//! need: the FAT32 boot sector and allocation table, and the interrupt
//! sources of the platform's interrupt controller.

pub mod addr;
pub mod bits;
pub mod block;
pub mod fat32;
pub mod laws;
pub mod memory;
pub mod plic;
