//! Memory-management and task-scheduling core of a small kernel.
//!
//! The core keeps the books of physical memory, builds address spaces out
//! of four-level page tables, and queues the tasks that are ready to run.
//! It touches no hardware: memory is reached through [`physical_memory`],
//! register values are composed and taken apart as plain numbers, and
//! cached translations that must be discarded are handed to the caller as a
//! list. The state lives in values that the caller owns and passes in.
//!
//! - [`address`], [`paging`], [`page_table`]: frames, pages, entries and
//!   the walks through the tables.
//! - [`memory_map`], [`frame_manager`]: the firmware's memory map and the
//!   state of every frame.
//! - [`mapper`], [`mapping_laws`], [`sound_tables`]: one address space, and
//!   what holds of it.
//! - [`bootstrap`], [`bootstrap_laws`], [`boot`], [`startup`]: the kernel's
//!   own address space and what is worked out from the loader's data.
//! - [`scheduling`], [`contexts`]: tasks and their queue.
//! - [`ioapic`], [`icr`], [`msix`], [`nvme_queue`], [`serial`], [`cpuid`],
//!   [`cr3`], [`idt`], [`structures`]: the words and tables of devices and
//!   of the processor.
//! - [`bits`], [`units`], [`cell`], [`global_memory`]: shared helpers.

pub mod address;
pub mod bits;
pub mod boot;
pub mod bootstrap;
pub mod bootstrap_laws;
pub mod cell;
pub mod contexts;
pub mod cpuid;
pub mod cr3;
pub mod frame_manager;
pub mod global_memory;
pub mod icr;
pub mod idt;
pub mod ioapic;
pub mod mapper;
pub mod mapping_laws;
pub mod memory_map;
pub mod msix;
pub mod nvme_queue;
pub mod page_table;
pub mod paging;
pub mod physical_memory;
pub mod scheduling;
pub mod serial;
pub mod sound_tables;
pub mod startup;
pub mod structures;
pub mod units;
