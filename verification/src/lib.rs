//! The logic of a loader that runs under the firmware, builds the initial
//! address space of a kernel, and hands over control to it.
//!
//! * [`memory`]: the sequential allocator of physical frames over the
//!   firmware's memory map.
//! * [`address_space`]: the address space under construction, as the pages
//!   that are mapped.
//! * [`kernel`] and [`elf`]: the kernel's executable image.
//! * [`loader`]: mapping the segments of the image.
//! * [`boot`]: placing the kernel's stack and preparing the hand-over.
//! * [`framebuffer_log`]: the text console on the framebuffer.
//! * [`allocation_laws`] and [`loading_laws`]: what holds of every run of the
//!   allocator and of the loader.

pub mod address_space;
pub mod allocation_laws;
pub mod boot;
pub mod elf;
pub mod framebuffer_log;
pub mod kernel;
pub mod loader;
pub mod loading_laws;
pub mod memory;
pub mod paging;
