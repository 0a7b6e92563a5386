//! The verified core of a small x86-64 kernel: physical frame allocation, page mapping,
//! scheduling, the framebuffer console and the tables a CPU is set up with.

pub mod arch;
pub mod boot;
pub mod dev;
pub mod memory;
pub mod pmm;
pub mod sched;
pub mod sync;
pub mod util;
