//! The x86-64 architecture.

pub mod cpu;
pub mod gdt;
pub mod idt;
pub mod lapic;
