//! Virtual-memory subsystem of a small 64-bit kernel, together with the
//! pure helpers the rest of the kernel builds on.

pub mod bitmap;
pub mod cmos;
pub mod elf;
pub mod filesystem;
pub mod initrd;
pub mod interrupts;
pub mod memory;
pub mod tasking;
pub mod time;
pub mod vga;
