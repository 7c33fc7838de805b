//! Core of a small x86_64 kernel: physical-memory allocators, virtual memory
//! areas, the process scheduler, the system-call path and the interrupt
//! tables, written as plain data structures whose behaviour is proved.
pub mod allocator;
pub mod drivers;
pub mod framebuffer;
pub mod init;
pub mod keyboard;
pub mod keyboard_buffer;
pub mod interrupts;
pub mod memory;
pub mod pit;
pub mod process;
pub mod repl;
