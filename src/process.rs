pub mod context;
pub mod file;
pub mod scheduler;
pub mod syscall;
pub mod trapframe;
