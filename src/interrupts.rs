pub mod exception;
pub mod idt;
pub mod pic;
