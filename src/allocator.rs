pub mod buddy_allocator;
pub mod bump;
pub mod slab;
