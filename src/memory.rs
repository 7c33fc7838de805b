pub mod address_space;
pub mod demand_paging;
pub mod vma;
pub mod paging;
