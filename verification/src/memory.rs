//! The memory management subsystem.

pub mod e820;
pub mod paging;

pub use paging::map_region;
pub use paging::valloc;
pub use paging::VirtualMemoryRegion;
