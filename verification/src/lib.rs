//! A memory management unit for a process emulator.
//!
//! The unit presents a flat virtual address space backed by a sparse pool of
//! fixed-size page frames. Pages are mapped lazily: a fresh mapping consumes
//! no frame and reads as zero until the first write materializes it.

pub mod addr;
pub mod bitmap;
pub mod codec;
pub mod error;
pub mod flags;
pub mod frames;
pub mod laws;
pub mod mmu;
pub mod model;

pub use addr::{PAGE_SIZE, VA};
pub use error::MMUError;
pub use flags::{PageFlags, Permissions};
pub use frames::{PageFrame, PageFrames, INVALID_PFN, PFN};
pub use mmu::MMU;
