//! A mount-table interpreter: a parser for the kernel's per-process mount
//! listing, the octal escape codec its path fields use, a model of mount
//! attribute flags, and a remount planner that preserves unspecified flags.

pub mod codec;
pub mod error;
pub mod explain;
pub mod flags;
pub mod mountinfo;
pub mod overlay;
pub mod remount;
pub mod text;

pub use error::{Error, MountError, OSError};
pub use explain::Explainable;
pub use remount::{Remount, RemountError};
