//! linux-boot-extractor: read kernels, initramfs and boot configs out of VM
//! disk images without mounting anything.

pub mod blockdev;
pub mod boot;
pub mod bytes;
pub mod cli;
pub mod digest;
pub mod disk;
pub mod error;
pub mod fsys;
pub mod guest;
pub mod guest_laws;
pub mod kernel;
pub mod part;
pub mod seqs;
pub mod source;
pub mod text;
pub mod vdafix;
pub mod vdafix_laws;

pub use error::{Error, Result};
