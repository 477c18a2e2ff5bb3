//! Dynamic resolution of legacy FHS paths (`/usr/bin/env`, `/lib64/...`,
//! `/boot`, ...) to where the files really live on a system whose real
//! trees are `overlayer/syshub`, its musl sysroot, `overlayer/zexlib/union`
//! and `overlayer/zaisys`.
//!
//! Paths are byte strings, as on Unix.

pub mod bytes;
pub mod lits;
pub mod host;
pub mod remap;
pub mod audit;
pub mod walk;
pub mod ffi;
pub mod shebang;
pub mod preload;
pub mod cli;
pub mod laws;
pub mod execve;
