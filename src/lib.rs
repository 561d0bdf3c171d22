//! Build commands for C and C++ toolchains (the GCC family, the Clang family
//! and MSVC): object paths, per-toolchain flags, which units and artifacts are
//! stale, and the decisions of a compile batch.

pub mod compiler;
pub mod generator;
pub mod linker;
pub mod path;
mod strings;
