//! Rewrites a WebAssembly module that was compiled against a host-provided
//! system-interface ABI (WASI) so that it calls replacement functions embedded
//! in the module itself, then removes the now-dead host imports.
//!
//! The crate works on its own in-memory picture of a module: imports, local
//! functions with tree-structured bodies, element segments, exports, globals
//! and the start slot ([`ir::Module`]). A front end is expected to build that
//! picture from a binary module and to apply the computed changes back.
//!
//! The passes, in pipeline order:
//! - [`rewrite::call_replace`] redirects every call, tail call, function
//!   reference and element-segment entry from a recognized host import to the
//!   local replacement whose name carries the marker prefix;
//! - [`entry::install_start`] makes the conventional initializer the start
//!   function when no start function is declared;
//! - [`entry::remove_init_export`] drops the initializer's public export;
//! - [`sweep::remove_unused`] deletes imports and functions that are no
//!   longer reachable from any root.

pub mod entry;
pub mod ir;
pub mod names;
pub mod pipeline;
pub mod rewrite;
pub mod sweep;
