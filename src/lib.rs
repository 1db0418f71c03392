//! The engine of a heap-allocation tracer for Linux/x86_64.
//!
//! The tracer stops a target process at the entry points of `malloc`,
//! `calloc`, `realloc` and `free` with software breakpoints, and at the
//! return of each allocator call with a one-shot breakpoint.  This crate
//! holds what it decides and computes: the byte edits that place and remove
//! breakpoints, the breakpoint set and its resolution against the symbols of
//! the mapped binaries, the reading of the address-space layout, the naming
//! of stack frames, what each trap and each wait status means, the hook
//! policy and the allocation events it opens and completes, the command
//! line, and the rendering of report rows.  The caller performs the system
//! calls and hands the results in.

pub mod word;
pub mod breakpoint;
pub mod process_map;
pub mod symbol_index;
pub mod unwind;
pub mod record;
pub mod ptrace;
pub mod context;
pub mod hooks;
pub mod trace;
pub mod commandline;
pub mod report;
pub mod view_commandline;
