//! A tracing layer for a process-wide allocator: it attributes allocations and
//! frees to source call sites, keeps a correlation key in a header in front of
//! every block it hands out, and reports the call sites that still hold memory.

pub mod hooks;
pub mod layout;
pub mod registry;
pub mod report;
pub mod signature;
pub mod table;

pub use hooks::{BlockPlan, MyAlloc, ResizePlan};
pub use layout::{real_size, HeapLayout};
pub use registry::{signature_key, LiveRegistry, SENTINEL};
pub use report::{all_trace, filtered_trace, print_all_trace, print_filtered_trace};
pub use signature::{build_signature, call_site_signature, Frame};
pub use table::{trace, AggregationTable, Status};
