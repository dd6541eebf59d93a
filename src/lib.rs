//! A common contract for concurrent maps, split into a write side and a
//! read side, and the verified logic of a benchmark that drives such maps:
//! the workload of writes, the readers' keys and checks, the writer's
//! drive, and the aggregation of what each task measured.
pub mod api;
pub mod arc_map;
pub mod bench;
pub mod metrics;
pub mod workload;
