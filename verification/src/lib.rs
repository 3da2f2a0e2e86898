//! Token usage of coding agents: session readers, reports and source contexts.
pub mod calendar;
pub mod cost;
pub mod local_hours;
pub mod messages;
pub mod ordered;
pub mod remote_report;
pub mod sessions;
pub mod source_context;
pub mod text;
pub mod wire;

pub use messages::{CostSource, TokenBreakdown, UnifiedMessage};
pub use remote_report::{
    aggregate_remote_usage_v1, RemoteUsageError, RemoteUsageQueryV1, ReportMessage,
};
