//! Remote usage reports: messages of a range of local dates, folded into four pages.
pub mod error;
pub mod fold;
pub mod laws;
pub mod message;
pub mod message_laws;
pub mod pages;
pub mod query;
pub mod query_laws;

pub use error::{RemoteUsageError, REMOTE_TZDB_REVISION};
pub use fold::{
    aggregate_remote_usage_v1, RemoteAgentsRecordV1, RemoteGraphRecordV1, RemoteHourlyRecordV1,
    RemoteModelsRecordV1, RemoteUsageBundleV1, RemoteUsageFold,
};
pub use message::ReportMessage;
pub use query::RemoteUsageQueryV1;
