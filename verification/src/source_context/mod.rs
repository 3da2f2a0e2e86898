//! Where a host's usage sources are, and an identity for that configuration.
pub mod catalog;
pub mod choice_laws;
pub mod context;
pub mod description;
pub mod descriptor;
pub mod environment;
pub mod identity;
pub mod inputs;
pub mod laws;
pub mod paths;
pub mod place_laws;
pub mod places;
pub mod settings;
pub mod windows;

pub use context::ResolvedLocalSourceContext;
pub use descriptor::SourceContextUnavailable;
