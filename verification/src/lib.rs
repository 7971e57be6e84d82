//! A GitOps-style reconciliation library: it plans which manifest files under
//! a directory tree are eligible for application, parses their documents,
//! resolves each document's type identity against a discovery cache, and
//! decides the endpoint each apply operation must target.

pub mod executor;
pub mod filter;
pub mod manifest;
pub mod metrics;
pub mod resolver;
pub mod run;
pub mod scanner;
pub mod text;
pub mod trigger;
