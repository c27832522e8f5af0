//! Workspaces, their packages and the providers that discover them.

pub mod context;
pub mod manager;
pub mod provider;
pub mod tree;

pub use context::{PackageInfo, WorkspaceContext};
pub use manager::WorkspaceManager;
pub use provider::{MonorepoProvider, ProviderRegistry};
pub use tree::TreeEntry;
