//! Sources of variables and what they yield.

pub mod config;
pub mod dotenv;
pub mod factory;
pub mod file;
pub mod file_manager;
pub mod memory;
pub mod registry;
pub mod shell;
pub mod traits;
pub mod variable;

pub use config::{
    FileSourceConfig, MemorySourceConfig, RemoteSourceConfig, ShellSourceConfig,
    SourceRefreshOptions,
};
pub use factory::{SourceFactories, SourceFactory};
pub use file::FileSource;
pub use file_manager::FileSourceManager;
pub use memory::MemorySource;
pub use registry::{SourceConfig, SourceRegistry};
pub use shell::ShellSource;
pub use traits::{
    EnvSource, Priority, SourceCapabilities, SourceId, SourceMetadata, SourceSnapshot, SourceType,
};
pub use variable::{ParsedVariable, VariableSource};
