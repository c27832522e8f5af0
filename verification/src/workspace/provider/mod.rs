//! The monorepo flavours and how each finds its packages.

pub mod cargo;
pub mod custom;
pub mod document;
pub mod glob;
pub mod lerna;
pub mod npm;
pub mod nx;
pub mod pnpm;
pub mod registry;
pub mod traits;
pub mod turbo;

pub use cargo::CargoProvider;
pub use custom::CustomProvider;
pub use lerna::LernaProvider;
pub use npm::NpmProvider;
pub use nx::NxProvider;
pub use pnpm::PnpmProvider;
pub use registry::{AnyProvider, ProviderRegistry};
pub use traits::MonorepoProvider;
pub use turbo::TurboProvider;
