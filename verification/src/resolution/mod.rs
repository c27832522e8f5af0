//! Resolution: the dependency graph, the cache and the engine.

pub mod cache;
pub mod engine;
pub mod graph;
pub mod interpolate;
pub mod order;

pub use cache::{CacheKey, CachedValue, ResolutionCache, ResolvedVariable};
pub use engine::ResolutionEngine;
pub use graph::{DependencyEdge, DependencyGraph};
