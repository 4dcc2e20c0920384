//! Pipelines of steps that are applied to scenes: once to a scene template
//! when it has loaded, or to every instance that is spawned from it.

pub mod entity;
pub mod laws;
pub mod manager;
pub mod materials;
pub mod name_table;
pub mod names;
pub mod pipe;
pub mod postfab;
pub mod prefab;
pub mod spawn;
pub mod table;
pub mod target;

pub use manager::{convert_gltffabs_to_scenefabs, FabManager};
pub use spawn::{GltfScene, SpawnGltfScene, SpawnPostfabVariant};
pub use target::FabTarget;
