//! Requests to spawn a scene of a gltf file.
//!
//! A request names the file and the scene in it by number. Which scene
//! that is can be said only when the file has loaded.

use crate::postfab::PostFabVariant;
use bevy::ecs::entity::Entity;
use vstd::prelude::*;

verus! {

/// A scene of a gltf file, to be spawned.
#[derive(Clone, Copy, Debug, PartialEq, Eq)]
pub struct GltfScene {
    /// The id of the gltf file.
    pub handle: u64,
    /// The number of the scene in the file.
    pub scene_idx: usize,
    /// The entity to spawn the scene on. Without one, a new entity is made.
    pub entity: Option<Entity>,
}

/// The command that spawns a scene of a gltf file.
#[derive(Clone, Copy, Debug, PartialEq, Eq)]
pub struct SpawnGltfScene {
    /// The id of the gltf file.
    pub gltf: u64,
    /// The number of the scene in the file.
    pub scene_idx: usize,
    /// The entity to spawn the scene on. Without one, a new entity is made.
    pub entity: Option<Entity>,
}

/// The command that spawns a scene of a gltf file with steps of its own,
/// which run after those of the scene's postfab.
#[derive(Debug)]
pub struct SpawnPostfabVariant {
    pub scene: SpawnGltfScene,
    pub variance: PostFabVariant,
}

/// Why a scene could not be spawned.
#[derive(Clone, Copy, Debug, PartialEq, Eq, Structural)]
pub enum SpawnFailure {
    /// The gltf file is not among the loaded assets.
    MissingGltf,
    /// The file has no scene with this number.
    MissingScene { scene_idx: usize },
}

/// The scene that a request is for, given the scenes of its file: the
/// scene at the request's number, if the file is there and has that many.
pub open spec fn scene_at(scene_idx: usize, scenes: Option<Seq<u64>>) -> Result<u64, SpawnFailure> {
    match scenes {
        None => Err(SpawnFailure::MissingGltf),
        Some(scenes) => if scene_idx < scenes.len() {
            Ok(scenes[scene_idx as int])
        } else {
            Err(SpawnFailure::MissingScene { scene_idx })
        },
    }
}

impl GltfScene {
    /// The first scene of the file `gltf`, on a new entity.
    pub fn new(gltf: u64) -> (scene: Self)
        ensures
            scene == (GltfScene { handle: gltf, scene_idx: 0, entity: None }),
    {
        GltfScene { handle: gltf, scene_idx: 0, entity: None }
    }

    /// The command that spawns this scene.
    pub fn build(self) -> (command: SpawnGltfScene)
        ensures
            command == (SpawnGltfScene {
                gltf: self.handle,
                scene_idx: self.scene_idx,
                entity: self.entity,
            }),
    {
        SpawnGltfScene { gltf: self.handle, scene_idx: self.scene_idx, entity: self.entity }
    }

    /// The same request for the scene with number `scene`.
    pub fn with_scene(self, scene: usize) -> (changed: Self)
        ensures
            changed == (GltfScene { scene_idx: scene, ..self }),
    {
        GltfScene { scene_idx: scene, ..self }
    }

    /// The same request, to be spawned on `entity`.
    pub fn into_entity(self, entity: Entity) -> (changed: Self)
        ensures
            changed == (GltfScene { entity: Some(entity), ..self }),
    {
        GltfScene { entity: Some(entity), ..self }
    }
}

impl SpawnGltfScene {
    /// The same command for the scene with number `scene`.
    pub fn with_scene(self, scene: usize) -> (changed: Self)
        ensures
            changed == (SpawnGltfScene { scene_idx: scene, ..self }),
    {
        SpawnGltfScene { scene_idx: scene, ..self }
    }

    /// The scene to spawn. `scenes` lists the scenes of the file in the
    /// file's order, or is `None` if the file is not among the loaded
    /// assets.
    pub fn scene_to_spawn(&self, scenes: Option<&Vec<u64>>) -> (scene: Result<u64, SpawnFailure>)
        ensures
            scene == scene_at(
                self.scene_idx,
                match scenes {
                    Some(list) => Some(list@),
                    None => None,
                },
            ),
    {
        match scenes {
            None => Err(SpawnFailure::MissingGltf),
            Some(list) => if self.scene_idx < list.len() {
                Ok(list[self.scene_idx])
            } else {
                Err(SpawnFailure::MissingScene { scene_idx: self.scene_idx })
            },
        }
    }
}

} // verus!
