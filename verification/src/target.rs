//! The asset that a pipeline is registered for.

use vstd::prelude::*;

verus! {

/// The asset that a pipeline is registered for. The number is the id under
/// which the caller knows the asset; ids of scenes and ids of gltf files
/// are told apart by the variant.
#[derive(Clone, Copy, Debug, PartialEq, Eq, Structural)]
pub enum FabTarget {
    /// A scene template.
    Scene(u64),
    /// A gltf file. Once it has loaded, its first scene takes its place.
    Gltf(u64),
}

} // verus!
