//! What holds of the registry across several calls.

use crate::manager::{LoadedGltfModel, RegistryModel};
use crate::postfab::{tags_for, PostFabModel, SpawnedScene, TagModel};
use crate::prefab::{is_spent, load_runs, lemma_spent_template_stays_spent, PrefabModel};
use crate::target::FabTarget;
use vstd::prelude::*;

verus! {

/// A second postfab for a scene replaces the first: the registry is as if
/// the first had never been registered, a lookup gives the second, and a
/// scene that is spawned afterwards is tagged with the second.
pub proof fn lemma_second_postfab_replaces_first(
    registry: RegistryModel,
    first: PostFabModel,
    second: PostFabModel,
    scene: u64,
    spawned: SpawnedScene,
)
    requires
        first.scene == FabTarget::Scene(scene),
        second.scene == FabTarget::Scene(scene),
        spawned.scene == scene,
    ensures
        registry.with_postfab(first).with_postfab(second) == registry.with_postfab(second),
        registry.with_postfab(first).with_postfab(second).postfab(scene) == Some(second),
        tags_for(registry.with_postfab(first).with_postfab(second), seq![spawned]) == seq![
            TagModel { entity: spawned.entity, postfab: second },
        ],
{
    let after = registry.with_postfab(first).with_postfab(second);
    assert(after.postfabs =~= registry.with_postfab(second).postfabs);
    let one = seq![spawned];
    assert(one.drop_last() =~= Seq::<SpawnedScene>::empty());
    assert(tags_for(after, one.drop_last()) =~= Seq::<TagModel>::empty());
    assert(tags_for(after, one) =~= seq![TagModel { entity: spawned.entity, postfab: second }]);
}

/// A second prefab for a scene replaces the first.
pub proof fn lemma_second_prefab_replaces_first(
    registry: RegistryModel,
    first: PrefabModel,
    second: PrefabModel,
    scene: u64,
)
    requires
        first.target == FabTarget::Scene(scene),
        second.target == FabTarget::Scene(scene),
    ensures
        registry.with_prefab(first).with_prefab(second) == registry.with_prefab(second),
        registry.with_prefab(first).with_prefab(second).prefab(scene) == Some(second),
{
    let after = registry.with_prefab(first).with_prefab(second);
    assert(after.prefabs =~= registry.with_prefab(second).prefabs);
}

/// Registering one kind of pipeline leaves the other kind as it was, and
/// leaves every other id of its own kind as it was.
pub proof fn lemma_registering_is_local(
    registry: RegistryModel,
    prefab: PrefabModel,
    postfab: PostFabModel,
    other: u64,
)
    ensures
        registry.with_prefab(prefab).postfabs == registry.postfabs,
        registry.with_prefab(prefab).postfab_gltfs == registry.postfab_gltfs,
        registry.with_postfab(postfab).prefabs == registry.prefabs,
        registry.with_postfab(postfab).prefab_gltfs == registry.prefab_gltfs,
        prefab.target != FabTarget::Scene(other) ==> registry.with_prefab(prefab).prefab(other)
            == registry.prefab(other),
        postfab.scene != FabTarget::Scene(other) ==> registry.with_postfab(postfab).postfab(other)
            == registry.postfab(other),
{
}

/// A prefab that is registered for a gltf file moves to the first scene
/// of the file when the file has loaded: a lookup by that scene gives the
/// prefab, and nothing waits under the file any more.
pub proof fn lemma_prefab_moves_to_first_scene(
    registry: RegistryModel,
    prefab: PrefabModel,
    gltf: u64,
    scenes: Seq<u64>,
)
    requires
        prefab.target == FabTarget::Gltf(gltf),
        scenes.len() > 0,
    ensures
        registry.with_prefab(prefab).converted(
            seq![LoadedGltfModel { gltf, scenes: Some(scenes) }],
        ).prefab(scenes[0]) == Some(prefab),
        !registry.with_prefab(prefab).converted(
            seq![LoadedGltfModel { gltf, scenes: Some(scenes) }],
        ).prefab_gltfs.dom().contains(gltf),
{
    let loaded = LoadedGltfModel { gltf, scenes: Some(scenes) };
    let one = seq![loaded];
    let start = registry.with_prefab(prefab);
    assert(one.drop_last() =~= Seq::<LoadedGltfModel>::empty());
    let middle = start.resolve_postfabs(one);
    assert(start.resolve_postfabs(one.drop_last()) == start);
    assert(middle == start.resolve_postfab(loaded));
    assert(middle.prefab_gltfs == start.prefab_gltfs);
    assert(middle.resolve_prefabs(one.drop_last()) == middle);
    assert(middle.resolve_prefabs(one) == middle.resolve_prefab(loaded));
}

/// A postfab that is registered for a gltf file moves to the first scene
/// of the file when the file has loaded.
pub proof fn lemma_postfab_moves_to_first_scene(
    registry: RegistryModel,
    postfab: PostFabModel,
    gltf: u64,
    scenes: Seq<u64>,
)
    requires
        postfab.scene == FabTarget::Gltf(gltf),
        scenes.len() > 0,
    ensures
        registry.with_postfab(postfab).converted(
            seq![LoadedGltfModel { gltf, scenes: Some(scenes) }],
        ).postfab(scenes[0]) == Some(postfab),
        !registry.with_postfab(postfab).converted(
            seq![LoadedGltfModel { gltf, scenes: Some(scenes) }],
        ).postfab_gltfs.dom().contains(gltf),
{
    let loaded = LoadedGltfModel { gltf, scenes: Some(scenes) };
    let one = seq![loaded];
    let start = registry.with_postfab(postfab);
    assert(one.drop_last() =~= Seq::<LoadedGltfModel>::empty());
    assert(start.resolve_postfabs(one.drop_last()) == start);
    let middle = start.resolve_postfabs(one);
    assert(middle == start.resolve_postfab(loaded));
    assert(middle.resolve_prefabs(one.drop_last()) == middle);
    assert(middle.resolve_prefabs(one) == middle.resolve_prefab(loaded));
}

/// A pipeline whose gltf file gives no scene is dropped: afterwards it
/// waits nowhere and stands under no scene that it did not stand under
/// before.
pub proof fn lemma_pipeline_without_scene_is_dropped(
    registry: RegistryModel,
    loaded: LoadedGltfModel,
)
    requires
        loaded.first_scene() is None,
    ensures
        !registry.resolve_prefab(loaded).prefab_gltfs.dom().contains(loaded.gltf),
        registry.resolve_prefab(loaded).prefabs == registry.prefabs,
        !registry.resolve_postfab(loaded).postfab_gltfs.dom().contains(loaded.gltf),
        registry.resolve_postfab(loaded).postfabs == registry.postfabs,
{
}

/// Dealing with loaded gltf files leaves the record of the templates that
/// were changed as it is.
pub proof fn lemma_conversion_keeps_applied(registry: RegistryModel, loaded: Seq<LoadedGltfModel>)
    ensures
        registry.resolve_postfabs(loaded).applied == registry.applied,
        registry.resolve_prefabs(loaded).applied == registry.applied,
        registry.converted(loaded).applied == registry.applied,
    decreases loaded.len(),
{
    if loaded.len() > 0 {
        lemma_conversion_keeps_applied(registry, loaded.drop_last());
    }
    lemma_prefab_conversion_keeps_applied(registry.resolve_postfabs(loaded), loaded);
}

/// Moving prefabs leaves the record of the templates that were changed as
/// it is.
pub proof fn lemma_prefab_conversion_keeps_applied(
    registry: RegistryModel,
    loaded: Seq<LoadedGltfModel>,
)
    ensures
        registry.resolve_prefabs(loaded).applied == registry.applied,
    decreases loaded.len(),
{
    if loaded.len() > 0 {
        lemma_prefab_conversion_keeps_applied(registry, loaded.drop_last());
    }
}

/// A template that a prefab has run on is never changed again, whatever
/// is registered or converted afterwards: after a prefab, a postfab or a
/// round of conversion, no report runs anything on it.
pub proof fn lemma_changed_template_is_never_changed_again(
    registry: RegistryModel,
    scene: u64,
    prefab: PrefabModel,
    postfab: PostFabModel,
    converted: Seq<LoadedGltfModel>,
    loaded: Seq<u64>,
)
    requires
        registry.applied.contains(scene),
    ensures
        forall|k: int|
            0 <= k < load_runs(registry.with_prefab(prefab), loaded).len() ==> (#[trigger] load_runs(
                registry.with_prefab(prefab),
                loaded,
            )[k]).scene != scene,
        forall|k: int|
            0 <= k < load_runs(registry.with_postfab(postfab), loaded).len()
                ==> (#[trigger] load_runs(registry.with_postfab(postfab), loaded)[k]).scene
                != scene,
        forall|k: int|
            0 <= k < load_runs(registry.converted(converted), loaded).len()
                ==> (#[trigger] load_runs(registry.converted(converted), loaded)[k]).scene
                != scene,
{
    lemma_conversion_keeps_applied(registry, converted);
    assert(is_spent(registry.with_prefab(prefab), scene));
    assert(is_spent(registry.with_postfab(postfab), scene));
    assert(is_spent(registry.converted(converted), scene));
    lemma_spent_template_stays_spent(registry.with_prefab(prefab), scene, loaded);
    lemma_spent_template_stays_spent(registry.with_postfab(postfab), scene, loaded);
    lemma_spent_template_stays_spent(registry.converted(converted), scene, loaded);
}

} // verus!
