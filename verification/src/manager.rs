//! The registry of pipelines, and the step that moves a pipeline from a
//! gltf file to the scene inside it once the file has loaded.

use crate::postfab::{PostFab, PostFabModel};
use crate::prefab::{Prefab, PrefabModel};
use crate::table::{
    postfab_entries, postfab_table_get, postfab_table_insert, postfab_table_keys,
    postfab_table_new, postfab_table_remove, prefab_entries, prefab_table_get,
    prefab_table_get_mut, prefab_table_insert, prefab_table_keys, prefab_table_new, prefab_table_remove, PostfabTable,
    PrefabTable,
};
use crate::target::FabTarget;
use vstd::prelude::*;

verus! {

/// The views of the postfabs of a table.
pub open spec fn postfab_models(entries: Map<u64, PostFab>) -> Map<u64, PostFabModel> {
    Map::new(|key: u64| entries.dom().contains(key), |key: u64| entries[key]@)
}

/// The views of the prefabs of a table.
pub open spec fn prefab_models(entries: Map<u64, Prefab>) -> Map<u64, PrefabModel> {
    Map::new(|key: u64| entries.dom().contains(key), |key: u64| entries[key]@)
}

/// A gltf file that has loaded with all it depends on.
#[derive(Debug)]
pub struct LoadedGltf {
    /// The id of the file.
    pub gltf: u64,
    /// The ids of the scenes in the file, in the file's order, or `None`
    /// if the file is not among the loaded assets after all.
    pub scenes: Option<Vec<u64>>,
}

/// A [`LoadedGltf`] over sequences.
pub struct LoadedGltfModel {
    pub gltf: u64,
    pub scenes: Option<Seq<u64>>,
}

impl View for LoadedGltf {
    type V = LoadedGltfModel;

    open spec fn view(&self) -> LoadedGltfModel {
        LoadedGltfModel {
            gltf: self.gltf,
            scenes: match self.scenes {
                Some(scenes) => Some(scenes@),
                None => None,
            },
        }
    }
}

/// The views of a list of loaded files, in order.
pub open spec fn loaded_of(list: Seq<LoadedGltf>) -> Seq<LoadedGltfModel> {
    Seq::new(list.len(), |i: int| list[i]@)
}

/// Which of the two kinds of pipeline.
#[derive(Clone, Copy, Debug, PartialEq, Eq, Structural)]
pub enum FabKind {
    Prefab,
    Postfab,
}

/// Why a pipeline could not be moved to a scene.
#[derive(Clone, Copy, Debug, PartialEq, Eq, Structural)]
pub enum FailureReason {
    /// The file is not among the loaded assets.
    MissingGltf,
    /// The file holds no scene.
    NoScenes,
}

/// A pipeline that was registered for a gltf file and was dropped, because
/// the file gave no scene to move it to.
#[derive(Clone, Copy, Debug, PartialEq, Eq, Structural)]
pub struct ResolutionFailure {
    pub gltf: u64,
    pub kind: FabKind,
    pub reason: FailureReason,
}

impl LoadedGltfModel {
    /// The scene that takes the place of the file: its first.
    pub open spec fn first_scene(self) -> Option<u64> {
        match self.scenes {
            Some(scenes) => if scenes.len() > 0 {
                Some(scenes[0])
            } else {
                None
            },
            None => None,
        }
    }

    /// Why the file gives no scene.
    pub open spec fn reason(self) -> FailureReason {
        match self.scenes {
            Some(_) => FailureReason::NoScenes,
            None => FailureReason::MissingGltf,
        }
    }
}

impl LoadedGltf {
    /// The scene that takes the place of the file: its first.
    pub fn first_scene(&self) -> (scene: Option<u64>)
        ensures
            scene == self@.first_scene(),
    {
        match &self.scenes {
            Some(scenes) => if scenes.len() > 0 {
                Some(scenes[0])
            } else {
                None
            },
            None => None,
        }
    }

    /// Why the file gives no scene.
    pub fn reason(&self) -> (reason: FailureReason)
        ensures
            reason == self@.reason(),
    {
        match &self.scenes {
            Some(_) => FailureReason::NoScenes,
            None => FailureReason::MissingGltf,
        }
    }
}

/// What the registry holds: for scenes and for gltf files, the prefab and
/// the postfab of each id, at most one of either.
pub struct RegistryModel {
    pub prefabs: Map<u64, PrefabModel>,
    pub postfabs: Map<u64, PostFabModel>,
    pub prefab_gltfs: Map<u64, PrefabModel>,
    pub postfab_gltfs: Map<u64, PostFabModel>,
    /// The scenes on whose template a prefab has run. Nothing runs on
    /// such a template again, whatever is registered for the scene later
    /// and however often its load is reported.
    pub applied: Set<u64>,
}

impl RegistryModel {
    /// The registry that holds nothing.
    pub open spec fn empty() -> Self {
        RegistryModel {
            prefabs: Map::empty(),
            postfabs: Map::empty(),
            prefab_gltfs: Map::empty(),
            postfab_gltfs: Map::empty(),
            applied: Set::empty(),
        }
    }

    /// The registry after a prefab has run on the template of `scene`.
    pub open spec fn with_applied(self, scene: u64) -> Self {
        RegistryModel { applied: self.applied.insert(scene), ..self }
    }

    /// The registry after `prefab` was registered: it stands under its
    /// target and replaces what stood there.
    pub open spec fn with_prefab(self, prefab: PrefabModel) -> Self {
        match prefab.target {
            FabTarget::Scene(scene) => RegistryModel {
                prefabs: self.prefabs.insert(scene, prefab),
                ..self
            },
            FabTarget::Gltf(gltf) => RegistryModel {
                prefab_gltfs: self.prefab_gltfs.insert(gltf, prefab),
                ..self
            },
        }
    }

    /// The registry after `postfab` was registered: it stands under its
    /// target and replaces what stood there.
    pub open spec fn with_postfab(self, postfab: PostFabModel) -> Self {
        match postfab.scene {
            FabTarget::Scene(scene) => RegistryModel {
                postfabs: self.postfabs.insert(scene, postfab),
                ..self
            },
            FabTarget::Gltf(gltf) => RegistryModel {
                postfab_gltfs: self.postfab_gltfs.insert(gltf, postfab),
                ..self
            },
        }
    }

    /// The prefab of a scene, if one is registered.
    pub open spec fn prefab(self, scene: u64) -> Option<PrefabModel> {
        if self.prefabs.dom().contains(scene) {
            Some(self.prefabs[scene])
        } else {
            None
        }
    }

    /// The postfab of a scene, if one is registered.
    pub open spec fn postfab(self, scene: u64) -> Option<PostFabModel> {
        if self.postfabs.dom().contains(scene) {
            Some(self.postfabs[scene])
        } else {
            None
        }
    }

    /// The registry after the postfab of one loaded file was dealt with.
    /// If a postfab waits under the file, it leaves that place; it goes to
    /// the first scene of the file, or is dropped if there is none.
    pub open spec fn resolve_postfab(self, loaded: LoadedGltfModel) -> Self {
        if self.postfab_gltfs.dom().contains(loaded.gltf) {
            let fab = self.postfab_gltfs[loaded.gltf];
            let waiting = self.postfab_gltfs.remove(loaded.gltf);
            match loaded.first_scene() {
                Some(scene) => RegistryModel {
                    postfabs: self.postfabs.insert(scene, fab),
                    postfab_gltfs: waiting,
                    ..self
                },
                None => RegistryModel { postfab_gltfs: waiting, ..self },
            }
        } else {
            self
        }
    }

    /// The registry after the prefab of one loaded file was dealt with, in
    /// the same way.
    pub open spec fn resolve_prefab(self, loaded: LoadedGltfModel) -> Self {
        if self.prefab_gltfs.dom().contains(loaded.gltf) {
            let fab = self.prefab_gltfs[loaded.gltf];
            let waiting = self.prefab_gltfs.remove(loaded.gltf);
            match loaded.first_scene() {
                Some(scene) => RegistryModel {
                    prefabs: self.prefabs.insert(scene, fab),
                    prefab_gltfs: waiting,
                    ..self
                },
                None => RegistryModel { prefab_gltfs: waiting, ..self },
            }
        } else {
            self
        }
    }

    /// The failure that dealing with the postfab of one loaded file
    /// reports, if any.
    pub open spec fn postfab_failure(self, loaded: LoadedGltfModel) -> Option<ResolutionFailure> {
        if self.postfab_gltfs.dom().contains(loaded.gltf) && loaded.first_scene() is None {
            Some(
                ResolutionFailure {
                    gltf: loaded.gltf,
                    kind: FabKind::Postfab,
                    reason: loaded.reason(),
                },
            )
        } else {
            None
        }
    }

    /// The failure that dealing with the prefab of one loaded file
    /// reports, if any.
    pub open spec fn prefab_failure(self, loaded: LoadedGltfModel) -> Option<ResolutionFailure> {
        if self.prefab_gltfs.dom().contains(loaded.gltf) && loaded.first_scene() is None {
            Some(
                ResolutionFailure {
                    gltf: loaded.gltf,
                    kind: FabKind::Prefab,
                    reason: loaded.reason(),
                },
            )
        } else {
            None
        }
    }

    /// The registry after the postfabs of the loaded files were dealt
    /// with, file after file.
    pub open spec fn resolve_postfabs(self, loaded: Seq<LoadedGltfModel>) -> Self
        decreases loaded.len(),
    {
        if loaded.len() == 0 {
            self
        } else {
            self.resolve_postfabs(loaded.drop_last()).resolve_postfab(loaded.last())
        }
    }

    /// The registry after the prefabs of the loaded files were dealt with,
    /// file after file.
    pub open spec fn resolve_prefabs(self, loaded: Seq<LoadedGltfModel>) -> Self
        decreases loaded.len(),
    {
        if loaded.len() == 0 {
            self
        } else {
            self.resolve_prefabs(loaded.drop_last()).resolve_prefab(loaded.last())
        }
    }

    /// The failures that dealing with the postfabs of the loaded files
    /// reports, in order.
    pub open spec fn postfab_failures(self, loaded: Seq<LoadedGltfModel>) -> Seq<ResolutionFailure>
        decreases loaded.len(),
    {
        if loaded.len() == 0 {
            Seq::empty()
        } else {
            let earlier = self.postfab_failures(loaded.drop_last());
            match self.resolve_postfabs(loaded.drop_last()).postfab_failure(loaded.last()) {
                Some(failure) => earlier.push(failure),
                None => earlier,
            }
        }
    }

    /// The failures that dealing with the prefabs of the loaded files
    /// reports, in order.
    pub open spec fn prefab_failures(self, loaded: Seq<LoadedGltfModel>) -> Seq<ResolutionFailure>
        decreases loaded.len(),
    {
        if loaded.len() == 0 {
            Seq::empty()
        } else {
            let earlier = self.prefab_failures(loaded.drop_last());
            match self.resolve_prefabs(loaded.drop_last()).prefab_failure(loaded.last()) {
                Some(failure) => earlier.push(failure),
                None => earlier,
            }
        }
    }

    /// The registry after a round of conversion: first all postfabs, then
    /// all prefabs.
    pub open spec fn converted(self, loaded: Seq<LoadedGltfModel>) -> Self {
        self.resolve_postfabs(loaded).resolve_prefabs(loaded)
    }

    /// The failures that a round of conversion reports: those of the
    /// postfabs, then those of the prefabs.
    pub open spec fn conversion_failures(self, loaded: Seq<LoadedGltfModel>) -> Seq<
        ResolutionFailure,
    > {
        self.postfab_failures(loaded) + self.resolve_postfabs(loaded).prefab_failures(loaded)
    }
}

/// The registry of pipelines.
pub struct FabManager {
    pub(crate) prefabs: PrefabTable,
    pub(crate) postfabs: PostfabTable,
    /// Pipelines that wait for their gltf file to load.
    pub(crate) postfab_gltfs: PostfabTable,
    pub(crate) prefab_gltfs: PrefabTable,
    /// The scenes on whose template a prefab has run.
    pub(crate) applied: Vec<u64>,
}

impl View for FabManager {
    type V = RegistryModel;

    closed spec fn view(&self) -> RegistryModel {
        RegistryModel {
            prefabs: prefab_models(prefab_entries(self.prefabs)),
            postfabs: postfab_models(postfab_entries(self.postfabs)),
            prefab_gltfs: prefab_models(prefab_entries(self.prefab_gltfs)),
            postfab_gltfs: postfab_models(postfab_entries(self.postfab_gltfs)),
            applied: self.applied@.to_set(),
        }
    }
}

proof fn lemma_postfab_models_insert(entries: Map<u64, PostFab>, key: u64, fab: PostFab)
    ensures
        postfab_models(entries.insert(key, fab)) == postfab_models(entries).insert(key, fab@),
{
    assert(postfab_models(entries.insert(key, fab)) =~= postfab_models(entries).insert(key, fab@));
}

proof fn lemma_postfab_models_remove(entries: Map<u64, PostFab>, key: u64)
    ensures
        postfab_models(entries.remove(key)) == postfab_models(entries).remove(key),
{
    assert(postfab_models(entries.remove(key)) =~= postfab_models(entries).remove(key));
}

proof fn lemma_prefab_models_insert(entries: Map<u64, Prefab>, key: u64, fab: Prefab)
    ensures
        prefab_models(entries.insert(key, fab)) == prefab_models(entries).insert(key, fab@),
{
    assert(prefab_models(entries.insert(key, fab)) =~= prefab_models(entries).insert(key, fab@));
}

proof fn lemma_prefab_models_remove(entries: Map<u64, Prefab>, key: u64)
    ensures
        prefab_models(entries.remove(key)) == prefab_models(entries).remove(key),
{
    assert(prefab_models(entries.remove(key)) =~= prefab_models(entries).remove(key));
}

impl FabManager {
    /// A registry that holds nothing.
    pub fn new() -> (manager: Self)
        ensures
            manager@ == RegistryModel::empty(),
    {
        let manager = FabManager {
            prefabs: prefab_table_new(),
            postfabs: postfab_table_new(),
            postfab_gltfs: postfab_table_new(),
            prefab_gltfs: prefab_table_new(),
            applied: Vec::new(),
        };
        proof {
            assert(manager@.applied =~= Set::empty());
            assert(manager@.prefabs =~= Map::empty());
            assert(manager@.postfabs =~= Map::empty());
            assert(manager@.prefab_gltfs =~= Map::empty());
            assert(manager@.postfab_gltfs =~= Map::empty());
        }
        manager
    }

    /// Registers a prefab under its target. A prefab that stood there is
    /// replaced. The record of the templates that were changed stays as it
    /// is: a prefab for a scene whose template a prefab has run on will
    /// not run.
    pub fn register_prefab(&mut self, prefab: Prefab)
        ensures
            final(self)@ == old(self)@.with_prefab(prefab@),
    {
        proof {
            lemma_prefab_models_insert(prefab_entries(self.prefabs), prefab.target->Scene_0, prefab);
            lemma_prefab_models_insert(
                prefab_entries(self.prefab_gltfs),
                prefab.target->Gltf_0,
                prefab,
            );
        }
        match prefab.target {
            FabTarget::Scene(scene) => prefab_table_insert(&mut self.prefabs, scene, prefab),
            FabTarget::Gltf(gltf) => prefab_table_insert(&mut self.prefab_gltfs, gltf, prefab),
        }
    }

    /// Registers a postfab under its target. A postfab that stood there is
    /// replaced.
    pub fn register_postfab(&mut self, postfab: PostFab)
        ensures
            final(self)@ == old(self)@.with_postfab(postfab@),
    {
        proof {
            lemma_postfab_models_insert(
                postfab_entries(self.postfabs),
                postfab.scene->Scene_0,
                postfab,
            );
            lemma_postfab_models_insert(
                postfab_entries(self.postfab_gltfs),
                postfab.scene->Gltf_0,
                postfab,
            );
        }
        match postfab.scene {
            FabTarget::Scene(scene) => postfab_table_insert(&mut self.postfabs, scene, postfab),
            FabTarget::Gltf(gltf) => postfab_table_insert(&mut self.postfab_gltfs, gltf, postfab),
        }
    }

    /// The prefab that is registered for a scene.
    pub fn prefab(&self, scene: u64) -> (found: Option<&Prefab>)
        ensures
            match found {
                Some(prefab) => self@.prefab(scene) == Some(prefab@),
                None => self@.prefab(scene) is None,
            },
    {
        prefab_table_get(&self.prefabs, scene)
    }

    /// The prefab that is registered for a scene, to be changed in place.
    pub fn prefab_mut(&mut self, scene: u64) -> (found: Option<&mut Prefab>)
        ensures
            match found {
                Some(prefab) => {
                    &&& old(self)@.prefab(scene) == Some(prefab@)
                    &&& final(self)@ == (RegistryModel {
                        prefabs: old(self)@.prefabs.insert(scene, final(prefab)@),
                        ..old(self)@
                    })
                },
                None => old(self)@.prefab(scene) is None && final(self)@ == old(self)@,
            },
    {
        let found = prefab_table_get_mut(&mut self.prefabs, scene);
        proof {
            if found is Some {
                lemma_prefab_models_insert(
                    prefab_entries(old(self).prefabs),
                    scene,
                    *final(found->Some_0),
                );
            }
        }
        found
    }

    /// The postfab that is registered for a scene.
    pub fn postfab(&self, scene: u64) -> (found: Option<&PostFab>)
        ensures
            match found {
                Some(postfab) => self@.postfab(scene) == Some(postfab@),
                None => self@.postfab(scene) is None,
            },
    {
        postfab_table_get(&self.postfabs, scene)
    }

    /// Whether a prefab has run on the template of `scene`.
    pub fn prefab_applied(&self, scene: u64) -> (applied: bool)
        ensures
            applied == self@.applied.contains(scene),
    {
        let mut i: usize = 0;
        while i < self.applied.len()
            invariant
                i <= self.applied.len(),
                forall|j: int| 0 <= j < i ==> self.applied@[j] != scene,
            decreases self.applied.len() - i,
        {
            if self.applied[i] == scene {
                return true;
            }
            i += 1;
        }
        false
    }

    /// Records that a prefab has run on the template of `scene`.
    pub(crate) fn mark_applied(&mut self, scene: u64)
        ensures
            final(self)@ == old(self)@.with_applied(scene),
    {
        let ghost before = self.applied@;
        self.applied.push(scene);
        proof {
            assert forall|other: u64|
                self.applied@.to_set().contains(other) <==> before.to_set().insert(scene).contains(
                    other,
                ) by {
                if before.contains(other) {
                    let at = choose|at: int| 0 <= at < before.len() && before[at] == other;
                    assert(self.applied@[at] == other);
                }
                if other == scene {
                    assert(self.applied@[before.len() as int] == scene);
                }
            }
            assert(self.applied@.to_set() =~= before.to_set().insert(scene));
        }
    }

    /// The gltf files under which a postfab waits, each once, in no
    /// particular order.
    pub fn pending_postfab_gltfs(&self) -> (gltfs: Vec<u64>)
        ensures
            gltfs@.no_duplicates(),
            gltfs@.to_set() == self@.postfab_gltfs.dom(),
    {
        let gltfs = postfab_table_keys(&self.postfab_gltfs);
        assert(gltfs@.to_set() =~= self@.postfab_gltfs.dom());
        gltfs
    }

    /// The gltf files under which a prefab waits, each once, in no
    /// particular order.
    pub fn pending_prefab_gltfs(&self) -> (gltfs: Vec<u64>)
        ensures
            gltfs@.no_duplicates(),
            gltfs@.to_set() == self@.prefab_gltfs.dom(),
    {
        let gltfs = prefab_table_keys(&self.prefab_gltfs);
        assert(gltfs@.to_set() =~= self@.prefab_gltfs.dom());
        gltfs
    }

    fn resolve_postfab(&mut self, loaded: &LoadedGltf, failures: &mut Vec<ResolutionFailure>)
        ensures
            final(self)@ == old(self)@.resolve_postfab(loaded@),
            final(failures)@ == match old(self)@.postfab_failure(loaded@) {
                Some(failure) => old(failures)@.push(failure),
                None => old(failures)@,
            },
    {
        proof {
            lemma_postfab_models_remove(postfab_entries(self.postfab_gltfs), loaded.gltf);
        }
        match postfab_table_remove(&mut self.postfab_gltfs, loaded.gltf) {
            Some(fab) => {
                match loaded.first_scene() {
                    Some(scene) => {
                        proof {
                            lemma_postfab_models_insert(postfab_entries(self.postfabs), scene, fab);
                        }
                        postfab_table_insert(&mut self.postfabs, scene, fab);
                    },
                    None => {
                        failures.push(
                            ResolutionFailure {
                                gltf: loaded.gltf,
                                kind: FabKind::Postfab,
                                reason: loaded.reason(),
                            },
                        );
                    },
                }
            },
            None => {
                assert(self@.postfab_gltfs =~= old(self)@.postfab_gltfs);
            },
        }
    }

    fn resolve_prefab(&mut self, loaded: &LoadedGltf, failures: &mut Vec<ResolutionFailure>)
        ensures
            final(self)@ == old(self)@.resolve_prefab(loaded@),
            final(failures)@ == match old(self)@.prefab_failure(loaded@) {
                Some(failure) => old(failures)@.push(failure),
                None => old(failures)@,
            },
    {
        proof {
            lemma_prefab_models_remove(prefab_entries(self.prefab_gltfs), loaded.gltf);
        }
        match prefab_table_remove(&mut self.prefab_gltfs, loaded.gltf) {
            Some(fab) => {
                match loaded.first_scene() {
                    Some(scene) => {
                        proof {
                            lemma_prefab_models_insert(prefab_entries(self.prefabs), scene, fab);
                        }
                        prefab_table_insert(&mut self.prefabs, scene, fab);
                    },
                    None => {
                        failures.push(
                            ResolutionFailure {
                                gltf: loaded.gltf,
                                kind: FabKind::Prefab,
                                reason: loaded.reason(),
                            },
                        );
                    },
                }
            },
            None => {
                assert(self@.prefab_gltfs =~= old(self)@.prefab_gltfs);
            },
        }
    }
}

/// One round of conversion: every pipeline that waits under one of the
/// gltf files in `loaded` leaves that place and goes to the first scene of
/// the file, where it replaces what stood there. A pipeline whose file
/// gives no scene is dropped and reported. Postfabs are dealt with first,
/// then prefabs, each in the order of `loaded`.
pub fn convert_gltffabs_to_scenefabs(fabs: &mut FabManager, loaded: &Vec<LoadedGltf>) -> (failures:
    Vec<ResolutionFailure>)
    ensures
        final(fabs)@ == old(fabs)@.converted(loaded_of(loaded@)),
        failures@ == old(fabs)@.conversion_failures(loaded_of(loaded@)),
{
    let ghost start = fabs@;
    let ghost all = loaded_of(loaded@);
    let mut failures: Vec<ResolutionFailure> = Vec::new();
    let mut i: usize = 0;
    while i < loaded.len()
        invariant
            i <= loaded.len(),
            all == loaded_of(loaded@),
            fabs@ == start.resolve_postfabs(all.take(i as int)),
            failures@ == start.postfab_failures(all.take(i as int)),
        decreases loaded.len() - i,
    {
        proof {
            let longer = all.take(i + 1);
            assert(longer.drop_last() =~= all.take(i as int));
            assert(longer.last() == loaded@[i as int]@);
        }
        fabs.resolve_postfab(&loaded[i], &mut failures);
        i += 1;
    }
    assert(all.take(loaded.len() as int) =~= all);
    let ghost middle = fabs@;
    let ghost reported = failures@;
    let mut k: usize = 0;
    assert(failures@ =~= reported + middle.prefab_failures(all.take(0)));
    while k < loaded.len()
        invariant
            k <= loaded.len(),
            all == loaded_of(loaded@),
            fabs@ == middle.resolve_prefabs(all.take(k as int)),
            failures@ == reported + middle.prefab_failures(all.take(k as int)),
        decreases loaded.len() - k,
    {
        proof {
            let longer = all.take(k + 1);
            assert(longer.drop_last() =~= all.take(k as int));
            assert(longer.last() == loaded@[k as int]@);
        }
        fabs.resolve_prefab(&loaded[k], &mut failures);
        assert(failures@ =~= reported + middle.prefab_failures(all.take(k + 1)));
        k += 1;
    }
    assert(all.take(loaded.len() as int) =~= all);
    failures
}

impl Default for FabManager {
    fn default() -> (manager: Self)
        ensures
            manager@ == RegistryModel::empty(),
    {
        FabManager::new()
    }
}

} // verus!
