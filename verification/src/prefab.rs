//! Prefabs: pipelines that run once on a scene template, when it has
//! loaded and before anything is spawned from it.

use crate::manager::{FabManager, RegistryModel};
use crate::target::FabTarget;
use vstd::prelude::*;

verus! {

/// One step of a prefab. The number is the handle under which the caller
/// keeps what is run.
#[derive(Clone, Copy, Debug, PartialEq, Eq, Structural)]
pub enum PrefabStep {
    /// A pipe object, which is applied to the world of the template.
    Pipe(u64),
    /// A system, which is registered in the world of the template, run
    /// once and removed again.
    System(u64),
}

/// The steps that run on a scene template when it has loaded.
#[derive(Debug)]
pub struct Prefab {
    /// The asset whose template the steps run on.
    pub target: FabTarget,
    /// The steps, in the order in which they run.
    pub pipeline: Vec<PrefabStep>,
}

/// A [`Prefab`] over sequences.
pub struct PrefabModel {
    pub target: FabTarget,
    pub pipeline: Seq<PrefabStep>,
}

impl View for Prefab {
    type V = PrefabModel;

    open spec fn view(&self) -> PrefabModel {
        PrefabModel { target: self.target, pipeline: self.pipeline@ }
    }
}

/// The steps `pipes` as pipe objects, in order.
pub open spec fn pipe_steps(pipes: Seq<u64>) -> Seq<PrefabStep> {
    Seq::new(pipes.len(), |i: int| PrefabStep::Pipe(pipes[i]))
}

impl Prefab {
    /// A prefab for `target` without steps.
    pub fn new(target: FabTarget) -> (prefab: Self)
        ensures
            prefab@ == (PrefabModel { target, pipeline: Seq::empty() }),
    {
        Prefab { target, pipeline: Vec::new() }
    }

    /// Adds the pipe object kept under `pipe` as the last step.
    pub fn with_pipe(self, pipe: u64) -> (prefab: Self)
        ensures
            prefab@ == (PrefabModel {
                pipeline: self@.pipeline.push(PrefabStep::Pipe(pipe)),
                ..self@
            }),
    {
        let mut prefab = self;
        prefab.pipeline.push(PrefabStep::Pipe(pipe));
        prefab
    }

    /// Adds the pipe objects kept under `pipes` as the last steps, in
    /// their order.
    pub fn with_pipes(self, pipes: Vec<u64>) -> (prefab: Self)
        ensures
            prefab@ == (PrefabModel {
                pipeline: self@.pipeline + pipe_steps(pipes@),
                ..self@
            }),
    {
        let mut prefab = self;
        let ghost before = prefab.pipeline@;
        let mut i: usize = 0;
        assert(prefab.pipeline@ =~= before + pipe_steps(pipes@).take(0));
        while i < pipes.len()
            invariant
                i <= pipes.len(),
                prefab.target == self.target,
                prefab.pipeline@ == before + pipe_steps(pipes@).take(i as int),
            decreases pipes.len() - i,
        {
            prefab.pipeline.push(PrefabStep::Pipe(pipes[i]));
            assert(prefab.pipeline@ =~= before + pipe_steps(pipes@).take(i + 1));
            i += 1;
        }
        assert(pipe_steps(pipes@).take(pipes.len() as int) =~= pipe_steps(pipes@));
        prefab
    }

    /// Adds the system kept under `system` as the last step.
    pub fn with_system(self, system: u64) -> (prefab: Self)
        ensures
            prefab@ == (PrefabModel {
                pipeline: self@.pipeline.push(PrefabStep::System(system)),
                ..self@
            }),
    {
        let mut prefab = self;
        prefab.pipeline.push(PrefabStep::System(system));
        prefab
    }
}

/// One step to run on the template of a scene.
#[derive(Clone, Copy, Debug, PartialEq, Eq, Structural)]
pub struct PrefabRun {
    /// The scene whose template the step runs on.
    pub scene: u64,
    pub step: PrefabStep,
}

/// Whether the template of `scene` is still to be changed: a prefab is
/// registered for the scene and no prefab has run on its template yet.
pub open spec fn is_due(registry: RegistryModel, scene: u64) -> bool {
    !registry.applied.contains(scene) && registry.prefab(scene) is Some
}

/// What runs on the template of `scene` when its load is reported: the
/// steps of its prefab, each once and in their order, if the template is
/// still to be changed; nothing otherwise.
pub open spec fn template_runs(registry: RegistryModel, scene: u64) -> Seq<PrefabRun> {
    if is_due(registry, scene) {
        Seq::new(
            registry.prefabs[scene].pipeline.len(),
            |i: int| PrefabRun { scene, step: registry.prefabs[scene].pipeline[i] },
        )
    } else {
        Seq::empty()
    }
}

/// The registry after the load of `scene` was reported: if its template
/// was still to be changed, it now counts as changed.
pub open spec fn after_load(registry: RegistryModel, scene: u64) -> RegistryModel {
    if is_due(registry, scene) {
        registry.with_applied(scene)
    } else {
        registry
    }
}

/// The registry after the loads of the scenes `loaded` were reported, one
/// after the other.
pub open spec fn after_loads(registry: RegistryModel, loaded: Seq<u64>) -> RegistryModel
    decreases loaded.len(),
{
    if loaded.len() == 0 {
        registry
    } else {
        after_load(after_loads(registry, loaded.drop_last()), loaded.last())
    }
}

/// What runs when the loads of the scenes `loaded` are reported: what runs
/// on the template of each, report after report, each report seeing what
/// the reports before it have run.
pub open spec fn load_runs(registry: RegistryModel, loaded: Seq<u64>) -> Seq<PrefabRun>
    decreases loaded.len(),
{
    if loaded.len() == 0 {
        Seq::empty()
    } else {
        load_runs(registry, loaded.drop_last()) + template_runs(
            after_loads(registry, loaded.drop_last()),
            loaded.last(),
        )
    }
}

/// Whether nothing can run on the template of `scene` any more as long as
/// nothing is registered: a prefab has run on it, or none is registered.
pub open spec fn is_spent(registry: RegistryModel, scene: u64) -> bool {
    registry.applied.contains(scene) || registry.prefab(scene) is None
}

/// Reports change nothing but the record of the templates that were
/// changed, and that record only grows.
pub proof fn lemma_loads_keep_pipelines(registry: RegistryModel, loaded: Seq<u64>)
    ensures
        after_loads(registry, loaded).prefabs == registry.prefabs,
        after_loads(registry, loaded).postfabs == registry.postfabs,
        after_loads(registry, loaded).prefab_gltfs == registry.prefab_gltfs,
        after_loads(registry, loaded).postfab_gltfs == registry.postfab_gltfs,
        registry.applied.subset_of(after_loads(registry, loaded).applied),
    decreases loaded.len(),
{
    if loaded.len() > 0 {
        lemma_loads_keep_pipelines(registry, loaded.drop_last());
    }
}

/// When the load of a template that is still to be changed is reported,
/// each step of its prefab runs exactly once, in the order of the prefab,
/// and the template counts as changed from then on.
pub proof fn lemma_template_runs_once(registry: RegistryModel, scene: u64, prefab: PrefabModel)
    requires
        registry.prefab(scene) == Some(prefab),
        !registry.applied.contains(scene),
    ensures
        load_runs(registry, seq![scene]) == template_runs(registry, scene),
        template_runs(registry, scene).len() == prefab.pipeline.len(),
        forall|i: int|
            0 <= i < prefab.pipeline.len() ==> #[trigger] template_runs(registry, scene)[i] == (
            PrefabRun { scene, step: prefab.pipeline[i] }),
        after_loads(registry, seq![scene]) == registry.with_applied(scene),
{
    let one = seq![scene];
    assert(one.drop_last() =~= Seq::<u64>::empty());
    assert(after_loads(registry, one.drop_last()) == registry);
    assert(load_runs(registry, one.drop_last()) =~= Seq::<PrefabRun>::empty());
    assert(load_runs(registry, one) =~= template_runs(registry, scene));
}

/// Reports that come in two parts run what the first part runs, then what
/// the second part runs on the registry that the first part left.
pub proof fn lemma_load_runs_add(registry: RegistryModel, first: Seq<u64>, second: Seq<u64>)
    ensures
        after_loads(registry, first + second) == after_loads(after_loads(registry, first), second),
        load_runs(registry, first + second) == load_runs(registry, first) + load_runs(
            after_loads(registry, first),
            second,
        ),
    decreases second.len(),
{
    let middle = after_loads(registry, first);
    if second.len() == 0 {
        assert(first + second =~= first);
        assert(load_runs(registry, first) + Seq::<PrefabRun>::empty() =~= load_runs(
            registry,
            first,
        ));
    } else {
        let whole = first + second;
        assert(whole.drop_last() =~= first + second.drop_last());
        assert(whole.last() == second.last());
        lemma_load_runs_add(registry, first, second.drop_last());
        assert(load_runs(registry, whole) =~= load_runs(registry, first) + load_runs(
            middle,
            second,
        ));
    }
}

/// Nothing runs on a template unless its load was reported: every run
/// belongs to a scene of the reports, to a prefab that is registered for
/// that scene, and to a template that had not been changed before.
pub proof fn lemma_runs_follow_reports(registry: RegistryModel, loaded: Seq<u64>, k: int)
    requires
        0 <= k < load_runs(registry, loaded).len(),
    ensures
        loaded.contains(load_runs(registry, loaded)[k].scene),
        registry.prefab(load_runs(registry, loaded)[k].scene) is Some,
        !registry.applied.contains(load_runs(registry, loaded)[k].scene),
    decreases loaded.len(),
{
    if loaded.len() > 0 {
        let earlier = load_runs(registry, loaded.drop_last());
        if k < earlier.len() {
            lemma_runs_follow_reports(registry, loaded.drop_last(), k);
            let scene = earlier[k].scene;
            let at = choose|i: int| 0 <= i < loaded.drop_last().len() && loaded.drop_last()[i] == scene;
            assert(loaded[at] == scene);
        } else {
            lemma_loads_keep_pipelines(registry, loaded.drop_last());
            assert(loaded[loaded.len() - 1] == loaded.last());
        }
    }
}

/// Once nothing can run on a template any more, no report changes that:
/// no run of any later reports belongs to it.
pub proof fn lemma_spent_template_stays_spent(registry: RegistryModel, scene: u64, loaded: Seq<u64>)
    requires
        is_spent(registry, scene),
    ensures
        is_spent(after_loads(registry, loaded), scene),
        forall|k: int|
            0 <= k < load_runs(registry, loaded).len() ==> (#[trigger] load_runs(
                registry,
                loaded,
            )[k]).scene != scene,
    decreases loaded.len(),
{
    if loaded.len() > 0 {
        lemma_spent_template_stays_spent(registry, scene, loaded.drop_last());
        lemma_loads_keep_pipelines(registry, loaded.drop_last());
    }
}

/// A template whose load was reported is spent afterwards: either its
/// prefab has run on it, or there was none.
pub proof fn lemma_reported_template_is_spent(registry: RegistryModel, scene: u64, loaded: Seq<u64>)
    requires
        loaded.contains(scene),
    ensures
        is_spent(after_loads(registry, loaded), scene),
    decreases loaded.len(),
{
    let earlier = loaded.drop_last();
    let middle = after_loads(registry, earlier);
    lemma_loads_keep_pipelines(registry, earlier);
    if loaded.last() != scene {
        let at = choose|i: int| 0 <= i < loaded.len() && loaded[i] == scene;
        assert(earlier[at] == scene);
        lemma_reported_template_is_spent(registry, scene, earlier);
    }
}

/// A prefab runs on a template once and never again: after reports that
/// held `scene`, no later reports return a run for `scene`, whatever they
/// hold. The same holds inside one list of reports, by
/// [`lemma_load_runs_add`]: what stands behind the first report of
/// `scene` runs nothing for it.
pub proof fn lemma_template_never_runs_again(
    registry: RegistryModel,
    first: Seq<u64>,
    scene: u64,
    later: Seq<u64>,
    k: int,
)
    requires
        first.contains(scene),
        0 <= k < load_runs(after_loads(registry, first), later).len(),
    ensures
        load_runs(after_loads(registry, first), later)[k].scene != scene,
{
    lemma_reported_template_is_spent(registry, scene, first);
    lemma_spent_template_stays_spent(after_loads(registry, first), scene, later);
}

/// The steps to run on the templates of the scenes that have loaded.
///
/// `loaded` lists the scenes of which the load with all they depend on was
/// reported, in the order of the reports. For each that has a prefab and
/// whose template no prefab has run on, the steps of the prefab come once,
/// in their order, and the registry records that the template was
/// changed. A scene that is reported again, in this call or a later one,
/// gets nothing.
pub fn apply_pipes_to_loaded_scene(prefabs: &mut FabManager, loaded: &Vec<u64>) -> (runs: Vec<
    PrefabRun,
>)
    ensures
        final(prefabs)@ == after_loads(old(prefabs)@, loaded@),
        runs@ == load_runs(old(prefabs)@, loaded@),
{
    let ghost start = prefabs@;
    let mut runs: Vec<PrefabRun> = Vec::new();
    let mut i: usize = 0;
    assert(loaded@.take(0) =~= Seq::<u64>::empty());
    while i < loaded.len()
        invariant
            i <= loaded.len(),
            prefabs@ == after_loads(start, loaded@.take(i as int)),
            runs@ == load_runs(start, loaded@.take(i as int)),
        decreases loaded.len() - i,
    {
        let scene = loaded[i];
        let ghost before = runs@;
        let ghost registry = prefabs@;
        let ghost steps = template_runs(registry, scene);
        proof {
            let longer = loaded@.take(i + 1);
            assert(longer.drop_last() =~= loaded@.take(i as int));
            assert(longer.last() == scene);
        }
        let mut due = false;
        if !prefabs.prefab_applied(scene) {
            match prefabs.prefab(scene) {
                Some(prefab) => {
                    due = true;
                    let mut k: usize = 0;
                    assert(runs@ =~= before + steps.take(0));
                    while k < prefab.pipeline.len()
                        invariant
                            k <= prefab.pipeline.len(),
                            steps == template_runs(registry, scene),
                            is_due(registry, scene),
                            registry.prefab(scene) == Some(prefab@),
                            runs@ == before + steps.take(k as int),
                        decreases prefab.pipeline.len() - k,
                    {
                        runs.push(PrefabRun { scene, step: prefab.pipeline[k] });
                        assert(runs@ =~= before + steps.take(k + 1));
                        k += 1;
                    }
                    assert(steps.take(prefab.pipeline.len() as int) =~= steps);
                },
                None => {},
            }
        }
        if due {
            prefabs.mark_applied(scene);
        } else {
            assert(runs@ =~= before + steps);
        }
        i += 1;
    }
    assert(loaded@.take(loaded.len() as int) =~= loaded@);
    runs
}

} // verus!
