//! Postfabs: pipelines that run on every instance of a scene, once the
//! instance has been built.

use crate::entity::{models_of, EntityModel, EntitySnapshot};
use crate::manager::{FabManager, RegistryModel};
pub use crate::names::NameCriteria;
use crate::pipe::{pipes_of, PipeModel};
pub use crate::pipe::{PostfabPipe, RunType};
use crate::target::FabTarget;
use bevy::ecs::entity::Entity;
use vstd::prelude::*;

verus! {

/// The steps that run on each instance of a scene.
#[derive(Debug)]
pub struct PostFab {
    pub scene: FabTarget,
    pub pipes: Vec<PostfabPipe>,
}

/// A [`PostFab`] over sequences.
pub struct PostFabModel {
    pub scene: FabTarget,
    pub pipes: Seq<PipeModel>,
}

impl View for PostFab {
    type V = PostFabModel;

    open spec fn view(&self) -> PostFabModel {
        PostFabModel { scene: self.scene, pipes: pipes_of(self.pipes@) }
    }
}

/// A copy of a list of steps.
pub(crate) fn copy_pipes(pipes: &Vec<PostfabPipe>) -> (copy: Vec<PostfabPipe>)
    ensures
        pipes_of(copy@) == pipes_of(pipes@),
{
    let mut copy: Vec<PostfabPipe> = Vec::new();
    let mut i: usize = 0;
    while i < pipes.len()
        invariant
            i <= pipes.len(),
            copy@.len() == i,
            forall|j: int| 0 <= j < i ==> (#[trigger] copy@[j])@ == pipes@[j]@,
        decreases pipes.len() - i,
    {
        copy.push(pipes[i].duplicate());
        i += 1;
    }
    assert(pipes_of(copy@) =~= pipes_of(pipes@));
    copy
}

impl PostFab {
    /// A copy that says the same.
    pub fn duplicate(&self) -> (copy: Self)
        ensures
            copy@ == self@,
    {
        PostFab { scene: self.scene, pipes: copy_pipes(&self.pipes) }
    }
}

impl Clone for PostFab {
    fn clone(&self) -> (copy: Self)
        ensures
            copy@ == self@,
    {
        self.duplicate()
    }
}

/// Steps that one spawn adds behind those of the scene's postfab.
#[derive(Debug)]
pub struct PostFabVariant {
    pub variance: Vec<PostfabPipe>,
}

impl View for PostFabVariant {
    type V = Seq<PipeModel>;

    open spec fn view(&self) -> Seq<PipeModel> {
        pipes_of(self.variance@)
    }
}

impl Clone for PostFabVariant {
    fn clone(&self) -> (copy: Self)
        ensures
            copy@ == self@,
    {
        PostFabVariant { variance: copy_pipes(&self.variance) }
    }
}

impl From<Vec<PostfabPipe>> for PostFabVariant {
    fn from(value: Vec<PostfabPipe>) -> (variant: Self) {
        PostFabVariant { variance: value }
    }
}

impl vstd::std_specs::convert::FromSpecImpl<Vec<PostfabPipe>> for PostFabVariant {
    open spec fn obeys_from_spec() -> bool {
        true
    }

    open spec fn from_spec(value: Vec<PostfabPipe>) -> Self {
        PostFabVariant { variance: value }
    }
}

/// One thing to run: what, and on which entity.
#[derive(Clone, Copy, Debug, PartialEq, Eq)]
pub struct PipeRun {
    pub executor: RunType,
    pub entity: Entity,
}

/// The root of a scene instance followed by its descendants.
pub open spec fn tree_of(root: EntityModel, descendants: Seq<EntityModel>) -> Seq<EntityModel> {
    seq![root] + descendants
}

/// Whether a step reaches as far as `position` of a tree; the root stands
/// at position 0.
pub open spec fn in_scope(pipe: PipeModel, position: int) -> bool {
    !pipe.root_only || position == 0
}

/// Whether a step runs on the entity at `position` of `tree`.
pub open spec fn hits(pipe: PipeModel, tree: Seq<EntityModel>, position: int) -> bool {
    &&& 0 <= position < tree.len()
    &&& in_scope(pipe, position)
    &&& pipe.admits(tree[position])
}

/// [`hits`] as a test on positions.
pub open spec fn hit_test(pipe: PipeModel, tree: Seq<EntityModel>) -> spec_fn(int) -> bool {
    |position: int| hits(pipe, tree, position)
}

/// The numbers from 0 up to `count`, `count` left out.
pub open spec fn positions(count: nat) -> Seq<int> {
    Seq::new(count, |i: int| i)
}

/// The positions of `tree` on which a step runs, in the order of the tree.
pub open spec fn hit_positions(pipe: PipeModel, tree: Seq<EntityModel>) -> Seq<int> {
    positions(tree.len()).filter(hit_test(pipe, tree))
}

/// What a step runs at a position of `tree`.
pub open spec fn run_at(pipe: PipeModel, tree: Seq<EntityModel>) -> spec_fn(int) -> PipeRun {
    |position: int| PipeRun { executor: pipe.executor, entity: tree[position].entity }
}

/// What one step runs on a tree: its action on each entity it hits, in the
/// order of the tree.
pub open spec fn step_runs(pipe: PipeModel, tree: Seq<EntityModel>) -> Seq<PipeRun> {
    hit_positions(pipe, tree).map_values(run_at(pipe, tree))
}

/// What a pipeline runs on a tree: the runs of its steps, step after step.
pub open spec fn pipeline_runs(pipes: Seq<PipeModel>, tree: Seq<EntityModel>) -> Seq<PipeRun>
    decreases pipes.len(),
{
    if pipes.len() == 0 {
        Seq::empty()
    } else {
        pipeline_runs(pipes.drop_last(), tree) + step_runs(pipes.last(), tree)
    }
}

/// Filtering one position more adds that position if it passes the test.
pub proof fn lemma_positions_step(count: nat, test: spec_fn(int) -> bool)
    ensures
        positions(count + 1).filter(test) == if test(count as int) {
            positions(count).filter(test).push(count as int)
        } else {
            positions(count).filter(test)
        },
{
    let longer = positions(count + 1);
    assert(longer.len() == count + 1);
    assert(longer.drop_last() =~= positions(count));
    assert(longer.last() == count as int);
    reveal_with_fuel(Seq::filter, 2);
    assert(longer.filter(test) == if test(longer.last()) {
        longer.drop_last().filter(test).push(longer.last())
    } else {
        longer.drop_last().filter(test)
    });
}

/// Positions that fail the test from `from` on add nothing.
pub proof fn lemma_positions_tail(from: nat, count: nat, test: spec_fn(int) -> bool)
    requires
        from <= count,
        forall|i: int| from <= i < count ==> !#[trigger] test(i),
    ensures
        positions(count).filter(test) == positions(from).filter(test),
    decreases count,
{
    if from < count {
        lemma_positions_step((count - 1) as nat, test);
        lemma_positions_tail(from, (count - 1) as nat, test);
    }
}

/// A pipeline in two parts runs what the first part runs, then what the
/// second part runs.
pub proof fn lemma_pipeline_runs_add(
    first: Seq<PipeModel>,
    second: Seq<PipeModel>,
    tree: Seq<EntityModel>,
)
    ensures
        pipeline_runs(first + second, tree) == pipeline_runs(first, tree) + pipeline_runs(
            second,
            tree,
        ),
    decreases second.len(),
{
    if second.len() == 0 {
        assert(first + second =~= first);
        assert(pipeline_runs(first, tree) + Seq::<PipeRun>::empty() =~= pipeline_runs(first, tree));
    } else {
        let whole = first + second;
        assert(whole.drop_last() =~= first + second.drop_last());
        assert(whole.last() == second.last());
        lemma_pipeline_runs_add(first, second.drop_last(), tree);
        assert(pipeline_runs(whole, tree) =~= pipeline_runs(first, tree) + pipeline_runs(
            second,
            tree,
        ));
    }
}

/// Each step of a pipeline adds its own runs and no others: the runs of
/// the pipeline are those of the steps before step `k`, then those of
/// step `k`, then those of the steps after it.
pub proof fn lemma_pipeline_runs_split(pipes: Seq<PipeModel>, tree: Seq<EntityModel>, k: int)
    requires
        0 <= k < pipes.len(),
    ensures
        pipeline_runs(pipes, tree) == pipeline_runs(pipes.take(k), tree) + step_runs(
            pipes[k],
            tree,
        ) + pipeline_runs(pipes.skip(k + 1), tree),
{
    let one = seq![pipes[k]];
    assert(one.drop_last() =~= Seq::<PipeModel>::empty());
    assert(pipeline_runs(one.drop_last(), tree) =~= Seq::<PipeRun>::empty());
    assert(pipeline_runs(one, tree) =~= step_runs(pipes[k], tree));
    assert(pipes =~= pipes.take(k) + one + pipes.skip(k + 1));
    lemma_pipeline_runs_add(pipes.take(k), one, tree);
    lemma_pipeline_runs_add(pipes.take(k) + one, pipes.skip(k + 1), tree);
}

/// What the positions that pass a test are: they pass it, none that passes
/// is left out, and they stand in rising order.
pub proof fn lemma_filtered_positions(count: nat, test: spec_fn(int) -> bool)
    ensures
        forall|k: int|
            0 <= k < positions(count).filter(test).len() ==> {
                &&& 0 <= #[trigger] positions(count).filter(test)[k] < count
                &&& test(positions(count).filter(test)[k])
            },
        forall|p: int|
            0 <= p < count && #[trigger] test(p) ==> positions(count).filter(test).contains(p),
        forall|j: int, k: int|
            0 <= j < k < positions(count).filter(test).len() ==> positions(count).filter(test)[j]
                < positions(count).filter(test)[k],
    decreases count,
{
    let kept = positions(count).filter(test);
    if count == 0 {
        assert(positions(0) =~= Seq::<int>::empty());
        assert(kept.len() == 0);
    } else {
        let fewer = (count - 1) as nat;
        let before = positions(fewer).filter(test);
        lemma_filtered_positions(fewer, test);
        lemma_positions_step(fewer, test);
        assert forall|p: int| 0 <= p < count && #[trigger] test(p) implies kept.contains(p) by {
            if p < fewer {
                let k = choose|k: int| 0 <= k < before.len() && before[k] == p;
                assert(kept[k] == p);
            } else {
                assert(kept[kept.len() - 1] == p);
            }
        }
    }
}

/// Each step runs exactly once on each entity that it hits, and on no
/// other: the positions behind the runs of a step are positions that the
/// step hits, every such position is among them, and none comes twice,
/// since they rise. The runs name the step's action and the entity at the
/// position.
pub proof fn lemma_step_runs_once(pipe: PipeModel, tree: Seq<EntityModel>)
    ensures
        step_runs(pipe, tree).len() == hit_positions(pipe, tree).len(),
        forall|k: int|
            0 <= k < hit_positions(pipe, tree).len() ==> {
                &&& hits(pipe, tree, #[trigger] hit_positions(pipe, tree)[k])
                &&& step_runs(pipe, tree)[k] == PipeRun {
                    executor: pipe.executor,
                    entity: tree[hit_positions(pipe, tree)[k]].entity,
                }
            },
        forall|p: int| #[trigger]
            hits(pipe, tree, p) ==> hit_positions(pipe, tree).contains(p),
        forall|j: int, k: int|
            0 <= j < k < hit_positions(pipe, tree).len() ==> hit_positions(pipe, tree)[j]
                < hit_positions(pipe, tree)[k],
{
    let test = hit_test(pipe, tree);
    lemma_filtered_positions(tree.len(), test);
    assert forall|p: int| #[trigger] hits(pipe, tree, p) implies hit_positions(
        pipe,
        tree,
    ).contains(p) by {
        assert(test(p));
    }
}

/// A step that is limited to the root never runs on a descendant: all its
/// runs stand at position 0, and there is at most one.
pub proof fn lemma_root_only_stays_at_root(pipe: PipeModel, tree: Seq<EntityModel>)
    requires
        pipe.root_only,
    ensures
        hit_positions(pipe, tree).len() <= 1,
        forall|k: int|
            0 <= k < hit_positions(pipe, tree).len() ==> #[trigger] hit_positions(pipe, tree)[k]
                == 0,
        forall|k: int|
            0 <= k < step_runs(pipe, tree).len() ==> (#[trigger] step_runs(pipe, tree)[k]).entity
                == tree[0].entity,
{
    lemma_step_runs_once(pipe, tree);
    let at = hit_positions(pipe, tree);
    assert forall|k: int| 0 <= k < at.len() implies #[trigger] at[k] == 0 by {
        assert(hits(pipe, tree, at[k]));
    }
    if at.len() > 1 {
        assert(at[0] < at[1]);
    }
}

/// A step never runs on an entity that lacks one of the components it
/// requires, nor on one that has a component it forbids, nor on one
/// without a name, nor on one whose name fails its test.
pub proof fn lemma_runs_pass_filters(pipe: PipeModel, tree: Seq<EntityModel>, k: int)
    requires
        0 <= k < hit_positions(pipe, tree).len(),
    ensures
        0 <= hit_positions(pipe, tree)[k] < tree.len(),
        forall|i: int|
            0 <= i < pipe.with_components.len() ==> tree[hit_positions(
                pipe,
                tree,
            )[k]].components.contains(#[trigger] pipe.with_components[i]),
        forall|i: int|
            0 <= i < pipe.without_components.len() ==> !tree[hit_positions(
                pipe,
                tree,
            )[k]].components.contains(#[trigger] pipe.without_components[i]),
        pipe.admits_name(tree[hit_positions(pipe, tree)[k]]),
{
    lemma_step_runs_once(pipe, tree);
    assert(hits(pipe, tree, hit_positions(pipe, tree)[k]));
}

/// A scene instance that carries the tag of its postfab, as it stands at
/// the time of a pass.
#[derive(Debug)]
pub struct TaggedInstance {
    /// The root of the instance.
    pub root: EntitySnapshot,
    /// The descendants of the root, in the order in which they are walked.
    pub descendants: Vec<EntitySnapshot>,
    /// The postfab that the root was tagged with.
    pub postfab: PostFab,
    /// The steps that this spawn adds, if any.
    pub variant: Option<PostFabVariant>,
    /// Whether the instance has been built in full.
    pub ready: bool,
}

/// A [`TaggedInstance`] over sequences.
pub struct InstanceModel {
    pub root: EntityModel,
    pub descendants: Seq<EntityModel>,
    pub postfab: PostFabModel,
    pub variant: Option<Seq<PipeModel>>,
    pub ready: bool,
}

impl View for TaggedInstance {
    type V = InstanceModel;

    open spec fn view(&self) -> InstanceModel {
        InstanceModel {
            root: self.root@,
            descendants: models_of(self.descendants@),
            postfab: self.postfab@,
            variant: match self.variant {
                Some(variant) => Some(variant@),
                None => None,
            },
            ready: self.ready,
        }
    }
}

/// The views of a list of instances, in order.
pub open spec fn instances_of(list: Seq<TaggedInstance>) -> Seq<InstanceModel> {
    Seq::new(list.len(), |i: int| list[i]@)
}

impl InstanceModel {
    /// The root followed by its descendants.
    pub open spec fn tree(self) -> Seq<EntityModel> {
        tree_of(self.root, self.descendants)
    }

    /// The steps of the postfab, then those that the spawn added.
    pub open spec fn pipes(self) -> Seq<PipeModel> {
        match self.variant {
            Some(added) => self.postfab.pipes + added,
            None => self.postfab.pipes,
        }
    }

    /// What a pass runs for this instance: nothing before it is ready,
    /// then all that its steps run on its tree.
    pub open spec fn runs(self) -> Seq<PipeRun> {
        if self.ready {
            pipeline_runs(self.pipes(), self.tree())
        } else {
            Seq::empty()
        }
    }
}

/// What a pass runs for a list of instances: the runs of each, instance
/// after instance.
pub open spec fn pass_runs(instances: Seq<InstanceModel>) -> Seq<PipeRun>
    decreases instances.len(),
{
    if instances.len() == 0 {
        Seq::empty()
    } else {
        pass_runs(instances.drop_last()) + instances.last().runs()
    }
}

/// The roots of the instances that are ready, in order.
pub open spec fn ready_roots(instances: Seq<InstanceModel>) -> Seq<Entity>
    decreases instances.len(),
{
    if instances.len() == 0 {
        Seq::empty()
    } else if instances.last().ready {
        ready_roots(instances.drop_last()).push(instances.last().root.entity)
    } else {
        ready_roots(instances.drop_last())
    }
}

/// The instances that keep their tag after a pass: those that are not
/// ready, in order.
pub open spec fn still_tagged(instances: Seq<InstanceModel>) -> Seq<InstanceModel>
    decreases instances.len(),
{
    if instances.len() == 0 {
        Seq::empty()
    } else if instances.last().ready {
        still_tagged(instances.drop_last())
    } else {
        still_tagged(instances.drop_last()).push(instances.last())
    }
}

/// The roots of a list of instances, in order.
pub open spec fn roots_of(instances: Seq<InstanceModel>) -> Seq<Entity> {
    Seq::new(instances.len(), |i: int| instances[i].root.entity)
}

/// No two instances of the list have the same root: an entity carries at
/// most one tag.
pub open spec fn distinct_roots(instances: Seq<InstanceModel>) -> bool {
    roots_of(instances).no_duplicates()
}

/// Instances that come in two parts run what the first part runs, then
/// what the second part runs.
pub proof fn lemma_pass_runs_add(first: Seq<InstanceModel>, second: Seq<InstanceModel>)
    ensures
        pass_runs(first + second) == pass_runs(first) + pass_runs(second),
        ready_roots(first + second) == ready_roots(first) + ready_roots(second),
    decreases second.len(),
{
    if second.len() == 0 {
        assert(first + second =~= first);
        assert(pass_runs(first) + Seq::<PipeRun>::empty() =~= pass_runs(first));
        assert(ready_roots(first) + Seq::<Entity>::empty() =~= ready_roots(first));
    } else {
        let whole = first + second;
        assert(whole.drop_last() =~= first + second.drop_last());
        assert(whole.last() == second.last());
        lemma_pass_runs_add(first, second.drop_last());
        assert(pass_runs(whole) =~= pass_runs(first) + pass_runs(second));
        assert(ready_roots(whole) =~= ready_roots(first) + ready_roots(second));
    }
}

/// Nothing runs for an instance before it is ready, and its tag stays on:
/// it is among the instances that the pass leaves. In the pass in which it
/// is ready its steps run, each as [`lemma_step_runs_once`] says, and its
/// tag is taken off. The tags that come off are those of ready instances
/// only, and the instances that are left are those that were not ready.
pub proof fn lemma_runs_wait_for_readiness(instances: Seq<InstanceModel>, i: int)
    requires
        0 <= i < instances.len(),
    ensures
        !instances[i].ready ==> instances[i].runs() == Seq::<PipeRun>::empty(),
        instances[i].ready ==> instances[i].runs() == pipeline_runs(
            instances[i].pipes(),
            instances[i].tree(),
        ),
        instances[i].ready ==> ready_roots(instances).contains(instances[i].root.entity),
        !instances[i].ready ==> still_tagged(instances).contains(instances[i]),
        forall|k: int|
            0 <= k < ready_roots(instances).len() ==> exists|j: int|
                0 <= j < instances.len() && (#[trigger] instances[j]).ready
                    && instances[j].root.entity == #[trigger] ready_roots(instances)[k],
        forall|k: int|
            0 <= k < still_tagged(instances).len() ==> exists|j: int|
                0 <= j < instances.len() && !(#[trigger] instances[j]).ready && instances[j]
                    == #[trigger] still_tagged(instances)[k],
        pass_runs(instances) == pass_runs(instances.take(i)) + instances[i].runs() + pass_runs(
            instances.skip(i + 1),
        ),
        (forall|j: int| 0 <= j < instances.len() ==> !(#[trigger] instances[j]).ready)
            ==> pass_runs(instances) == Seq::<PipeRun>::empty() && ready_roots(instances)
            == Seq::<Entity>::empty(),
{
    let one = seq![instances[i]];
    assert(one.drop_last() =~= Seq::<InstanceModel>::empty());
    assert(pass_runs(one.drop_last()) =~= Seq::<PipeRun>::empty());
    assert(pass_runs(one) =~= instances[i].runs());
    assert(ready_roots(one.drop_last()) =~= Seq::<Entity>::empty());
    assert(instances =~= instances.take(i) + one + instances.skip(i + 1));
    lemma_pass_runs_add(instances.take(i), one);
    lemma_pass_runs_add(instances.take(i) + one, instances.skip(i + 1));
    if instances[i].ready {
        let roots = ready_roots(instances);
        let front = ready_roots(instances.take(i));
        assert(ready_roots(one) =~= seq![instances[i].root.entity]);
        assert(roots[front.len() as int] == instances[i].root.entity);
    }
    if forall|j: int| 0 <= j < instances.len() ==> !(#[trigger] instances[j]).ready {
        lemma_nothing_ready(instances);
    }
    lemma_untagged_are_the_ready(instances);
}

/// A pass takes the tag off the ready instances and off no others: every
/// root that it untags is the root of an instance that is ready, every
/// instance that keeps its tag is one that is not ready, and every
/// instance that is not ready keeps its tag.
pub proof fn lemma_untagged_are_the_ready(instances: Seq<InstanceModel>)
    ensures
        forall|k: int|
            0 <= k < ready_roots(instances).len() ==> exists|j: int|
                0 <= j < instances.len() && (#[trigger] instances[j]).ready
                    && instances[j].root.entity == #[trigger] ready_roots(instances)[k],
        forall|k: int|
            0 <= k < still_tagged(instances).len() ==> exists|j: int|
                0 <= j < instances.len() && !(#[trigger] instances[j]).ready && instances[j]
                    == #[trigger] still_tagged(instances)[k],
        forall|j: int|
            0 <= j < instances.len() && !(#[trigger] instances[j]).ready ==> still_tagged(
                instances,
            ).contains(instances[j]),
        forall|k: int|
            0 <= k < still_tagged(instances).len() ==> !(#[trigger] still_tagged(
                instances,
            )[k]).ready,
    decreases instances.len(),
{
    if instances.len() > 0 {
        let fewer = instances.drop_last();
        let last = instances.len() - 1;
        lemma_untagged_are_the_ready(fewer);
        let roots = ready_roots(instances);
        let kept = still_tagged(instances);
        assert forall|k: int| 0 <= k < roots.len() implies exists|j: int|
            0 <= j < instances.len() && (#[trigger] instances[j]).ready && instances[j].root.entity
                == #[trigger] roots[k] by {
            if k < ready_roots(fewer).len() {
                let j = choose|j: int|
                    0 <= j < fewer.len() && (#[trigger] fewer[j]).ready && fewer[j].root.entity
                        == ready_roots(fewer)[k];
                assert(instances[j].ready && instances[j].root.entity == roots[k]);
            } else {
                assert(instances[last].ready && instances[last].root.entity == roots[k]);
            }
        }
        assert forall|k: int| 0 <= k < kept.len() implies exists|j: int|
            0 <= j < instances.len() && !(#[trigger] instances[j]).ready && instances[j]
                == #[trigger] kept[k] by {
            if k < still_tagged(fewer).len() {
                let j = choose|j: int|
                    0 <= j < fewer.len() && !(#[trigger] fewer[j]).ready && fewer[j]
                        == still_tagged(fewer)[k];
                assert(!instances[j].ready && instances[j] == kept[k]);
            } else {
                assert(!instances[last].ready && instances[last] == kept[k]);
            }
        }
        assert forall|j: int|
            0 <= j < instances.len() && !(#[trigger] instances[j]).ready implies kept.contains(
            instances[j],
        ) by {
            if j < last {
                assert(fewer[j] == instances[j]);
                assert(still_tagged(fewer).contains(fewer[j]));
                let k = choose|k: int|
                    0 <= k < still_tagged(fewer).len() && still_tagged(fewer)[k] == fewer[j];
                assert(kept[k] == instances[j]);
            } else {
                assert(kept[kept.len() - 1] == instances[j]);
            }
        }
    }
}

/// No step runs twice for one spawn, across passes.
///
/// Let a pass run over `instances`, of which no two have the same root,
/// and let `later` be what a later pass is handed: the instances that the
/// first pass left, looked at afresh, with nothing tagged in between. Then
/// no instance of `later` has a root that the first pass untagged, so the
/// later pass untags no such root and runs nothing for it: its runs are
/// those of the instances of `later` and of no others.
pub proof fn lemma_no_second_pass_for_an_untagged_root(
    instances: Seq<InstanceModel>,
    later: Seq<InstanceModel>,
)
    requires
        distinct_roots(instances),
        roots_of(later) == roots_of(still_tagged(instances)),
    ensures
        forall|i: int|
            0 <= i < later.len() ==> !ready_roots(instances).contains(
                (#[trigger] later[i]).root.entity,
            ),
        forall|k: int|
            0 <= k < ready_roots(later).len() ==> !ready_roots(instances).contains(
                #[trigger] ready_roots(later)[k],
            ),
{
    lemma_untagged_are_the_ready(instances);
    lemma_untagged_are_the_ready(later);
    let kept = still_tagged(instances);
    let gone = ready_roots(instances);
    assert forall|i: int| 0 <= i < later.len() implies !gone.contains(
        (#[trigger] later[i]).root.entity,
    ) by {
        assert(roots_of(later).len() == later.len());
        assert(roots_of(kept).len() == kept.len());
        assert(roots_of(later)[i] == later[i].root.entity);
        assert(roots_of(kept)[i] == kept[i].root.entity);
        let m = choose|m: int|
            0 <= m < instances.len() && !(#[trigger] instances[m]).ready && instances[m]
                == kept[i];
        assert forall|k: int| 0 <= k < gone.len() implies gone[k] != later[i].root.entity by {
            let j = choose|j: int|
                0 <= j < instances.len() && (#[trigger] instances[j]).ready
                    && instances[j].root.entity == gone[k];
            assert(j != m);
            assert(roots_of(instances)[j] == instances[j].root.entity);
            assert(roots_of(instances)[m] == instances[m].root.entity);
            assert(roots_of(instances)[j] != roots_of(instances)[m]);
        }
    }
    assert forall|k: int| 0 <= k < ready_roots(later).len() implies !gone.contains(
        #[trigger] ready_roots(later)[k],
    ) by {
        let j = choose|j: int|
            0 <= j < later.len() && (#[trigger] later[j]).ready && later[j].root.entity
                == ready_roots(later)[k];
        assert(!gone.contains(later[j].root.entity));
    }
}

/// A pass over instances of which none is ready asks for nothing.
pub proof fn lemma_nothing_ready(instances: Seq<InstanceModel>)
    requires
        forall|j: int| 0 <= j < instances.len() ==> !(#[trigger] instances[j]).ready,
    ensures
        pass_runs(instances) == Seq::<PipeRun>::empty(),
        ready_roots(instances) == Seq::<Entity>::empty(),
    decreases instances.len(),
{
    if instances.len() > 0 {
        let fewer = instances.drop_last();
        assert forall|j: int| 0 <= j < fewer.len() implies !(#[trigger] fewer[j]).ready by {
            assert(fewer[j] == instances[j]);
        }
        lemma_nothing_ready(fewer);
        assert(!instances[instances.len() - 1].ready);
        assert(pass_runs(instances) =~= Seq::<PipeRun>::empty());
    }
}

/// What one pass over the tagged instances asks for.
#[derive(Debug)]
pub struct PostfabPass {
    /// The roots whose tag is to be taken off, before anything is run.
    pub untag: Vec<Entity>,
    /// What is to be run after that, in this order.
    pub runs: Vec<PipeRun>,
}

/// Adds to `runs` what `pipe` runs on the tree of `root` and `descendants`.
fn collect_step(
    pipe: &PostfabPipe,
    root: &EntitySnapshot,
    descendants: &Vec<EntitySnapshot>,
    runs: &mut Vec<PipeRun>,
)
    ensures
        final(runs)@ == old(runs)@ + step_runs(pipe@, tree_of(root@, models_of(descendants@))),
{
    let ghost before = runs@;
    let ghost tree = tree_of(root@, models_of(descendants@));
    let ghost test = hit_test(pipe@, tree);
    let ghost run = run_at(pipe@, tree);
    proof {
        lemma_positions_step(0, test);
        assert(positions(0).filter(test) =~= Seq::<int>::empty());
    }
    if pipe.applies_to(root) {
        runs.push(PipeRun { executor: pipe.executor, entity: root.entity });
    }
    assert(runs@ =~= before + positions(1).filter(test).map_values(run));
    if pipe.root_only {
        proof {
            lemma_positions_tail(1, tree.len(), test);
        }
        return ;
    }
    let mut i: usize = 0;
    while i < descendants.len()
        invariant
            i <= descendants.len(),
            tree == tree_of(root@, models_of(descendants@)),
            test == hit_test(pipe@, tree),
            run == run_at(pipe@, tree),
            !pipe.root_only,
            runs@ == before + positions((i + 1) as nat).filter(test).map_values(run),
        decreases descendants.len() - i,
    {
        proof {
            lemma_positions_step((i + 1) as nat, test);
            assert(tree[i + 1] == descendants@[i as int]@);
        }
        if pipe.applies_to(&descendants[i]) {
            runs.push(PipeRun { executor: pipe.executor, entity: descendants[i].entity });
        }
        assert(runs@ =~= before + positions((i + 2) as nat).filter(test).map_values(run));
        i += 1;
    }
    assert(tree.len() == descendants.len() + 1);
}

/// Adds to `runs` what `pipes` run on the tree of `root` and `descendants`.
fn collect_pipes(
    pipes: &Vec<PostfabPipe>,
    root: &EntitySnapshot,
    descendants: &Vec<EntitySnapshot>,
    runs: &mut Vec<PipeRun>,
)
    ensures
        final(runs)@ == old(runs)@ + pipeline_runs(
            pipes_of(pipes@),
            tree_of(root@, models_of(descendants@)),
        ),
{
    let ghost before = runs@;
    let ghost tree = tree_of(root@, models_of(descendants@));
    let ghost all = pipes_of(pipes@);
    let mut i: usize = 0;
    assert(runs@ =~= before + pipeline_runs(all.take(0), tree));
    while i < pipes.len()
        invariant
            i <= pipes.len(),
            tree == tree_of(root@, models_of(descendants@)),
            all == pipes_of(pipes@),
            runs@ == before + pipeline_runs(all.take(i as int), tree),
        decreases pipes.len() - i,
    {
        collect_step(&pipes[i], root, descendants, runs);
        proof {
            let longer = all.take(i + 1);
            assert(longer.drop_last() =~= all.take(i as int));
            assert(longer.last() == pipes@[i as int]@);
            assert(runs@ =~= before + pipeline_runs(longer, tree));
        }
        i += 1;
    }
    assert(all.take(pipes.len() as int) =~= all);
}

/// One pass over the instances that carry a tag.
///
/// `instances` holds the tagged instances as they stand now. Every
/// instance that is ready leaves the list, which is to say that its tag
/// comes off, and has its steps matched against its tree: first the steps
/// of its postfab, then those that its spawn added, each step against the
/// root alone or against the root and then its descendants. Instances that
/// are not ready stay in the list as they are, and nothing runs for them.
pub fn handle_scene_postfabs(instances: &mut Vec<TaggedInstance>) -> (pass: PostfabPass)
    ensures
        pass.untag@ == ready_roots(instances_of(old(instances)@)),
        pass.runs@ == pass_runs(instances_of(old(instances)@)),
        instances_of(final(instances)@) == still_tagged(instances_of(old(instances)@)),
{
    let ghost start = instances@;
    let ghost all = instances_of(instances@);
    let ghost seen: int = 0;
    let mut untag: Vec<Entity> = Vec::new();
    let mut runs: Vec<PipeRun> = Vec::new();
    let mut i: usize = 0;
    assert(all.take(0) =~= Seq::<InstanceModel>::empty());
    assert(instances@.skip(0) =~= start);
    assert(instances_of(instances@.take(0)) =~= Seq::<InstanceModel>::empty());
    while i < instances.len()
        invariant
            i <= instances.len(),
            0 <= seen <= start.len(),
            instances.len() - i == start.len() - seen,
            all == instances_of(start),
            instances@.skip(i as int) == start.skip(seen),
            instances_of(instances@.take(i as int)) == still_tagged(all.take(seen)),
            untag@ == ready_roots(all.take(seen)),
            runs@ == pass_runs(all.take(seen)),
        decreases instances.len() - i,
    {
        let ghost current = instances@;
        let instance = &instances[i];
        let ghost model = instance@;
        let ghost before = runs@;
        proof {
            assert(current.skip(i as int)[0] == start.skip(seen)[0]);
            assert(*instance == start[seen]);
            let longer = all.take(seen + 1);
            assert(longer.drop_last() =~= all.take(seen));
            assert(longer.last() == model);
        }
        if instance.ready {
            untag.push(instance.root.entity);
            collect_pipes(&instance.postfab.pipes, &instance.root, &instance.descendants, &mut runs);
            match &instance.variant {
                Some(variant) => {
                    collect_pipes(
                        &variant.variance,
                        &instance.root,
                        &instance.descendants,
                        &mut runs,
                    );
                    proof {
                        lemma_pipeline_runs_add(model.postfab.pipes, variant@, model.tree());
                        assert(runs@ =~= before + model.runs());
                    }
                },
                None => {},
            }
            instances.remove(i);
            proof {
                assert(instances@.skip(i as int) =~= current.skip(i as int).skip(1));
                assert(start.skip(seen).skip(1) =~= start.skip(seen + 1));
                assert(instances@.take(i as int) =~= current.take(i as int));
            }
        } else {
            proof {
                assert(runs@ =~= before + model.runs());
                assert(current.skip(i as int).skip(1) =~= current.skip(i + 1));
                assert(start.skip(seen).skip(1) =~= start.skip(seen + 1));
                assert(instances_of(current.take(i + 1)) =~= instances_of(
                    current.take(i as int),
                ).push(model));
            }
            i += 1;
        }
        proof {
            seen = seen + 1;
        }
    }
    proof {
        assert(all.take(start.len() as int) =~= all);
        assert(instances@.take(i as int) =~= instances@);
    }
    PostfabPass { untag, runs }
}

/// A scene root that has just been added to an entity.
#[derive(Clone, Copy, Debug, PartialEq, Eq)]
pub struct SpawnedScene {
    /// The entity that the scene was spawned on.
    pub entity: Entity,
    /// The id of the scene.
    pub scene: u64,
}

/// The tag for a freshly spawned instance: the postfab of its scene, to be
/// attached to its root.
#[derive(Debug)]
pub struct InstanceTag {
    pub entity: Entity,
    pub postfab: PostFab,
}

/// An [`InstanceTag`] over sequences.
pub struct TagModel {
    pub entity: Entity,
    pub postfab: PostFabModel,
}

impl View for InstanceTag {
    type V = TagModel;

    open spec fn view(&self) -> TagModel {
        TagModel { entity: self.entity, postfab: self.postfab@ }
    }
}

/// The views of a list of tags, in order.
pub open spec fn tags_of(list: Seq<InstanceTag>) -> Seq<TagModel> {
    Seq::new(list.len(), |i: int| list[i]@)
}

/// The tags for the scenes `spawned`: one for each whose scene has a
/// postfab, which is the postfab that the registry holds for that scene,
/// in the order of `spawned`.
pub open spec fn tags_for(registry: RegistryModel, spawned: Seq<SpawnedScene>) -> Seq<TagModel>
    decreases spawned.len(),
{
    if spawned.len() == 0 {
        Seq::empty()
    } else {
        let earlier = tags_for(registry, spawned.drop_last());
        match registry.postfab(spawned.last().scene) {
            Some(postfab) => earlier.push(TagModel { entity: spawned.last().entity, postfab }),
            None => earlier,
        }
    }
}

/// The tags to attach to the scenes that have just been spawned.
///
/// Each scene for which a postfab is registered gets a copy of that
/// postfab as its tag; the others get none.
pub fn add_postfabs_to_spawned_scene(spawned_scenes: &Vec<SpawnedScene>, fab_manager: &FabManager)
    -> (tags: Vec<InstanceTag>)
    ensures
        tags_of(tags@) == tags_for(fab_manager@, spawned_scenes@),
{
    let mut tags: Vec<InstanceTag> = Vec::new();
    let mut i: usize = 0;
    assert(spawned_scenes@.take(0) =~= Seq::<SpawnedScene>::empty());
    assert(tags_of(tags@) =~= Seq::<TagModel>::empty());
    while i < spawned_scenes.len()
        invariant
            i <= spawned_scenes.len(),
            tags_of(tags@) == tags_for(fab_manager@, spawned_scenes@.take(i as int)),
        decreases spawned_scenes.len() - i,
    {
        let spawned = spawned_scenes[i];
        let ghost before = tags@;
        proof {
            let longer = spawned_scenes@.take(i + 1);
            assert(longer.drop_last() =~= spawned_scenes@.take(i as int));
            assert(longer.last() == spawned);
        }
        match fab_manager.postfab(spawned.scene) {
            Some(postfab) => {
                tags.push(InstanceTag { entity: spawned.entity, postfab: postfab.duplicate() });
                assert(tags_of(tags@) =~= tags_of(before).push(tags@[tags@.len() - 1]@));
            },
            None => {},
        }
        i += 1;
    }
    assert(spawned_scenes@.take(spawned_scenes.len() as int) =~= spawned_scenes@);
    tags
}

/// What is done with the world for one run.
#[derive(Clone, Copy, Debug, PartialEq, Eq)]
pub enum Dispatch {
    /// Run the system with the entity as its input.
    RunSystem { system: u64, input: Entity },
    /// Queue the command on the world.
    QueueCommand { command: u64 },
    /// Queue the command on the entity.
    QueueEntityCommand { command: u64, entity: Entity },
    /// Nothing is run; the pair is skipped and reported, because its
    /// entity is gone.
    EntityGone { entity: Entity },
}

/// What is done for `run`, given whether its entity still exists.
///
/// A system takes the entity as its input and a command on an entity is
/// queued on it: both are skipped when the entity is gone, for instance
/// because an earlier run of the same pass removed it. A command on the
/// world does not look at the entity at all, so it is queued whether or
/// not the entity is still there.
pub open spec fn dispatch_of(run: PipeRun, entity_exists: bool) -> Dispatch {
    match run.executor {
        RunType::System(system) => if entity_exists {
            Dispatch::RunSystem { system, input: run.entity }
        } else {
            Dispatch::EntityGone { entity: run.entity }
        },
        RunType::Command(command) => Dispatch::QueueCommand { command },
        RunType::Entity(command) => if entity_exists {
            Dispatch::QueueEntityCommand { command, entity: run.entity }
        } else {
            Dispatch::EntityGone { entity: run.entity }
        },
    }
}

impl PipeRun {
    /// What to do with the world for this run. `entity_exists` says
    /// whether the entity of the run is still in the world at the moment
    /// the run comes up. Whatever the answer, the runs after this one are
    /// dispatched in turn: a skipped run ends nothing.
    pub fn dispatch(&self, entity_exists: bool) -> (action: Dispatch)
        ensures
            action == dispatch_of(*self, entity_exists),
    {
        match self.executor {
            RunType::System(system) => if entity_exists {
                Dispatch::RunSystem { system, input: self.entity }
            } else {
                Dispatch::EntityGone { entity: self.entity }
            },
            RunType::Command(command) => Dispatch::QueueCommand { command },
            RunType::Entity(command) => if entity_exists {
                Dispatch::QueueEntityCommand { command, entity: self.entity }
            } else {
                Dispatch::EntityGone { entity: self.entity }
            },
        }
    }
}

} // verus!
