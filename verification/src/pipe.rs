//! One step of a pipeline: what to run, and the filters that decide on
//! which entities of a spawned scene it runs.

use crate::entity::{copy_types, has_component, EntityModel, EntitySnapshot};
use crate::names::{lemma_any_view, rules_of, NameCriteria, NameRule};
use std::any::TypeId;
use vstd::prelude::*;

verus! {

/// What a step runs. The number in each variant is the handle under which
/// the caller keeps the system or the command.
#[derive(Clone, Copy, Debug, PartialEq, Eq, Structural)]
pub enum RunType {
    /// A system that is run with the matched entity as its input.
    System(u64),
    /// A command that is queued on the matched entity.
    Entity(u64),
    /// A command that is queued on the world, whatever the entity.
    Command(u64),
}

/// A step of a postfab.
#[derive(Debug)]
pub struct PostfabPipe {
    pub executor: RunType,
    /// The step runs only on entities that have all of these components.
    pub with_components: Vec<TypeId>,
    /// The step runs only on entities that have none of these components.
    pub without_components: Vec<TypeId>,
    /// The step runs only on entities whose name passes this test. Without
    /// a test every name passes.
    pub name_criteria: Option<NameCriteria>,
    /// The step runs on the root of the scene only.
    pub root_only: bool,
}

/// A [`PostfabPipe`] over sequences.
pub struct PipeModel {
    pub executor: RunType,
    pub with_components: Seq<TypeId>,
    pub without_components: Seq<TypeId>,
    pub name_criteria: Option<NameRule>,
    pub root_only: bool,
}

/// The model of a step that runs `executor` on every named entity.
pub open spec fn bare_pipe(executor: RunType) -> PipeModel {
    PipeModel {
        executor,
        with_components: Seq::empty(),
        without_components: Seq::empty(),
        name_criteria: None,
        root_only: false,
    }
}

/// The test that looks for one of `parts` in a name.
pub open spec fn contains_any(parts: Seq<Seq<char>>) -> NameRule {
    NameRule::Any(Seq::new(parts.len(), |i: int| NameRule::Contains(parts[i])))
}

/// The test that looks for one of `parts` at the start of a name.
pub open spec fn starts_with_any(parts: Seq<Seq<char>>) -> NameRule {
    NameRule::Any(Seq::new(parts.len(), |i: int| NameRule::StartsWith(parts[i])))
}

/// The test that looks for one of `parts` at the end of a name.
pub open spec fn ends_with_any(parts: Seq<Seq<char>>) -> NameRule {
    NameRule::Any(Seq::new(parts.len(), |i: int| NameRule::EndsWith(parts[i])))
}

/// The three comparisons that can be made against a list of texts.
enum Comparison {
    Contains,
    StartsWith,
    EndsWith,
}

impl Comparison {
    spec fn rule(self, part: Seq<char>) -> NameRule {
        match self {
            Comparison::Contains => NameRule::Contains(part),
            Comparison::StartsWith => NameRule::StartsWith(part),
            Comparison::EndsWith => NameRule::EndsWith(part),
        }
    }

    spec fn any(self, parts: Seq<Seq<char>>) -> NameRule {
        NameRule::Any(Seq::new(parts.len(), |i: int| self.rule(parts[i])))
    }

    fn test(&self, part: &str) -> (rule: NameCriteria)
        ensures
            rule@ == self.rule(part@),
    {
        match self {
            Comparison::Contains => NameCriteria::Contains(part.to_owned()),
            Comparison::StartsWith => NameCriteria::StartsWith(part.to_owned()),
            Comparison::EndsWith => NameCriteria::EndsWith(part.to_owned()),
        }
    }

    fn test_any(&self, names: &Vec<&str>) -> (rule: NameCriteria)
        ensures
            rule@ == self.any(texts_of(names@)),
    {
        let mut list: Vec<NameCriteria> = Vec::new();
        let mut i: usize = 0;
        while i < names.len()
            invariant
                i <= names.len(),
                list@.len() == i,
                forall|j: int| 0 <= j < i ==> (#[trigger] list@[j])@ == self.rule(names@[j]@),
            decreases names.len() - i,
        {
            list.push(self.test(names[i]));
            i += 1;
        }
        proof {
            lemma_any_view(list);
            assert(rules_of(list@) =~= self.any(texts_of(names@))->Any_0);
        }
        NameCriteria::Any(list)
    }
}

/// The characters of each text of a list.
pub open spec fn texts_of(names: Seq<&str>) -> Seq<Seq<char>> {
    Seq::new(names.len(), |i: int| names[i]@)
}

impl PipeModel {
    /// The name filter: the entity has a name, and the name passes the
    /// test if there is one.
    pub open spec fn admits_name(self, entity: EntityModel) -> bool {
        &&& entity.name is Some
        &&& (self.name_criteria matches Some(rule) ==> rule.matches(entity.name->0))
    }

    /// The entity has every required component.
    pub open spec fn has_required(self, entity: EntityModel) -> bool {
        forall|i: int|
            0 <= i < self.with_components.len() ==> entity.components.contains(
                #[trigger] self.with_components[i],
            )
    }

    /// The entity has no forbidden component.
    pub open spec fn lacks_forbidden(self, entity: EntityModel) -> bool {
        forall|i: int|
            0 <= i < self.without_components.len() ==> !entity.components.contains(
                #[trigger] self.without_components[i],
            )
    }

    /// The entity passes all three filters of the step.
    pub open spec fn admits(self, entity: EntityModel) -> bool {
        &&& self.admits_name(entity)
        &&& self.has_required(entity)
        &&& self.lacks_forbidden(entity)
    }
}

impl View for PostfabPipe {
    type V = PipeModel;

    open spec fn view(&self) -> PipeModel {
        PipeModel {
            executor: self.executor,
            with_components: self.with_components@,
            without_components: self.without_components@,
            name_criteria: match self.name_criteria {
                Some(rule) => Some(rule@),
                None => None,
            },
            root_only: self.root_only,
        }
    }
}

/// The views of a list of steps, in order.
pub open spec fn pipes_of(list: Seq<PostfabPipe>) -> Seq<PipeModel> {
    Seq::new(list.len(), |i: int| list[i]@)
}

impl PostfabPipe {
    fn bare(executor: RunType) -> (pipe: Self)
        ensures
            pipe@ == bare_pipe(executor),
    {
        PostfabPipe {
            executor,
            with_components: Vec::new(),
            without_components: Vec::new(),
            name_criteria: None,
            root_only: false,
        }
    }

    /// A step that runs the system kept under `system` on every named
    /// entity of the scene.
    pub fn system(system: u64) -> (pipe: Self)
        ensures
            pipe@ == bare_pipe(RunType::System(system)),
    {
        Self::bare(RunType::System(system))
    }

    /// A step that queues the command kept under `cmd` on the world, once
    /// for every named entity of the scene.
    pub fn cmd(cmd: u64) -> (pipe: Self)
        ensures
            pipe@ == bare_pipe(RunType::Command(cmd)),
    {
        Self::bare(RunType::Command(cmd))
    }

    /// A step that queues the command kept under `cmd` on every named
    /// entity of the scene.
    pub fn entity(cmd: u64) -> (pipe: Self)
        ensures
            pipe@ == bare_pipe(RunType::Entity(cmd)),
    {
        Self::bare(RunType::Entity(cmd))
    }

    /// Limits the step to entities that have all of `components`.
    pub fn with_components(self, components: Vec<TypeId>) -> (pipe: Self)
        ensures
            pipe@ == (PipeModel { with_components: components@, ..self@ }),
    {
        let mut pipe = self;
        pipe.with_components = components;
        pipe
    }

    /// Limits the step to entities that have none of `components`.
    pub fn without_components(self, components: Vec<TypeId>) -> (pipe: Self)
        ensures
            pipe@ == (PipeModel { without_components: components@, ..self@ }),
    {
        let mut pipe = self;
        pipe.without_components = components;
        pipe
    }

    fn named(self, rule: NameCriteria) -> (pipe: Self)
        ensures
            pipe@ == (PipeModel { name_criteria: Some(rule@), ..self@ }),
    {
        let mut pipe = self;
        pipe.name_criteria = Some(rule);
        pipe
    }

    /// Limits the step to entities with exactly this name. A name test
    /// that was set before is replaced.
    pub fn with_name(self, name: &str) -> (pipe: Self)
        ensures
            pipe@ == (PipeModel { name_criteria: Some(NameRule::Equals(name@)), ..self@ }),
    {
        self.named(NameCriteria::Equals(name.to_owned()))
    }

    /// Limits the step to entities whose name has `name` in it. A name
    /// test that was set before is replaced.
    pub fn name_contains(self, name: &str) -> (pipe: Self)
        ensures
            pipe@ == (PipeModel { name_criteria: Some(NameRule::Contains(name@)), ..self@ }),
    {
        self.named(NameCriteria::Contains(name.to_owned()))
    }

    /// Limits the step to entities whose name begins with `name`. A name
    /// test that was set before is replaced.
    pub fn name_starts_with(self, name: &str) -> (pipe: Self)
        ensures
            pipe@ == (PipeModel { name_criteria: Some(NameRule::StartsWith(name@)), ..self@ }),
    {
        self.named(NameCriteria::StartsWith(name.to_owned()))
    }

    /// Limits the step to entities whose name ends with `name`. A name
    /// test that was set before is replaced.
    pub fn name_ends_with(self, name: &str) -> (pipe: Self)
        ensures
            pipe@ == (PipeModel { name_criteria: Some(NameRule::EndsWith(name@)), ..self@ }),
    {
        self.named(NameCriteria::EndsWith(name.to_owned()))
    }

    /// Limits the step to entities whose name has one of `names` in it. A
    /// name test that was set before is replaced.
    pub fn name_contains_any(self, names: Vec<&str>) -> (pipe: Self)
        ensures
            pipe@ == (PipeModel {
                name_criteria: Some(contains_any(texts_of(names@))),
                ..self@
            }),
    {
        let rule = Comparison::Contains.test_any(&names);
        assert(rule@ == contains_any(texts_of(names@))) by {
            assert(Comparison::Contains.any(texts_of(names@))->Any_0 =~= contains_any(
                texts_of(names@),
            )->Any_0);
        }
        self.named(rule)
    }

    /// Limits the step to entities whose name begins with one of `names`.
    /// A name test that was set before is replaced.
    pub fn name_starts_with_any(self, names: Vec<&str>) -> (pipe: Self)
        ensures
            pipe@ == (PipeModel {
                name_criteria: Some(starts_with_any(texts_of(names@))),
                ..self@
            }),
    {
        let rule = Comparison::StartsWith.test_any(&names);
        assert(rule@ == starts_with_any(texts_of(names@))) by {
            assert(Comparison::StartsWith.any(texts_of(names@))->Any_0 =~= starts_with_any(
                texts_of(names@),
            )->Any_0);
        }
        self.named(rule)
    }

    /// Limits the step to entities whose name ends with one of `names`. A
    /// name test that was set before is replaced.
    pub fn name_ends_with_any(self, names: Vec<&str>) -> (pipe: Self)
        ensures
            pipe@ == (PipeModel {
                name_criteria: Some(ends_with_any(texts_of(names@))),
                ..self@
            }),
    {
        let rule = Comparison::EndsWith.test_any(&names);
        assert(rule@ == ends_with_any(texts_of(names@))) by {
            assert(Comparison::EndsWith.any(texts_of(names@))->Any_0 =~= ends_with_any(
                texts_of(names@),
            )->Any_0);
        }
        self.named(rule)
    }

    /// Limits the step to the root of the scene.
    pub fn root_only(self) -> (pipe: Self)
        ensures
            pipe@ == (PipeModel { root_only: true, ..self@ }),
    {
        let mut pipe = self;
        pipe.root_only = true;
        pipe
    }

    /// Whether the step runs on `entity`, leaving aside where in the scene
    /// the entity stands.
    pub fn applies_to(&self, entity: &EntitySnapshot) -> (hit: bool)
        ensures
            hit == self@.admits(entity@),
    {
        match &entity.name {
            None => {
                return false;
            },
            Some(name) => {
                match &self.name_criteria {
                    Some(rule) => {
                        if !rule.eval(name.as_str()) {
                            return false;
                        }
                    },
                    None => {},
                }
            },
        }
        let mut i: usize = 0;
        while i < self.with_components.len()
            invariant
                i <= self.with_components.len(),
                forall|j: int|
                    0 <= j < i ==> entity@.components.contains(#[trigger] self@.with_components[j]),
            decreases self.with_components.len() - i,
        {
            if !has_component(&entity.components, &self.with_components[i]) {
                assert(!entity@.components.contains(self@.with_components[i as int]));
                return false;
            }
            i += 1;
        }
        let mut k: usize = 0;
        while k < self.without_components.len()
            invariant
                k <= self.without_components.len(),
                self@.has_required(entity@),
                forall|j: int|
                    0 <= j < k ==> !entity@.components.contains(
                        #[trigger] self@.without_components[j],
                    ),
            decreases self.without_components.len() - k,
        {
            if has_component(&entity.components, &self.without_components[k]) {
                assert(entity@.components.contains(self@.without_components[k as int]));
                return false;
            }
            k += 1;
        }
        true
    }

    /// A copy that says the same.
    pub fn duplicate(&self) -> (copy: Self)
        ensures
            copy@ == self@,
    {
        PostfabPipe {
            executor: self.executor,
            with_components: copy_types(&self.with_components),
            without_components: copy_types(&self.without_components),
            name_criteria: match &self.name_criteria {
                Some(rule) => Some(rule.duplicate()),
                None => None,
            },
            root_only: self.root_only,
        }
    }
}

impl Clone for PostfabPipe {
    fn clone(&self) -> (copy: Self)
        ensures
            copy@ == self@,
    {
        self.duplicate()
    }
}

} // verus!
