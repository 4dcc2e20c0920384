use bevy::ecs::entity::Entity;
use bevy_fabulous::entity::EntitySnapshot;
use bevy_fabulous::postfab::{
    add_postfabs_to_spawned_scene, handle_scene_postfabs, Dispatch, PipeRun, PostFab,
    PostFabVariant, PostfabPipe, RunType, SpawnedScene, TaggedInstance,
};
use bevy_fabulous::{FabManager, FabTarget};
use std::any::TypeId;

struct Health;
struct Frozen;

fn ent(id: u32) -> Entity {
    Entity::from_raw(id)
}

fn named(id: u32, name: &str) -> EntitySnapshot {
    EntitySnapshot { entity: ent(id), name: Some(name.to_string()), components: vec![] }
}

fn run(executor: RunType, id: u32) -> PipeRun {
    PipeRun { executor, entity: ent(id) }
}

fn orbit_scene(pipes: Vec<PostfabPipe>, ready: bool) -> TaggedInstance {
    TaggedInstance {
        root: named(1, "Root"),
        descendants: vec![named(2, "LeftOrbiter"), named(3, "RightOrbiter")],
        postfab: PostFab { scene: FabTarget::Scene(10), pipes },
        variant: None,
        ready,
    }
}

#[test]
fn root_step_then_orbiters_left_before_right() {
    let pipes = vec![
        PostfabPipe::system(100).with_name("Root").root_only(),
        PostfabPipe::system(200).name_contains("Orbiter"),
    ];
    let pass = handle_scene_postfabs(&mut vec![orbit_scene(pipes, true)]);
    assert_eq!(
        pass.runs,
        vec![
            run(RunType::System(100), 1),
            run(RunType::System(200), 2),
            run(RunType::System(200), 3),
        ]
    );
    assert_eq!(pass.untag, vec![ent(1)]);
}

#[test]
fn nothing_runs_before_the_instance_is_ready() {
    let pipes = vec![PostfabPipe::system(100), PostfabPipe::cmd(5)];
    let pass = handle_scene_postfabs(&mut vec![orbit_scene(pipes, false)]);
    assert!(pass.runs.is_empty());
    assert!(pass.untag.is_empty());
}

#[test]
fn a_root_only_step_skips_matching_descendants() {
    let pipes = vec![PostfabPipe::entity(7).name_contains("Orbiter").root_only()];
    let pass = handle_scene_postfabs(&mut vec![orbit_scene(pipes, true)]);
    assert!(pass.runs.is_empty());
    assert_eq!(pass.untag, vec![ent(1)]);

    let pipes = vec![PostfabPipe::entity(7).root_only()];
    let pass = handle_scene_postfabs(&mut vec![orbit_scene(pipes, true)]);
    assert_eq!(pass.runs, vec![run(RunType::Entity(7), 1)]);
}

#[test]
fn a_step_without_filters_runs_on_every_named_entity() {
    let mut instance = orbit_scene(vec![PostfabPipe::cmd(9)], true);
    instance.descendants.insert(
        1,
        EntitySnapshot { entity: ent(8), name: None, components: vec![] },
    );
    let pass = handle_scene_postfabs(&mut vec![instance]);
    assert_eq!(
        pass.runs,
        vec![
            run(RunType::Command(9), 1),
            run(RunType::Command(9), 2),
            run(RunType::Command(9), 3),
        ]
    );
}

#[test]
fn component_filters_decide_entity_by_entity() {
    let health = TypeId::of::<Health>();
    let frozen = TypeId::of::<Frozen>();
    let instance = TaggedInstance {
        root: EntitySnapshot {
            entity: ent(1),
            name: Some("Root".to_string()),
            components: vec![health],
        },
        descendants: vec![
            EntitySnapshot {
                entity: ent(2),
                name: Some("A".to_string()),
                components: vec![health, frozen],
            },
            EntitySnapshot { entity: ent(3), name: Some("B".to_string()), components: vec![] },
            EntitySnapshot {
                entity: ent(4),
                name: Some("C".to_string()),
                components: vec![frozen],
            },
        ],
        postfab: PostFab {
            scene: FabTarget::Scene(10),
            pipes: vec![
                PostfabPipe::system(1).with_components(vec![health]),
                PostfabPipe::system(2).without_components(vec![frozen]),
                PostfabPipe::system(3)
                    .with_components(vec![health])
                    .without_components(vec![frozen]),
            ],
        },
        variant: None,
        ready: true,
    };
    let pass = handle_scene_postfabs(&mut vec![instance]);
    assert_eq!(
        pass.runs,
        vec![
            run(RunType::System(1), 1),
            run(RunType::System(1), 2),
            run(RunType::System(2), 1),
            run(RunType::System(2), 3),
            run(RunType::System(3), 1),
        ]
    );
}

#[test]
fn variant_steps_run_after_the_postfab() {
    let mut instance = orbit_scene(vec![PostfabPipe::system(1).root_only()], true);
    instance.variant = Some(PostFabVariant::from(vec![
        PostfabPipe::system(2).name_starts_with("Left"),
        PostfabPipe::system(3).root_only(),
    ]));
    let pass = handle_scene_postfabs(&mut vec![instance]);
    assert_eq!(
        pass.runs,
        vec![
            run(RunType::System(1), 1),
            run(RunType::System(2), 2),
            run(RunType::System(3), 1),
        ]
    );
}

#[test]
fn instances_are_handled_one_after_the_other() {
    let first = orbit_scene(vec![PostfabPipe::system(1).name_ends_with("Orbiter")], true);
    let waiting = orbit_scene(vec![PostfabPipe::system(2)], false);
    let mut last = orbit_scene(vec![PostfabPipe::system(3).root_only()], true);
    last.root = named(20, "Other");
    let pass = handle_scene_postfabs(&mut vec![first, waiting, last]);
    assert_eq!(
        pass.runs,
        vec![
            run(RunType::System(1), 2),
            run(RunType::System(1), 3),
            run(RunType::System(3), 20),
        ]
    );
    assert_eq!(pass.untag, vec![ent(1), ent(20)]);
}

#[test]
fn ready_instances_leave_the_list_and_the_others_stay() {
    let first = orbit_scene(vec![PostfabPipe::system(1).root_only()], true);
    let mut waiting = orbit_scene(vec![PostfabPipe::system(2).root_only()], false);
    waiting.root = named(30, "Waiting");
    let mut last = orbit_scene(vec![PostfabPipe::system(3).root_only()], true);
    last.root = named(20, "Other");
    let mut tagged = vec![first, waiting, last];
    let pass = handle_scene_postfabs(&mut tagged);
    assert_eq!(pass.untag, vec![ent(1), ent(20)]);
    assert_eq!(tagged.len(), 1);
    assert_eq!(tagged[0].root.entity, ent(30));
    assert!(!tagged[0].ready);
    assert_eq!(tagged[0].postfab.pipes[0].executor, RunType::System(2));
}

#[test]
fn a_second_pass_runs_nothing_for_what_the_first_has_run() {
    let first = orbit_scene(vec![PostfabPipe::system(1).name_contains("Orbiter")], true);
    let mut waiting = orbit_scene(vec![PostfabPipe::system(2).root_only()], false);
    waiting.root = named(30, "Waiting");
    let mut tagged = vec![first, waiting];

    let pass = handle_scene_postfabs(&mut tagged);
    assert_eq!(pass.runs, vec![run(RunType::System(1), 2), run(RunType::System(1), 3)]);
    assert_eq!(pass.untag, vec![ent(1)]);

    let again = handle_scene_postfabs(&mut tagged);
    assert!(again.runs.is_empty());
    assert!(again.untag.is_empty());
    assert_eq!(tagged.len(), 1);

    tagged[0].ready = true;
    let third = handle_scene_postfabs(&mut tagged);
    assert_eq!(third.runs, vec![run(RunType::System(2), 30)]);
    assert_eq!(third.untag, vec![ent(30)]);
    assert!(tagged.is_empty());

    let fourth = handle_scene_postfabs(&mut tagged);
    assert!(fourth.runs.is_empty());
    assert!(fourth.untag.is_empty());
}

#[test]
fn an_empty_pass_asks_for_nothing() {
    let pass = handle_scene_postfabs(&mut vec![]);
    assert!(pass.runs.is_empty());
    assert!(pass.untag.is_empty());
    let pass = handle_scene_postfabs(&mut vec![orbit_scene(vec![], true)]);
    assert!(pass.runs.is_empty());
    assert_eq!(pass.untag, vec![ent(1)]);
}

#[test]
fn the_same_step_twice_runs_twice() {
    let pipes = vec![
        PostfabPipe::system(1).with_name("Root"),
        PostfabPipe::system(1).with_name("Root"),
    ];
    let pass = handle_scene_postfabs(&mut vec![orbit_scene(pipes, true)]);
    assert_eq!(pass.runs, vec![run(RunType::System(1), 1), run(RunType::System(1), 1)]);
}

#[test]
fn dispatch_follows_the_kind_of_action() {
    let e = ent(4);
    assert_eq!(
        run(RunType::System(1), 4).dispatch(true),
        Dispatch::RunSystem { system: 1, input: e }
    );
    assert_eq!(run(RunType::System(1), 4).dispatch(false), Dispatch::EntityGone { entity: e });
    assert_eq!(run(RunType::Command(2), 4).dispatch(true), Dispatch::QueueCommand { command: 2 });
    assert_eq!(run(RunType::Command(2), 4).dispatch(false), Dispatch::QueueCommand { command: 2 });
    assert_eq!(
        run(RunType::Entity(3), 4).dispatch(true),
        Dispatch::QueueEntityCommand { command: 3, entity: e }
    );
    assert_eq!(run(RunType::Entity(3), 4).dispatch(false), Dispatch::EntityGone { entity: e });
}

#[test]
fn spawned_scenes_get_the_postfab_of_their_scene() {
    let mut fabs = FabManager::new();
    fabs.register_postfab(PostFab {
        scene: FabTarget::Scene(10),
        pipes: vec![PostfabPipe::system(1).with_name("Root")],
    });
    fabs.register_postfab(PostFab { scene: FabTarget::Gltf(11), pipes: vec![] });
    let spawned = vec![
        SpawnedScene { entity: ent(1), scene: 11 },
        SpawnedScene { entity: ent(2), scene: 10 },
        SpawnedScene { entity: ent(3), scene: 12 },
        SpawnedScene { entity: ent(4), scene: 10 },
    ];
    let tags = add_postfabs_to_spawned_scene(&spawned, &fabs);
    assert_eq!(tags.len(), 2);
    assert_eq!(tags[0].entity, ent(2));
    assert_eq!(tags[1].entity, ent(4));
    for tag in &tags {
        assert_eq!(tag.postfab.scene, FabTarget::Scene(10));
        assert_eq!(tag.postfab.pipes.len(), 1);
        assert_eq!(tag.postfab.pipes[0].executor, RunType::System(1));
    }
}

#[test]
fn a_second_postfab_replaces_the_first() {
    let mut fabs = FabManager::new();
    fabs.register_postfab(PostFab {
        scene: FabTarget::Scene(10),
        pipes: vec![PostfabPipe::system(1), PostfabPipe::system(2)],
    });
    fabs.register_postfab(PostFab {
        scene: FabTarget::Scene(10),
        pipes: vec![PostfabPipe::cmd(3)],
    });
    let found = fabs.postfab(10).expect("a postfab is registered");
    assert_eq!(found.pipes.len(), 1);
    assert_eq!(found.pipes[0].executor, RunType::Command(3));

    let tags = add_postfabs_to_spawned_scene(&vec![SpawnedScene { entity: ent(5), scene: 10 }], &fabs);
    assert_eq!(tags.len(), 1);
    let instance = TaggedInstance {
        root: named(5, "Root"),
        descendants: vec![],
        postfab: tags[0].postfab.clone(),
        variant: None,
        ready: true,
    };
    let pass = handle_scene_postfabs(&mut vec![instance]);
    assert_eq!(pass.runs, vec![run(RunType::Command(3), 5)]);
}
