use bevy_fabulous::manager::{
    FabKind, FailureReason, LoadedGltf, ResolutionFailure,
};
use bevy_fabulous::postfab::{PostFab, PostfabPipe, RunType};
use bevy_fabulous::prefab::{apply_pipes_to_loaded_scene, Prefab, PrefabRun, PrefabStep};
use bevy_fabulous::{convert_gltffabs_to_scenefabs, FabManager, FabTarget};

fn sorted(mut keys: Vec<u64>) -> Vec<u64> {
    keys.sort();
    keys
}

#[test]
fn a_new_registry_is_empty() {
    let fabs = FabManager::new();
    assert!(fabs.prefab(1).is_none());
    assert!(fabs.postfab(1).is_none());
    assert!(fabs.pending_prefab_gltfs().is_empty());
    assert!(fabs.pending_postfab_gltfs().is_empty());
    let fabs = FabManager::default();
    assert!(fabs.prefab(0).is_none());
    assert!(fabs.postfab(0).is_none());
}

#[test]
fn pipelines_are_found_under_their_scene_and_kind() {
    let mut fabs = FabManager::new();
    fabs.register_prefab(Prefab::new(FabTarget::Scene(1)).with_system(4));
    fabs.register_postfab(PostFab { scene: FabTarget::Scene(2), pipes: vec![] });
    assert_eq!(fabs.prefab(1).map(|p| p.pipeline.clone()), Some(vec![PrefabStep::System(4)]));
    assert!(fabs.prefab(2).is_none());
    assert!(fabs.postfab(1).is_none());
    assert!(fabs.postfab(2).is_some());
}

#[test]
fn a_second_prefab_replaces_the_first() {
    let mut fabs = FabManager::new();
    fabs.register_prefab(Prefab::new(FabTarget::Scene(1)).with_system(4).with_pipe(5));
    fabs.register_prefab(Prefab::new(FabTarget::Scene(1)).with_pipe(6));
    assert_eq!(fabs.prefab(1).map(|p| p.pipeline.clone()), Some(vec![PrefabStep::Pipe(6)]));
}

#[test]
fn prefab_mut_changes_the_registered_prefab() {
    let mut fabs = FabManager::new();
    fabs.register_prefab(Prefab::new(FabTarget::Scene(1)).with_system(4));
    assert!(fabs.prefab_mut(2).is_none());
    fabs.prefab_mut(1).expect("registered").pipeline.push(PrefabStep::Pipe(9));
    assert_eq!(
        fabs.prefab(1).map(|p| p.pipeline.clone()),
        Some(vec![PrefabStep::System(4), PrefabStep::Pipe(9)])
    );
}

#[test]
fn pipelines_for_gltf_files_wait() {
    let mut fabs = FabManager::new();
    fabs.register_prefab(Prefab::new(FabTarget::Gltf(7)));
    fabs.register_prefab(Prefab::new(FabTarget::Gltf(8)));
    fabs.register_postfab(PostFab { scene: FabTarget::Gltf(7), pipes: vec![] });
    assert!(fabs.prefab(7).is_none());
    assert!(fabs.postfab(7).is_none());
    assert_eq!(sorted(fabs.pending_prefab_gltfs()), vec![7, 8]);
    assert_eq!(sorted(fabs.pending_postfab_gltfs()), vec![7]);
}

#[test]
fn a_prefab_for_a_gltf_file_moves_to_its_first_scene() {
    let mut fabs = FabManager::new();
    fabs.register_prefab(Prefab::new(FabTarget::Gltf(7)).with_system(1).with_pipe(2));
    let scene0 = 40;
    let loaded = vec![LoadedGltf { gltf: 7, scenes: Some(vec![scene0, 41]) }];
    let failures = convert_gltffabs_to_scenefabs(&mut fabs, &loaded);
    assert!(failures.is_empty());
    let found = fabs.prefab(scene0).expect("moved to the first scene");
    assert_eq!(found.pipeline, vec![PrefabStep::System(1), PrefabStep::Pipe(2)]);
    assert_eq!(found.target, FabTarget::Gltf(7));
    assert!(fabs.prefab(41).is_none());
    assert!(fabs.prefab(7).is_none());
    assert!(fabs.pending_prefab_gltfs().is_empty());
}

#[test]
fn a_postfab_for_a_gltf_file_moves_to_its_first_scene() {
    let mut fabs = FabManager::new();
    fabs.register_postfab(PostFab {
        scene: FabTarget::Gltf(7),
        pipes: vec![PostfabPipe::cmd(3)],
    });
    fabs.register_postfab(PostFab {
        scene: FabTarget::Scene(40),
        pipes: vec![PostfabPipe::cmd(1), PostfabPipe::cmd(2)],
    });
    let loaded = vec![LoadedGltf { gltf: 7, scenes: Some(vec![40]) }];
    let failures = convert_gltffabs_to_scenefabs(&mut fabs, &loaded);
    assert!(failures.is_empty());
    let found = fabs.postfab(40).expect("moved to the first scene");
    assert_eq!(found.pipes.len(), 1);
    assert_eq!(found.pipes[0].executor, RunType::Command(3));
    assert!(fabs.pending_postfab_gltfs().is_empty());
}

#[test]
fn files_that_have_not_loaded_keep_their_pipelines() {
    let mut fabs = FabManager::new();
    fabs.register_prefab(Prefab::new(FabTarget::Gltf(7)));
    fabs.register_postfab(PostFab { scene: FabTarget::Gltf(8), pipes: vec![] });
    let loaded = vec![LoadedGltf { gltf: 9, scenes: Some(vec![40]) }];
    let failures = convert_gltffabs_to_scenefabs(&mut fabs, &loaded);
    assert!(failures.is_empty());
    assert_eq!(fabs.pending_prefab_gltfs(), vec![7]);
    assert_eq!(fabs.pending_postfab_gltfs(), vec![8]);
    assert!(fabs.prefab(40).is_none());
    assert!(fabs.postfab(40).is_none());
}

#[test]
fn a_file_without_scenes_drops_its_pipelines() {
    let mut fabs = FabManager::new();
    fabs.register_prefab(Prefab::new(FabTarget::Gltf(7)));
    fabs.register_postfab(PostFab { scene: FabTarget::Gltf(7), pipes: vec![] });
    fabs.register_postfab(PostFab { scene: FabTarget::Gltf(8), pipes: vec![] });
    let loaded = vec![
        LoadedGltf { gltf: 8, scenes: None },
        LoadedGltf { gltf: 7, scenes: Some(vec![]) },
    ];
    let failures = convert_gltffabs_to_scenefabs(&mut fabs, &loaded);
    assert_eq!(
        failures,
        vec![
            ResolutionFailure {
                gltf: 8,
                kind: FabKind::Postfab,
                reason: FailureReason::MissingGltf
            },
            ResolutionFailure { gltf: 7, kind: FabKind::Postfab, reason: FailureReason::NoScenes },
            ResolutionFailure { gltf: 7, kind: FabKind::Prefab, reason: FailureReason::NoScenes },
        ]
    );
    assert!(fabs.pending_prefab_gltfs().is_empty());
    assert!(fabs.pending_postfab_gltfs().is_empty());
}

#[test]
fn a_file_reported_twice_is_dealt_with_once() {
    let mut fabs = FabManager::new();
    fabs.register_prefab(Prefab::new(FabTarget::Gltf(7)).with_pipe(1));
    let loaded = vec![
        LoadedGltf { gltf: 7, scenes: Some(vec![40]) },
        LoadedGltf { gltf: 7, scenes: Some(vec![]) },
    ];
    let failures = convert_gltffabs_to_scenefabs(&mut fabs, &loaded);
    assert!(failures.is_empty());
    assert!(fabs.prefab(40).is_some());
}

#[test]
fn two_files_with_the_same_first_scene_later_wins() {
    let mut fabs = FabManager::new();
    fabs.register_prefab(Prefab::new(FabTarget::Gltf(7)).with_pipe(1));
    fabs.register_prefab(Prefab::new(FabTarget::Gltf(8)).with_pipe(2));
    let loaded = vec![
        LoadedGltf { gltf: 7, scenes: Some(vec![40]) },
        LoadedGltf { gltf: 8, scenes: Some(vec![40]) },
    ];
    convert_gltffabs_to_scenefabs(&mut fabs, &loaded);
    assert_eq!(fabs.prefab(40).map(|p| p.pipeline.clone()), Some(vec![PrefabStep::Pipe(2)]));
}

#[test]
fn first_scene_and_reason_of_a_loaded_file() {
    let full = LoadedGltf { gltf: 1, scenes: Some(vec![5, 6]) };
    assert_eq!(full.first_scene(), Some(5));
    let empty = LoadedGltf { gltf: 1, scenes: Some(vec![]) };
    assert_eq!(empty.first_scene(), None);
    assert_eq!(empty.reason(), FailureReason::NoScenes);
    let missing = LoadedGltf { gltf: 1, scenes: None };
    assert_eq!(missing.first_scene(), None);
    assert_eq!(missing.reason(), FailureReason::MissingGltf);
}

#[test]
fn prefab_steps_run_once_and_in_order_when_the_template_loads() {
    let mut fabs = FabManager::new();
    fabs.register_prefab(
        Prefab::new(FabTarget::Scene(1)).with_system(4).with_pipes(vec![5, 6]).with_pipe(7),
    );
    fabs.register_prefab(Prefab::new(FabTarget::Scene(2)).with_pipe(8));
    assert!(!fabs.prefab_applied(1));
    let runs = apply_pipes_to_loaded_scene(&mut fabs, &vec![1]);
    assert_eq!(
        runs,
        vec![
            PrefabRun { scene: 1, step: PrefabStep::System(4) },
            PrefabRun { scene: 1, step: PrefabStep::Pipe(5) },
            PrefabRun { scene: 1, step: PrefabStep::Pipe(6) },
            PrefabRun { scene: 1, step: PrefabStep::Pipe(7) },
        ]
    );
    assert!(fabs.prefab_applied(1));
    assert!(!fabs.prefab_applied(2));
    assert!(apply_pipes_to_loaded_scene(&mut fabs, &vec![]).is_empty());
    assert!(apply_pipes_to_loaded_scene(&mut fabs, &vec![3]).is_empty());
    assert!(!fabs.prefab_applied(3));
}

#[test]
fn a_prefab_never_runs_again_on_a_later_report() {
    let mut fabs = FabManager::new();
    fabs.register_prefab(Prefab::new(FabTarget::Scene(1)).with_system(4).with_pipe(5));
    fabs.register_prefab(Prefab::new(FabTarget::Scene(2)).with_pipe(8));
    assert_eq!(apply_pipes_to_loaded_scene(&mut fabs, &vec![1]).len(), 2);
    assert!(apply_pipes_to_loaded_scene(&mut fabs, &vec![1]).is_empty());
    let runs = apply_pipes_to_loaded_scene(&mut fabs, &vec![2, 3, 1]);
    assert_eq!(runs, vec![PrefabRun { scene: 2, step: PrefabStep::Pipe(8) }]);
    assert!(apply_pipes_to_loaded_scene(&mut fabs, &vec![1, 2, 1, 2]).is_empty());
    assert_eq!(
        fabs.prefab(1).map(|p| p.pipeline.clone()),
        Some(vec![PrefabStep::System(4), PrefabStep::Pipe(5)])
    );
}

#[test]
fn a_scene_reported_twice_at_once_runs_its_prefab_once() {
    let mut fabs = FabManager::new();
    fabs.register_prefab(Prefab::new(FabTarget::Scene(1)).with_pipe(5));
    let runs = apply_pipes_to_loaded_scene(&mut fabs, &vec![1, 1]);
    assert_eq!(runs, vec![PrefabRun { scene: 1, step: PrefabStep::Pipe(5) }]);
}

#[test]
fn a_changed_template_is_left_alone_by_a_new_prefab() {
    let mut fabs = FabManager::new();
    fabs.register_prefab(Prefab::new(FabTarget::Scene(1)).with_pipe(5));
    assert_eq!(apply_pipes_to_loaded_scene(&mut fabs, &vec![1]).len(), 1);
    fabs.register_prefab(Prefab::new(FabTarget::Scene(1)).with_pipe(6));
    assert!(apply_pipes_to_loaded_scene(&mut fabs, &vec![1]).is_empty());
    assert_eq!(fabs.prefab(1).map(|p| p.pipeline.clone()), Some(vec![PrefabStep::Pipe(6)]));
}

#[test]
fn a_report_without_a_prefab_leaves_the_template_to_a_later_one() {
    let mut fabs = FabManager::new();
    assert!(apply_pipes_to_loaded_scene(&mut fabs, &vec![1]).is_empty());
    assert!(!fabs.prefab_applied(1));
    fabs.register_prefab(Prefab::new(FabTarget::Gltf(7)).with_pipe(5));
    convert_gltffabs_to_scenefabs(&mut fabs, &vec![LoadedGltf { gltf: 7, scenes: Some(vec![1]) }]);
    let runs = apply_pipes_to_loaded_scene(&mut fabs, &vec![1]);
    assert_eq!(runs, vec![PrefabRun { scene: 1, step: PrefabStep::Pipe(5) }]);
    assert!(apply_pipes_to_loaded_scene(&mut fabs, &vec![1]).is_empty());
}

#[test]
fn prefab_builders_add_steps_at_the_end() {
    let prefab = Prefab::new(FabTarget::Gltf(3));
    assert_eq!(prefab.target, FabTarget::Gltf(3));
    assert!(prefab.pipeline.is_empty());
    let prefab = prefab.with_pipes(vec![]).with_pipe(1).with_system(2).with_pipes(vec![3, 4]);
    assert_eq!(
        prefab.pipeline,
        vec![
            PrefabStep::Pipe(1),
            PrefabStep::System(2),
            PrefabStep::Pipe(3),
            PrefabStep::Pipe(4)
        ]
    );
    assert_eq!(prefab.target, FabTarget::Gltf(3));
}
