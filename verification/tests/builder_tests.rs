use steiger::builder::{
    collect_build_results, kind_of, BuildFailure, BuilderKind, BackendHandle, Context, MetaBuild,
    Output,
};
use steiger::config::{extract_git_vars, Build, Config, Ko};
use steiger::git::State;
use steiger::image::{ConfigBlob, Descriptor, Image, Manifest};

fn s(text: &str) -> Vec<u8> {
    text.as_bytes().to_vec()
}

fn tiny_image(marker: u8) -> Image {
    Image {
        digest: vec![marker],
        config: ConfigBlob { data: vec![], media_type: s("c"), annotations: None },
        manifest: Manifest {
            schema_version: 2,
            media_type: None,
            config: Descriptor {
                media_type: s("c"),
                digest: s("sha256:00"),
                size: 0,
                annotations: None,
            },
            layers: vec![],
            annotations: None,
        },
        platform: None,
        layers: vec![],
    }
}

fn output_of(names: &[&str]) -> Output {
    let mut out = Output::new();
    for (i, name) in names.iter().enumerate() {
        out.put(s(name), vec![tiny_image(i as u8)]);
    }
    out
}

/// The merged artifacts as sorted (name, image count) pairs, so two
/// merges can be compared independently of entry order.
fn snapshot(out: &Output) -> Vec<(Vec<u8>, usize)> {
    let mut pairs: Vec<(Vec<u8>, usize)> = out
        .artifacts
        .iter()
        .map(|(name, images)| (name.clone(), images.len()))
        .collect();
    pairs.sort();
    pairs
}

#[test]
fn merge_keeps_the_union_of_disjoint_outputs() {
    let mut first = output_of(&["api", "web"]);
    let second = output_of(&["worker"]);
    first.merge(second);
    assert_eq!(
        snapshot(&first),
        vec![(s("api"), 1), (s("web"), 1), (s("worker"), 1)]
    );
}

#[test]
fn merge_of_disjoint_outputs_is_order_independent() {
    let mut ab = output_of(&["api", "web"]);
    ab.merge(output_of(&["worker", "cron"]));
    let mut ba = output_of(&["worker", "cron"]);
    ba.merge(output_of(&["api", "web"]));
    assert_eq!(snapshot(&ab), snapshot(&ba));
}

#[test]
fn merge_replaces_an_artifact_in_full() {
    let mut first = Output::new();
    first.put(s("web"), vec![tiny_image(1), tiny_image(2)]);
    let mut second = Output::new();
    second.put(s("web"), vec![tiny_image(9)]);
    first.merge(second);
    assert_eq!(first.artifacts.len(), 1);
    assert_eq!(first.artifacts[0].1.len(), 1);
    assert_eq!(first.artifacts[0].1[0].digest, vec![9]);
}

#[test]
fn one_broken_target_reports_exactly_one_failure() {
    let results = vec![
        (s("api"), Ok(output_of(&["api"]))),
        (
            s("broken"),
            Err(BuildFailure { kind: BuilderKind::Docker, message: s("no such context") }),
        ),
        (s("web"), Ok(output_of(&["web"]))),
    ];
    match collect_build_results(results) {
        Err(failures) => {
            assert_eq!(failures.len(), 1);
            assert_eq!(failures[0].0, s("broken"));
            assert_eq!(failures[0].1.message, s("no such context"));
        },
        Ok(_) => panic!("expected a failure report"),
    }
}

#[test]
fn every_failure_is_reported_together() {
    let results = vec![
        (s("a"), Err(BuildFailure { kind: BuilderKind::Ko, message: s("one") })),
        (s("b"), Ok(output_of(&["b"]))),
        (s("c"), Err(BuildFailure { kind: BuilderKind::Nix, message: s("two") })),
    ];
    match collect_build_results(results) {
        Err(failures) => {
            assert_eq!(failures.len(), 2);
            assert_eq!(failures[0].0, s("a"));
            assert_eq!(failures[1].0, s("c"));
        },
        Ok(_) => panic!("expected a failure report"),
    }
}

#[test]
fn all_successes_merge_into_one_output() {
    let results = vec![
        (s("a"), Ok(output_of(&["api"]))),
        (s("b"), Ok(output_of(&["web", "worker"]))),
    ];
    match collect_build_results(results) {
        Ok(out) => {
            assert_eq!(
                snapshot(&out),
                vec![(s("api"), 1), (s("web"), 1), (s("worker"), 1)]
            );
        },
        Err(_) => panic!("expected a merged output"),
    }
}

fn config_with(builds: Vec<(Vec<u8>, Build)>) -> Config {
    Config {
        build: builds,
        deploy: vec![],
        insecure_registries: vec![],
        default_repo: None,
        tag_format: s("v1"),
    }
}

#[test]
fn the_dispatch_plan_follows_configuration_order() {
    let config = config_with(vec![
        (s("web"), Build::Ko(Ko { import_path: None })),
        (s("api"), Build::Ko(Ko { import_path: Some(s("./api")) })),
    ]);
    let meta = MetaBuild::new(config);
    let plan = meta.plan();
    assert_eq!(plan.len(), 2);
    assert_eq!(plan[0].0, s("web"));
    assert!(matches!(plan[0].1, BuilderKind::Ko));
    assert_eq!(plan[1].0, s("api"));
}

#[test]
fn each_backend_is_registered_at_most_once() {
    let config = config_with(vec![(s("web"), Build::Ko(Ko { import_path: None }))]);
    let mut meta = MetaBuild::new(config);
    assert!(!meta.has_backend(&BuilderKind::Ko));
    meta.register_backend(BackendHandle::Ko(steiger::ko::KoBuilder { binary: s("/bin/ko") }));
    assert!(meta.has_backend(&BuilderKind::Ko));
    assert!(!meta.has_backend(&BuilderKind::Docker));
}

#[test]
fn duplicate_target_names_are_detected() {
    let unique = config_with(vec![
        (s("web"), Build::Ko(Ko { import_path: None })),
        (s("api"), Build::Ko(Ko { import_path: None })),
    ]);
    assert!(unique.targets_unique());
    let duplicated = config_with(vec![
        (s("web"), Build::Ko(Ko { import_path: None })),
        (s("web"), Build::Ko(Ko { import_path: None })),
    ]);
    assert!(!duplicated.targets_unique());
}

#[test]
fn kind_of_selects_the_configured_backend() {
    assert!(matches!(kind_of(&Build::Ko(Ko { import_path: None })), BuilderKind::Ko));
}

#[test]
fn context_carries_target_and_platform() {
    let ctx = Context::new(s("web"), s("linux/amd64"));
    assert_eq!(ctx.service_name, s("web"));
    assert_eq!(ctx.platform, s("linux/amd64"));
}

#[test]
fn git_vars_cover_commit_tag_and_dirtiness() {
    let state = State {
        dirty: true,
        tag: Some(s("v1.2.3")),
        commit: s("0123456789abcdef"),
    };
    let vars = extract_git_vars(state);
    assert_eq!(vars.len(), 4);
    assert_eq!(vars[0], (s("gitShortCommit"), s("012345")));
    assert_eq!(vars[1], (s("gitCommit"), s("0123456789abcdef")));
    assert_eq!(vars[2], (s("gitTag"), s("v1.2.3")));
    assert_eq!(vars[3], (s("gitDirty"), s("-dirty")));
}

#[test]
fn git_vars_without_tag_on_clean_tree() {
    let state = State { dirty: false, tag: None, commit: s("abcdef012345") };
    let vars = extract_git_vars(state);
    assert_eq!(vars.len(), 2);
    assert_eq!(vars[0], (s("gitShortCommit"), s("abcdef")));
}
