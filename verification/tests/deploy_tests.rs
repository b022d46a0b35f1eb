use steiger::config::Helm;
use steiger::deploy::{
    collect_deploy_results, validate_chart_path, ChartPath, Context, DeployError, HelmDeployer,
    HelmError, MetaDeployer, MultiError,
};
use steiger::events::{
    builds_url, events_url, parse_build_response, parse_error_response, CreateBuildRequest,
    CreateEventRequest, Event, Tags,
};
use steiger::outputdoc::{parse_output, Build, Output};

fn s(text: &str) -> Vec<u8> {
    text.as_bytes().to_vec()
}

fn argv(args: &[&str]) -> Vec<Vec<u8>> {
    args.iter().map(|a| s(a)).collect()
}

fn handoff() -> Output {
    Output {
        builds: vec![
            Build { image_name: s("my-web"), tag: s("r/org/my-web:v1@sha256:aa") },
        ],
    }
}

#[test]
fn helm_upgrade_arguments_are_exact() {
    let helm = HelmDeployer { binary: s("/bin/helm") };
    let input = Helm {
        path: s("./chart"),
        namespace: Some(s("prod")),
        timeout: Some(s("5m")),
        values: vec![(s("replicas"), s("3"))],
        values_files: vec![s("values-prod.yaml")],
    };
    let ctx = Context::new(input, handoff());
    let args = helm.upgrade_args(b"my-release", &ctx);
    assert_eq!(
        args,
        argv(&[
            "--set",
            "steiger.myWeb.image=r/org/my-web:v1@sha256:aa",
            "--timeout",
            "5m",
            "--namespace",
            "prod",
            "--set",
            "replicas=3",
            "--values",
            "values-prod.yaml",
            "upgrade",
            "--install",
            "my-release",
            "./chart"
        ])
    );
}

#[test]
fn helm_arguments_without_optionals() {
    let helm = HelmDeployer { binary: s("/bin/helm") };
    let input = Helm {
        path: s("./chart"),
        namespace: None,
        timeout: None,
        values: vec![],
        values_files: vec![],
    };
    let ctx = Context::new(input, Output { builds: vec![] });
    let args = helm.upgrade_args(b"rel", &ctx);
    assert_eq!(args, argv(&["upgrade", "--install", "rel", "./chart"]));
}

#[test]
fn chart_paths_must_be_directories() {
    assert!(validate_chart_path(ChartPath::Directory, b"./chart").is_ok());
    match validate_chart_path(ChartPath::NotDirectory, b"./chart") {
        Err(HelmError::NotADir(p)) => assert_eq!(p, s("./chart")),
        _ => panic!("expected a not-a-directory error"),
    }
    match validate_chart_path(ChartPath::Unreadable(s("denied")), b"./chart") {
        Err(HelmError::Chart(m)) => assert_eq!(m, s("denied")),
        _ => panic!("expected an unreadable-chart error"),
    }
}

#[test]
fn deploy_failures_are_collected_together() {
    let results = vec![
        (s("a"), Ok(())),
        (s("b"), Err(HelmError::Install { code: 1 })),
        (s("c"), Err(HelmError::NotADir(s("x")))),
    ];
    match collect_deploy_results(results) {
        Err(DeployError::Multi(MultiError { errors })) => {
            assert_eq!(errors.len(), 2);
            assert_eq!(errors[0].0, s("b"));
            assert_eq!(errors[1].0, s("c"));
        },
        _ => panic!("expected the collected failures"),
    }
    assert!(collect_deploy_results(vec![(s("a"), Ok(()))]).is_ok());
}

#[test]
fn deployer_starts_without_a_backend() {
    let config = steiger::config::Config {
        build: vec![],
        deploy: vec![],
        insecure_registries: vec![],
        default_repo: None,
        tag_format: s("v1"),
    };
    let meta = MetaDeployer::new(config, Output { builds: vec![] });
    assert!(meta.helm.is_none());
}

#[test]
fn handoff_documents_round_trip() {
    let doc = Output {
        builds: vec![
            Build { image_name: s("web"), tag: s("r/web:v1@sha256:aa") },
            Build { image_name: s("api"), tag: s("r/api:v1@sha256:bb") },
        ],
    };
    let rendered = doc.render_json();
    assert_eq!(
        String::from_utf8(rendered.clone()).unwrap(),
        "{\"builds\":[{\"imageName\":\"web\",\"tag\":\"r/web:v1@sha256:aa\"},{\"imageName\":\"api\",\"tag\":\"r/api:v1@sha256:bb\"}]}"
    );
    let parsed = parse_output(&rendered).unwrap();
    assert_eq!(parsed.builds.len(), 2);
    assert_eq!(parsed.builds[0].image_name, s("web"));
    assert_eq!(parsed.builds[0].tag, s("r/web:v1@sha256:aa"));
    assert_eq!(parsed.builds[1].image_name, s("api"));
    let pairs = parsed.pairs();
    assert_eq!(pairs[1], (s("api"), s("r/api:v1@sha256:bb")));
}

#[test]
fn duplicate_members_read_the_first_occurrence() {
    let doc = b"{\"builds\":[{\"imageName\":\"web\",\"imageName\":\"shadowed\",\"tag\":\"t\"}]}";
    let parsed = parse_output(doc).unwrap();
    assert_eq!(parsed.builds[0].image_name, s("web"));
}

#[test]
fn empty_handoff_renders_an_empty_list() {
    let doc = Output { builds: vec![] };
    assert_eq!(String::from_utf8(doc.render_json()).unwrap(), "{\"builds\":[]}");
    assert!(parse_output(b"{\"builds\":[]}").unwrap().builds.is_empty());
    assert!(parse_output(b"{}").is_err());
    assert!(parse_output(b"nonsense").is_err());
}

#[test]
fn tags_render_with_null_for_missing_entries() {
    let tags = Tags {
        git_rev: s("abc123"),
        git_refname: s("refs/heads/main"),
        github_repo: None,
        github_workflow: None,
    };
    assert_eq!(
        String::from_utf8(tags.render_json()).unwrap(),
        "{\"git.rev\":\"abc123\",\"git.refname\":\"refs/heads/main\",\"github.repo\":null,\"github.workflow\":null}"
    );
}

#[test]
fn build_and_event_requests_render_exactly() {
    let request = CreateBuildRequest {
        target: s("prod"),
        tags: Tags {
            git_rev: s("abc"),
            git_refname: s("refs/tags/v1"),
            github_repo: Some(s("org/repo")),
            github_workflow: None,
        },
    };
    assert_eq!(
        String::from_utf8(request.render_json()).unwrap(),
        "{\"target\":\"prod\",\"tags\":{\"git.rev\":\"abc\",\"git.refname\":\"refs/tags/v1\",\"github.repo\":\"org/repo\",\"github.workflow\":null}}"
    );
    let artifact = CreateEventRequest { event: Event::Artifact { uri: s("r/web:v1") } };
    assert_eq!(
        String::from_utf8(artifact.render_json()).unwrap(),
        "{\"event\":{\"kind\":\"artifact\",\"uri\":\"r/web:v1\"}}"
    );
    let done = Event::Completed { secs: 12, nanos: 500 };
    assert_eq!(
        String::from_utf8(done.render_json()).unwrap(),
        "{\"kind\":\"completed\",\"elapsed\":{\"secs\":12,\"nanos\":500}}"
    );
    let progress = Event::Progress { phase: s("push"), total: 3, current: 1 };
    assert_eq!(
        String::from_utf8(progress.render_json()).unwrap(),
        "{\"kind\":\"progress\",\"phase\":\"push\",\"total\":3,\"current\":1}"
    );
}

#[test]
fn event_urls_embed_base_and_build() {
    assert_eq!(builds_url(b"https://api.example"), s("https://api.example/builds"));
    assert_eq!(
        events_url(b"https://api.example", b"b-1"),
        s("https://api.example/builds/b-1/events")
    );
}

#[test]
fn api_responses_parse() {
    let r = parse_build_response(b"{\"id\":\"b-42\"}").unwrap();
    assert_eq!(r.id, s("b-42"));
    assert!(parse_build_response(b"{}").is_none());
    let e = parse_error_response(b"{\"error\":\"denied\"}").unwrap();
    assert_eq!(e.error, s("denied"));
}
