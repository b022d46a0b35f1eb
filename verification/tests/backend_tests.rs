use steiger::bazel::{parse_cquery_output, BazelBuilder};
use steiger::config::{Bazel, Docker};
use steiger::docker::{
    fmt_map, needs_builder_creation, parse_builder_names, tolerate_create_failure, DockerBuilder,
};
use steiger::ko::KoBuilder;
use steiger::nix::{
    attr_path_join, parse_build_action, parse_eval_result, parse_systems, strip_nix_prefix,
    systems_contain, try_system, unescape_ansi, BuildAction, EvalResult, NixBuilder, NixError,
    ProgressDirective,
};
use steiger::text::{find_key_by_value, find_value_by_key};

fn s(text: &str) -> Vec<u8> {
    text.as_bytes().to_vec()
}

fn argv(args: &[&str]) -> Vec<Vec<u8>> {
    args.iter().map(|a| s(a)).collect()
}

#[test]
fn ko_build_arguments_are_exact() {
    let ko = KoBuilder { binary: s("/bin/ko") };
    assert_eq!(
        ko.build_args(b"linux/amd64", b"/tmp/dest", &None),
        argv(&[
            "build",
            "--push=false",
            "--platform",
            "linux/amd64",
            "--oci-layout-path",
            "/tmp/dest",
            "."
        ])
    );
    assert_eq!(
        ko.build_args(b"linux/amd64", b"/tmp/dest", &Some(s("./cmd/app")))[6],
        s("./cmd/app")
    );
}

#[test]
fn fmt_map_joins_name_separator_value() {
    let out = fmt_map(vec![(s("A"), s("1")), (s("HOST"), s("1.2.3.4"))], b'=');
    assert_eq!(out, argv(&["A=1", "HOST=1.2.3.4"]));
    let out = fmt_map(vec![(s("db"), s("10.0.0.1"))], b':');
    assert_eq!(out, argv(&["db:10.0.0.1"]));
}

#[test]
fn docker_build_arguments_are_exact() {
    let docker = DockerBuilder { binary: s("/bin/docker") };
    let input = Docker {
        context: s("./svc"),
        dockerfile: None,
        build_args: vec![(s("A"), s("1"))],
        hosts: vec![],
    };
    assert_eq!(
        docker.build_args(&input, b"linux/amd64", b"/tmp/out"),
        argv(&[
            "buildx",
            "build",
            "--build-arg",
            "A=1",
            "--builder",
            "steiger",
            "--platform",
            "linux/amd64",
            "--output",
            "type=oci,dest=/tmp/out,tar=false",
            "--file",
            "./svc/Dockerfile",
            "./svc"
        ])
    );
    let with_file = Docker {
        context: s("./svc"),
        dockerfile: Some(s("Custom.dockerfile")),
        build_args: vec![],
        hosts: vec![(s("db"), s("10.0.0.1"))],
    };
    let args = docker.build_args(&with_file, b"linux/arm64", b"/d");
    assert_eq!(args[2], s("--add-host"));
    assert_eq!(args[3], s("db:10.0.0.1"));
    assert_eq!(args[args.len() - 2], s("Custom.dockerfile"));
}

#[test]
fn builder_listing_and_creation_arguments() {
    let docker = DockerBuilder { binary: s("/bin/docker") };
    assert_eq!(docker.list_builders_args(), argv(&["buildx", "ls", "--format=json"]));
    assert_eq!(
        docker.create_builder_args(),
        argv(&["buildx", "create", "--driver=docker-container", "--name=steiger"])
    );
}

#[test]
fn builder_creation_is_skipped_when_present() {
    assert!(needs_builder_creation(&argv(&["default", "other"])));
    assert!(!needs_builder_creation(&argv(&["default", "steiger"])));
}

#[test]
fn existing_remote_builder_failures_are_tolerated() {
    assert!(tolerate_create_failure(
        1,
        b"ERROR: existing instance for \"steiger\" but no append mode"
    ));
    assert!(!tolerate_create_failure(2, b"ERROR: existing instance for x"));
    assert!(!tolerate_create_failure(1, b"some other error"));
}

#[test]
fn builder_names_come_from_json_lines() {
    let output = b"{\"Name\":\"default\"}\n{\"Name\":\"steiger\"}\n";
    let names = parse_builder_names(output).unwrap();
    assert_eq!(names, argv(&["default", "steiger"]));
    assert!(parse_builder_names(b"not json\n").is_err());
}

#[test]
fn bazel_cquery_selects_every_label() {
    let bazel = BazelBuilder { binary: s("/bin/bazel") };
    let targets = vec![(s("web"), s("//web:image")), (s("api"), s("//api:image"))];
    let args = bazel.cquery_args(&targets);
    assert_eq!(args[0], s("cquery"));
    assert_eq!(args[1], s("\"//web:image\" union \"//api:image\""));
    assert_eq!(args[2], s("--output=starlark"));
}

#[test]
fn bazel_build_arguments_are_exact() {
    let bazel = BazelBuilder { binary: s("/bin/bazel") };
    let input = Bazel {
        targets: vec![(s("web"), s("//web:image"))],
        platforms: vec![(s("linux/amd64"), s("//platforms:linux_x86"))],
    };
    let platform_label = find_value_by_key(&input.platforms, b"linux/amd64");
    let args = bazel.build_args(&input, &platform_label);
    assert_eq!(
        args,
        argv(&["build", "--platforms=//platforms:linux_x86", "//web:image"])
    );
    let args = bazel.build_args(&input, &None);
    assert_eq!(args, argv(&["build", "//web:image"]));
}

#[test]
fn cquery_output_maps_labels_to_files() {
    let output = b"[\"web:image\",\"bazel-out/web.oci\"]\n\n[\"api:image\",\"bazel-out/api.oci\"]\n";
    let pairs = parse_cquery_output(output).unwrap();
    assert_eq!(pairs.len(), 2);
    assert_eq!(pairs[0], (s("web:image"), s("bazel-out/web.oci")));
    // The artifact owning a produced label is looked up by value.
    let targets = vec![(s("web"), s("web:image")), (s("api"), s("api:image"))];
    assert_eq!(find_key_by_value(&targets, b"api:image"), Some(s("api")));
    assert_eq!(find_key_by_value(&targets, b"gone:image"), None);
}

#[test]
fn platforms_convert_to_nix_systems() {
    assert_eq!(try_system(b"linux/amd64").unwrap(), s("x86_64-linux"));
    assert_eq!(try_system(b"darwin/arm64").unwrap(), s("aarch64-darwin"));
    assert!(matches!(
        try_system(b"linux-amd64"),
        Err(NixError::InvalidPlatform(_))
    ));
    assert!(matches!(
        try_system(b"linux/riscv64"),
        Err(NixError::UnsupportedPlatform(_))
    ));
}

#[test]
fn ansi_spellings_unescape_to_the_escape_byte() {
    assert_eq!(unescape_ansi(b"plain"), s("plain"));
    assert_eq!(unescape_ansi(b"a\\u001bb"), vec![b'a', 0x1b, b'b']);
    assert_eq!(unescape_ansi(b"\\033[1m"), vec![0x1b, b'[', b'1', b'm']);
    assert_eq!(unescape_ansi(b"\\x1b["), vec![0x1b, b'[']);
    assert_eq!(unescape_ansi(b"\\e["), vec![0x1b, b'[']);
    assert_eq!(
        unescape_ansi(b"\\e\\e"),
        vec![0x1b, 0x1b]
    );
    // An unknown spelling is copied unchanged.
    assert_eq!(unescape_ansi(b"\\q"), s("\\q"));
}

#[test]
fn attr_paths_join_with_dots() {
    assert_eq!(attr_path_join(&vec![]), s(""));
    assert_eq!(attr_path_join(&vec![s("packages")]), s("packages"));
    assert_eq!(
        attr_path_join(&vec![s("packages"), s("x86_64-linux"), s("web")]),
        s("packages.x86_64-linux.web")
    );
}

#[test]
fn eval_errors_are_fatal_for_the_attribute() {
    let r = EvalResult {
        attr: s("web"),
        attr_path: vec![s("web")],
        drv_path: Some(s("/nix/store/x.drv")),
        error: Some(s("evaluation exploded")),
        outputs: Some(vec![(s("out"), s("/nix/store/x-out"))]),
    };
    match r.build_plan() {
        Err(NixError::Eval(m)) => assert_eq!(m, s("evaluation exploded")),
        _ => panic!("expected an evaluation error"),
    }
}

#[test]
fn a_buildable_attribute_yields_exact_arguments() {
    let r = EvalResult {
        attr: s("web"),
        attr_path: vec![s("web")],
        drv_path: Some(s("/nix/store/x.drv")),
        error: None,
        outputs: Some(vec![(s("out"), s("/nix/store/x-out"))]),
    };
    let (args, out_path) = r.build_plan().unwrap().unwrap();
    assert_eq!(
        args,
        argv(&["build", "--no-link", "--log-format", "internal-json", "/nix/store/x.drv^out"])
    );
    assert_eq!(out_path, s("/nix/store/x-out"));
}

#[test]
fn an_attribute_without_outputs_builds_nothing() {
    let r = EvalResult {
        attr: s("web"),
        attr_path: vec![s("web")],
        drv_path: None,
        error: None,
        outputs: None,
    };
    assert!(r.build_plan().unwrap().is_none());
}

#[test]
fn nix_event_lines_carry_their_prefix() {
    assert_eq!(
        strip_nix_prefix(b"@nix {\"action\":\"start\"}"),
        Some(s("{\"action\":\"start\"}"))
    );
    assert!(strip_nix_prefix(b"plain output").is_none());
}

#[test]
fn log_lines_are_unescaped_and_reported() {
    let action = parse_build_action(
        b"{\"action\":\"result\",\"type\":101,\"fields\":[\"\\\\e[1mbuilding\"]}",
    )
    .unwrap();
    let directives = action.report();
    assert_eq!(directives.len(), 1);
    match &directives[0] {
        ProgressDirective::Info(t) => assert_eq!(t, &vec![0x1b, b'[', b'1', b'm', b'b', b'u', b'i', b'l', b'd', b'i', b'n', b'g']),
        _ => panic!("expected a log directive"),
    }
}

#[test]
fn phase_changes_set_the_name_and_log() {
    let action = BuildAction::ResultAction {
        ty: 104,
        fields: vec![steiger::json::Json::Text(s("buildPhase"))],
    };
    let directives = action.report();
    assert_eq!(directives.len(), 2);
    assert!(matches!(&directives[0], ProgressDirective::SetPhase(p) if p == &s("buildPhase")));
}

#[test]
fn quiet_and_verbose_messages_are_filtered() {
    let informational = BuildAction::Msg { level: 3, msg: s("note") };
    assert_eq!(informational.report().len(), 1);
    let chatty = BuildAction::Msg { level: 5, msg: s("debug detail") };
    assert_eq!(chatty.report().len(), 0);
    let empty = BuildAction::Msg { level: 0, msg: s("") };
    assert_eq!(empty.report().len(), 0);
}

#[test]
fn evaluator_lines_parse_into_results() {
    let line = b"{\"attr\":\"web\",\"attrPath\":[\"web\"],\"drvPath\":\"/nix/store/w.drv\",\"outputs\":{\"out\":\"/nix/store/w-out\"}}";
    let r = parse_eval_result(line).unwrap();
    assert_eq!(r.attr, s("web"));
    assert_eq!(r.attr_path, vec![s("web")]);
    assert_eq!(r.drv_path, Some(s("/nix/store/w.drv")));
    assert!(r.error.is_none());
    assert_eq!(r.outputs, Some(vec![(s("out"), s("/nix/store/w-out"))]));
}

#[test]
fn nix_invocation_arguments_are_exact() {
    let nix = NixBuilder { nix_binary: s("/bin/nix"), eval_binary: s("/bin/nix-eval-jobs") };
    assert_eq!(
        nix.eval_args(b"/tmp/gc", b"x86_64-linux"),
        argv(&[
            "--verbose",
            "--log-format",
            "internal-json",
            "--gc-roots-dir",
            "/tmp/gc",
            "--flake",
            ".#packages.x86_64-linux"
        ])
    );
    assert_eq!(
        nix.detect_systems_args(b"."),
        argv(&["eval", ".#packages", "--apply", "builtins.attrNames", "--json"])
    );
}

#[test]
fn detected_systems_parse_and_match() {
    let systems = parse_systems(b"[\"x86_64-linux\",\"aarch64-darwin\"]").unwrap();
    assert!(systems_contain(&systems, b"x86_64-linux"));
    assert!(!systems_contain(&systems, b"riscv64-linux"));
}
