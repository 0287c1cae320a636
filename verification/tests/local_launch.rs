use dc::error::DcError;
use dc::launch::{
    build_args, container_name, image_name, inspect_args, launch_next, run_args, LaunchAction,
    LaunchEvent,
};
use dc::local::{pick_template, Pick};

const LOCAL: &str = "/tmp/dc_home/templates/local";

fn templates(names: &[&str]) -> Vec<String> {
    names.iter().map(|n| n.to_string()).collect()
}

fn pick_output(found: Option<&Vec<String>>, name: &str) -> Result<String, String> {
    match pick_template(LOCAL, found, Some(name), false) {
        Pick::Stop(line) => Ok(line),
        Pick::Fail(e) => Err(e.message()),
        Pick::Ask(_) => Err("asked".to_string()),
        Pick::Use(rel) => Ok(rel),
    }
}

#[test]
fn local_launch_missing_local_hints_init() {
    let out = pick_output(None, "bash").unwrap();
    assert!(out.to_lowercase().contains("dc init"), "expected hint: {out}");
}

#[test]
fn local_launch_empty_local_prints_message() {
    let found: Vec<String> = Vec::new();
    let out = pick_output(Some(&found), "bash").unwrap();
    assert!(out.to_lowercase().contains("no templates found"), "expected empty message: {out}");
}

#[test]
fn local_launch_unknown_template_errors() {
    let found = templates(&["bash"]);
    let combined = pick_output(Some(&found), "nonexistent").unwrap_err();
    assert!(combined.to_lowercase().contains("not found"), "expected not found: {combined}");
}

#[test]
fn builds_simple_template() {
    let found = templates(&["alpine-echo"]);
    let rel = pick_output(Some(&found), "alpine-echo").unwrap();
    let args = build_args(LOCAL, &rel);
    let out = args.join(" ");
    assert!(out.to_lowercase().contains("alpine-echo"), "expected success: {out}");
    match launch_next(LOCAL, &rel, "/w", false, LaunchEvent::BuildEnded(true)) {
        LaunchAction::Run(args) => {
            assert!(!args.contains(&"-it".to_string()), "no terminal, so no -it: {args:?}");
            assert_eq!(args.last().unwrap(), "dc/local-alpine-echo");
        }
        _ => panic!("a built image is run"),
    }
}

#[test]
fn launch_names_and_arguments_are_exact() {
    assert_eq!(image_name("python/basic"), "dc/local-python-basic");
    assert_eq!(container_name("python/basic"), "dc-local-python-basic");
    assert_eq!(image_name("a\\b"), "dc/local-a-b");
    assert_eq!(
        build_args("/h/.dc/templates/local", "python/basic"),
        vec!["build", "-t", "dc/local-python-basic", "/h/.dc/templates/local/python/basic"]
    );
    assert_eq!(
        run_args("bash", "/home/u/proj", true),
        vec![
            "run", "-it", "--rm", "--name", "dc-local-bash", "-v", "/home/u/proj:/workspace", "-w",
            "/workspace", "dc/local-bash",
        ]
    );
    assert_eq!(
        run_args("bash", "/home/u/proj", false),
        vec![
            "run", "--rm", "--name", "dc-local-bash", "-v", "/home/u/proj:/workspace", "-w",
            "/workspace", "dc/local-bash",
        ]
    );
    assert_eq!(inspect_args("bash"), vec!["image", "inspect", "dc/local-bash"]);
}

#[test]
fn launch_builds_only_a_missing_image() {
    match launch_next(LOCAL, "bash", "/w", true, LaunchEvent::ImageChecked(true)) {
        LaunchAction::Run(args) => assert_eq!(args[0], "run"),
        _ => panic!("an existing image is run without a build"),
    }
    match launch_next(LOCAL, "bash", "/w", true, LaunchEvent::ImageChecked(false)) {
        LaunchAction::Build(args) => {
            assert_eq!(args, vec!["build", "-t", "dc/local-bash", "/tmp/dc_home/templates/local/bash"])
        }
        _ => panic!("a missing image is built"),
    }
    match launch_next(LOCAL, "bash", "/w", true, LaunchEvent::BuildEnded(true)) {
        LaunchAction::Run(args) => assert_eq!(args[6], "/w:/workspace"),
        _ => panic!("a built image is run"),
    }
}

#[test]
fn failed_build_stops_the_launch() {
    match launch_next(LOCAL, "py\\b", "/w", true, LaunchEvent::BuildEnded(false)) {
        LaunchAction::Fail(e) => {
            assert!(matches!(e, DcError::DockerBuildFailed(_)));
            assert_eq!(e.message(), "docker build failed for 'py\\b'");
        }
        _ => panic!("a failed build ends the launch"),
    }
    match launch_next(LOCAL, "bash", "/w", true, LaunchEvent::RunEnded(false, "exit status: 2".to_string())) {
        LaunchAction::Fail(e) => assert_eq!(e.message(), "docker run exited with exit status: 2"),
        _ => panic!("a failed run fails the launch"),
    }
    assert!(matches!(
        launch_next(LOCAL, "bash", "/w", true, LaunchEvent::RunEnded(true, "exit status: 0".to_string())),
        LaunchAction::Done
    ));
}
