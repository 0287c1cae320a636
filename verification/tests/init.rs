use dc::init::{init_banner, init_entries, init_header, init_line};
use std::collections::BTreeSet;

/// What `dc init` prints when the directories in `existing` are there, and
/// the directories there afterwards.
fn init_run(base: &str, existing: &mut BTreeSet<String>) -> String {
    let mut out = format!("{}\n\n", init_header(base));
    for entry in init_entries(base) {
        let existed = existing.contains(&entry.dir);
        if !existed {
            existing.insert(entry.dir.clone());
        }
        out.push_str(&init_line(&entry.label, existed));
        out.push('\n');
    }
    out.push('\n');
    for line in init_banner(base) {
        out.push_str(&line);
        out.push('\n');
    }
    out
}

#[test]
fn init_creates_all_directories() {
    let base = "/tmp/x/dc_home";
    let mut fs = BTreeSet::new();
    let out = init_run(base, &mut fs);
    assert!(out.contains("Initializing DC"));
    assert_eq!(out.matches("# created").count(), 4);
    assert_eq!(out.matches("# already exists").count(), 0);
    assert!(fs.contains("/tmp/x/dc_home/templates"));
    assert!(fs.contains("/tmp/x/dc_home/templates/local"));
    assert!(fs.contains("/tmp/x/dc_home/templates/remote"));
}

#[test]
fn init_is_idempotent() {
    let base = "/tmp/x/dc_home";
    let mut fs = BTreeSet::new();
    init_run(base, &mut fs);
    let out = init_run(base, &mut fs);
    assert!(out.contains("Initializing DC"));
    assert_eq!(out.matches("# already exists").count(), 4);
    assert_eq!(out.matches("# created").count(), 0);
    assert!(fs.contains("/tmp/x/dc_home/templates/local"));
    assert!(fs.contains("/tmp/x/dc_home/templates/remote"));
}

#[test]
fn init_preserves_existing_templates() {
    let base = "/tmp/x/dc_home";
    let mut fs = BTreeSet::new();
    fs.insert("/tmp/x/dc_home".to_string());
    fs.insert("/tmp/x/dc_home/templates".to_string());
    fs.insert("/tmp/x/dc_home/templates/local".to_string());
    let out = init_run(base, &mut fs);
    let local_line = out.lines().find(|l| l.contains("local/")).unwrap();
    assert!(local_line.contains("# already exists"), "expected preserved local: {local_line}");
    assert!(fs.contains("/tmp/x/dc_home/templates/local"));
}

#[test]
fn init_mixed_state() {
    let base = "/tmp/x/dc_home";
    let mut fs = BTreeSet::new();
    fs.insert(base.to_string());
    let out = init_run(base, &mut fs);
    let base_line = out.lines().find(|l| l.contains("~/.dc")).unwrap();
    assert!(base_line.contains("# already exists"));
    let local_line = out.lines().find(|l| l.contains("local/")).unwrap();
    assert!(local_line.contains("# created"));
    assert!(fs.contains("/tmp/x/dc_home/templates/local"));
    assert!(fs.contains("/tmp/x/dc_home/templates/remote"));
}

#[test]
fn init_lines_are_padded() {
    assert_eq!(init_line("~/.dc", true), "  ~/.dc                # already exists");
    assert_eq!(init_line("       ├── local/", false), "         ├── local/    # created");
    assert_eq!(init_header("/h/.dc"), "Initializing DC at /h/.dc");
    let labels: Vec<String> = init_entries("/h/.dc").into_iter().map(|e| e.label).collect();
    assert_eq!(labels, vec!["~/.dc", "   └── templates/", "       ├── local/", "       └── remote/"]);
}

#[test]
fn init_prints_the_help_banner() {
    let out = init_run("/h/.dc", &mut BTreeSet::new());
    assert!(out.contains("dc: A CLI that manages Dev Environment Dockerfile Collections"));
    assert!(out.contains("Templates: /h/.dc/templates\n"));
    for command in ["dc init", "dc local list", "dc local info", "dc local launch", "dc local delete"] {
        assert!(out.contains(command), "missing {command}: {out}");
    }
    assert_eq!(init_banner("/h/.dc").len(), 8);
}
