use dc::local::list_report;
use dc::templates::{find_templates, DirNode};

fn dir(name: &str) -> DirNode {
    DirNode { name: name.to_string(), has_dockerfile: false, subdirs: Vec::new() }
}

/// Adds the directory `rel` (and its parents) under `node`, with a `Dockerfile`.
fn write_template(node: &mut DirNode, rel: &str) {
    let mut cur = node;
    for part in rel.split('/') {
        let pos = match cur.subdirs.iter().position(|d| d.name == part) {
            Some(p) => p,
            None => {
                cur.subdirs.push(dir(part));
                cur.subdirs.len() - 1
            }
        };
        cur = &mut cur.subdirs[pos];
    }
    cur.has_dockerfile = true;
}

fn list_output(local: &str, root: Option<&DirNode>) -> String {
    let found = root.map(|r| find_templates(Some(r)));
    let mut out = String::new();
    for line in list_report(local, found.as_ref()) {
        out.push_str(&line);
        out.push('\n');
    }
    out
}

#[test]
fn lists_nested_templates_sorted() {
    let mut local = dir("");
    write_template(&mut local, "rust");
    write_template(&mut local, "bash");
    write_template(&mut local, "python/basic");

    let out = list_output("dc_home/templates/local", Some(&local));
    assert!(out.contains("Available local templates"));
    assert!(out.contains("bash"), "missing bash in {out}");
    assert!(out.contains("rust"), "missing rust in {out}");
    assert!(out.contains("python/basic"), "missing python/basic in {out}");
    assert!(
        !out.contains("\n  python\n"),
        "should not list intermediate dir without Dockerfile: {out}"
    );

    let pos_bash = out.find("bash").unwrap();
    let pos_python = out.find("python/basic").unwrap();
    let pos_rust = out.find("rust").unwrap();
    assert!(pos_bash < pos_python && pos_python < pos_rust, "not sorted: {out}");
}

#[test]
fn ignores_dirs_without_dockerfile() {
    let mut local = dir("");
    local.subdirs.push(dir("empty"));
    write_template(&mut local, "has");

    let out = list_output("dc_home/templates/local", Some(&local));
    assert!(out.contains("has"), "{out}");
    assert!(!out.contains("empty"), "dir without Dockerfile leaked: {out}");
}

#[test]
fn local_list_empty_local_prints_message() {
    let local = dir("");
    let out = list_output("dc_home/templates/local", Some(&local));
    assert!(
        out.to_lowercase().contains("no templates found"),
        "expected empty message, got: {out}"
    );
}

#[test]
fn local_list_missing_local_hints_init() {
    let out = list_output("dc_home/templates/local", None);
    assert!(
        out.to_lowercase().contains("dc init"),
        "expected hint to run dc init, got: {out}"
    );
}

#[test]
fn list_report_lines_are_exact() {
    let mut local = dir("");
    write_template(&mut local, "rust");
    write_template(&mut local, "python/basic");
    let found = find_templates(Some(&local));
    assert_eq!(found, vec!["python/basic".to_string(), "rust".to_string()]);
    let lines = list_report("/h/.dc/templates/local", Some(&found));
    assert_eq!(
        lines,
        vec![
            "Available local templates:".to_string(),
            "└──> python/basic".to_string(),
            "└──> rust".to_string(),
        ]
    );
    assert_eq!(
        list_report("/h/.dc/templates/local", None),
        vec!["No templates directory at /h/.dc/templates/local, run `dc init` first.".to_string()]
    );
    assert_eq!(
        list_report("/h/.dc/templates/local", Some(&Vec::new())),
        vec!["No templates found in /h/.dc/templates/local.".to_string()]
    );
}
