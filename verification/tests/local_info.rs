use dc::local::{details_text, info_source, pick_template, Pick};
use dc::text::join_path;

const LOCAL: &str = "/tmp/dc_home/templates/local";

fn templates(names: &[&str]) -> Vec<String> {
    names.iter().map(|n| n.to_string()).collect()
}

/// What `dc local info --template <name>` prints, given whether the chosen
/// template has a `details.txt` and the text of the file it shows.
fn info_output(found: Option<&Vec<String>>, name: &str, details: Option<&str>, dockerfile: &str) -> Result<String, String> {
    match pick_template(LOCAL, found, Some(name), false) {
        Pick::Stop(line) => Ok(format!("{line}\n")),
        Pick::Fail(e) => Err(e.message()),
        Pick::Ask(_) => Err("asked".to_string()),
        Pick::Use(rel) => {
            let dir = join_path(LOCAL, &rel);
            let has_details = details.is_some();
            let source = info_source(&dir, has_details);
            let expected_file = if has_details { "details.txt" } else { "Dockerfile" };
            assert_eq!(source, format!("{dir}/{expected_file}"));
            let content = details.unwrap_or(dockerfile);
            Ok(format!("{}\n", details_text(has_details, content)))
        }
    }
}

#[test]
fn shows_details_txt_when_present() {
    let found = templates(&["bash"]);
    let out = info_output(Some(&found), "bash", Some("my custom details\nline2"), "FROM ubuntu:22.04\n").unwrap();
    assert!(out.contains("Details of the Dockerfile:"), "missing header: {out}");
    assert!(out.contains("my custom details"), "missing details.txt content: {out}");
    assert!(out.contains("line2"), "missing details line2: {out}");
}

#[test]
fn falls_back_to_dockerfile() {
    let found = templates(&["bash"]);
    let out = info_output(Some(&found), "bash", None, "FROM ubuntu:22.04\nRUN echo hi\n").unwrap();
    assert!(out.contains("Dockerfile:"), "missing Dockerfile header: {out}");
    assert!(out.contains("FROM ubuntu:22.04"), "missing Dockerfile content: {out}");
    assert!(out.contains("RUN echo hi"), "missing second line: {out}");
}

#[test]
fn local_info_empty_local_prints_message() {
    let found: Vec<String> = Vec::new();
    let out = info_output(Some(&found), "bash", None, "").unwrap();
    assert!(
        out.to_lowercase().contains("no templates found"),
        "expected empty message, got: {out}"
    );
}

#[test]
fn local_info_missing_local_hints_init() {
    let out = info_output(None, "bash", None, "").unwrap();
    assert!(
        out.to_lowercase().contains("dc init"),
        "expected hint to run dc init, got: {out}"
    );
}

#[test]
fn local_info_unknown_template_errors() {
    let found = templates(&["bash"]);
    let err = info_output(Some(&found), "nonexistent", None, "").unwrap_err();
    assert!(
        err.to_lowercase().contains("not found"),
        "expected not found error, got: {err}"
    );
}

#[test]
fn details_text_is_exact() {
    assert_eq!(details_text(true, "abc"), "\nDetails of the Dockerfile: \nabc");
    assert_eq!(details_text(false, "FROM x"), "\nDockerfile: \nFROM x");
}

#[test]
fn info_without_name_asks_or_fails() {
    let found = templates(&["a\\b", "c"]);
    match pick_template(LOCAL, Some(&found), None, true) {
        Pick::Ask(items) => assert_eq!(items, vec!["a/b".to_string(), "c".to_string()]),
        _ => panic!("expected a prompt"),
    }
    match pick_template(LOCAL, Some(&found), None, false) {
        Pick::Fail(e) => assert_eq!(
            e.message(),
            "no template specified and no terminal available for selection"
        ),
        _ => panic!("expected the no-terminal error"),
    }
}

#[test]
fn info_name_matches_with_either_separator() {
    let found = templates(&["python\\basic", "rust"]);
    match pick_template(LOCAL, Some(&found), Some("python/basic"), false) {
        Pick::Use(rel) => assert_eq!(rel, "python\\basic"),
        _ => panic!("expected the template"),
    }
}
