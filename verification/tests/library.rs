use dc::config::{dc_dir, local_dir, remote_dir, templates_dir};
use dc::error::DcError;
use dc::local::{pick_answer, resolve_name, resolve_names, shown_names};
use dc::templates::{display_path, dockerfile_path, find_templates, position_shown_as, walk, DirNode};
use dc::text::{chars_of, concat3, join_path, lex_less, replace_char};

fn dir(name: &str, has_dockerfile: bool, subdirs: Vec<DirNode>) -> DirNode {
    DirNode { name: name.to_string(), has_dockerfile, subdirs }
}

fn strings(names: &[&str]) -> Vec<String> {
    names.iter().map(|n| n.to_string()).collect()
}

#[test]
fn join_path_follows_unix_rules() {
    assert_eq!(join_path("/a", "b"), "/a/b");
    assert_eq!(join_path("/a/", "b"), "/a/b");
    assert_eq!(join_path("", "b"), "b");
    assert_eq!(join_path("/a", "/etc"), "/etc");
    assert_eq!(join_path("/a", ""), "/a/");
}

#[test]
fn config_layout() {
    assert_eq!(templates_dir("/h/.dc"), "/h/.dc/templates");
    assert_eq!(local_dir("/h/.dc"), "/h/.dc/templates/local");
    assert_eq!(remote_dir("/h/.dc/"), "/h/.dc/templates/remote");
    assert_ne!(local_dir("x"), remote_dir("x"));
}

#[test]
fn dc_dir_prefers_dc_home() {
    assert_eq!(dc_dir(Some("/custom".to_string()), Some("/home/u".to_string())).unwrap(), "/custom");
    assert_eq!(dc_dir(None, Some("/home/u".to_string())).unwrap(), "/home/u/.dc");
    match dc_dir(None, None) {
        Err(e) => {
            assert!(matches!(e, DcError::NoHomeDirectory));
            assert_eq!(e.message(), "could not locate home directory");
        }
        Ok(d) => panic!("unexpected {d}"),
    }
}

#[test]
fn error_messages() {
    assert_eq!(DcError::TemplateNotFound("x".to_string()).message(), "template 'x' not found");
    assert_eq!(
        DcError::NoTerminal.message(),
        "no template specified and no terminal available for selection"
    );
    assert_eq!(DcError::DockerBuildFailed("py/b".to_string()).message(), "docker build failed for 'py/b'");
    assert_eq!(
        DcError::DockerRunFailed("exit status: 1".to_string()).message(),
        "docker run exited with exit status: 1"
    );
}

#[test]
fn text_helpers() {
    assert_eq!(replace_char("a/b/c", '/', '-'), "a-b-c");
    assert_eq!(display_path("a\\b/c"), "a/b/c");
    assert_eq!(display_path(&display_path("a\\b")), display_path("a\\b"));
    assert_eq!(chars_of("é/x"), vec!['é', '/', 'x']);
    assert_eq!(concat3("a", "b", "c"), "abc");
    assert!(lex_less(&chars_of("bash"), &chars_of("python/basic")));
    assert!(lex_less(&chars_of("py"), &chars_of("python")));
    assert!(!lex_less(&chars_of("rust"), &chars_of("rust")));
    assert!(!lex_less(&chars_of("rust"), &chars_of("python")));
    assert_eq!(dockerfile_path("/l/bash"), "/l/bash/Dockerfile");
}

#[test]
fn missing_root_has_no_templates() {
    assert!(find_templates(None).is_empty());
}

#[test]
fn root_itself_can_be_a_template() {
    let root = dir("", true, vec![dir("a", true, Vec::new())]);
    assert_eq!(find_templates(Some(&root)), strings(&["", "a"]));
}

#[test]
fn templates_are_found_at_any_depth_and_sorted() {
    let root = dir(
        "",
        false,
        vec![
            dir("zeta", true, vec![dir("inner", true, Vec::new())]),
            dir("alpha", false, vec![dir("deep", false, vec![dir("leaf", true, Vec::new())])]),
            dir("Beta", true, Vec::new()),
            dir("a\\z", true, Vec::new()),
        ],
    );
    assert_eq!(
        find_templates(Some(&root)),
        strings(&["Beta", "a\\z", "alpha/deep/leaf", "zeta", "zeta/inner"])
    );
}

#[test]
fn lookup_by_shown_name() {
    let paths = strings(&["a\\b", "a/b", "c"]);
    assert_eq!(position_shown_as(&paths, &"a/b".to_string()), Some(0));
    assert_eq!(position_shown_as(&paths, &"a\\b".to_string()), None);
    assert_eq!(position_shown_as(&paths, &"x".to_string()), None);
    assert_eq!(resolve_name(&paths, "a\\b").unwrap(), "a\\b");
    assert_eq!(pick_answer(&paths, &"c".to_string()), Some("c".to_string()));
    assert_eq!(pick_answer(&paths, &"zz".to_string()), None);
    assert_eq!(shown_names(&paths), strings(&["a/b", "a/b", "c"]));
    match resolve_names(&paths, &strings(&["c", "q"])) {
        Err(DcError::TemplateNotFound(n)) => assert_eq!(n, "q"),
        _ => panic!("expected q to be unknown"),
    }
    assert_eq!(resolve_names(&paths, &strings(&["c", "a/b"])).unwrap(), strings(&["c", "a\\b"]));
}

#[test]
fn every_listed_name_resolves_to_a_template_shown_alike() {
    let root = dir("", false, vec![dir("x", true, vec![dir("y", true, Vec::new())]), dir("w", true, Vec::new())]);
    let found = find_templates(Some(&root));
    for path in &found {
        let shown = display_path(path);
        let picked = resolve_name(&found, &shown).unwrap();
        assert_eq!(display_path(&picked), shown);
    }
}

fn sample(reverse: bool) -> DirNode {
    let mut python = vec![dir("basic", true, Vec::new()), dir("other", true, Vec::new())];
    let mut top = vec![dir("rust", true, Vec::new()), dir("bash", true, Vec::new())];
    if reverse {
        python.reverse();
        top.reverse();
    }
    let python_dir = dir("python", false, python);
    if reverse {
        top.insert(0, python_dir);
    } else {
        top.push(python_dir);
    }
    dir("", false, top)
}

#[test]
fn listing_ignores_listing_order_and_is_strictly_sorted() {
    let a = find_templates(Some(&sample(false)));
    let b = find_templates(Some(&sample(true)));
    assert_eq!(a, b);
    assert_eq!(a, strings(&["bash", "python/basic", "python/other", "rust"]));
    for pair in a.windows(2) {
        assert!(pair[0] < pair[1]);
    }
}

#[test]
fn walk_meets_own_entry_first_then_subdirectories_in_order() {
    let node = dir("x", true, vec![dir("b", true, Vec::new()), dir("a", false, vec![dir("c", true, Vec::new())])]);
    let mut out = strings(&["kept"]);
    walk(&node, &"x".to_string(), &mut out);
    assert_eq!(out, strings(&["kept", "x", "x/b", "x/a/c"]));
}

#[test]
fn names_shown_alike_keep_the_walk_order() {
    let root = dir("", false, vec![dir("a\\b", true, Vec::new()), dir("a", false, vec![dir("b", true, Vec::new())])]);
    assert_eq!(find_templates(Some(&root)), strings(&["a\\b", "a/b"]));
    let swapped = dir("", false, vec![dir("a", false, vec![dir("b", true, Vec::new())]), dir("a\\b", true, Vec::new())]);
    assert_eq!(find_templates(Some(&swapped)), strings(&["a/b", "a\\b"]));
}

#[test]
fn walk_from_a_path_ending_in_a_slash() {
    let node = dir("x", true, vec![dir("b", true, vec![dir("c", true, Vec::new())])]);
    let mut out = Vec::new();
    walk(&node, &"x/".to_string(), &mut out);
    assert_eq!(out, strings(&["x/", "x/b", "x/b/c"]));
}
