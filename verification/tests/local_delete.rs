use dc::local::{
    chosen_for_delete, delete_asks_confirmation, delete_confirmed, deleted_message,
    nothing_deleted_message, pick_for_delete, DeletePick,
};

const LOCAL: &str = "/tmp/dc_home/templates/local";

fn strings(names: &[&str]) -> Vec<String> {
    names.iter().map(|n| n.to_string()).collect()
}

/// What `dc local delete` prints, and what it deletes, with no terminal.
fn delete_run(found: Option<&Vec<String>>, names: &[&str], yes: bool) -> (String, Vec<String>, bool) {
    let names = strings(names);
    let mut out = String::new();
    let selected = match pick_for_delete(LOCAL, found, &names, false) {
        DeletePick::Stop(line) => {
            out.push_str(&line);
            return (out, Vec::new(), true);
        }
        DeletePick::Fail(e) => return (e.message(), Vec::new(), false),
        DeletePick::Ask(_) => panic!("no terminal to ask on"),
        DeletePick::Delete(selected) => selected,
    };
    assert!(!delete_asks_confirmation(yes, false));
    if !delete_confirmed(yes, false, None) {
        out.push_str(&nothing_deleted_message());
        return (out, Vec::new(), true);
    }
    for rel in &selected {
        out.push_str(&deleted_message(rel));
        out.push('\n');
    }
    (out, selected, true)
}

#[test]
fn deletes_multiple_with_yes() {
    let found = strings(&["bash", "python/basic", "rust"]);
    let (out, deleted, ok) = delete_run(Some(&found), &["bash", "rust"], true);
    assert!(ok);
    assert!(out.contains("Deleted 'bash'"), "missing bash delete: {out}");
    assert!(out.contains("Deleted 'rust'"), "missing rust delete: {out}");
    assert!(deleted.contains(&"bash".to_string()), "bash not deleted");
    assert!(deleted.contains(&"rust".to_string()), "rust not deleted");
    assert!(!deleted.contains(&"python/basic".to_string()), "python/basic should remain");
}

#[test]
fn aborts_on_no() {
    let found = strings(&["bash"]);
    let (out, deleted, ok) = delete_run(Some(&found), &["bash"], false);
    assert!(ok);
    assert!(out.contains("No template was deleted"), "expected abort message: {out}");
    assert!(deleted.is_empty(), "bash should not be deleted on abort");
}

#[test]
fn aborts_when_no_selection() {
    let found = strings(&["bash"]);
    let (out, deleted, ok) = delete_run(Some(&found), &[], false);
    assert!(ok);
    assert!(out.contains("No template was deleted"), "expected abort on empty selection: {out}");
    assert!(deleted.is_empty(), "bash should remain after empty");
}

#[test]
fn local_delete_empty_local_prints_message() {
    let found: Vec<String> = Vec::new();
    let (out, _, ok) = delete_run(Some(&found), &["bash"], true);
    assert!(ok);
    assert!(out.to_lowercase().contains("no templates found"), "expected empty message: {out}");
}

#[test]
fn local_delete_missing_local_hints_init() {
    let (out, _, ok) = delete_run(None, &["bash"], true);
    assert!(ok);
    assert!(out.to_lowercase().contains("dc init"), "expected hint: {out}");
}

#[test]
fn local_delete_unknown_template_errors() {
    let found = strings(&["bash"]);
    let (combined, deleted, ok) = delete_run(Some(&found), &["nonexistent"], true);
    assert!(!ok);
    assert!(deleted.is_empty());
    assert!(combined.to_lowercase().contains("not found"), "expected not found: {combined}");
}

#[test]
fn preserves_siblings() {
    let found = strings(&["bash", "python/basic", "python/other"]);
    let (_, deleted, ok) = delete_run(Some(&found), &["python/basic"], true);
    assert!(ok);
    assert_eq!(deleted, vec!["python/basic".to_string()], "python/basic not deleted");
    assert!(!deleted.contains(&"python/other".to_string()), "python/other should remain");
    assert!(!deleted.contains(&"bash".to_string()), "bash should remain");
}

#[test]
fn first_unknown_name_is_reported() {
    let found = strings(&["bash"]);
    match pick_for_delete(LOCAL, Some(&found), &strings(&["bash", "nope", "gone"]), true) {
        DeletePick::Fail(e) => assert_eq!(e.message(), "template 'nope' not found"),
        _ => panic!("expected an error"),
    }
}

#[test]
fn interactive_delete_asks_then_maps_answers() {
    let found = strings(&["a\\b", "c"]);
    let items = match pick_for_delete(LOCAL, Some(&found), &Vec::new(), true) {
        DeletePick::Ask(items) => items,
        _ => panic!("expected a prompt"),
    };
    assert_eq!(items, strings(&["a/b", "c"]));
    match chosen_for_delete(&found, &strings(&["c", "a/b"])) {
        Some(DeletePick::Delete(paths)) => assert_eq!(paths, strings(&["c", "a\\b"])),
        _ => panic!("expected a deletion"),
    }
    match chosen_for_delete(&found, &Vec::new()) {
        Some(DeletePick::Stop(line)) => assert_eq!(line, "No template was deleted."),
        _ => panic!("expected nothing to delete"),
    }
    assert!(chosen_for_delete(&found, &strings(&["zzz"])).is_none());
    assert_eq!(deleted_message("a\\b"), "Deleted 'a/b'");
}

#[test]
fn confirmation_rules() {
    assert!(delete_asks_confirmation(false, true));
    assert!(!delete_asks_confirmation(true, true));
    assert!(!delete_asks_confirmation(false, false));
    assert!(delete_confirmed(true, false, None));
    assert!(delete_confirmed(false, true, Some(true)));
    assert!(!delete_confirmed(false, true, Some(false)));
    assert!(!delete_confirmed(false, true, None));
    assert!(!delete_confirmed(false, false, Some(true)));
}
