use vstd::prelude::*;

use crate::error::DcError;
use crate::templates::{
    display_of, display_path, first_index_shown_as, first_shown_as, none_shown_as, position_shown_as,
};
use crate::text::{concat2, concat3, join_path, joined};

verus! {

/// The line shown when the local templates directory does not exist.
pub open spec fn missing_dir_line(local: Seq<char>) -> Seq<char> {
    "No templates directory at "@ + local + ", run `dc init` first."@
}

/// The line shown when the local templates directory holds no template.
pub open spec fn no_templates_line(local: Seq<char>) -> Seq<char> {
    "No templates found in "@ + local + "."@
}

/// The line that heads the list of templates.
pub open spec fn list_header() -> Seq<char> {
    "Available local templates:"@
}

/// The line that lists one template.
pub open spec fn list_entry_line(path: Seq<char>) -> Seq<char> {
    "└──> "@ + display_of(path)
}

/// The line shown when a deletion ends without deleting anything.
pub open spec fn nothing_deleted_line() -> Seq<char> {
    "No template was deleted."@
}

/// The line shown for each deleted template.
pub open spec fn deleted_line(path: Seq<char>) -> Seq<char> {
    "Deleted '"@ + display_of(path) + "'"@
}

/// What is shown of a template: its `details.txt` when it has one, else its
/// `Dockerfile`, under a heading that says which.
pub open spec fn details_text_of(has_details: bool, content: Seq<char>) -> Seq<char> {
    if has_details {
        "\nDetails of the Dockerfile: \n"@ + content
    } else {
        "\nDockerfile: \n"@ + content
    }
}

/// The shown names of `paths`, in their order.
pub open spec fn shown_items(paths: Seq<Seq<char>>) -> Seq<Seq<char>> {
    paths.map_values(|p: Seq<char>| display_of(p))
}

/// `chosen[k]` is the first of `paths` shown as `names[k]` is shown.
pub open spec fn resolves_each(paths: Seq<Seq<char>>, names: Seq<Seq<char>>, chosen: Seq<Seq<char>>) -> bool {
    &&& chosen.len() == names.len()
    &&& forall|k: int|
        0 <= k < names.len() ==> exists|i: int|
            first_shown_as(paths, display_of(#[trigger] names[k]), i) && chosen[k] == paths[i]
}

/// `names[k]` is the first of `names` under which no path is shown.
pub open spec fn first_unknown(paths: Seq<Seq<char>>, names: Seq<Seq<char>>, k: int) -> bool {
    &&& 0 <= k < names.len()
    &&& none_shown_as(paths, display_of(names[k]))
    &&& forall|l: int| 0 <= l < k ==> !none_shown_as(paths, display_of(#[trigger] names[l]))
}

/// The line shown when the local templates directory does not exist.
pub fn missing_dir_message(local: &str) -> (res: String)
    ensures
        res@ == missing_dir_line(local@),
{
    concat3("No templates directory at ", local, ", run `dc init` first.")
}

/// The line shown when the local templates directory holds no template.
pub fn no_templates_message(local: &str) -> (res: String)
    ensures
        res@ == no_templates_line(local@),
{
    concat3("No templates found in ", local, ".")
}

/// The line shown when a deletion ends without deleting anything.
pub fn nothing_deleted_message() -> (res: String)
    ensures
        res@ == nothing_deleted_line(),
{
    "No template was deleted.".to_owned()
}

/// The line shown once the template at `path` is deleted.
pub fn deleted_message(path: &str) -> (res: String)
    ensures
        res@ == deleted_line(path@),
{
    let shown = display_path(path);
    concat3("Deleted '", shown.as_str(), "'")
}

/// The shown names of `paths`, in their order: what a prompt offers.
pub fn shown_names(paths: &Vec<String>) -> (res: Vec<String>)
    ensures
        res.deep_view() == shown_items(paths.deep_view()),
        res@.len() == paths@.len(),
        forall|k: int| 0 <= k < paths@.len() ==> (#[trigger] res@[k])@ == display_of(paths@[k]@),
{
    let mut res: Vec<String> = Vec::new();
    let n = paths.len();
    for i in 0..n
        invariant
            n == paths.len(),
            res.deep_view() =~= shown_items(paths.deep_view().take(i as int)),
    {
        let ghost before = res.deep_view();
        let shown = display_path(paths[i].as_str());
        res.push(shown);
        proof {
            let done = paths.deep_view().take(i as int);
            assert(paths.deep_view().take(i + 1) =~= done.push(paths@[i as int]@));
            assert(res.deep_view() =~= before.push(display_of(paths@[i as int]@)));
            assert(shown_items(done.push(paths@[i as int]@)) =~= shown_items(done).push(display_of(paths@[i as int]@)));
        }
    }
    assert(paths.deep_view().take(n as int) =~= paths.deep_view());
    proof {
        assert forall|k: int| 0 <= k < paths@.len() implies (#[trigger] res@[k])@ == display_of(paths@[k]@) by {
            assert(res.deep_view()[k] == res@[k]@);
            assert(paths.deep_view()[k] == paths@[k]@);
        }
    }
    res
}

/// A prompt offers one item per template, in their order: item `k` is how
/// template `k` is shown.
pub proof fn law_prompt_offers_every_template(paths: Seq<Seq<char>>)
    ensures
        shown_items(paths).len() == paths.len(),
        forall|k: int| 0 <= k < paths.len() ==> #[trigger] shown_items(paths)[k] == display_of(paths[k]),
{
}

/// Choosing item `k` of a prompt picks a template shown exactly as template
/// `k` is, no later in the list than it.
pub proof fn law_prompt_answer_round_trip(paths: Seq<Seq<char>>, k: int)
    requires
        0 <= k < paths.len(),
    ensures
        exists|j: int|
            0 <= j <= k && first_shown_as(paths, shown_items(paths)[k], j) && display_of(paths[j]) == display_of(
                paths[k],
            ),
{
    let j = first_index_shown_as(paths, display_of(paths[k]), k);
    assert(shown_items(paths)[k] == display_of(paths[k]));
}

/// A listed line shows the template's path after the `└──> ` marker.
pub proof fn law_list_line_shows_the_path(path: Seq<char>)
    ensures
        list_entry_line(path).len() == display_of(path).len() + 5,
        list_entry_line(path).subrange(0, 5) == "└──> "@,
        list_entry_line(path).subrange(5, list_entry_line(path).len() as int) == display_of(path),
{
    reveal_strlit("└──> ");
    assert(list_entry_line(path).subrange(0, 5) =~= "└──> "@);
    assert(list_entry_line(path).subrange(5, list_entry_line(path).len() as int) =~= display_of(path));
}

/// A deletion report names the deleted template as it is shown, in quotes.
pub proof fn law_deleted_line_names_the_template(path: Seq<char>)
    ensures
        deleted_line(path).len() == display_of(path).len() + 10,
        deleted_line(path).subrange(9, 9 + display_of(path).len() as int) == display_of(path),
        deleted_line(path).subrange(0, 9) == "Deleted '"@,
        deleted_line(path).last() == '\'',
{
    reveal_strlit("Deleted '");
    reveal_strlit("'");
    let d = deleted_line(path);
    assert(d.subrange(9, 9 + display_of(path).len() as int) =~= display_of(path));
    assert(d.subrange(0, 9) =~= "Deleted '"@);
}

/// A deletion picks only listed templates, each shown as the name asked for.
pub proof fn law_delete_only_named_templates(paths: Seq<Seq<char>>, names: Seq<Seq<char>>, chosen: Seq<Seq<char>>)
    requires
        resolves_each(paths, names, chosen),
    ensures
        chosen.len() == names.len(),
        forall|k: int| 0 <= k < chosen.len() ==> paths.contains(#[trigger] chosen[k]),
        forall|k: int| 0 <= k < chosen.len() ==> display_of(#[trigger] chosen[k]) == display_of(names[k]),
{
    assert forall|k: int| 0 <= k < chosen.len() implies paths.contains(#[trigger] chosen[k]) && display_of(chosen[k])
        == display_of(names[k]) by {
        let i = choose|i: int| first_shown_as(paths, display_of(names[k]), i) && chosen[k] == paths[i];
    }
}

/// What `dc local list` prints: a hint to run `dc init` when the directory
/// `local` is missing (`found` is `None`), a note when it holds no
/// template, else a heading and one line per template found.
pub fn list_report(local: &str, found: Option<&Vec<String>>) -> (res: Vec<String>)
    ensures
        match found {
            None => res.deep_view() == seq![missing_dir_line(local@)],
            Some(paths) => if paths@.len() == 0 {
                res.deep_view() == seq![no_templates_line(local@)]
            } else {
                res.deep_view() == seq![list_header()] + paths.deep_view().map_values(
                    |p: Seq<char>| list_entry_line(p),
                )
            },
        },
{
    let mut res: Vec<String> = Vec::new();
    match found {
        None => {
            res.push(missing_dir_message(local));
            assert(res.deep_view() =~= seq![missing_dir_line(local@)]);
        },
        Some(paths) => {
            if paths.len() == 0 {
                res.push(no_templates_message(local));
                assert(res.deep_view() =~= seq![no_templates_line(local@)]);
            } else {
                res.push("Available local templates:".to_owned());
                let n = paths.len();
                for i in 0..n
                    invariant
                        n == paths.len(),
                        res.deep_view() =~= seq![list_header()] + paths.deep_view().take(i as int).map_values(
                            |p: Seq<char>| list_entry_line(p),
                        ),
                {
                    let ghost before = res.deep_view();
                    let shown = display_path(paths[i].as_str());
                    res.push(concat2("└──> ", shown.as_str()));
                    proof {
                        let done = paths.deep_view().take(i as int);
                        let p = paths@[i as int]@;
                        assert(paths.deep_view().take(i + 1) =~= done.push(p));
                        assert(res.deep_view() =~= before.push(list_entry_line(p)));
                        assert(done.push(p).map_values(|q: Seq<char>| list_entry_line(q))
                            =~= done.map_values(|q: Seq<char>| list_entry_line(q)).push(list_entry_line(p)));
                    }
                }
                assert(paths.deep_view().take(n as int) =~= paths.deep_view());
            }
        },
    }
    res
}

/// The first of `paths` shown as `name` is shown, or the error that no
/// template goes by that name.
pub fn resolve_name(paths: &Vec<String>, name: &str) -> (res: Result<String, DcError>)
    ensures
        match res {
            Ok(p) => exists|i: int|
                first_shown_as(paths.deep_view(), display_of(name@), i) && p@ == paths.deep_view()[i],
            Err(e) => none_shown_as(paths.deep_view(), display_of(name@))
                && (e matches DcError::TemplateNotFound(m) && m@ == name@),
        },
{
    let shown = display_path(name);
    match position_shown_as(paths, &shown) {
        Some(i) => {
            assert(paths.deep_view()[i as int] == paths@[i as int]@);
            Ok(paths[i].clone())
        },
        None => Err(DcError::TemplateNotFound(name.to_owned())),
    }
}

/// Each of `names`, in order, resolved as by `resolve_name`; the error of
/// the first name that resolves to nothing.
pub fn resolve_names(paths: &Vec<String>, names: &Vec<String>) -> (res: Result<Vec<String>, DcError>)
    ensures
        match res {
            Ok(chosen) => resolves_each(paths.deep_view(), names.deep_view(), chosen.deep_view()),
            Err(e) => exists|k: int|
                first_unknown(paths.deep_view(), names.deep_view(), k)
                    && (e matches DcError::TemplateNotFound(m) && m@ == names.deep_view()[k]),
        },
{
    let mut chosen: Vec<String> = Vec::new();
    let n = names.len();
    for k in 0..n
        invariant
            n == names.len(),
            resolves_each(paths.deep_view(), names.deep_view().take(k as int), chosen.deep_view()),
    {
        assert(names.deep_view()[k as int] == names@[k as int]@);
        match resolve_name(paths, names[k].as_str()) {
            Ok(p) => {
                let ghost before = chosen.deep_view();
                chosen.push(p);
                proof {
                    let done = names.deep_view().take(k as int);
                    let now = names.deep_view().take(k + 1);
                    assert(now =~= done.push(names@[k as int]@));
                    assert(chosen.deep_view() =~= before.push(p@));
                    assert forall|j: int| 0 <= j < now.len() implies exists|i: int|
                        first_shown_as(paths.deep_view(), display_of(#[trigger] now[j]), i)
                            && chosen.deep_view()[j] == paths.deep_view()[i] by {
                        if j < k {
                            assert(now[j] == done[j]);
                        }
                    }
                }
            },
            Err(e) => {
                proof {
                    assert forall|l: int| 0 <= l < k implies !none_shown_as(
                        paths.deep_view(),
                        display_of(#[trigger] names.deep_view()[l]),
                    ) by {
                        let done = names.deep_view().take(k as int);
                        assert(done[l] == names.deep_view()[l]);
                        let i = choose|i: int| first_shown_as(paths.deep_view(), display_of(done[l]), i) && chosen.deep_view()[l] == paths.deep_view()[i];
                        assert(display_of(paths.deep_view()[i]) == display_of(done[l]));
                    }
                    assert(first_unknown(paths.deep_view(), names.deep_view(), k as int));
                }
                return Err(e);
            },
        }
    }
    assert(names.deep_view().take(n as int) =~= names.deep_view());
    Ok(chosen)
}

/// What a command that works on one local template does next.
pub enum Pick {
    /// Print this line and end without error.
    Stop(String),
    /// End with this error.
    Fail(DcError),
    /// Let the user choose one of these shown names.
    Ask(Vec<String>),
    /// Work on the template at this relative path.
    Use(String),
}

/// The template that `dc local info` and `dc local launch` work on, given
/// the templates found in `local` (`None` when that directory is missing),
/// the name given on the command line, if any, and whether a terminal is
/// there to ask on.
pub fn pick_template(local: &str, found: Option<&Vec<String>>, name: Option<&str>, interactive: bool) -> (res: Pick)
    ensures
        match found {
            None => res matches Pick::Stop(line) && line@ == missing_dir_line(local@),
            Some(paths) => if paths@.len() == 0 {
                res matches Pick::Stop(line) && line@ == no_templates_line(local@)
            } else {
                match name {
                    Some(n) => {
                        &&& none_shown_as(paths.deep_view(), display_of(n@)) ==> (res matches Pick::Fail(
                            DcError::TemplateNotFound(m),
                        ) && m@ == n@)
                        &&& forall|i: int|
                            first_shown_as(paths.deep_view(), display_of(n@), i) ==> (res matches Pick::Use(p)
                                && p@ == paths.deep_view()[i])
                    },
                    None => {
                        &&& interactive ==> (res matches Pick::Ask(items) && items.deep_view()
                            == shown_items(paths.deep_view()) && items@.len() == paths@.len() && forall|k: int|
                            0 <= k < paths@.len() ==> (#[trigger] items@[k])@ == display_of(paths@[k]@))
                        &&& !interactive ==> (res matches Pick::Fail(DcError::NoTerminal))
                    },
                }
            },
        },
{
    match found {
        None => Pick::Stop(missing_dir_message(local)),
        Some(paths) => {
            if paths.len() == 0 {
                Pick::Stop(no_templates_message(local))
            } else {
                match name {
                    Some(n) => match resolve_name(paths, n) {
                        Ok(p) => {
                            proof {
                                let dv = paths.deep_view();
                                let shown = display_of(n@);
                                let w = choose|i: int| first_shown_as(dv, shown, i) && p@ == dv[i];
                                assert forall|i: int| first_shown_as(dv, shown, i) implies p@ == dv[i] by {
                                    lemma_first_shown_as_unique(dv, shown, i, w);
                                }
                            }
                            Pick::Use(p)
                        },
                        Err(e) => Pick::Fail(e),
                    },
                    None => {
                        if interactive {
                            Pick::Ask(shown_names(paths))
                        } else {
                            Pick::Fail(DcError::NoTerminal)
                        }
                    },
                }
            }
        },
    }
}

/// There is only one first position of a path shown as `shown`.
pub proof fn lemma_first_shown_as_unique(paths: Seq<Seq<char>>, shown: Seq<char>, i: int, j: int)
    requires
        first_shown_as(paths, shown, i),
        first_shown_as(paths, shown, j),
    ensures
        i == j,
{
    if i < j {
        assert(display_of(paths[i]) != shown);
    } else if j < i {
        assert(display_of(paths[j]) != shown);
    }
}

/// Either no path is shown as `shown`, or there is a first one that is.
pub proof fn lemma_shown_as_cases(paths: Seq<Seq<char>>, shown: Seq<char>)
    ensures
        none_shown_as(paths, shown) || exists|i: int| first_shown_as(paths, shown, i),
    decreases paths.len(),
{
    if paths.len() > 0 && !none_shown_as(paths, shown) {
        let front = paths.drop_last();
        lemma_shown_as_cases(front, shown);
        if none_shown_as(front, shown) {
            let last = paths.len() - 1;
            assert forall|j: int| 0 <= j < last implies display_of(#[trigger] paths[j]) != shown by {
                assert(paths[j] == front[j]);
            }
            if display_of(paths[last]) != shown {
                assert(none_shown_as(paths, shown));
            }
            assert(first_shown_as(paths, shown, last));
        } else {
            let i = choose|i: int| first_shown_as(front, shown, i);
            assert forall|j: int| 0 <= j < i implies display_of(#[trigger] paths[j]) != shown by {
                assert(paths[j] == front[j]);
            }
            assert(paths[i] == front[i]);
            assert(first_shown_as(paths, shown, i));
        }
    }
}

/// The template behind the name `answer` that a prompt offered: the first of
/// `paths` that is shown as `answer`; `None` when the prompt offered no such
/// name.
pub fn pick_answer(paths: &Vec<String>, answer: &String) -> (res: Option<String>)
    ensures
        none_shown_as(paths.deep_view(), answer@) ==> res is None,
        forall|i: int|
            first_shown_as(paths.deep_view(), answer@, i) ==> (res matches Some(p) && p@
                == paths.deep_view()[i]),
{
    match position_shown_as(paths, answer) {
        Some(i) => {
            proof {
                assert forall|j: int| first_shown_as(paths.deep_view(), answer@, j) implies j == i by {
                    lemma_first_shown_as_unique(paths.deep_view(), answer@, i as int, j);
                }
                assert(paths.deep_view()[i as int] == paths@[i as int]@);
            }
            Some(paths[i].clone())
        },
        None => {
            proof {
                assert forall|j: int| !first_shown_as(paths.deep_view(), answer@, j) by {
                    if 0 <= j < paths.deep_view().len() {
                        assert(display_of(paths.deep_view()[j]) != answer@);
                    }
                }
            }
            None
        },
    }
}

/// Only one name is the first that resolves to nothing.
pub proof fn lemma_first_unknown_unique(paths: Seq<Seq<char>>, names: Seq<Seq<char>>, k: int, l: int)
    requires
        first_unknown(paths, names, k),
        first_unknown(paths, names, l),
    ensures
        k == l,
{
    if k < l {
        assert(!none_shown_as(paths, display_of(names[k])));
    } else if l < k {
        assert(!none_shown_as(paths, display_of(names[l])));
    }
}

/// `chosen[k]` is the first of `paths` shown exactly as `answers[k]`.
pub open spec fn answers_each(paths: Seq<Seq<char>>, answers: Seq<Seq<char>>, chosen: Seq<Seq<char>>) -> bool {
    &&& chosen.len() == answers.len()
    &&& forall|k: int|
        0 <= k < answers.len() ==> exists|i: int|
            first_shown_as(paths, #[trigger] answers[k], i) && chosen[k] == paths[i]
}

/// What `dc local delete` does next.
pub enum DeletePick {
    /// Print this line and end without error.
    Stop(String),
    /// End with this error.
    Fail(DcError),
    /// Let the user choose any of these shown names.
    Ask(Vec<String>),
    /// Delete the templates at these relative paths, in this order, once confirmed.
    Delete(Vec<String>),
}

/// The templates that `dc local delete` removes, given the templates found
/// in `local` (`None` when that directory is missing), the names given on
/// the command line, and whether a terminal is there to ask on.
pub fn pick_for_delete(local: &str, found: Option<&Vec<String>>, names: &Vec<String>, interactive: bool) -> (res: DeletePick)
    ensures
        match found {
            None => res matches DeletePick::Stop(line) && line@ == missing_dir_line(local@),
            Some(paths) => if paths@.len() == 0 {
                res matches DeletePick::Stop(line) && line@ == no_templates_line(local@)
            } else if names@.len() > 0 {
                &&& forall|k: int|
                    first_unknown(paths.deep_view(), names.deep_view(), k) ==> (res matches DeletePick::Fail(
                        DcError::TemplateNotFound(m),
                    ) && m@ == names.deep_view()[k])
                &&& (forall|k: int|
                    0 <= k < names@.len() ==> !none_shown_as(
                        paths.deep_view(),
                        display_of(#[trigger] names.deep_view()[k]),
                    )) ==> (res matches DeletePick::Delete(chosen) && resolves_each(
                    paths.deep_view(),
                    names.deep_view(),
                    chosen.deep_view(),
                ))
            } else if interactive {
                res matches DeletePick::Ask(items) && items.deep_view() == shown_items(paths.deep_view())
                    && items@.len() == paths@.len() && forall|k: int|
                    0 <= k < paths@.len() ==> (#[trigger] items@[k])@ == display_of(paths@[k]@)
            } else {
                res matches DeletePick::Stop(line) && line@ == nothing_deleted_line()
            },
        },
{
    match found {
        None => DeletePick::Stop(missing_dir_message(local)),
        Some(paths) => {
            if paths.len() == 0 {
                DeletePick::Stop(no_templates_message(local))
            } else if names.len() > 0 {
                match resolve_names(paths, names) {
                    Ok(chosen) => {
                        proof {
                            assert forall|k: int| !first_unknown(paths.deep_view(), names.deep_view(), k) by {
                                if 0 <= k < names.deep_view().len() {
                                    let i = choose|i: int|
                                        first_shown_as(
                                            paths.deep_view(),
                                            display_of(names.deep_view()[k]),
                                            i,
                                        ) && chosen.deep_view()[k] == paths.deep_view()[i];
                                    assert(display_of(paths.deep_view()[i]) == display_of(names.deep_view()[k]));
                                }
                            }
                        }
                        DeletePick::Delete(chosen)
                    },
                    Err(e) => {
                        proof {
                            let k0 = choose|k: int|
                                first_unknown(paths.deep_view(), names.deep_view(), k) && (e matches DcError::TemplateNotFound(m)
                                    && m@ == names.deep_view()[k]);
                            assert forall|k: int| first_unknown(paths.deep_view(), names.deep_view(), k) implies k == k0 by {
                                lemma_first_unknown_unique(paths.deep_view(), names.deep_view(), k, k0);
                            }
                        }
                        DeletePick::Fail(e)
                    },
                }
            } else if interactive {
                DeletePick::Ask(shown_names(paths))
            } else {
                DeletePick::Stop(nothing_deleted_message())
            }
        },
    }
}

/// The templates behind the names a prompt returned: `None` when one of
/// them is not shown for any template; nothing to delete when the user
/// chose none.
pub fn chosen_for_delete(paths: &Vec<String>, answers: &Vec<String>) -> (res: Option<DeletePick>)
    ensures
        answers@.len() == 0 ==> (res matches Some(DeletePick::Stop(line)) && line@ == nothing_deleted_line()),
        answers@.len() > 0 && (forall|k: int|
            0 <= k < answers@.len() ==> !none_shown_as(paths.deep_view(), #[trigger] answers.deep_view()[k]))
            ==> (res matches Some(DeletePick::Delete(chosen)) && answers_each(
            paths.deep_view(),
            answers.deep_view(),
            chosen.deep_view(),
        )),
        (exists|k: int| 0 <= k < answers@.len() && none_shown_as(paths.deep_view(), #[trigger] answers.deep_view()[k]))
            ==> res is None,
{
    if answers.len() == 0 {
        return Some(DeletePick::Stop(nothing_deleted_message()));
    }
    let mut chosen: Vec<String> = Vec::new();
    let n = answers.len();
    for k in 0..n
        invariant
            n == answers.len(),
            answers_each(paths.deep_view(), answers.deep_view().take(k as int), chosen.deep_view()),
            forall|l: int| 0 <= l < k ==> !none_shown_as(paths.deep_view(), #[trigger] answers.deep_view()[l]),
    {
        assert(answers.deep_view()[k as int] == answers@[k as int]@);
        match pick_answer(paths, &answers[k]) {
            Some(p) => {
                let ghost before = chosen.deep_view();
                chosen.push(p);
                proof {
                    let a = answers.deep_view()[k as int];
                    lemma_shown_as_cases(paths.deep_view(), a);
                    let w = choose|i: int| first_shown_as(paths.deep_view(), a, i);
                    assert(p@ == paths.deep_view()[w]);
                    let done = answers.deep_view().take(k as int);
                    let now = answers.deep_view().take(k + 1);
                    assert(now =~= done.push(a));
                    assert(chosen.deep_view() =~= before.push(p@));
                    assert forall|j: int| 0 <= j < now.len() implies exists|i: int|
                        first_shown_as(paths.deep_view(), #[trigger] now[j], i)
                            && chosen.deep_view()[j] == paths.deep_view()[i] by {
                        if j < k {
                            assert(now[j] == done[j]);
                        } else {
                            assert(first_shown_as(paths.deep_view(), now[j], w));
                        }
                    }
                    assert(!none_shown_as(paths.deep_view(), a)) by {
                        assert(display_of(paths.deep_view()[w]) == a);
                    }
                }
            },
            None => {
                proof {
                    lemma_shown_as_cases(paths.deep_view(), answers.deep_view()[k as int]);
                }
                return None;
            },
        }
    }
    assert(answers.deep_view().take(n as int) =~= answers.deep_view());
    Some(DeletePick::Delete(chosen))
}

/// Whether `dc local delete` asks for confirmation: only without `--yes`
/// and with a terminal to ask on.
pub fn delete_asks_confirmation(yes: bool, interactive: bool) -> (res: bool)
    ensures
        res == (!yes && interactive),
{
    !yes && interactive
}

/// Whether `dc local delete` goes ahead: with `--yes`, or when the user
/// answered yes on a terminal; a failed prompt counts as no.
pub fn delete_confirmed(yes: bool, interactive: bool, answer: Option<bool>) -> (res: bool)
    ensures
        res == (yes || (interactive && answer == Some(true))),
{
    if yes {
        true
    } else if !interactive {
        false
    } else {
        match answer {
            Some(a) => a,
            None => false,
        }
    }
}

/// The file whose text `dc local info` shows for the template directory
/// `dir`: its `details.txt` when that is a file, else its `Dockerfile`.
pub fn info_source(dir: &str, has_details: bool) -> (res: String)
    ensures
        res@ == (if has_details { joined(dir@, "details.txt"@) } else { joined(dir@, "Dockerfile"@) }),
{
    if has_details {
        join_path(dir, "details.txt")
    } else {
        join_path(dir, "Dockerfile")
    }
}

/// The path of the optional `details.txt` of the template directory `dir`.
pub fn details_path(dir: &str) -> (res: String)
    ensures
        res@ == joined(dir@, "details.txt"@),
{
    join_path(dir, "details.txt")
}

/// What `dc local info` prints for a template, given the text of the file
/// that `info_source` names.
pub fn details_text(has_details: bool, content: &str) -> (res: String)
    ensures
        res@ == details_text_of(has_details, content@),
{
    if has_details {
        concat2("\nDetails of the Dockerfile: \n", content)
    } else {
        concat2("\nDockerfile: \n", content)
    }
}

} // verus!
