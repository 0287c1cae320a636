use vstd::prelude::*;

use crate::templates::{display_of, display_path};
use crate::error::DcError;
use crate::text::{concat2, join_path, joined, replace_char, replaced};

verus! {

/// The slug of a local template: its identity `local/<path>` (as shown) with
/// every `/` written as `-`.
pub open spec fn slug_of(rel: Seq<char>) -> Seq<char> {
    replaced("local/"@ + display_of(rel), '/', '-')
}

/// The name of the image built from a local template.
pub open spec fn image_of(rel: Seq<char>) -> Seq<char> {
    "dc/"@ + slug_of(rel)
}

/// The name of the container run from a local template.
pub open spec fn container_of(rel: Seq<char>) -> Seq<char> {
    "dc-"@ + slug_of(rel)
}

/// The arguments of `docker run` for the template at `rel`, from the
/// working directory `cwd`: a throw-away container named `dc-<slug>`,
/// attached interactively (`-it`) only when a terminal is there, with `cwd`
/// mounted at `/workspace` and used as working directory.
pub open spec fn run_args_of(rel: Seq<char>, cwd: Seq<char>, interactive: bool) -> Seq<Seq<char>> {
    let start: Seq<Seq<char>> = if interactive { seq!["run"@, "-it"@] } else { seq!["run"@] };
    start + seq![
        "--rm"@,
        "--name"@,
        container_of(rel),
        "-v"@,
        cwd + ":/workspace"@,
        "-w"@,
        "/workspace"@,
        image_of(rel),
    ]
}

/// The arguments of `docker build` for the template at the relative path
/// `rel` of the directory `local`: tag the image, build the template's
/// directory.
pub open spec fn build_args_of(local: Seq<char>, rel: Seq<char>) -> Seq<Seq<char>> {
    seq!["build"@, "-t"@, image_of(rel), joined(local, rel)]
}

/// The arguments of `docker image inspect` for the image of the template at
/// `rel`; it succeeds exactly when that image exists.
pub open spec fn inspect_args_of(rel: Seq<char>) -> Seq<Seq<char>> {
    seq!["image"@, "inspect"@, image_of(rel)]
}

/// The name of the image built from the local template at `rel`.
pub fn image_name(rel: &str) -> (res: String)
    ensures
        res@ == image_of(rel@),
{
    let shown = display_path(rel);
    let identity = concat2("local/", shown.as_str());
    let slug = replace_char(identity.as_str(), '/', '-');
    concat2("dc/", slug.as_str())
}

/// The name of the container run from the local template at `rel`.
pub fn container_name(rel: &str) -> (res: String)
    ensures
        res@ == container_of(rel@),
{
    let shown = display_path(rel);
    let identity = concat2("local/", shown.as_str());
    let slug = replace_char(identity.as_str(), '/', '-');
    concat2("dc-", slug.as_str())
}

/// The arguments of `docker build` for the template at the relative path
/// `rel` of the directory `local`: tag the image, build the template's
/// directory.
pub fn build_args(local: &str, rel: &str) -> (res: Vec<String>)
    ensures
        res.deep_view() == build_args_of(local@, rel@),
        res@.len() == 4 && res@[2]@ == image_of(rel@),
{
    let mut res: Vec<String> = Vec::new();
    res.push("build".to_owned());
    res.push("-t".to_owned());
    res.push(image_name(rel));
    res.push(join_path(local, rel));
    assert(res.deep_view() =~= build_args_of(local@, rel@));
    res
}

/// The arguments of `docker run` for the template at `rel`, from the
/// working directory `cwd`, with or without a terminal.
pub fn run_args(rel: &str, cwd: &str, interactive: bool) -> (res: Vec<String>)
    ensures
        res.deep_view() == run_args_of(rel@, cwd@, interactive),
        res@.len() > 0 && res@[res@.len() - 1]@ == image_of(rel@),
{
    let mut res: Vec<String> = Vec::new();
    res.push("run".to_owned());
    if interactive {
        res.push("-it".to_owned());
    }
    res.push("--rm".to_owned());
    res.push("--name".to_owned());
    res.push(container_name(rel));
    res.push("-v".to_owned());
    res.push(concat2(cwd, ":/workspace"));
    res.push("-w".to_owned());
    res.push("/workspace".to_owned());
    res.push(image_name(rel));
    assert(res.deep_view() =~= run_args_of(rel@, cwd@, interactive));
    assert(res@[res@.len() - 1]@ == res.deep_view()[res@.len() - 1]);
    res
}

/// The arguments of `docker image inspect` for the image of the template at
/// `rel`.
pub fn inspect_args(rel: &str) -> (res: Vec<String>)
    ensures
        res.deep_view() == inspect_args_of(rel@),
{
    let mut res: Vec<String> = Vec::new();
    res.push("image".to_owned());
    res.push("inspect".to_owned());
    res.push(image_name(rel));
    assert(res.deep_view() =~= inspect_args_of(rel@));
    res
}

/// What happened in the last step of a launch.
pub enum LaunchEvent {
    /// `docker image inspect` told whether the image exists.
    ImageChecked(bool),
    /// `docker build` ended, successfully or not.
    BuildEnded(bool),
    /// `docker run` ended, successfully or not, with this status.
    RunEnded(bool, String),
}

/// What a launch does next.
pub enum LaunchAction {
    /// Run `docker` with these arguments to build the image.
    Build(Vec<String>),
    /// Run `docker` with these arguments to start the container.
    Run(Vec<String>),
    /// The launch is over and succeeded.
    Done,
    /// The launch is over and failed.
    Fail(DcError),
}

/// The next step of launching the local template at the relative path
/// `rel` of `local`, from the working directory `cwd`, with or without a
/// terminal (`interactive`), after `event`: the
/// image is built only when it is missing; a failed build ends the launch
/// with no container run; the launch fails when the container's run does.
pub fn launch_next(local: &str, rel: &str, cwd: &str, interactive: bool, event: LaunchEvent) -> (res: LaunchAction)
    ensures
        match event {
            LaunchEvent::ImageChecked(exists) => if exists {
                res matches LaunchAction::Run(args) && args.deep_view() == run_args_of(rel@, cwd@, interactive)
            } else {
                res matches LaunchAction::Build(args) && args.deep_view() == build_args_of(local@, rel@)
            },
            LaunchEvent::BuildEnded(ok) => if ok {
                res matches LaunchAction::Run(args) && args.deep_view() == run_args_of(rel@, cwd@, interactive)
            } else {
                res matches LaunchAction::Fail(DcError::DockerBuildFailed(path)) && path@ == rel@
            },
            LaunchEvent::RunEnded(ok, status) => if ok {
                res is Done
            } else {
                res matches LaunchAction::Fail(DcError::DockerRunFailed(s)) && s@ == status@
            },
        },
{
    match event {
        LaunchEvent::ImageChecked(exists) => {
            if exists {
                LaunchAction::Run(run_args(rel, cwd, interactive))
            } else {
                LaunchAction::Build(build_args(local, rel))
            }
        },
        LaunchEvent::BuildEnded(ok) => {
            if ok {
                LaunchAction::Run(run_args(rel, cwd, interactive))
            } else {
                LaunchAction::Fail(DcError::DockerBuildFailed(rel.to_owned()))
            }
        },
        LaunchEvent::RunEnded(ok, status) => {
            if ok {
                LaunchAction::Done
            } else {
                LaunchAction::Fail(DcError::DockerRunFailed(status))
            }
        },
    }
}

/// `docker run` starts the image that `docker build` tags and that
/// `docker image inspect` looks for, with or without a terminal.
pub proof fn law_run_starts_the_built_image(local: Seq<char>, rel: Seq<char>, cwd: Seq<char>, interactive: bool)
    ensures
        run_args_of(rel, cwd, interactive).last() == build_args_of(local, rel)[2],
        inspect_args_of(rel).last() == build_args_of(local, rel)[2],
        build_args_of(local, rel)[3] == joined(local, rel),
{
}

/// The slug spells the template's identity `local/<path>` with every `/`
/// and every backslash of the path written as `-`; the image and the
/// container differ only in their `dc/` and `dc-` prefixes.
pub proof fn law_slug_spells_identity(rel: Seq<char>)
    ensures
        slug_of(rel).len() == rel.len() + 6,
        slug_of(rel).subrange(0, 6) == "local-"@,
        forall|i: int|
            0 <= i < rel.len() ==> #[trigger] slug_of(rel)[i + 6] == (if rel[i] == '/' || rel[i] == '\\' {
                '-'
            } else {
                rel[i]
            }),
        image_of(rel).subrange(3, image_of(rel).len() as int) == slug_of(rel),
        container_of(rel).subrange(3, container_of(rel).len() as int) == slug_of(rel),
        image_of(rel).subrange(0, 3) == "dc/"@,
        container_of(rel).subrange(0, 3) == "dc-"@,
{
    reveal_strlit("local/");
    reveal_strlit("local-");
    reveal_strlit("dc/");
    reveal_strlit("dc-");
    let ident = "local/"@ + display_of(rel);
    assert(slug_of(rel).subrange(0, 6) =~= "local-"@) by {
        assert forall|i: int| 0 <= i < 6 implies slug_of(rel)[i] == "local-"@[i] by {
            assert(ident[i] == "local/"@[i]);
        }
    }
    assert forall|i: int| 0 <= i < rel.len() implies #[trigger] slug_of(rel)[i + 6] == (if rel[i] == '/' || rel[i]
        == '\\' {
        '-'
    } else {
        rel[i]
    }) by {
        assert(ident[i + 6] == display_of(rel)[i]);
    }
    assert(image_of(rel).subrange(3, image_of(rel).len() as int) =~= slug_of(rel));
    assert(container_of(rel).subrange(3, container_of(rel).len() as int) =~= slug_of(rel));
    assert(image_of(rel).subrange(0, 3) =~= "dc/"@);
    assert(container_of(rel).subrange(0, 3) =~= "dc-"@);
}

/// The slug of a template never holds a `/` or a `\`: the image and
/// container names keep their one `/` and nothing more.
pub proof fn lemma_slug_is_one_segment(rel: Seq<char>)
    ensures
        forall|i: int| 0 <= i < slug_of(rel).len() ==> #[trigger] slug_of(rel)[i] != '/' && slug_of(rel)[i] != '\\',
{
    reveal_strlit("local/");
    let prefix = "local/"@;
    let ident = prefix + display_of(rel);
    assert forall|i: int| 0 <= i < slug_of(rel).len() implies #[trigger] slug_of(rel)[i] != '/'
        && slug_of(rel)[i] != '\\' by {
        assert(slug_of(rel)[i] == (if ident[i] == '/' { '-' } else { ident[i] }));
        if i >= prefix.len() {
            assert(ident[i] == display_of(rel)[i - prefix.len()]);
        }
    }
}

} // verus!
