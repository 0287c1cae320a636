use vstd::prelude::*;

use crate::config::{
    law_layout_paths, local_dir, local_dir_of, remote_dir, remote_dir_of, templates_dir, templates_dir_of,
};
use crate::text::with_separator;
use crate::text::{concat2, concat3};

verus! {

/// The labels `dc init` prints, one per directory it sets up.
pub open spec fn init_labels() -> Seq<Seq<char>> {
    seq!["~/.dc"@, "   └── templates/"@, "       ├── local/"@, "       └── remote/"@]
}

/// The directories `dc init` sets up under `dc`, parents first.
pub open spec fn init_dirs(dc: Seq<char>) -> Seq<Seq<char>> {
    seq![dc, templates_dir_of(dc), local_dir_of(dc), remote_dir_of(dc)]
}

/// `s` followed by spaces up to `width` characters, as `{:<width}` writes it.
pub open spec fn padded(s: Seq<char>, width: nat) -> Seq<char> {
    if s.len() < width {
        s + Seq::new((width - s.len()) as nat, |i: int| ' ')
    } else {
        s
    }
}

/// The line `dc init` prints for the directory labelled `label`.
pub open spec fn init_line_of(label: Seq<char>, existed: bool) -> Seq<char> {
    "  "@ + padded(label, 20) + if existed {
        " # already exists"@
    } else {
        " # created"@
    }
}

/// The lines a run of `dc init` prints after its heading, when the
/// directories in `existing` are there before it.
pub open spec fn init_lines_of(dc: Seq<char>, existing: Set<Seq<char>>) -> Seq<Seq<char>> {
    Seq::new(4, |i: int| init_line_of(init_labels()[i], existing.contains(init_dirs(dc)[i])))
}

/// The directories that are there after a run of `dc init`.
pub open spec fn after_init(dc: Seq<char>, existing: Set<Seq<char>>) -> Set<Seq<char>> {
    existing.union(init_dirs(dc).to_set())
}

/// The help banner `dc init` prints after setting up its directories: the
/// tool's name and description, the full path of the templates directory,
/// and the commands.
pub open spec fn init_banner_of(dc: Seq<char>) -> Seq<Seq<char>> {
    seq![
        "dc: A CLI that manages Dev Environment Dockerfile Collections"@,
        "Templates: "@ + templates_dir_of(dc),
        "Commands:"@,
        "  dc init            Create the templates directories"@,
        "  dc local list      List local templates"@,
        "  dc local info      Show details of a local template"@,
        "  dc local launch    Build a local template's image if missing and run it"@,
        "  dc local delete    Delete local templates"@,
    ]
}

/// One directory that `dc init` sets up, with the label it prints for it.
pub struct InitEntry {
    /// The label printed for the directory.
    pub label: String,
    /// The directory.
    pub dir: String,
}

/// The directories `dc init` sets up under `dc`, in the order it handles them.
pub fn init_entries(dc: &str) -> (res: Vec<InitEntry>)
    ensures
        res@.len() == 4,
        forall|i: int|
            0 <= i < 4 ==> (#[trigger] res@[i]).label@ == init_labels()[i] && res@[i].dir@ == init_dirs(dc@)[i],
        res@[0].label@ == "~/.dc"@ && res@[0].dir@ == dc@,
        res@[1].label@ == "   └── templates/"@ && res@[1].dir@ == with_separator(dc@) + "templates"@,
        res@[2].label@ == "       ├── local/"@ && res@[2].dir@ == with_separator(dc@) + "templates/local"@,
        res@[3].label@ == "       └── remote/"@ && res@[3].dir@ == with_separator(dc@) + "templates/remote"@,
{
    let mut res: Vec<InitEntry> = Vec::new();
    res.push(InitEntry { label: "~/.dc".to_owned(), dir: dc.to_owned() });
    res.push(InitEntry { label: "   └── templates/".to_owned(), dir: templates_dir(dc) });
    res.push(InitEntry { label: "       ├── local/".to_owned(), dir: local_dir(dc) });
    res.push(InitEntry { label: "       └── remote/".to_owned(), dir: remote_dir(dc) });
    proof {
        law_layout_paths(dc@);
    }
    res
}

/// The heading `dc init` prints.
pub fn init_header(dc: &str) -> (res: String)
    ensures
        res@ == "Initializing DC at "@ + dc@,
{
    concat2("Initializing DC at ", dc)
}

/// The help banner `dc init` prints for the directory `dc`.
pub fn init_banner(dc: &str) -> (res: Vec<String>)
    ensures
        res.deep_view() == init_banner_of(dc@),
{
    let templates = templates_dir(dc);
    let mut res: Vec<String> = Vec::new();
    res.push("dc: A CLI that manages Dev Environment Dockerfile Collections".to_owned());
    res.push(concat2("Templates: ", templates.as_str()));
    res.push("Commands:".to_owned());
    res.push("  dc init            Create the templates directories".to_owned());
    res.push("  dc local list      List local templates".to_owned());
    res.push("  dc local info      Show details of a local template".to_owned());
    res.push("  dc local launch    Build a local template's image if missing and run it".to_owned());
    res.push("  dc local delete    Delete local templates".to_owned());
    assert(res.deep_view() =~= init_banner_of(dc@));
    res
}

/// `s` followed by spaces up to `width` characters.
pub fn pad_right(s: &str, width: usize) -> (res: String)
    ensures
        res@ == padded(s@, width as nat),
{
    let mut res = s.to_owned();
    let mut len = s.unicode_len();
    while len < width
        invariant
            len <= width || len == s@.len(),
            s@.len() <= len,
            res@ == s@ + Seq::new((len - s@.len()) as nat, |i: int| ' '),
        decreases width - len,
    {
        res.append(" ");
        proof {
            reveal_strlit(" ");
            assert(res@ =~= s@ + Seq::new((len + 1 - s@.len()) as nat, |i: int| ' '));
        }
        len += 1;
    }
    proof {
        if s@.len() >= width {
            assert(res@ =~= s@);
        }
    }
    res
}

/// The line `dc init` prints for the directory labelled `label`, which
/// either was there already or has just been created.
pub fn init_line(label: &str, existed: bool) -> (res: String)
    ensures
        res@ == init_line_of(label@, existed),
{
    let label = pad_right(label, 20);
    if existed {
        concat3("  ", label.as_str(), " # already exists")
    } else {
        concat3("  ", label.as_str(), " # created")
    }
}

/// Padding keeps the text and fills it with spaces up to the width; text as
/// long as the width or longer is kept as it is.
pub proof fn law_padding(s: Seq<char>, width: nat)
    ensures
        padded(s, width).len() == if s.len() < width { width } else { s.len() },
        s.is_prefix_of(padded(s, width)),
        forall|i: int| s.len() <= i < padded(s, width).len() ==> #[trigger] padded(s, width)[i] == ' ',
{
}

/// `dc init` handles parents before their children: `dc`, then `templates`
/// inside it, then `local` and `remote` inside that; each directory lies
/// inside the one before it, and the last two are different.
pub proof fn law_init_parents_first(dc: Seq<char>)
    ensures
        init_dirs(dc)[0] == dc,
        init_dirs(dc)[1] == with_separator(dc) + "templates"@,
        init_dirs(dc)[2] == with_separator(dc) + "templates/local"@,
        init_dirs(dc)[3] == with_separator(dc) + "templates/remote"@,
        init_dirs(dc)[0].is_prefix_of(init_dirs(dc)[1]),
        init_dirs(dc)[1].is_prefix_of(init_dirs(dc)[2]),
        init_dirs(dc)[1].is_prefix_of(init_dirs(dc)[3]),
        init_dirs(dc)[0].len() < init_dirs(dc)[1].len() < init_dirs(dc)[2].len(),
        init_dirs(dc)[2] != init_dirs(dc)[3],
{
    law_layout_paths(dc);
    crate::config::law_layout(dc);
    reveal_strlit("templates");
    reveal_strlit("templates/local");
    let w = with_separator(dc);
    assert(dc.is_prefix_of(w));
    assert(dc.is_prefix_of(w + "templates"@));
}

/// Running `dc init` again changes nothing and reports every directory as
/// already there.
pub proof fn law_init_is_idempotent(dc: Seq<char>, existing: Set<Seq<char>>)
    ensures
        after_init(dc, after_init(dc, existing)) == after_init(dc, existing),
        init_lines_of(dc, after_init(dc, existing)) == Seq::new(4, |i: int| init_line_of(init_labels()[i], true)),
{
    let after = after_init(dc, existing);
    assert forall|i: int| 0 <= i < 4 implies after.contains(#[trigger] init_dirs(dc)[i]) by {
        assert(init_dirs(dc).contains(init_dirs(dc)[i]));
    }
    assert(after_init(dc, after) =~= after);
    assert(init_lines_of(dc, after) =~= Seq::new(4, |i: int| init_line_of(init_labels()[i], true)));
}

/// `dc init` reports a directory as created exactly when it was not there.
pub proof fn law_init_reports_what_it_creates(dc: Seq<char>, existing: Set<Seq<char>>, i: int)
    requires
        0 <= i < 4,
    ensures
        init_lines_of(dc, existing)[i] == init_line_of(init_labels()[i], existing.contains(init_dirs(dc)[i])),
        after_init(dc, existing).contains(init_dirs(dc)[i]),
{
    assert(init_dirs(dc).contains(init_dirs(dc)[i]));
}

} // verus!
