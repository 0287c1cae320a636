use vstd::prelude::*;

use crate::error::DcError;
use crate::text::{join_path, joined, law_join_appends, opt_view, with_separator};

verus! {

/// Where `dc` keeps its files: `DC_HOME` when it is set, else `.dc` in the
/// home directory; `None` when neither is known.
pub open spec fn dc_dir_of(dc_home: Option<Seq<char>>, home: Option<Seq<char>>) -> Option<Seq<char>> {
    match dc_home {
        Some(dir) => Some(dir),
        None => match home {
            Some(h) => Some(joined(h, ".dc"@)),
            None => None,
        },
    }
}

/// The directory that holds both template collections.
pub open spec fn templates_dir_of(dc: Seq<char>) -> Seq<char> {
    joined(dc, "templates"@)
}

/// The directory of the templates the user manages.
pub open spec fn local_dir_of(dc: Seq<char>) -> Seq<char> {
    joined(templates_dir_of(dc), "local"@)
}

/// The directory of the templates fetched from the project's repository.
pub open spec fn remote_dir_of(dc: Seq<char>) -> Seq<char> {
    joined(templates_dir_of(dc), "remote"@)
}

/// Where `dc` keeps its files, given the value of `DC_HOME` (if it is set)
/// and the user's home directory (if one is known).
pub fn dc_dir(dc_home: Option<String>, home: Option<String>) -> (res: Result<String, DcError>)
    ensures
        match dc_dir_of(opt_view(dc_home), opt_view(home)) {
            Some(dir) => res matches Ok(d) && d@ == dir,
            None => res matches Err(DcError::NoHomeDirectory),
        },
        dc_home matches Some(d) ==> (res matches Ok(r) && r@ == d@),
        dc_home is None ==> (home matches Some(h) ==> (res matches Ok(r) && r@ == joined(h@, ".dc"@))),
        dc_home is None && home is None ==> (res matches Err(DcError::NoHomeDirectory)),
{
    match dc_home {
        Some(dir) => Ok(dir),
        None => match home {
            Some(h) => Ok(join_path(h.as_str(), ".dc")),
            None => Err(DcError::NoHomeDirectory),
        },
    }
}

/// The directory that holds both template collections, under `dc`.
pub fn templates_dir(dc: &str) -> (res: String)
    ensures
        res@ == templates_dir_of(dc@),
{
    join_path(dc, "templates")
}

/// The directory of the user's own templates, under `dc`.
pub fn local_dir(dc: &str) -> (res: String)
    ensures
        res@ == local_dir_of(dc@),
{
    let templates = templates_dir(dc);
    join_path(templates.as_str(), "local")
}

/// The directory of the downloaded templates, under `dc`.
pub fn remote_dir(dc: &str) -> (res: String)
    ensures
        res@ == remote_dir_of(dc@),
{
    let templates = templates_dir(dc);
    join_path(templates.as_str(), "remote")
}

/// `DC_HOME`, when it is set, is where `dc` keeps its files, whether or not a
/// home directory is known; without it, `.dc` in the home directory; without
/// either, nowhere.
pub proof fn law_dc_home_comes_first(dir: Seq<char>, home: Option<Seq<char>>, h: Seq<char>)
    ensures
        dc_dir_of(Some(dir), home) == Some(dir),
        dc_dir_of(None, Some(h)) == Some(joined(h, ".dc"@)),
        dc_dir_of(None, None) is None,
{
}

/// The three directories spelled out: `templates`, `templates/local` and
/// `templates/remote` after `dc` and a separator.
pub proof fn law_layout_paths(dc: Seq<char>)
    ensures
        templates_dir_of(dc) == with_separator(dc) + "templates"@,
        local_dir_of(dc) == with_separator(dc) + "templates/local"@,
        remote_dir_of(dc) == with_separator(dc) + "templates/remote"@,
{
    reveal_strlit("templates");
    reveal_strlit("local");
    reveal_strlit("remote");
    reveal_strlit("templates/local");
    reveal_strlit("templates/remote");
    law_join_appends(dc, "templates"@);
    let t = templates_dir_of(dc);
    assert(t.len() > 0);
    assert(t.last() == 's');
    assert(with_separator(t) =~= t + seq!['/']);
    law_join_appends(t, "local"@);
    law_join_appends(t, "remote"@);
    assert(local_dir_of(dc) =~= with_separator(dc) + "templates/local"@);
    assert(remote_dir_of(dc) =~= with_separator(dc) + "templates/remote"@);
}

/// The local and the remote collections are two different directories, both
/// inside the templates directory, which is inside `dc`.
pub proof fn law_layout(dc: Seq<char>)
    ensures
        dc.is_prefix_of(templates_dir_of(dc)),
        templates_dir_of(dc).is_prefix_of(local_dir_of(dc)),
        templates_dir_of(dc).is_prefix_of(remote_dir_of(dc)),
        local_dir_of(dc) != remote_dir_of(dc),
        local_dir_of(dc) != templates_dir_of(dc),
        remote_dir_of(dc) != templates_dir_of(dc),
        templates_dir_of(dc) != dc,
{
    reveal_strlit("templates");
    reveal_strlit("local");
    reveal_strlit("remote");
    let t = templates_dir_of(dc);
    assert(t.len() > dc.len());
    assert(local_dir_of(dc).len() == t.len() + 6 || local_dir_of(dc).len() == t.len() + 5);
    assert(remote_dir_of(dc).len() == t.len() + 7 || remote_dir_of(dc).len() == t.len() + 6);
    if local_dir_of(dc) == remote_dir_of(dc) {
        let l = local_dir_of(dc);
        let r = remote_dir_of(dc);
        if t.len() > 0 && t.last() != '/' {
            assert(l[t.len() + 1int] == 'l');
            assert(r[t.len() + 1int] == 'r');
        } else {
            assert(l[t.len() as int] == 'l');
            assert(r[t.len() as int] == 'r');
        }
    }
}

} // verus!
