use vstd::prelude::*;
use crate::text::{
    chars_of, join_path, joined, lemma_lex_irreflexive, lemma_lex_le_transitive, lemma_lex_total,
    lemma_lex_transitive, lex_le, lex_less, lex_lt,
    replace_char, replaced,
};

verus! {

/// What a walk of the file system saw of one directory: its name within its
/// parent, whether it holds a file named `Dockerfile`, and its
/// subdirectories (symbolic links to directories included).
pub struct DirNode {
    pub name: String,
    pub has_dockerfile: bool,
    pub subdirs: Vec<DirNode>,
}

/// A name a directory can have within its parent: not empty and without `/`.
pub open spec fn is_entry_name(name: Seq<char>) -> bool {
    name.len() > 0 && forall|i: int| 0 <= i < name.len() ==> name[i] != '/'
}

/// What holds of every snapshot of a real directory: each subdirectory has
/// an entry name, no two subdirectories of one directory share a name, and
/// the same holds below.
pub open spec fn well_formed(node: DirNode) -> bool
    decreases node,
{
    &&& forall|i: int| 0 <= i < node.subdirs@.len() ==> is_entry_name(#[trigger] node.subdirs@[i].name@)
    &&& forall|i: int, j: int|
        0 <= i < j < node.subdirs@.len() ==> #[trigger] node.subdirs@[i].name@ != #[trigger] node.subdirs@[j].name@
    &&& forall|i: int| 0 <= i < node.subdirs@.len() ==> well_formed(#[trigger] node.subdirs@[i])
}

/// No directory name in the snapshot holds a backslash.
pub open spec fn no_backslash_names(node: DirNode) -> bool
    decreases node,
{
    forall|i: int|
        0 <= i < node.subdirs@.len() ==> {
            &&& !(#[trigger] node.subdirs@[i]).name@.contains('\\')
            &&& no_backslash_names(node.subdirs@[i])
        }
}

/// The templates under `node`, in the order a depth-first walk meets them:
/// the path of every directory that holds a `Dockerfile`, relative to the
/// walked root, where `rel` is the path of `node` itself.
pub open spec fn node_templates(node: DirNode, rel: Seq<char>) -> Seq<Seq<char>>
    decreases node,
{
    let own: Seq<Seq<char>> = if node.has_dockerfile { seq![rel] } else { seq![] };
    own + subdirs_templates(node.subdirs@, rel)
}

/// The templates under each of `subdirs` in turn, `rel` being the path of
/// their parent.
pub open spec fn subdirs_templates(subdirs: Seq<DirNode>, rel: Seq<char>) -> Seq<Seq<char>>
    decreases subdirs,
{
    if subdirs.len() == 0 {
        seq![]
    } else {
        let last = subdirs[subdirs.len() - 1];
        subdirs_templates(subdirs.subrange(0, subdirs.len() - 1), rel)
            + node_templates(last, joined(rel, last.name@))
    }
}

/// Appends the templates under `node`, whose relative path is `rel`, to
/// `out`: `rel` itself first when `node` holds a `Dockerfile`, then the
/// templates under each subdirectory in turn.
pub fn walk(node: &DirNode, rel: &String, out: &mut Vec<String>)
    ensures
        final(out).deep_view() == old(out).deep_view() + node_templates(*node, rel@),
    decreases node,
{
    let ghost start = out.deep_view();
    if node.has_dockerfile {
        out.push(rel.clone());
        assert(out.deep_view() =~= start.push(rel@));
    }
    let ghost own: Seq<Seq<char>> = if node.has_dockerfile { seq![rel@] } else { seq![] };
    assert(out.deep_view() =~= start + own + subdirs_templates(node.subdirs@.subrange(0, 0), rel@));
    for i in 0..node.subdirs.len()
        invariant
            out.deep_view() =~= start + own + subdirs_templates(node.subdirs@.subrange(0, i as int), rel@),
    {
        let child = &node.subdirs[i];
        let child_rel = join_path(rel.as_str(), child.name.as_str());
        walk(child, &child_rel, out);
        assert(node.subdirs@.subrange(0, i + 1).subrange(0, i as int) =~= node.subdirs@.subrange(0, i as int));
    }
    assert(node.subdirs@.subrange(0, node.subdirs@.len() as int) =~= node.subdirs@);
}

/// How a template path is shown and matched: with every backslash written as `/`.
pub open spec fn display_of(path: Seq<char>) -> Seq<char> {
    replaced(path, '\\', '/')
}

/// The paths come in lexicographic order of how they are shown.
pub open spec fn sorted_by_display(paths: Seq<Seq<char>>) -> bool {
    forall|i: int, j: int|
        0 <= i < j < paths.len() ==> lex_le(display_of(#[trigger] paths[i]), display_of(#[trigger] paths[j]))
}

/// Whether a path is shown as `shown`.
pub open spec fn is_shown_as(shown: Seq<char>) -> spec_fn(Seq<char>) -> bool {
    |p: Seq<char>| display_of(p) == shown
}

/// The paths among `paths` that are shown as `shown`, in their order.
pub open spec fn shown_alike(paths: Seq<Seq<char>>, shown: Seq<char>) -> Seq<Seq<char>> {
    paths.filter(is_shown_as(shown))
}

proof fn lemma_filter_none(s: Seq<Seq<char>>, pred: spec_fn(Seq<char>) -> bool)
    requires
        forall|i: int| 0 <= i < s.len() ==> !pred(#[trigger] s[i]),
    ensures
        s.filter(pred) =~= Seq::<Seq<char>>::empty(),
    decreases s.len(),
{
    if s.len() > 0 {
        let front = s.drop_last();
        assert forall|i: int| 0 <= i < front.len() implies !pred(#[trigger] front[i]) by {
            assert(front[i] == s[i]);
        }
        lemma_filter_none(front, pred);
        front.lemma_filter_push(s.last(), pred);
        assert(front.push(s.last()) =~= s);
    }
}

/// How `path` is shown: every backslash written as `/`.
pub fn display_path(path: &str) -> (res: String)
    ensures
        res@ == display_of(path@),
{
    replace_char(path, '\\', '/')
}

fn display_chars(path: &String) -> (res: Vec<char>)
    ensures
        res@ == display_of(path@),
{
    let shown = display_path(path.as_str());
    chars_of(shown.as_str())
}

/// The same paths, ordered by how they are shown; paths shown alike keep
/// their order.
fn sort_by_display(items: Vec<String>) -> (res: Vec<String>)
    ensures
        res.deep_view().to_multiset() == items.deep_view().to_multiset(),
        sorted_by_display(res.deep_view()),
        forall|shown: Seq<char>| #[trigger] shown_alike(res.deep_view(), shown) == shown_alike(items.deep_view(), shown),
{
    broadcast use vstd::seq_lib::group_to_multiset_ensures;
    let mut res: Vec<String> = Vec::new();
    let n = items.len();
    for i in 0..n
        invariant
            n == items.len(),
            res.deep_view().to_multiset() == items.deep_view().take(i as int).to_multiset(),
            sorted_by_display(res.deep_view()),
            forall|shown: Seq<char>|
                #[trigger] shown_alike(res.deep_view(), shown) == shown_alike(items.deep_view().take(i as int), shown),
    {
        let item = items[i].clone();
        let key = display_chars(&item);
        let mut j: usize = 0;
        while j < res.len()
            invariant
                j <= res.len(),
                key@ == display_of(item@),
                forall|l: int| 0 <= l < j ==> lex_le(display_of(#[trigger] res.deep_view()[l]), key@),
            ensures
                j <= res.len(),
                forall|l: int| 0 <= l < j ==> lex_le(display_of(#[trigger] res.deep_view()[l]), key@),
                j < res.len() ==> lex_lt(key@, display_of(res.deep_view()[j as int])),
            decreases res.len() - j,
        {
            let other = display_chars(&res[j]);
            if lex_less(&key, &other) {
                assert(res.deep_view()[j as int] == res@[j as int]@);
                break;
            }
            assert(res.deep_view()[j as int] == res@[j as int]@);
            j += 1;
        }
        let ghost old_dv = res.deep_view();
        res.insert(j, item);
        proof {
            assert(res.deep_view() =~= old_dv.insert(j as int, item@));
            let new_dv = res.deep_view();
            assert forall|a: int, b: int| 0 <= a < b < new_dv.len() implies lex_le(
                display_of(#[trigger] new_dv[a]),
                display_of(#[trigger] new_dv[b]),
            ) by {
                if b < j {
                    assert(new_dv[a] == old_dv[a] && new_dv[b] == old_dv[b]);
                } else if b == j {
                    assert(new_dv[a] == old_dv[a]);
                } else if a == j {
                    assert(new_dv[b] == old_dv[b - 1]);
                    let kj = display_of(old_dv[j as int]);
                    lemma_lex_total(display_of(item@), kj);
                    if j + 1 < b {
                        lemma_lex_le_transitive(display_of(item@), kj, display_of(old_dv[b - 1]));
                    }
                } else if a < j {
                    assert(new_dv[a] == old_dv[a] && new_dv[b] == old_dv[b - 1]);
                } else {
                    assert(new_dv[a] == old_dv[a - 1] && new_dv[b] == old_dv[b - 1]);
                }
            }
            let prefix = old_dv.subrange(0, j as int);
            let suffix = old_dv.subrange(j as int, old_dv.len() as int);
            assert(old_dv =~= prefix + suffix);
            vstd::seq_lib::lemma_multiset_commutative(prefix, suffix);
            vstd::seq_lib::lemma_multiset_commutative(prefix.push(item@), suffix);
            assert(res.deep_view() =~= prefix.push(item@) + suffix);
            vstd::seq_lib::to_multiset_build(prefix, item@);
            vstd::seq_lib::to_multiset_build(items.deep_view().take(i as int), item@);
            assert(res.deep_view().to_multiset() =~= old_dv.to_multiset().insert(item@)) by {
                broadcast use vstd::multiset::group_multiset_axioms;
                assert(res.deep_view().to_multiset() =~= prefix.to_multiset().insert(item@).add(suffix.to_multiset()));
                assert(old_dv.to_multiset() =~= prefix.to_multiset().add(suffix.to_multiset()));
            }
            assert(items.deep_view().take(i + 1) =~= items.deep_view().take(i as int).push(item@));
            let key = display_of(item@);
            assert forall|l: int| 0 <= l < suffix.len() implies lex_lt(key, display_of(#[trigger] suffix[l])) by {
                assert(suffix[l] == old_dv[j + l]);
                let kj = display_of(old_dv[j as int]);
                if l > 0 {
                    lemma_lex_total(kj, display_of(old_dv[j + l]));
                    if kj != display_of(old_dv[j + l]) {
                        lemma_lex_transitive(key, kj, display_of(old_dv[j + l]));
                    }
                }
            }
            assert forall|shown: Seq<char>| #[trigger] shown_alike(res.deep_view(), shown) == shown_alike(
                items.deep_view().take(i + 1),
                shown,
            ) by {
                let pred = is_shown_as(shown);
                let taken = items.deep_view().take(i as int);
                taken.lemma_filter_push(item@, pred);
                prefix.lemma_filter_push(item@, pred);
                Seq::filter_distributes_over_add(prefix.push(item@), suffix, pred);
                Seq::filter_distributes_over_add(prefix, suffix, pred);
                assert(shown_alike(old_dv, shown) == shown_alike(taken, shown));
                assert(items.deep_view().take(i + 1).filter(pred) == taken.push(item@).filter(pred));
                assert(res.deep_view().filter(pred) == (prefix.push(item@) + suffix).filter(pred));
                assert(old_dv.filter(pred) == (prefix + suffix).filter(pred));
                if pred(item@) {
                    assert forall|l: int| 0 <= l < suffix.len() implies !pred(#[trigger] suffix[l]) by {
                        lemma_lex_irreflexive(key);
                    }
                    lemma_filter_none(suffix, pred);
                    assert(prefix.filter(pred).push(item@) + suffix.filter(pred) =~= (prefix.filter(pred)
                        + suffix.filter(pred)).push(item@));
                }
            }
        }
    }
    assert(items.deep_view().take(n as int) =~= items.deep_view());
    res
}

/// The name of the file that makes a directory a template.
pub const DOCKERFILE: &'static str = "Dockerfile";

/// The path of the `Dockerfile` that makes the directory `dir` a template.
pub fn dockerfile_path(dir: &str) -> (res: String)
    ensures
        res@ == joined(dir@, DOCKERFILE@),
{
    join_path(dir, DOCKERFILE)
}

/// `found` lists the templates under `root` (each as often as the walk
/// meets it) in the order of how they are shown, and templates shown alike
/// in the order the walk meets them.
pub open spec fn lists_templates_of(root: DirNode, found: Seq<Seq<char>>) -> bool {
    &&& found.to_multiset() == node_templates(root, Seq::empty()).to_multiset()
    &&& sorted_by_display(found)
    &&& forall|shown: Seq<char>|
        #[trigger] shown_alike(found, shown) == shown_alike(node_templates(root, Seq::empty()), shown)
}

/// The templates under `root`: the relative paths of the directories that
/// hold a `Dockerfile`, ordered by how they are shown. `None` stands for a
/// root that does not exist, which holds no templates.
pub fn find_templates(root: Option<&DirNode>) -> (res: Vec<String>)
    ensures
        match root {
            None => res@.len() == 0,
            Some(r) => lists_templates_of(*r, res.deep_view()),
        },
{
    match root {
        None => Vec::new(),
        Some(r) => {
            let mut out: Vec<String> = Vec::new();
            let start = String::new();
            walk(r, &start, &mut out);
            assert(out.deep_view() =~= node_templates(*r, Seq::empty()));
            sort_by_display(out)
        },
    }
}

/// `i` is the first position among `paths` of a path shown as `shown`.
pub open spec fn first_shown_as(paths: Seq<Seq<char>>, shown: Seq<char>, i: int) -> bool {
    &&& 0 <= i < paths.len()
    &&& display_of(paths[i]) == shown
    &&& forall|j: int| 0 <= j < i ==> display_of(#[trigger] paths[j]) != shown
}

/// No path among `paths` is shown as `shown`.
pub open spec fn none_shown_as(paths: Seq<Seq<char>>, shown: Seq<char>) -> bool {
    forall|j: int| 0 <= j < paths.len() ==> display_of(#[trigger] paths[j]) != shown
}

/// The position of the first of `paths` that is shown as `shown`.
pub fn position_shown_as(paths: &Vec<String>, shown: &String) -> (res: Option<usize>)
    ensures
        match res {
            Some(i) => first_shown_as(paths.deep_view(), shown@, i as int),
            None => none_shown_as(paths.deep_view(), shown@),
        },
{
    let n = paths.len();
    for i in 0..n
        invariant
            n == paths.len(),
            forall|j: int| 0 <= j < i ==> display_of(#[trigger] paths.deep_view()[j]) != shown@,
    {
        let item = display_path(paths[i].as_str());
        assert(paths.deep_view()[i as int] == paths@[i as int]@);
        if item == *shown {
            return Some(i);
        }
    }
    None
}

/// Showing a path only writes its backslashes as `/`: it keeps the length
/// and every other character, and what it shows holds no backslash.
pub proof fn law_display_only_rewrites_backslashes(path: Seq<char>)
    ensures
        display_of(path).len() == path.len(),
        forall|i: int| 0 <= i < path.len() && path[i] != '\\' ==> #[trigger] display_of(path)[i] == path[i],
        forall|i: int| 0 <= i < path.len() && path[i] == '\\' ==> #[trigger] display_of(path)[i] == '/',
        !display_of(path).contains('\\'),
{
}

/// Showing a path twice changes nothing: a shown name names itself.
pub proof fn law_display_is_idempotent(path: Seq<char>)
    ensures
        display_of(display_of(path)) == display_of(path),
{
    assert(display_of(display_of(path)) =~= display_of(path));
}

/// Naming a template the way it is listed picks a template listed the same
/// way, no later in the list.
pub proof fn law_listed_name_finds_template(paths: Seq<Seq<char>>, i: int)
    requires
        0 <= i < paths.len(),
    ensures
        exists|j: int|
            0 <= j <= i && first_shown_as(paths, display_of(display_of(paths[i])), j)
                && display_of(paths[j]) == display_of(paths[i]),
{
    law_display_is_idempotent(paths[i]);
    let shown = display_of(paths[i]);
    let j = first_index_shown_as(paths, shown, i);
    assert(first_shown_as(paths, display_of(display_of(paths[i])), j));
}

/// When no other path is shown like `paths[i]`, naming it the way it is
/// listed picks exactly `paths[i]`.
pub proof fn law_unique_name_finds_exactly(paths: Seq<Seq<char>>, i: int)
    requires
        0 <= i < paths.len(),
        forall|j: int| 0 <= j < paths.len() && j != i ==> display_of(#[trigger] paths[j]) != display_of(paths[i]),
    ensures
        first_shown_as(paths, display_of(display_of(paths[i])), i),
{
    law_display_is_idempotent(paths[i]);
}

/// The first position of a path shown as `shown`, given that `paths[i]` is.
pub proof fn first_index_shown_as(paths: Seq<Seq<char>>, shown: Seq<char>, i: int) -> (j: int)
    requires
        0 <= i < paths.len(),
        display_of(paths[i]) == shown,
    ensures
        0 <= j <= i,
        first_shown_as(paths, shown, j),
    decreases i,
{
    if exists|k: int| 0 <= k < i && display_of(paths[k]) == shown {
        let k = choose|k: int| 0 <= k < i && display_of(paths[k]) == shown;
        first_index_shown_as(paths, shown, k)
    } else {
        i
    }
}

} // verus!
