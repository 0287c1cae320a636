use vstd::prelude::*;

use crate::templates::{
    display_of, is_entry_name, lists_templates_of, no_backslash_names, node_templates, subdirs_templates,
    well_formed, DirNode,
};
use crate::text::{joined, lemma_lex_total, lex_lt, with_separator};

verus! {

/// `p` is the path `base` or a path below it.
pub open spec fn at_or_below(p: Seq<char>, base: Seq<char>) -> bool {
    &&& base.is_prefix_of(p)
    &&& (p.len() == base.len() || p[base.len() as int] == '/')
}

/// `base` is empty or does not end in `/`, so joining a name onto it adds
/// exactly one separator.
pub open spec fn ends_clean(base: Seq<char>) -> bool {
    base.len() == 0 || base.last() != '/'
}

proof fn lemma_joined_entry(base: Seq<char>, name: Seq<char>)
    requires
        is_entry_name(name),
    ensures
        joined(base, name) == with_separator(base) + name,
        joined(base, name).len() > base.len(),
        ends_clean(joined(base, name)),
        joined(base, name).len() > 0,
        base.is_prefix_of(joined(base, name)),
        base.len() > 0 && ends_clean(base) ==> at_or_below(joined(base, name), base),
        !base.contains('\\') && !name.contains('\\') ==> !joined(base, name).contains('\\'),
{
    assert(name[0] != '/');
    let j = joined(base, name);
    let w = with_separator(base);
    if base.len() == 0 {
        assert(base + name =~= name);
        assert(w + name =~= name);
    } else {
        assert(j =~= w + name);
    }
    assert(base.is_prefix_of(j)) by {
        assert forall|i: int| 0 <= i < base.len() implies j[i] == base[i] by {
            assert(j[i] == w[i]);
        }
    }
    if !base.contains('\\') && !name.contains('\\') {
        assert forall|i: int| 0 <= i < j.len() implies j[i] != '\\' by {
            if i < base.len() {
                assert(j[i] == base[i]);
            } else if i >= w.len() {
                assert(j[i] == name[i - w.len()]);
            } else {
                assert(j[i] == '/');
            }
        }
    }
    assert(j.last() == name.last());
    assert(name.last() == name[name.len() - 1]);
}

/// Every template under `node` lies at or below `base`, its path, and holds
/// no backslash when neither `base` nor any name below does.
proof fn lemma_below(node: DirNode, base: Seq<char>)
    requires
        well_formed(node),
        base.len() > 0,
        ends_clean(base),
    ensures
        forall|k: int|
            0 <= k < node_templates(node, base).len() ==> at_or_below(#[trigger] node_templates(node, base)[k], base),
        no_backslash_names(node) && !base.contains('\\') ==> forall|k: int|
            0 <= k < node_templates(node, base).len() ==> !(#[trigger] node_templates(node, base)[k]).contains('\\'),
    decreases node,
{
    let ss = node.subdirs@;
    lemma_below_subdirs(ss, base);
    let own: Seq<Seq<char>> = if node.has_dockerfile { seq![base] } else { seq![] };
    let subs = subdirs_templates(ss, base);
    let all = node_templates(node, base);
    assert(all == own + subs);
    assert forall|k: int| 0 <= k < all.len() implies at_or_below(#[trigger] all[k], base) by {
        if k < own.len() {
            assert(all[k] == base);
            assert(base.is_prefix_of(base));
        } else {
            let p = subs[k - own.len()];
            assert(all[k] == p);
            let i = choose|i: int| 0 <= i < ss.len() && at_or_below(p, joined(base, ss[i].name@));
            lemma_joined_entry(base, ss[i].name@);
            let c = joined(base, ss[i].name@);
            assert(p[base.len() as int] == c[base.len() as int]);
            assert forall|t: int| 0 <= t < base.len() implies p[t] == base[t] by {
                assert(p[t] == c[t]);
            }
        }
    }
    if no_backslash_names(node) && !base.contains('\\') {
        assert forall|k: int| 0 <= k < all.len() implies !(#[trigger] all[k]).contains('\\') by {
            if k >= own.len() {
                assert(all[k] == subs[k - own.len()]);
            }
        }
    }
}

/// Every template under the subdirectories `ss` of a directory at `base`
/// lies at or below the path of one of them.
proof fn lemma_below_subdirs(ss: Seq<DirNode>, base: Seq<char>)
    requires
        forall|i: int| 0 <= i < ss.len() ==> well_formed(#[trigger] ss[i]) && is_entry_name(ss[i].name@),
    ensures
        forall|k: int|
            0 <= k < subdirs_templates(ss, base).len() ==> exists|i: int|
                0 <= i < ss.len() && at_or_below(#[trigger] subdirs_templates(ss, base)[k], joined(base, ss[i].name@)),
        (forall|i: int| 0 <= i < ss.len() ==> no_backslash_names(#[trigger] ss[i]) && !ss[i].name@.contains('\\'))
            && !base.contains('\\') ==> forall|k: int|
            0 <= k < subdirs_templates(ss, base).len() ==> !(#[trigger] subdirs_templates(ss, base)[k]).contains('\\'),
    decreases ss,
{
    if ss.len() > 0 {
        let n = ss.len() - 1;
        let front = ss.subrange(0, n);
        let last = ss[n];
        let cb = joined(base, last.name@);
        lemma_below_subdirs(front, base);
        lemma_joined_entry(base, last.name@);
        lemma_below(last, cb);
        let left = subdirs_templates(front, base);
        let right = node_templates(last, cb);
        let all = subdirs_templates(ss, base);
        assert(all == left + right);
        assert forall|k: int| 0 <= k < all.len() implies exists|i: int|
            0 <= i < ss.len() && at_or_below(#[trigger] all[k], joined(base, ss[i].name@)) by {
            if k < left.len() {
                assert(all[k] == left[k]);
                let i = choose|i: int| 0 <= i < front.len() && at_or_below(left[k], joined(base, front[i].name@));
                assert(front[i] == ss[i]);
            } else {
                assert(all[k] == right[k - left.len()]);
                assert(at_or_below(all[k], joined(base, ss[n].name@)));
            }
        }
        if (forall|i: int| 0 <= i < ss.len() ==> no_backslash_names(#[trigger] ss[i]) && !ss[i].name@.contains('\\'))
            && !base.contains('\\') {
            assert(no_backslash_names(last) && !last.name@.contains('\\'));
            assert forall|k: int| 0 <= k < all.len() implies !(#[trigger] all[k]).contains('\\') by {
                if k < left.len() {
                    assert(all[k] == left[k]);
                    assert forall|i: int| 0 <= i < front.len() implies no_backslash_names(#[trigger] front[i])
                        && !front[i].name@.contains('\\') by {
                        assert(front[i] == ss[i]);
                    }
                } else {
                    assert(all[k] == right[k - left.len()]);
                }
            }
        }
    }
}

/// Two different entry names joined onto the same base lead to two paths
/// that nothing lies at or below both of.
proof fn lemma_apart(base: Seq<char>, n1: Seq<char>, n2: Seq<char>, p: Seq<char>)
    requires
        is_entry_name(n1),
        is_entry_name(n2),
        n1 != n2,
    ensures
        !(at_or_below(p, joined(base, n1)) && at_or_below(p, joined(base, n2))),
{
    lemma_joined_entry(base, n1);
    lemma_joined_entry(base, n2);
    let a = joined(base, n1);
    let b = joined(base, n2);
    let off = a.len() - n1.len();
    assert(b.len() - n2.len() == off);
    assert forall|t: int| 0 <= t < n1.len() implies a[off + t] == n1[t] by {}
    assert forall|t: int| 0 <= t < n2.len() implies b[off + t] == n2[t] by {}
    if at_or_below(p, a) && at_or_below(p, b) {
        if n1.len() == n2.len() {
            assert forall|t: int| 0 <= t < n1.len() implies n1[t] == n2[t] by {
                assert(p[off + t] == a[off + t]);
                assert(p[off + t] == b[off + t]);
            }
            assert(n1 =~= n2);
        } else if n1.len() < n2.len() {
            assert(p[a.len() as int] == b[a.len() as int]);
            assert(b[a.len() as int] == n2[n1.len() as int]);
        } else {
            assert(p[b.len() as int] == a[b.len() as int]);
            assert(a[b.len() as int] == n1[n2.len() as int]);
        }
    }
}

proof fn lemma_concat_no_duplicates(a: Seq<Seq<char>>, b: Seq<Seq<char>>)
    requires
        a.no_duplicates(),
        b.no_duplicates(),
        forall|i: int, j: int| 0 <= i < a.len() && 0 <= j < b.len() ==> a[i] != b[j],
    ensures
        (a + b).no_duplicates(),
{
    let c = a + b;
    assert forall|i: int, j: int| 0 <= i < c.len() && 0 <= j < c.len() && i != j implies c[i] != c[j] by {
        if i < a.len() && j < a.len() {
        } else if i >= a.len() && j >= a.len() {
            assert(c[i] == b[i - a.len()] && c[j] == b[j - a.len()]);
        } else if i < a.len() {
            assert(c[j] == b[j - a.len()]);
        } else {
            assert(c[i] == b[i - a.len()]);
        }
    }
}

/// In a well-formed snapshot the walk meets no template path twice.
proof fn lemma_distinct(node: DirNode, base: Seq<char>)
    requires
        well_formed(node),
    ensures
        node_templates(node, base).no_duplicates(),
    decreases node,
{
    let ss = node.subdirs@;
    lemma_distinct_subdirs(ss, base);
    lemma_below_subdirs(ss, base);
    let own: Seq<Seq<char>> = if node.has_dockerfile { seq![base] } else { seq![] };
    let subs = subdirs_templates(ss, base);
    assert forall|i: int, j: int| 0 <= i < own.len() && 0 <= j < subs.len() implies own[i] != subs[j] by {
        let c = choose|c: int| 0 <= c < ss.len() && at_or_below(subs[j], joined(base, ss[c].name@));
        lemma_joined_entry(base, ss[c].name@);
    }
    lemma_concat_no_duplicates(own, subs);
}

/// The subdirectories `ss`, with distinct entry names, of a directory at
/// `base` hold no template path twice.
proof fn lemma_distinct_subdirs(ss: Seq<DirNode>, base: Seq<char>)
    requires
        forall|i: int| 0 <= i < ss.len() ==> well_formed(#[trigger] ss[i]) && is_entry_name(ss[i].name@),
        forall|i: int, j: int| 0 <= i < j < ss.len() ==> #[trigger] ss[i].name@ != #[trigger] ss[j].name@,
    ensures
        subdirs_templates(ss, base).no_duplicates(),
    decreases ss,
{
    if ss.len() > 0 {
        let n = ss.len() - 1;
        let front = ss.subrange(0, n);
        let last = ss[n];
        let cb = joined(base, last.name@);
        assert forall|i: int, j: int| 0 <= i < j < front.len() implies #[trigger] front[i].name@ != #[trigger] front[j].name@ by {
            assert(front[i] == ss[i] && front[j] == ss[j]);
        }
        lemma_distinct_subdirs(front, base);
        lemma_below_subdirs(front, base);
        lemma_joined_entry(base, last.name@);
        lemma_distinct(last, cb);
        lemma_below(last, cb);
        let left = subdirs_templates(front, base);
        let right = node_templates(last, cb);
        assert forall|i: int, j: int| 0 <= i < left.len() && 0 <= j < right.len() implies left[i] != right[j] by {
            let c = choose|c: int| 0 <= c < front.len() && at_or_below(left[i], joined(base, front[c].name@));
            assert(front[c] == ss[c]);
            lemma_apart(base, ss[c].name@, last.name@, left[i]);
        }
        lemma_concat_no_duplicates(left, right);
    }
}

proof fn lemma_no_backslash_shown_as_is(p: Seq<char>)
    requires
        !p.contains('\\'),
    ensures
        display_of(p) == p,
{
    assert forall|i: int| 0 <= i < p.len() implies display_of(p)[i] == p[i] by {
        assert(p[i] != '\\');
    }
    assert(display_of(p) =~= p);
}

/// Two sequences, each strictly increasing, with the same elements, are equal.
proof fn lemma_strictly_sorted_unique(a: Seq<Seq<char>>, b: Seq<Seq<char>>)
    requires
        forall|i: int, j: int| 0 <= i < j < a.len() ==> lex_lt(#[trigger] a[i], #[trigger] a[j]),
        forall|i: int, j: int| 0 <= i < j < b.len() ==> lex_lt(#[trigger] b[i], #[trigger] b[j]),
        a.to_multiset() == b.to_multiset(),
    ensures
        a == b,
    decreases a.len(),
{
    a.to_multiset_ensures();
    b.to_multiset_ensures();
    if a.len() == 0 {
        assert(b.len() == 0);
        assert(a =~= b);
    } else {
        assert(b.len() == a.len());
        assert(a.contains(a[0]));
        assert(a.to_multiset().count(a[0]) > 0);
        assert(b.contains(a[0]));
        let j = choose|j: int| 0 <= j < b.len() && b[j] == a[0];
        assert(b.contains(b[0]));
        assert(b.to_multiset().count(b[0]) > 0);
        assert(a.contains(b[0]));
        let i = choose|i: int| 0 <= i < a.len() && a[i] == b[0];
        if i > 0 {
            assert(lex_lt(a[0], a[i]));
            lemma_lex_total(b[0], b[j]);
            if j > 0 {
                assert(lex_lt(b[0], b[j]));
            } else {
                assert(lex_lt(b[0], b[0]));
            }
        }
        assert(a[0] == b[0]);
        let a1 = a.drop_first();
        let b1 = b.drop_first();
        assert(a.remove(0) =~= a1);
        assert(b.remove(0) =~= b1);
        vstd::seq_lib::to_multiset_remove(a, 0);
        vstd::seq_lib::to_multiset_remove(b, 0);
        assert forall|x: int, y: int| 0 <= x < y < a1.len() implies lex_lt(#[trigger] a1[x], #[trigger] a1[y]) by {
            assert(a1[x] == a[x + 1] && a1[y] == a[y + 1]);
        }
        assert forall|x: int, y: int| 0 <= x < y < b1.len() implies lex_lt(#[trigger] b1[x], #[trigger] b1[y]) by {
            assert(b1[x] == b[x + 1] && b1[y] == b[y + 1]);
        }
        lemma_strictly_sorted_unique(a1, b1);
        assert(a =~= b) by {
            assert forall|x: int| 0 <= x < a.len() implies a[x] == b[x] by {
                if x > 0 {
                    assert(a[x] == a1[x - 1] && b[x] == b1[x - 1]);
                }
            }
        }
    }
}

/// In a well-formed snapshot whose directory names hold no backslash, the
/// listing names every template once, each shown as it is, in strictly
/// increasing order.
pub proof fn law_listing_strictly_sorted(root: DirNode, found: Seq<Seq<char>>)
    requires
        well_formed(root),
        no_backslash_names(root),
        lists_templates_of(root, found),
    ensures
        found.no_duplicates(),
        forall|i: int| 0 <= i < found.len() ==> display_of(#[trigger] found[i]) == found[i],
        forall|i: int, j: int| 0 <= i < j < found.len() ==> lex_lt(#[trigger] found[i], #[trigger] found[j]),
{
    broadcast use vstd::seq_lib::group_to_multiset_ensures;
    let all = node_templates(root, Seq::empty());
    lemma_distinct(root, Seq::empty());
    lemma_below_subdirs(root.subdirs@, Seq::empty());
    assert(!Seq::<char>::empty().contains('\\'));
    assert forall|i: int| 0 <= i < root.subdirs@.len() implies no_backslash_names(#[trigger] root.subdirs@[i])
        && !root.subdirs@[i].name@.contains('\\') by {}
    let own: Seq<Seq<char>> = if root.has_dockerfile { seq![Seq::empty()] } else { seq![] };
    let subs = subdirs_templates(root.subdirs@, Seq::empty());
    assert(all == own + subs);
    assert forall|k: int| 0 <= k < all.len() implies !(#[trigger] all[k]).contains('\\') by {
        if k >= own.len() {
            assert(all[k] == subs[k - own.len()]);
        } else {
            assert(all[k] == Seq::<char>::empty());
        }
    }
    all.lemma_multiset_has_no_duplicates();
    assert forall|x: Seq<char>| found.to_multiset().contains(x) implies found.to_multiset().count(x) == 1 by {}
    found.lemma_multiset_has_no_duplicates_conv();
    assert forall|i: int| 0 <= i < found.len() implies display_of(#[trigger] found[i]) == found[i] by {
        found.to_multiset_ensures();
        all.to_multiset_ensures();
        assert(found.contains(found[i]));
        assert(found.to_multiset().count(found[i]) > 0);
        assert(all.contains(found[i]));
        let k = choose|k: int| 0 <= k < all.len() && all[k] == found[i];
        lemma_no_backslash_shown_as_is(found[i]);
    }
    assert forall|i: int, j: int| 0 <= i < j < found.len() implies lex_lt(#[trigger] found[i], #[trigger] found[j]) by {
        assert(display_of(found[i]) == found[i] && display_of(found[j]) == found[j]);
        lemma_lex_total(found[i], found[j]);
    }
}

/// In well-formed snapshots whose directory names hold no backslash, the
/// listing depends only on which templates there are: not on the order in
/// which directories were listed, nor on the walk.
pub proof fn law_listing_fixed_by_templates(r1: DirNode, r2: DirNode, f1: Seq<Seq<char>>, f2: Seq<Seq<char>>)
    requires
        well_formed(r1),
        well_formed(r2),
        no_backslash_names(r1),
        no_backslash_names(r2),
        node_templates(r1, Seq::empty()).to_multiset() == node_templates(r2, Seq::empty()).to_multiset(),
        lists_templates_of(r1, f1),
        lists_templates_of(r2, f2),
    ensures
        f1 == f2,
{
    law_listing_strictly_sorted(r1, f1);
    law_listing_strictly_sorted(r2, f2);
    lemma_strictly_sorted_unique(f1, f2);
}

/// `b` is `a` with the subdirectories of each directory possibly listed in
/// another order.
pub open spec fn reordered(a: DirNode, b: DirNode) -> bool
    decreases a,
{
    &&& a.name@ == b.name@
    &&& a.has_dockerfile == b.has_dockerfile
    &&& subdirs_reordered(a.subdirs@, b.subdirs@)
}

/// `ys` lists, in some order, directories that are the `xs` reordered.
pub open spec fn subdirs_reordered(xs: Seq<DirNode>, ys: Seq<DirNode>) -> bool
    decreases xs,
{
    if xs.len() == 0 {
        ys.len() == 0
    } else {
        exists|m: int|
            0 <= m < ys.len() && reordered(xs[xs.len() - 1], #[trigger] ys[m]) && subdirs_reordered(
                xs.subrange(0, xs.len() - 1),
                ys.remove(m),
            )
    }
}

proof fn lemma_subdirs_concat(p: Seq<DirNode>, q: Seq<DirNode>, rel: Seq<char>)
    ensures
        subdirs_templates(p + q, rel) == subdirs_templates(p, rel) + subdirs_templates(q, rel),
    decreases q.len(),
{
    if q.len() == 0 {
        assert(p + q =~= p);
        assert(subdirs_templates(p, rel) + subdirs_templates(q, rel) =~= subdirs_templates(p, rel));
    } else {
        let n = q.len() - 1;
        let front = q.subrange(0, n);
        lemma_subdirs_concat(p, front, rel);
        let pq = p + q;
        assert(pq.subrange(0, pq.len() - 1) =~= p + front);
        assert(pq[pq.len() - 1] == q[n]);
        let last = q[n];
        let tail = node_templates(last, joined(rel, last.name@));
        assert(subdirs_templates(pq, rel) == subdirs_templates(p + front, rel) + tail);
        assert(subdirs_templates(q, rel) == subdirs_templates(front, rel) + tail);
        assert(subdirs_templates(p, rel) + subdirs_templates(front, rel) + tail =~= subdirs_templates(p, rel) + (
        subdirs_templates(front, rel) + tail));
    }
}

proof fn lemma_subdirs_remove(ys: Seq<DirNode>, m: int, rel: Seq<char>)
    requires
        0 <= m < ys.len(),
    ensures
        subdirs_templates(ys, rel).to_multiset() == subdirs_templates(ys.remove(m), rel).to_multiset().add(
            node_templates(ys[m], joined(rel, ys[m].name@)).to_multiset(),
        ),
{
    broadcast use vstd::multiset::group_multiset_axioms;
    let pre = ys.subrange(0, m);
    let post = ys.subrange(m + 1, ys.len() as int);
    let one = seq![ys[m]];
    assert(ys =~= pre + one + post);
    assert(ys.remove(m) =~= pre + post);
    lemma_subdirs_concat(pre + one, post, rel);
    lemma_subdirs_concat(pre, one, rel);
    lemma_subdirs_concat(pre, post, rel);
    assert(one.subrange(0, 0) =~= Seq::<DirNode>::empty());
    let y = node_templates(ys[m], joined(rel, ys[m].name@));
    assert(one[0] == ys[m]);
    assert(subdirs_templates(one.subrange(0, 0), rel) =~= Seq::<Seq<char>>::empty());
    assert(subdirs_templates(one, rel) == subdirs_templates(one.subrange(0, 0), rel) + y);
    assert(subdirs_templates(one, rel) =~= y);
    let a = subdirs_templates(pre, rel);
    let c = subdirs_templates(post, rel);
    vstd::seq_lib::lemma_multiset_commutative(a + y, c);
    vstd::seq_lib::lemma_multiset_commutative(a, y);
    vstd::seq_lib::lemma_multiset_commutative(a, c);
    assert((a + y).to_multiset().add(c.to_multiset()) =~= a.to_multiset().add(c.to_multiset()).add(y.to_multiset()));
}

/// Reordering subdirectories keeps the templates (as a multiset).
proof fn lemma_reordered_templates(a: DirNode, b: DirNode, rel: Seq<char>)
    requires
        reordered(a, b),
    ensures
        node_templates(a, rel).to_multiset() == node_templates(b, rel).to_multiset(),
    decreases a,
{
    lemma_subdirs_reordered_templates(a.subdirs@, b.subdirs@, rel);
    let own: Seq<Seq<char>> = if a.has_dockerfile { seq![rel] } else { seq![] };
    vstd::seq_lib::lemma_multiset_commutative(own, subdirs_templates(a.subdirs@, rel));
    vstd::seq_lib::lemma_multiset_commutative(own, subdirs_templates(b.subdirs@, rel));
}

proof fn lemma_subdirs_reordered_templates(xs: Seq<DirNode>, ys: Seq<DirNode>, rel: Seq<char>)
    requires
        subdirs_reordered(xs, ys),
    ensures
        subdirs_templates(xs, rel).to_multiset() == subdirs_templates(ys, rel).to_multiset(),
    decreases xs,
{
    if xs.len() == 0 {
        assert(subdirs_templates(ys, rel) =~= Seq::<Seq<char>>::empty());
        assert(subdirs_templates(xs, rel) =~= Seq::<Seq<char>>::empty());
    } else {
        let n = xs.len() - 1;
        let m = choose|m: int|
            0 <= m < ys.len() && reordered(xs[n], #[trigger] ys[m]) && subdirs_reordered(xs.subrange(0, n), ys.remove(m));
        let front = xs.subrange(0, n);
        lemma_subdirs_reordered_templates(front, ys.remove(m), rel);
        lemma_reordered_templates(xs[n], ys[m], joined(rel, xs[n].name@));
        lemma_subdirs_remove(ys, m, rel);
        vstd::seq_lib::lemma_multiset_commutative(
            subdirs_templates(front, rel),
            node_templates(xs[n], joined(rel, xs[n].name@)),
        );
    }
}

/// Reordering the subdirectories of any directories of a snapshot keeps the
/// same templates.
pub proof fn law_reordering_keeps_templates(a: DirNode, b: DirNode)
    requires
        reordered(a, b),
    ensures
        node_templates(a, Seq::empty()).to_multiset() == node_templates(b, Seq::empty()).to_multiset(),
{
    lemma_reordered_templates(a, b, Seq::empty());
}

/// In well-formed snapshots whose directory names hold no backslash, the
/// listing does not depend on the order in which directories list their
/// subdirectories.
pub proof fn law_listing_ignores_listing_order(a: DirNode, b: DirNode, fa: Seq<Seq<char>>, fb: Seq<Seq<char>>)
    requires
        reordered(a, b),
        well_formed(a),
        well_formed(b),
        no_backslash_names(a),
        no_backslash_names(b),
        lists_templates_of(a, fa),
        lists_templates_of(b, fb),
    ensures
        fa == fb,
{
    law_reordering_keeps_templates(a, b);
    law_listing_fixed_by_templates(a, b, fa, fb);
}

/// In a well-formed snapshot, the walk of a directory at `base` meets each
/// template once, `base` itself first when it holds a `Dockerfile`, and
/// every one starting with `base` (at or below it, when `base` is a
/// non-empty path not ending in `/`).
pub proof fn law_walk_meets_each_template_once(node: DirNode, base: Seq<char>)
    requires
        well_formed(node),
    ensures
        node_templates(node, base).no_duplicates(),
        node.has_dockerfile ==> node_templates(node, base)[0] == base,
        forall|k: int|
            0 <= k < node_templates(node, base).len() ==> base.is_prefix_of(#[trigger] node_templates(node, base)[k]),
        base.len() > 0 && ends_clean(base) ==> forall|k: int|
            0 <= k < node_templates(node, base).len() ==> at_or_below(#[trigger] node_templates(node, base)[k], base),
{
    lemma_distinct(node, base);
    if base.len() > 0 && ends_clean(base) {
        lemma_below(node, base);
    }
    let ss = node.subdirs@;
    lemma_below_subdirs(ss, base);
    let own: Seq<Seq<char>> = if node.has_dockerfile { seq![base] } else { seq![] };
    let subs = subdirs_templates(ss, base);
    let all = node_templates(node, base);
    assert(all == own + subs);
    assert forall|k: int| 0 <= k < all.len() implies base.is_prefix_of(#[trigger] all[k]) by {
        if k < own.len() {
            assert(all[k] == base);
            assert(base.is_prefix_of(base));
        } else {
            let p = subs[k - own.len()];
            assert(all[k] == p);
            let i = choose|i: int| 0 <= i < ss.len() && at_or_below(p, joined(base, ss[i].name@));
            lemma_joined_entry(base, ss[i].name@);
            let c = joined(base, ss[i].name@);
            assert forall|t: int| 0 <= t < base.len() implies p[t] == base[t] by {
                assert(p[t] == c[t]);
            }
        }
    }
}

/// Following `names` from `node`, one subdirectory name at a time, reaches
/// a directory that holds a `Dockerfile`.
pub open spec fn leads_to_dockerfile(node: DirNode, names: Seq<Seq<char>>) -> bool
    decreases node,
{
    if names.len() == 0 {
        node.has_dockerfile
    } else {
        exists|i: int|
            0 <= i < node.subdirs@.len() && (#[trigger] node.subdirs@[i]).name@ == names[0] && leads_to_dockerfile(
                node.subdirs@[i],
                names.drop_first(),
            )
    }
}

/// The path that `names` spell when joined one by one onto `rel`.
pub open spec fn path_from(rel: Seq<char>, names: Seq<Seq<char>>) -> Seq<char>
    decreases names.len(),
{
    if names.len() == 0 {
        rel
    } else {
        path_from(joined(rel, names[0]), names.drop_first())
    }
}

proof fn lemma_contains_concat(a: Seq<Seq<char>>, b: Seq<Seq<char>>, x: Seq<char>)
    ensures
        (a + b).contains(x) <==> (a.contains(x) || b.contains(x)),
{
    if (a + b).contains(x) {
        let k = choose|k: int| 0 <= k < (a + b).len() && (a + b)[k] == x;
        if k < a.len() {
            assert(a[k] == x);
        } else {
            assert(b[k - a.len()] == x);
        }
    }
    if a.contains(x) {
        let k = choose|k: int| 0 <= k < a.len() && a[k] == x;
        assert((a + b)[k] == x);
    }
    if b.contains(x) {
        let k = choose|k: int| 0 <= k < b.len() && b[k] == x;
        assert((a + b)[k + a.len()] == x);
    }
}

/// The walk of `node` at `rel` meets `p` exactly when some names lead from
/// `node` to a directory with a `Dockerfile` and spell `p` from `rel`.
proof fn lemma_templates_are_dockerfile_paths(node: DirNode, rel: Seq<char>, p: Seq<char>)
    ensures
        node_templates(node, rel).contains(p) <==> exists|names: Seq<Seq<char>>|
            leads_to_dockerfile(node, names) && #[trigger] path_from(rel, names) == p,
    decreases node,
{
    let ss = node.subdirs@;
    let own: Seq<Seq<char>> = if node.has_dockerfile { seq![rel] } else { seq![] };
    let subs = subdirs_templates(ss, rel);
    assert(node_templates(node, rel) == own + subs);
    lemma_contains_concat(own, subs, p);
    lemma_subdir_templates_are_dockerfile_paths(ss, rel, p);
    if node_templates(node, rel).contains(p) {
        if own.contains(p) {
            let names = Seq::<Seq<char>>::empty();
            assert(leads_to_dockerfile(node, names) && path_from(rel, names) == p);
        } else {
            let (i, rest) = choose|i: int, rest: Seq<Seq<char>>|
                0 <= i < ss.len() && leads_to_dockerfile(ss[i], rest) && #[trigger] path_from(
                    joined(rel, ss[i].name@),
                    rest,
                ) == p;
            let names = seq![ss[i].name@] + rest;
            assert(names.drop_first() =~= rest);
            assert(names[0] == ss[i].name@);
            assert(leads_to_dockerfile(node, names));
            assert(path_from(rel, names) == p);
        }
    }
    if exists|names: Seq<Seq<char>>| leads_to_dockerfile(node, names) && #[trigger] path_from(rel, names) == p {
        let names = choose|names: Seq<Seq<char>>| leads_to_dockerfile(node, names) && #[trigger] path_from(rel, names) == p;
        if names.len() == 0 {
            assert(own[0] == p);
        } else {
            let i = choose|i: int|
                0 <= i < ss.len() && (#[trigger] ss[i]).name@ == names[0] && leads_to_dockerfile(ss[i], names.drop_first());
            assert(path_from(joined(rel, ss[i].name@), names.drop_first()) == p);
        }
    }
}

/// The walk of the subdirectories `ss` of a directory at `rel` meets `p`
/// exactly when names lead from one of them to a directory with a
/// `Dockerfile` and spell `p` from that subdirectory's path.
proof fn lemma_subdir_templates_are_dockerfile_paths(ss: Seq<DirNode>, rel: Seq<char>, p: Seq<char>)
    ensures
        subdirs_templates(ss, rel).contains(p) <==> exists|i: int, names: Seq<Seq<char>>|
            0 <= i < ss.len() && leads_to_dockerfile(ss[i], names) && #[trigger] path_from(
                joined(rel, ss[i].name@),
                names,
            ) == p,
    decreases ss,
{
    if ss.len() > 0 {
        let n = ss.len() - 1;
        let front = ss.subrange(0, n);
        let last = ss[n];
        let cb = joined(rel, last.name@);
        let left = subdirs_templates(front, rel);
        let right = node_templates(last, cb);
        assert(subdirs_templates(ss, rel) == left + right);
        lemma_contains_concat(left, right, p);
        lemma_subdir_templates_are_dockerfile_paths(front, rel, p);
        lemma_templates_are_dockerfile_paths(last, cb, p);
        if subdirs_templates(ss, rel).contains(p) {
            if left.contains(p) {
                let (i, names) = choose|i: int, names: Seq<Seq<char>>|
                    0 <= i < front.len() && leads_to_dockerfile(front[i], names) && #[trigger] path_from(
                        joined(rel, front[i].name@),
                        names,
                    ) == p;
                assert(front[i] == ss[i]);
                assert(leads_to_dockerfile(ss[i], names) && path_from(joined(rel, ss[i].name@), names) == p);
            } else {
                let names = choose|names: Seq<Seq<char>>| leads_to_dockerfile(last, names) && #[trigger] path_from(cb, names) == p;
                assert(leads_to_dockerfile(ss[n], names) && path_from(joined(rel, ss[n].name@), names) == p);
            }
        }
        if exists|i: int, names: Seq<Seq<char>>|
            0 <= i < ss.len() && leads_to_dockerfile(ss[i], names) && #[trigger] path_from(joined(rel, ss[i].name@), names) == p {
            let (i, names) = choose|i: int, names: Seq<Seq<char>>|
                0 <= i < ss.len() && leads_to_dockerfile(ss[i], names) && #[trigger] path_from(
                    joined(rel, ss[i].name@),
                    names,
                ) == p;
            if i < n {
                assert(front[i] == ss[i]);
                assert(leads_to_dockerfile(front[i], names) && path_from(joined(rel, front[i].name@), names) == p);
            } else {
                assert(leads_to_dockerfile(last, names) && path_from(cb, names) == p);
            }
        }
    }
}

/// The listing holds exactly the directories of the snapshot that hold a
/// `Dockerfile`: a path is listed when, and only when, it is spelled by the
/// names that lead from the root to such a directory.
pub proof fn law_listing_holds_the_dockerfile_dirs(root: DirNode, found: Seq<Seq<char>>, p: Seq<char>)
    requires
        lists_templates_of(root, found),
    ensures
        found.contains(p) <==> exists|names: Seq<Seq<char>>|
            leads_to_dockerfile(root, names) && #[trigger] path_from(Seq::empty(), names) == p,
{
    let all = node_templates(root, Seq::empty());
    found.to_multiset_ensures();
    all.to_multiset_ensures();
    assert(found.contains(p) == (found.to_multiset().count(p) > 0));
    assert(all.contains(p) == (all.to_multiset().count(p) > 0));
    lemma_templates_are_dockerfile_paths(root, Seq::empty(), p);
}

} // verus!
