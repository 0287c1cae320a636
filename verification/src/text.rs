use vstd::prelude::*;

verus! {

/// The characters of an optional string.
pub open spec fn opt_view(o: Option<String>) -> Option<Seq<char>> {
    match o {
        Some(s) => Some(s@),
        None => None,
    }
}

/// Joins a path component onto a base path the way a Unix `Path::join` does:
/// an absolute component replaces the base, and a `/` separates the two parts
/// unless the base is empty or already ends in `/`.
pub open spec fn joined(base: Seq<char>, rel: Seq<char>) -> Seq<char> {
    if rel.len() > 0 && rel[0] == '/' {
        rel
    } else if base.len() > 0 && base.last() != '/' {
        base + seq!['/'] + rel
    } else {
        base + rel
    }
}

/// `base` ready for a name to be appended: with a `/` added unless it is
/// empty or already ends in one.
pub open spec fn with_separator(base: Seq<char>) -> Seq<char> {
    if base.len() == 0 || base.last() == '/' {
        base
    } else {
        base + seq!['/']
    }
}

/// Joining a relative path onto a base appends it after the base and at
/// most one separator: the base followed by `/` unless it is empty or ends
/// in `/`, then the relative path.
pub proof fn law_join_appends(base: Seq<char>, rel: Seq<char>)
    requires
        rel.len() > 0,
        rel[0] != '/',
    ensures
        joined(base, rel) == with_separator(base) + rel,
        base.is_prefix_of(joined(base, rel)),
        joined(base, rel).len() == with_separator(base).len() + rel.len(),
        joined(base, rel).subrange(with_separator(base).len() as int, joined(base, rel).len() as int) == rel,
{
    let j = joined(base, rel);
    let w = with_separator(base);
    if base.len() == 0 {
        assert(base + rel =~= w + rel);
    }
    assert(j =~= w + rel);
    assert(base.is_prefix_of(j)) by {
        assert forall|i: int| 0 <= i < base.len() implies j[i] == base[i] by {
            assert(j[i] == w[i]);
        }
    }
    assert(j.subrange(w.len() as int, j.len() as int) =~= rel);
}

/// The characters of `s`, with every `from` replaced by `to`.
pub open spec fn replaced(s: Seq<char>, from: char, to: char) -> Seq<char> {
    s.map_values(|c: char| if c == from { to } else { c })
}

/// Appends `c` to the end of `s` by `String::push`; trusted, as std documents
/// it: the string afterwards is the old one followed by `c`.
#[verifier::external_body]
fn push_char(s: &mut String, c: char)
    ensures
        final(s)@ == old(s)@.push(c),
{
    s.push(c);
}

/// A copy of `s` in which every `from` is replaced by `to`.
pub fn replace_char(s: &str, from: char, to: char) -> (res: String)
    ensures
        res@ == replaced(s@, from, to),
{
    let mut res = String::new();
    for c in it: s.chars()
        invariant
            res@ == replaced(it.seq().take(it.index() as int), from, to),
    {
        if c == from {
            push_char(&mut res, to);
        } else {
            push_char(&mut res, c);
        }
    }
    res
}

/// `base` joined with `rel` as by `Path::join` on Unix.
pub fn join_path(base: &str, rel: &str) -> (res: String)
    ensures
        res@ == joined(base@, rel@),
{
    let rel_len = rel.unicode_len();
    if rel_len > 0 && rel.get_char(0) == '/' {
        return rel.to_owned();
    }
    let base_len = base.unicode_len();
    let mut res = base.to_owned();
    if base_len > 0 && base.get_char(base_len - 1) != '/' {
        push_char(&mut res, '/');
    }
    res.append(rel);
    res
}

/// The characters of `s`, one by one.
pub fn chars_of(s: &str) -> (res: Vec<char>)
    ensures
        res@ == s@,
{
    let mut res: Vec<char> = Vec::new();
    for c in it: s.chars()
        invariant
            res@ == it.seq().take(it.index() as int),
    {
        res.push(c);
    }
    res
}

/// Strict lexicographic order on character sequences, comparing code points.
/// On the UTF-8 encodings of the same strings this is the order that
/// comparing `str`s byte by byte gives.
pub open spec fn lex_lt(a: Seq<char>, b: Seq<char>) -> bool
    decreases a.len(),
{
    if b.len() == 0 {
        false
    } else if a.len() == 0 {
        true
    } else if a[0] != b[0] {
        (a[0] as int) < (b[0] as int)
    } else {
        lex_lt(a.drop_first(), b.drop_first())
    }
}

/// Sequences that agree up to a first difference are ordered by the code
/// points of the two characters that differ there.
pub proof fn law_lex_first_difference(p: Seq<char>, x: char, s: Seq<char>, y: char, t: Seq<char>)
    requires
        x != y,
    ensures
        lex_lt(p + seq![x] + s, p + seq![y] + t) <==> (x as int) < (y as int),
    decreases p.len(),
{
    let a = p + seq![x] + s;
    let b = p + seq![y] + t;
    if p.len() == 0 {
        assert(a[0] == x && b[0] == y);
    } else {
        law_lex_first_difference(p.drop_first(), x, s, y, t);
        assert(a.drop_first() =~= p.drop_first() + seq![x] + s);
        assert(b.drop_first() =~= p.drop_first() + seq![y] + t);
        assert(a[0] == p[0] && b[0] == p[0]);
    }
}

/// A proper prefix comes strictly before every longer sequence it starts.
pub proof fn law_lex_prefix_first(p: Seq<char>, s: Seq<char>)
    requires
        s.len() > 0,
    ensures
        lex_lt(p, p + s),
        !lex_lt(p + s, p),
    decreases p.len(),
{
    let b = p + s;
    if p.len() > 0 {
        law_lex_prefix_first(p.drop_first(), s);
        assert(b.drop_first() =~= p.drop_first() + s);
        assert(b[0] == p[0]);
    }
}

/// `a` comes no later than `b` in lexicographic order.
pub open spec fn lex_le(a: Seq<char>, b: Seq<char>) -> bool {
    !lex_lt(b, a)
}

/// No sequence is strictly before itself.
pub proof fn lemma_lex_irreflexive(a: Seq<char>)
    ensures
        !lex_lt(a, a),
    decreases a.len(),
{
    if a.len() > 0 {
        lemma_lex_irreflexive(a.drop_first());
    }
}

/// Of two different sequences, exactly one is strictly before the other.
pub proof fn lemma_lex_total(a: Seq<char>, b: Seq<char>)
    ensures
        a != b ==> (lex_lt(a, b) || lex_lt(b, a)),
        !(lex_lt(a, b) && lex_lt(b, a)),
    decreases a.len(),
{
    if a.len() > 0 && b.len() > 0 {
        lemma_lex_total(a.drop_first(), b.drop_first());
        if a[0] != b[0] {
            assert((a[0] as int) != (b[0] as int));
        } else if a.drop_first() == b.drop_first() {
            assert(a =~= seq![a[0]] + a.drop_first());
            assert(b =~= seq![b[0]] + b.drop_first());
        }
    } else if a.len() == 0 && b.len() == 0 {
        assert(a =~= b);
    }
}

/// Strict lexicographic order is transitive.
pub proof fn lemma_lex_transitive(a: Seq<char>, b: Seq<char>, c: Seq<char>)
    requires
        lex_lt(a, b),
        lex_lt(b, c),
    ensures
        lex_lt(a, c),
    decreases a.len(),
{
    if a.len() > 0 && a[0] == b[0] && b[0] == c[0] {
        lemma_lex_transitive(a.drop_first(), b.drop_first(), c.drop_first());
    }
}

/// The non-strict order is transitive.
pub proof fn lemma_lex_le_transitive(a: Seq<char>, b: Seq<char>, c: Seq<char>)
    requires
        lex_le(a, b),
        lex_le(b, c),
    ensures
        lex_le(a, c),
{
    lemma_lex_total(a, b);
    lemma_lex_total(b, c);
    lemma_lex_total(a, c);
    if lex_lt(c, a) {
        if a == b {
            lemma_lex_irreflexive(a);
        } else if b == c {
            lemma_lex_irreflexive(b);
        } else {
            lemma_lex_transitive(a, b, c);
        }
    }
}

/// Whether `a` comes strictly before `b` in lexicographic order.
pub fn lex_less(a: &Vec<char>, b: &Vec<char>) -> (res: bool)
    ensures
        res == lex_lt(a@, b@),
{
    let mut i: usize = 0;
    assert(a@.skip(0) =~= a@ && b@.skip(0) =~= b@);
    while i < a.len() && i < b.len()
        invariant
            i <= a.len(),
            i <= b.len(),
            lex_lt(a@, b@) == lex_lt(a@.skip(i as int), b@.skip(i as int)),
        decreases a.len() - i,
    {
        if a[i] != b[i] {
            return a[i] < b[i];
        }
        assert(a@.skip(i as int).drop_first() =~= a@.skip(i + 1));
        assert(b@.skip(i as int).drop_first() =~= b@.skip(i + 1));
        i += 1;
    }
    i < b.len()
}

/// `a`, `b` and `c` one after the other.
pub fn concat3(a: &str, b: &str, c: &str) -> (res: String)
    ensures
        res@ == a@ + b@ + c@,
{
    let mut res = a.to_owned();
    res.append(b);
    res.append(c);
    res
}

/// `a` followed by `b`.
pub fn concat2(a: &str, b: &str) -> (res: String)
    ensures
        res@ == a@ + b@,
{
    let mut res = a.to_owned();
    res.append(b);
    res
}

} // verus!
