use vstd::prelude::*;

use crate::sys::push_char;
use crate::text::{str_eq, views};

verus! {

/// `p` split at every `/` (so `n` slashes give `n + 1` pieces, some maybe empty).
pub open spec fn split_slash(p: Seq<char>) -> Seq<Seq<char>>
    decreases p.len(),
{
    if p.len() == 0 {
        seq![Seq::empty()]
    } else {
        let s = split_slash(p.drop_last());
        if p.last() == '/' {
            s.push(Seq::empty())
        } else {
            s.update(s.len() - 1, s.last().push(p.last()))
        }
    }
}

/// Pieces that name something: neither empty nor `.`.
pub open spec fn named_pieces(ps: Seq<Seq<char>>) -> Seq<Seq<char>> {
    ps.filter(|x: Seq<char>| x.len() > 0 && x != seq!['.'])
}

/// The lexical components of a `/`-separated path: `/` for a leading root, `.`
/// for a leading current-directory piece, then every non-empty piece other than
/// `.` (`..` stays a component of its own).
pub open spec fn components(p: Seq<char>) -> Seq<Seq<char>> {
    let pieces = split_slash(p);
    if p.len() > 0 && p[0] == '/' {
        seq![seq!['/']] + named_pieces(pieces.drop_first())
    } else if pieces[0] == seq!['.'] {
        seq![seq!['.']] + named_pieces(pieces.drop_first())
    } else {
        named_pieces(pieces)
    }
}

/// A normal (named) component: not the root, `.` or `..`.
pub open spec fn is_normal(c: Seq<char>) -> bool {
    c != seq!['/'] && c != seq!['.'] && c != seq!['.', '.']
}

/// The parts joined with `/` between them.
pub open spec fn join_slash(parts: Seq<Seq<char>>) -> Seq<char>
    decreases parts.len(),
{
    if parts.len() == 0 {
        Seq::empty()
    } else if parts.len() == 1 {
        parts[0]
    } else {
        join_slash(parts.drop_last()) + seq!['/'] + parts.last()
    }
}

/// The path text that components rebuild to: a leading root gives `/` followed
/// by the rest joined with `/`; otherwise all of them joined with `/`.
pub open spec fn rebuild(cs: Seq<Seq<char>>) -> Seq<char> {
    if cs.len() > 0 && cs[0] == seq!['/'] {
        seq!['/'] + join_slash(cs.drop_first())
    } else {
        join_slash(cs)
    }
}

/// `base` joined with `rel` as a path: an absolute `rel` replaces `base`; a
/// separator is added unless `base` is empty or already ends in `/`.
pub open spec fn spec_join(base: Seq<char>, rel: Seq<char>) -> Seq<char> {
    if rel.len() > 0 && rel[0] == '/' {
        rel
    } else if base.len() == 0 || base.last() == '/' {
        base + rel
    } else {
        base + seq!['/'] + rel
    }
}

/// Join `rel` onto `base` as a path (see [`spec_join`]).
pub fn join(base: &str, rel: &str) -> (r: String)
    ensures
        r@ == spec_join(base@, rel@),
{
    let rn = rel.unicode_len();
    if rn > 0 && rel.get_char(0) == '/' {
        return String::from_str(rel);
    }
    let mut out = String::from_str(base);
    let bn = base.unicode_len();
    if bn > 0 && base.get_char(bn - 1) != '/' {
        push_char(&mut out, '/');
    }
    out.append(rel);
    proof {
        if bn > 0 && base@.last() != '/' {
            assert(out@ =~= base@ + seq!['/'] + rel@);
        } else {
            assert(out@ =~= base@ + rel@);
        }
    }
    out
}

/// The pieces of `p` split at every `/`.
fn split_pieces(p: &str) -> (r: Vec<String>)
    ensures
        views(r@) == split_slash(p@),
{
    let n = p.unicode_len();
    let mut pieces: Vec<String> = Vec::new();
    let mut cur = String::new();
    let mut i: usize = 0;
    while i < n
        invariant
            n == p@.len(),
            i <= n,
            views(pieces@).push(cur@) == split_slash(p@.take(i as int)),
        decreases n - i,
    {
        let c = p.get_char(i);
        let ghost before = views(pieces@).push(cur@);
        proof {
            assert(p@.take(i + 1).drop_last() =~= p@.take(i as int));
            assert(p@.take(i + 1).last() == c);
        }
        if c == '/' {
            let done = cur;
            pieces.push(done);
            cur = String::new();
            proof {
                assert(views(pieces@).push(cur@) =~= before.push(Seq::empty()));
            }
        } else {
            push_char(&mut cur, c);
            proof {
                assert(views(pieces@).push(cur@) =~= before.update(before.len() - 1, before.last().push(c)));
            }
        }
        i = i + 1;
    }
    proof {
        assert(p@.take(n as int) =~= p@);
    }
    pieces.push(cur);
    pieces
}

/// The lexical components of `p` (see [`components`]).
pub fn path_components(p: &str) -> (r: Vec<String>)
    ensures
        views(r@) == components(p@),
{
    let pieces = split_pieces(p);
    proof {
        lemma_split_nonempty(p@);
    }
    let n = pieces.len();
    let mut out: Vec<String> = Vec::new();
    let rooted = p.unicode_len() > 0 && p.get_char(0) == '/';
    let dotted = str_eq(pieces[0].as_str(), ".");
    let start: usize = if rooted || dotted {
        1
    } else {
        0
    };
    if rooted {
        out.push(String::from_str("/"));
    } else if dotted {
        out.push(String::from_str("."));
    }
    let ghost head = views(out@);
    proof {
        reveal_strlit("/");
        reveal_strlit(".");
        assert("/"@ =~= seq!['/']);
        assert("."@ =~= seq!['.']);
        assert(head == (if rooted { seq![seq!['/']] } else if dotted { seq![seq!['.']] } else { Seq::empty() }));
    }
    let mut i: usize = start;
    while i < n
        invariant
            n == pieces@.len(),
            start <= i <= n,
            views(out@) == head + named_pieces(views(pieces@).subrange(start as int, i as int)),
        decreases n - i,
    {
        let ghost before = views(pieces@).subrange(start as int, i as int);
        proof {
            assert(views(pieces@).subrange(start as int, i + 1).drop_last() =~= before);
            assert(views(pieces@).subrange(start as int, i + 1).last() == pieces@[i as int]@);
            reveal_with_fuel(Seq::filter, 1);
            reveal_strlit(".");
            assert("."@ =~= seq!['.']);
        }
        if pieces[i].unicode_len() > 0 && !str_eq(pieces[i].as_str(), ".") {
            let ghost o = views(out@);
            out.push(pieces[i].clone());
            proof {
                assert(views(out@) =~= o.push(pieces@[i as int]@));
            }
        }
        i = i + 1;
    }
    proof {
        let all = views(pieces@);
        assert(all.subrange(start as int, n as int) =~= if start == 1 { all.drop_first() } else { all });
        reveal_strlit(".");
        assert("."@ =~= seq!['.']);
        assert(all[0] == pieces@[0]@);
        assert(dotted == (all[0] == seq!['.']));
    }
    out
}

proof fn lemma_split_nonempty(p: Seq<char>)
    ensures
        split_slash(p).len() >= 1,
        p.len() > 0 && p[0] == '/' ==> split_slash(p).len() >= 2 && split_slash(p)[0] == Seq::<char>::empty(),
    decreases p.len(),
{
    if p.len() > 0 {
        lemma_split_nonempty(p.drop_last());
        if p.len() == 1 {
            assert(p.drop_last() =~= Seq::<char>::empty());
            assert(split_slash(p.drop_last()) == seq![Seq::<char>::empty()]);
        } else {
            assert(p.drop_last()[0] == p[0]);
        }
    }
}

/// The parts joined with `/`.
pub fn join_parts(parts: &Vec<String>) -> (r: String)
    ensures
        r@ == join_slash(views(parts@)),
{
    let mut out = String::new();
    let n = parts.len();
    let mut i: usize = 0;
    while i < n
        invariant
            n == parts@.len(),
            i <= n,
            out@ == join_slash(views(parts@).take(i as int)),
        decreases n - i,
    {
        let ghost o = out@;
        proof {
            assert(views(parts@).take(i + 1).drop_last() =~= views(parts@).take(i as int));
            assert(views(parts@).take(i + 1).last() == parts@[i as int]@);
            if i == 0 {
                assert(views(parts@).take(1)[0] == parts@[0]@);
            }
        }
        if i > 0 {
            push_char(&mut out, '/');
        }
        out.append(parts[i].as_str());
        proof {
            if i > 0 {
                assert(out@ =~= o + seq!['/'] + parts@[i as int]@);
            } else {
                assert(out@ =~= parts@[0]@);
            }
        }
        i = i + 1;
    }
    proof {
        assert(views(parts@).take(n as int) =~= views(parts@));
    }
    out
}


// ---------------------------------------------------------------------------
// Components of joined paths
// ---------------------------------------------------------------------------

/// Whether a piece of text holds no `/`.
pub open spec fn no_slash(x: Seq<char>) -> bool {
    forall|i: int| 0 <= i < x.len() ==> x[i] != '/'
}

/// Whether every part names something: non-empty, not `.`, without `/`.
pub open spec fn all_named(parts: Seq<Seq<char>>) -> bool {
    forall|i: int|
        0 <= i < parts.len() ==> (#[trigger] parts[i]).len() > 0 && parts[i] != seq!['.'] && no_slash(parts[i])
}

proof fn lemma_split_no_slash(x: Seq<char>)
    requires
        no_slash(x),
    ensures
        split_slash(x) == seq![x],
    decreases x.len(),
{
    if x.len() > 0 {
        let init = x.drop_last();
        assert forall|i: int| 0 <= i < init.len() implies init[i] != '/' by {
            assert(init[i] == x[i]);
        }
        lemma_split_no_slash(init);
        assert(x.last() != '/');
        assert(init.push(x.last()) =~= x);
        assert(seq![init].update(0, init.push(x.last())) =~= seq![x]);
    } else {
        assert(x =~= Seq::<char>::empty());
    }
}

proof fn lemma_split_concat(a: Seq<char>, b: Seq<char>)
    ensures
        split_slash(a + seq!['/'] + b) == split_slash(a) + split_slash(b),
    decreases b.len(),
{
    let p = a + seq!['/'] + b;
    if b.len() == 0 {
        assert(p.drop_last() =~= a);
        assert(split_slash(b) == seq![Seq::<char>::empty()]);
        assert(split_slash(a).push(Seq::<char>::empty()) =~= split_slash(a) + seq![Seq::<char>::empty()]);
    } else {
        assert(p.drop_last() =~= a + seq!['/'] + b.drop_last());
        lemma_split_concat(a, b.drop_last());
        lemma_split_nonempty(b.drop_last());
        lemma_split_nonempty(a);
        let s = split_slash(a);
        let t = split_slash(b.drop_last());
        assert(p.last() == b.last());
        if b.last() == '/' {
            assert((s + t).push(Seq::<char>::empty()) =~= s + t.push(Seq::<char>::empty()));
        } else {
            assert((s + t).update((s + t).len() - 1, (s + t).last().push(b.last())) =~= s + t.update(
                t.len() - 1,
                t.last().push(b.last()),
            ));
        }
    }
}

pub(crate) proof fn lemma_join_first(parts: Seq<Seq<char>>)
    requires
        parts.len() >= 1,
        parts[0].len() > 0,
    ensures
        join_slash(parts).len() > 0,
        join_slash(parts)[0] == parts[0][0],
    decreases parts.len(),
{
    if parts.len() > 1 {
        lemma_join_first(parts.drop_last());
    }
}

pub(crate) proof fn lemma_split_join(parts: Seq<Seq<char>>)
    requires
        parts.len() >= 1,
        forall|i: int| 0 <= i < parts.len() ==> no_slash(#[trigger] parts[i]),
    ensures
        split_slash(join_slash(parts)) == parts,
    decreases parts.len(),
{
    if parts.len() == 1 {
        lemma_split_no_slash(parts[0]);
        assert(seq![parts[0]] =~= parts);
    } else {
        let init = parts.drop_last();
        assert forall|i: int| 0 <= i < init.len() implies no_slash(#[trigger] init[i]) by {
            assert(init[i] == parts[i]);
        }
        lemma_split_join(init);
        lemma_split_concat(join_slash(init), parts.last());
        assert(no_slash(parts[parts.len() - 1]));
        lemma_split_no_slash(parts.last());
        assert(init + seq![parts.last()] =~= parts);
    }
}

proof fn lemma_named_all(parts: Seq<Seq<char>>)
    requires
        all_named(parts),
    ensures
        named_pieces(parts) == parts,
    decreases parts.len(),
{
    reveal(Seq::filter);
    if parts.len() > 0 {
        let init = parts.drop_last();
        assert forall|i: int| 0 <= i < init.len() implies (#[trigger] init[i]).len() > 0 && init[i]
            != seq!['.'] && no_slash(init[i]) by {
            assert(init[i] == parts[i]);
        }
        lemma_named_all(init);
        assert(parts[parts.len() - 1].len() > 0 && parts[parts.len() - 1] != seq!['.']);
        assert(init.push(parts.last()) =~= parts);
    }
}

/// The pieces of the text of named parts, read back as named pieces, are the
/// parts (no parts: the empty text).
pub(crate) proof fn lemma_named_split_join(rest: Seq<Seq<char>>)
    requires
        all_named(rest),
    ensures
        named_pieces(split_slash(join_slash(rest))) == rest,
{
    if rest.len() == 0 {
        assert(split_slash(join_slash(rest)) == seq![Seq::<char>::empty()]);
        reveal_with_fuel(Seq::filter, 2);
        assert(seq![Seq::<char>::empty()].drop_last() =~= Seq::<Seq<char>>::empty());
        assert(named_pieces(seq![Seq::<char>::empty()]) =~= Seq::<Seq<char>>::empty());
    } else {
        assert forall|i: int| 0 <= i < rest.len() implies no_slash(#[trigger] rest[i]) by {
            assert(all_named(rest));
        }
        lemma_split_join(rest);
        lemma_named_all(rest);
    }
}

/// Appending `/` and the text `r` of named parts `rest` to a path appends
/// `rest` to its components (to the root alone when the path is empty).
pub proof fn lemma_components_append(a: Seq<char>, rest: Seq<Seq<char>>)
    requires
        all_named(rest),
    ensures
        components(a + seq!['/'] + join_slash(rest)) == (if a.len() == 0 {
            seq![seq!['/']]
        } else {
            components(a)
        }) + rest,
{
    let r = join_slash(rest);
    let e = a + seq!['/'] + r;
    lemma_split_concat(a, r);
    lemma_split_nonempty(a);
    lemma_named_split_join(rest);
    let s = split_slash(a);
    let t = split_slash(r);
    let named = |x: Seq<char>| x.len() > 0 && x != seq!['.'];
    assert(split_slash(e) == s + t);
    if a.len() == 0 {
        assert(s == seq![Seq::<char>::empty()]);
        assert(e[0] == '/');
        assert((s + t).drop_first() =~= t);
    } else {
        assert(e[0] == a[0]);
        assert((s + t)[0] == s[0]);
        assert((s + t).drop_first() =~= s.drop_first() + t);
        Seq::filter_distributes_over_add(s.drop_first(), t, named);
        Seq::filter_distributes_over_add(s, t, named);
        if a[0] == '/' {
            assert(components(e) =~= seq![seq!['/']] + named_pieces(s.drop_first()) + named_pieces(t));
        } else if s[0] == seq!['.'] {
            assert(components(e) =~= seq![seq!['.']] + named_pieces(s.drop_first()) + named_pieces(t));
        } else {
            assert(components(e) =~= named_pieces(s) + named_pieces(t));
        }
    }
}

pub(crate) proof fn lemma_split_nonempty_pub(p: Seq<char>)
    ensures
        split_slash(p).len() >= 1,
        p.len() > 0 && p[0] == '/' ==> split_slash(p).len() >= 2 && split_slash(p)[0] == Seq::<char>::empty(),
{
    lemma_split_nonempty(p);
}

/// The first piece of a path that starts with neither `/` nor nothing is
/// non-empty.
pub(crate) proof fn lemma_first_piece_nonempty(p: Seq<char>)
    requires
        p.len() > 0,
        p[0] != '/',
    ensures
        split_slash(p)[0].len() > 0,
    decreases p.len(),
{
    lemma_split_nonempty(p);
    if p.len() > 1 {
        assert(p.drop_last()[0] == p[0]);
        lemma_first_piece_nonempty(p.drop_last());
        lemma_split_nonempty(p.drop_last());
    } else {
        assert(p.drop_last() =~= Seq::<char>::empty());
        assert(split_slash(p.drop_last()) == seq![Seq::<char>::empty()]);
    }
}

/// Joining two non-empty part lists puts one `/` between their texts.
pub(crate) proof fn lemma_join_append(p: Seq<Seq<char>>, q: Seq<Seq<char>>)
    requires
        p.len() >= 1,
        q.len() >= 1,
    ensures
        join_slash(p + q) == join_slash(p) + seq!['/'] + join_slash(q),
    decreases q.len(),
{
    assert((p + q).drop_last() =~= p + q.drop_last());
    assert((p + q).last() == q.last());
    if q.len() == 1 {
        assert(p + q.drop_last() =~= p);
    } else {
        lemma_join_append(p, q.drop_last());
    }
}

/// Every component after the first names something; the first is the root,
/// `.`, or names something too.
pub proof fn lemma_components_shape(p: Seq<char>)
    ensures
        forall|i: int|
            1 <= i < components(p).len() ==> (#[trigger] components(p)[i]).len() > 0 && components(p)[i]
                != seq!['.'] && no_slash(components(p)[i]),
        components(p).len() > 0 ==> (components(p)[0] == seq!['/'] || components(p)[0] == seq!['.'] || (
        components(p)[0].len() > 0 && components(p)[0] != seq!['.'] && no_slash(components(p)[0]))),
{
    let pieces = split_slash(p);
    lemma_split_nonempty(p);
    lemma_split_pieces_no_slash(p);
    let named = |x: Seq<char>| x.len() > 0 && x != seq!['.'];
    assert forall|q: Seq<Seq<char>>, i: int|
        (forall|j: int| 0 <= j < q.len() ==> no_slash(#[trigger] q[j])) && 0 <= i < q.filter(named).len()
            implies (#[trigger] q.filter(named)[i]).len() > 0 && q.filter(named)[i] != seq!['.'] && no_slash(
        q.filter(named)[i],
    ) by {
        q.lemma_filter_pred(named, i);
        q.lemma_filter_contains_rev(named, q.filter(named)[i]);
        let j = choose|j: int| 0 <= j < q.len() && q[j] == q.filter(named)[i];
        assert(no_slash(q[j]));
    }
    let rest = pieces.drop_first();
    assert forall|j: int| 0 <= j < rest.len() implies no_slash(#[trigger] rest[j]) by {
        assert(rest[j] == pieces[j + 1]);
    }
}

proof fn lemma_split_pieces_no_slash(p: Seq<char>)
    ensures
        forall|i: int| 0 <= i < split_slash(p).len() ==> no_slash(#[trigger] split_slash(p)[i]),
    decreases p.len(),
{
    if p.len() > 0 {
        lemma_split_pieces_no_slash(p.drop_last());
        lemma_split_nonempty(p.drop_last());
        let s = split_slash(p.drop_last());
        if p.last() != '/' {
            let last = s.last().push(p.last());
            assert(no_slash(s[s.len() - 1]));
            assert(no_slash(last));
            assert forall|i: int| 0 <= i < split_slash(p).len() implies no_slash(#[trigger] split_slash(p)[i]) by {
                if i < s.len() - 1 {
                    assert(split_slash(p)[i] == s[i]);
                }
            }
        } else {
            assert forall|i: int| 0 <= i < split_slash(p).len() implies no_slash(#[trigger] split_slash(p)[i]) by {
                if i < s.len() {
                    assert(split_slash(p)[i] == s[i]);
                } else {
                    assert(split_slash(p)[i] == Seq::<char>::empty());
                }
            }
        }
    }
}


/// The empty path has no components.
pub(crate) proof fn lemma_components_empty(p: Seq<char>)
    requires
        p.len() == 0,
    ensures
        components(p).len() == 0,
{
    assert(split_slash(p) == seq![Seq::<char>::empty()]);
    assert(seq!['.'].len() == 1);
    assert(split_slash(p)[0] != seq!['.']);
    assert(components(p) == named_pieces(split_slash(p)));
    reveal_with_fuel(Seq::filter, 2);
    assert(seq![Seq::<char>::empty()].drop_last() =~= Seq::<Seq<char>>::empty());
    assert(named_pieces(seq![Seq::<char>::empty()]) =~= Seq::<Seq<char>>::empty());
}

/// Named parts joined with `/` read back as the same components.
pub(crate) proof fn lemma_components_join_named(parts: Seq<Seq<char>>)
    requires
        all_named(parts),
    ensures
        components(join_slash(parts)) == parts,
{
    if parts.len() == 0 {
        lemma_components_empty(join_slash(parts));
        assert(parts =~= Seq::<Seq<char>>::empty());
    } else {
        let j = join_slash(parts);
        assert(parts[0].len() > 0);
        lemma_join_first(parts);
        assert forall|i: int| 0 <= i < parts.len() implies no_slash(#[trigger] parts[i]) by {}
        lemma_split_join(parts);
        lemma_named_split_join(parts);
        assert(no_slash(parts[0]));
        assert(j[0] != '/');
        assert(split_slash(j)[0] == parts[0]);
    }
}


// ---------------------------------------------------------------------------
// File names and extensions
// ---------------------------------------------------------------------------

/// The file name of a path: its last component when that is a named one
/// (neither the root, `.` nor `..`).
pub open spec fn file_name_of(path: Seq<char>) -> Option<Seq<char>> {
    let cs = components(path);
    if cs.len() > 0 && is_normal(cs.last()) {
        Some(cs.last())
    } else {
        None
    }
}

/// The index of the last `.` in `s` (or `-1` when there is none).
pub open spec fn last_dot(s: Seq<char>) -> int
    decreases s.len(),
{
    if s.len() == 0 {
        -1
    } else if s.last() == '.' {
        s.len() - 1
    } else {
        last_dot(s.drop_last())
    }
}

/// The extension of a path, as `std::path::Path::extension` documents it:
/// none without a file name, none when the name has no `.` or only a leading
/// one (and no other); otherwise the part of the name after its last `.`.
pub open spec fn extension_of(path: Seq<char>) -> Option<Seq<char>> {
    match file_name_of(path) {
        Some(name) => if last_dot(name) <= 0 {
            None
        } else {
            Some(name.skip(last_dot(name) + 1))
        },
        None => None,
    }
}

pub(crate) fn last_dot_index(cs: &Vec<char>) -> (r: Option<usize>)
    ensures
        match r {
            Some(i) => i == last_dot(cs@) && i < cs@.len(),
            None => last_dot(cs@) == -1,
        },
{
    let mut i = cs.len();
    assert(cs@.take(i as int) =~= cs@);
    while i > 0
        invariant
            i <= cs@.len(),
            last_dot(cs@) == last_dot(cs@.take(i as int)),
        decreases i,
    {
        assert(cs@.take(i as int).drop_last() =~= cs@.take(i - 1));
        if cs[i - 1] == '.' {
            return Some(i - 1);
        }
        i = i - 1;
    }
    None
}

pub(crate) fn chars_of(s: &str) -> (r: Vec<char>)
    ensures
        r@ == s@,
{
    let mut v: Vec<char> = Vec::new();
    for c in it: s.chars()
        invariant
            it.seq() == s@,
            v@ == it.seq().take(it.index() as int),
    {
        v.push(c);
    }
    v
}

/// The extension of `path` (see [`extension_of`]).
pub fn path_extension(path: &str) -> (r: Option<String>)
    ensures
        match r {
            Some(e) => extension_of(path@) == Some(e@),
            None => extension_of(path@) is None,
        },
{
    let cs = path_components(path);
    let n = cs.len();
    if n == 0 {
        return None;
    }
    let last = cs[n - 1].as_str();
    let is_named = !str_eq(last, "/") && !str_eq(last, ".") && !str_eq(last, "..");
    proof {
        assert(views(cs@).last() == cs@[n - 1]@);
        reveal_strlit("/");
        reveal_strlit(".");
        reveal_strlit("..");
        assert("/"@ =~= seq!['/']);
        assert("."@ =~= seq!['.']);
        assert(".."@ =~= seq!['.', '.']);
    }
    if !is_named {
        return None;
    }
    let chars = chars_of(last);
    let len = chars.len();
    let start = match last_dot_index(&chars) {
        Some(i) => {
            assert(i < len);
            if i == 0 {
                return None;
            }
            i + 1
        },
        None => {
            return None;
        },
    };
    let mut out = String::new();
    let mut k: usize = start;
    while k < chars.len()
        invariant
            start <= k <= chars@.len(),
            out@ == chars@.subrange(start as int, k as int),
        decreases chars@.len() - k,
    {
        push_char(&mut out, chars[k]);
        assert(chars@.subrange(start as int, k + 1) =~= chars@.subrange(start as int, k as int).push(chars@[k as int]));
        k = k + 1;
    }
    assert(chars@.subrange(start as int, chars@.len() as int) =~= chars@.skip(start as int));
    Some(out)
}

} // verus!
