use vstd::prelude::*;

verus! {

/// Views of a vector of strings as a sequence of character sequences.
pub open spec fn strings_view(v: Seq<String>) -> Seq<Seq<char>> {
    v.map_values(|s: String| s@)
}

/// `p` is an exact, case-sensitive prefix of `s`.
pub open spec fn starts_with(s: Seq<char>, p: Seq<char>) -> bool {
    p.len() <= s.len() && s.subrange(0, p.len() as int) == p
}

/// Position at which the slash-separated piece that is open after `s[0..i]` begins.
pub open spec fn piece_start(s: Seq<char>, i: int) -> int
    decreases i,
{
    if i <= 0 {
        0
    } else if s[i - 1] == '/' {
        i
    } else {
        piece_start(s, i - 1)
    }
}

/// The pieces of `s[0..i]` that a slash has already closed.
pub open spec fn closed_pieces(s: Seq<char>, i: int) -> Seq<Seq<char>>
    decreases i,
{
    if i <= 0 {
        seq![]
    } else if s[i - 1] == '/' {
        closed_pieces(s, i - 1).push(s.subrange(piece_start(s, i - 1), i - 1))
    } else {
        closed_pieces(s, i - 1)
    }
}

/// `s` cut at every `/`, empty pieces included (as `str::split('/')` does).
pub open spec fn split_slash(s: Seq<char>) -> Seq<Seq<char>> {
    closed_pieces(s, s.len() as int).push(s.subrange(piece_start(s, s.len() as int), s.len() as int))
}

/// A piece that names no directory level: empty (doubled or trailing slash) or `.`.
pub open spec fn is_void_piece(c: Seq<char>) -> bool {
    c.len() == 0 || c == seq!['.']
}

/// A piece that climbs to the parent directory.
pub open spec fn is_parent_piece(c: Seq<char>) -> bool {
    c == seq!['.', '.']
}

/// A component that may be joined onto an output root without leaving it.
pub open spec fn safe_component(c: Seq<char>) -> bool {
    !is_void_piece(c) && !is_parent_piece(c) && !c.contains('/')
}

pub open spec fn all_safe(cs: Seq<Seq<char>>) -> bool {
    forall|i: int| 0 <= i < cs.len() ==> safe_component(#[trigger] cs[i])
}

/// The components that a relative slash-separated path names, or `None` where one
/// of its pieces climbs out with `..`.
pub open spec fn normalized(s: Seq<char>) -> Option<Seq<Seq<char>>> {
    let pieces = split_slash(s);
    if exists|i: int| 0 <= i < pieces.len() && is_parent_piece(#[trigger] pieces[i]) {
        None
    } else {
        Some(pieces.filter(|c: Seq<char>| !is_void_piece(c)))
    }
}

/// Output components of an archive path that starts with `prefix`: the text after the
/// prefix, normalised; `None` where it climbs out with `..`. (Text that continues the
/// prefix without a slash, as in `sdk-extra/x` under `sdk`, starts a component of its
/// own: `-extra`, `x`.)
pub open spec fn mapped_path(name: Seq<char>, prefix: Seq<char>) -> Option<Seq<Seq<char>>> {
    if !starts_with(name, prefix) {
        None
    } else {
        normalized(name.subrange(prefix.len() as int, name.len() as int))
    }
}

/// Whether `s` begins with `p`.
pub fn has_prefix(s: &str, p: &str) -> (r: bool)
    ensures
        r == starts_with(s@, p@),
{
    let n = s.unicode_len();
    let m = p.unicode_len();
    if m > n {
        return false;
    }
    let mut i: usize = 0;
    while i < m
        invariant
            m == p@.len(),
            n == s@.len(),
            m <= n,
            i <= m,
            forall|j: int| 0 <= j < i ==> s@[j] == p@[j],
        decreases m - i,
    {
        if s.get_char(i) != p.get_char(i) {
            assert(s@.subrange(0, m as int)[i as int] != p@[i as int]);
            return false;
        }
        i = i + 1;
    }
    assert(s@.subrange(0, m as int) =~= p@);
    true
}

/// Whether `s` ends with the character `c`.
pub fn ends_with_char(s: &str, c: char) -> (r: bool)
    ensures
        r == (s@.len() > 0 && s@.last() == c),
{
    let n = s.unicode_len();
    n > 0 && s.get_char(n - 1) == c
}

/// Cuts `s` at every `/`.
pub fn split_on_slash(s: &str) -> (r: Vec<String>)
    ensures
        strings_view(r@) == split_slash(s@),
{
    let n = s.unicode_len();
    let mut pieces: Vec<String> = Vec::new();
    let mut start: usize = 0;
    let mut i: usize = 0;
    while i < n
        invariant
            n == s@.len(),
            i <= n,
            start as int == piece_start(s@, i as int),
            start <= i,
            strings_view(pieces@) == closed_pieces(s@, i as int),
        decreases n - i,
    {
        let c = s.get_char(i);
        if c == '/' {
            let piece = String::from_str(s.substring_char(start, i));
            let ghost before = pieces@;
            pieces.push(piece);
            assert(strings_view(pieces@) =~= strings_view(before).push(piece@));
            start = i + 1;
        }
        i = i + 1;
    }
    let last = String::from_str(s.substring_char(start, n));
    let ghost before = pieces@;
    pieces.push(last);
    assert(strings_view(pieces@) =~= strings_view(before).push(last@));
    pieces
}

/// Whether the piece is empty or `.`.
pub fn piece_is_void(c: &str) -> (r: bool)
    ensures
        r == is_void_piece(c@),
{
    let n = c.unicode_len();
    let r = n == 0 || (n == 1 && c.get_char(0) == '.');
    proof {
        if n == 1 && c@[0] == '.' {
            assert(c@ =~= seq!['.']);
        }
    }
    r
}

/// Whether the piece is `..`.
pub fn piece_is_parent(c: &str) -> (r: bool)
    ensures
        r == is_parent_piece(c@),
{
    let n = c.unicode_len();
    let r = n == 2 && c.get_char(0) == '.' && c.get_char(1) == '.';
    proof {
        if n == 2 && c@[0] == '.' && c@[1] == '.' {
            assert(c@ =~= seq!['.', '.']);
        }
    }
    r
}

/// The components of a relative slash-separated path, dropping empty and `.` pieces;
/// `None` where a piece is `..`.
pub fn normalize_path(s: &str) -> (r: Option<Vec<String>>)
    ensures
        r is Some <==> normalized(s@) is Some,
        r is Some ==> strings_view(r->Some_0@) == normalized(s@)->Some_0,
{
    let pieces = split_on_slash(s);
    let ghost ps = split_slash(s@);
    let mut out: Vec<String> = Vec::new();
    let mut i: usize = 0;
    while i < pieces.len()
        invariant
            strings_view(pieces@) == ps,
            ps == split_slash(s@),
            i <= pieces@.len(),
            forall|j: int| 0 <= j < i ==> !is_parent_piece(#[trigger] ps[j]),
            strings_view(out@) == ps.subrange(0, i as int).filter(|c: Seq<char>| !is_void_piece(c)),
        decreases pieces@.len() - i,
    {
        let piece = &pieces[i];
        assert(piece@ == ps[i as int]);
        if piece_is_parent(piece.as_str()) {
            assert(is_parent_piece(ps[i as int]));
            assert(normalized(s@) is None);
            return None;
        }
        let ghost before = out@;
        if !piece_is_void(piece.as_str()) {
            out.push(piece.clone());
        }
        proof {
            let f = |c: Seq<char>| !is_void_piece(c);
            let next = ps.subrange(0, i + 1);
            assert(next.drop_last() =~= ps.subrange(0, i as int));
            reveal(Seq::filter);
            assert(next.filter(f) == {
                let sub = next.drop_last().filter(f);
                if f(next.last()) { sub.push(next.last()) } else { sub }
            });
            assert(strings_view(out@) =~= next.filter(f));
        }
        i = i + 1;
    }
    assert(ps.subrange(0, ps.len() as int) =~= ps);
    Some(out)
}

/// Maps an archive path that starts with `prefix` to the components it names below the
/// output root; `None` where it does not start with the prefix or climbs out.
pub fn map_entry_path(name: &str, prefix: &str) -> (r: Option<Vec<String>>)
    ensures
        r is Some <==> mapped_path(name@, prefix@) is Some,
        r is Some ==> strings_view(r->Some_0@) == mapped_path(name@, prefix@)->Some_0,
{
    if !has_prefix(name, prefix) {
        return None;
    }
    let n = name.unicode_len();
    let m = prefix.unicode_len();
    normalize_path(name.substring_char(m, n))
}

} // verus!

verus! {

/// A copy of a component list.
pub fn copy_components(v: &Vec<String>) -> (r: Vec<String>)
    ensures
        strings_view(r@) == strings_view(v@),
{
    let mut r: Vec<String> = Vec::new();
    let mut i: usize = 0;
    while i < v.len()
        invariant
            i <= v@.len(),
            strings_view(r@) == strings_view(v@).subrange(0, i as int),
        decreases v@.len() - i,
    {
        let ghost before = r@;
        let s = v[i].clone();
        assert(s@ == strings_view(v@)[i as int]);
        r.push(s);
        assert(strings_view(r@) =~= strings_view(before).push(s@));
        assert(strings_view(r@) =~= strings_view(v@).subrange(0, i + 1));
        i = i + 1;
    }
    assert(strings_view(v@).subrange(0, v@.len() as int) =~= strings_view(v@));
    r
}

/// Two component lists hold the same components.
pub fn same_components(a: &Vec<String>, b: &Vec<String>) -> (r: bool)
    ensures
        r == (strings_view(a@) == strings_view(b@)),
{
    if a.len() != b.len() {
        assert(strings_view(a@).len() != strings_view(b@).len());
        return false;
    }
    let mut i: usize = 0;
    while i < a.len()
        invariant
            a@.len() == b@.len(),
            i <= a@.len(),
            forall|j: int| 0 <= j < i ==> a@[j]@ == b@[j]@,
        decreases a@.len() - i,
    {
        if a[i] != b[i] {
            assert(strings_view(a@)[i as int] != strings_view(b@)[i as int]);
            return false;
        }
        i = i + 1;
    }
    assert(strings_view(a@) =~= strings_view(b@));
    true
}

} // verus!

verus! {

/// No piece that `split_slash` cuts holds a slash.
pub proof fn lemma_pieces_slash_free(s: Seq<char>, i: int)
    requires
        0 <= i <= s.len(),
    ensures
        0 <= piece_start(s, i) <= i,
        !s.subrange(piece_start(s, i), i).contains('/'),
        forall|k: int| 0 <= k < closed_pieces(s, i).len() ==> !(#[trigger] closed_pieces(s, i)[k]).contains('/'),
    decreases i,
{
    if i > 0 {
        lemma_pieces_slash_free(s, i - 1);
        let st = piece_start(s, i - 1);
        if s[i - 1] != '/' {
            let open_piece = s.subrange(st, i);
            assert(open_piece =~= s.subrange(st, i - 1).push(s[i - 1]));
            assert forall|j: int| 0 <= j < open_piece.len() implies open_piece[j] != '/' by {
                if j < open_piece.len() - 1 {
                    assert(open_piece[j] == s.subrange(st, i - 1)[j]);
                }
            }
        } else {
            assert(s.subrange(i, i).len() == 0);
            let prev = closed_pieces(s, i - 1);
            let cur = closed_pieces(s, i);
            assert(cur == prev.push(s.subrange(st, i - 1)));
            assert forall|k: int| 0 <= k < cur.len() implies !(#[trigger] cur[k]).contains('/') by {
                if k < prev.len() {
                    assert(cur[k] == prev[k]);
                }
            }
        }
    }
}

/// A path that maps consists of components that stay inside the output root: none
/// is empty, `.` or `..`, and none holds a slash.
pub proof fn lemma_mapped_path_safe(name: Seq<char>, prefix: Seq<char>)
    requires
        mapped_path(name, prefix) is Some,
    ensures
        all_safe(mapped_path(name, prefix)->Some_0),
{
    let rest = name.subrange(prefix.len() as int, name.len() as int);
    let pieces = split_slash(rest);
    let f = |c: Seq<char>| !is_void_piece(c);
    let cs = pieces.filter(f);
    assert(mapped_path(name, prefix)->Some_0 == cs);
    lemma_pieces_slash_free(rest, rest.len() as int);
    assert forall|i: int| 0 <= i < cs.len() implies safe_component(#[trigger] cs[i]) by {
        pieces.lemma_filter_pred(f, i);
        assert(cs.contains(cs[i]));
        pieces.lemma_filter_contains_rev(f, cs[i]);
        let k = choose|k: int| 0 <= k < pieces.len() && pieces[k] == cs[i];
        if k < pieces.len() - 1 {
            assert(pieces[k] == closed_pieces(rest, rest.len() as int)[k]);
        }
    }
}

} // verus!
