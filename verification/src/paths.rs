//! File paths, held as the bytes of the operating system's path string and
//! compared the way `std::path::Path` compares them on Unix: by their
//! components, so that `/tmp/a`, `/tmp//a`, `/tmp/./a` and `/tmp/a/` all
//! name the same file. Bytes that are not UTF-8 are kept as they are.
//!
//! Only the Unix rules are modelled: `/` is the one separator and there are
//! no prefixes. On Windows, `std::path::Path` also splits on `\` and reads
//! drive and UNC prefixes (`C:`, `\\server\share`); this module does not, so
//! there `C:\notes\a.txt` is a single name, the history tells such paths apart
//! by the `/` rules alone, and the menu shows `1. C: notes a.txt` where the
//! standard library would give `1. a.txt (notes)`.
use vstd::prelude::*;
use crate::text::{extend_range, split_on};

verus! {

/// The byte of `/`, the separator.
pub const SLASH: u8 = 0x2f;

/// The byte of `.`.
pub const DOT: u8 = 0x2e;

/// A piece between separators that stands for a component: not empty and not `.`.
pub open spec fn is_kept_piece(piece: Seq<u8>) -> bool {
    piece.len() > 0 && piece != seq![DOT]
}

/// The pieces that stand for components, in order.
pub open spec fn kept_pieces(pieces: Seq<Seq<u8>>) -> Seq<Seq<u8>>
    decreases pieces.len(),
{
    if pieces.len() == 0 {
        Seq::empty()
    } else {
        let kept = kept_pieces(pieces.drop_last());
        if is_kept_piece(pieces.last()) {
            kept.push(pieces.last())
        } else {
            kept
        }
    }
}

/// The component that a path begins with before its named parts: the root
/// (`/`) for an absolute path, the current directory (`.`) for a path that
/// starts with `./` or is `.`, none otherwise.
pub open spec fn leading_component(p: Seq<u8>) -> Seq<Seq<u8>> {
    if p.len() > 0 && p[0] == SLASH {
        seq![seq![SLASH]]
    } else if p.len() > 0 && p[0] == DOT && (p.len() == 1 || p[1] == SLASH) {
        seq![seq![DOT]]
    } else {
        Seq::empty()
    }
}

/// The components of a path: `/` stands for the root, `.` for a leading
/// current directory and `..` for a parent; every other component is a name.
/// Repeated separators, a trailing separator and `.` past the start leave no
/// component.
pub open spec fn path_components(p: Seq<u8>) -> Seq<Seq<u8>> {
    leading_component(p) + kept_pieces(split_on(p, SLASH))
}

/// Whether two paths name the same file: they have the same components.
pub open spec fn same_path(a: Seq<u8>, b: Seq<u8>) -> bool {
    path_components(a) == path_components(b)
}

/// A component that is a name: not the root, `.` or `..`.
pub open spec fn is_name(c: Seq<u8>) -> bool {
    c != seq![SLASH] && c != seq![DOT] && c != seq![DOT, DOT]
}

/// The last component of a path when it is a name (what `Path::file_name` gives).
pub open spec fn file_name(p: Seq<u8>) -> Option<Seq<u8>> {
    let c = path_components(p);
    if c.len() > 0 && is_name(c.last()) {
        Some(c.last())
    } else {
        None
    }
}

/// The name of the folder that holds the last component, when the
/// component before it is a name (what `parent()` then `file_name()` gives).
pub open spec fn folder_name(p: Seq<u8>) -> Option<Seq<u8>> {
    let c = path_components(p);
    if c.len() >= 2 && is_name(c[c.len() - 2]) {
        Some(c[c.len() - 2])
    } else {
        None
    }
}

/// The views of a vector of character vectors.
pub open spec fn views(v: Seq<Vec<u8>>) -> Seq<Seq<u8>> {
    v.map_values(|x: Vec<u8>| x@)
}

/// Every path names the same file as itself, and the relation is symmetric
/// and transitive.
pub proof fn law_same_path_is_equivalence(a: Seq<u8>, b: Seq<u8>, c: Seq<u8>)
    ensures
        same_path(a, a),
        same_path(a, b) ==> same_path(b, a),
        same_path(a, b) && same_path(b, c) ==> same_path(a, c),
{
}

fn is_kept_range(p: &Vec<u8>, start: usize, end: usize) -> (r: bool)
    requires
        start <= end <= p.len(),
    ensures
        r == is_kept_piece(p@.subrange(start as int, end as int)),
{
    if end == start {
        return false;
    }
    let dot = end - start == 1 && p[start] == DOT;
    proof {
        if end - start == 1 {
            if p[start as int] == DOT {
                assert(p@.subrange(start as int, end as int) =~= seq![DOT]);
            } else {
                assert(p@.subrange(start as int, end as int)[0] != seq![DOT][0]);
            }
        }
    }
    !dot
}

/// Pushes the piece `p[start..end]` to `out` when it stands for a component.
fn finish_piece(
    p: &Vec<u8>,
    start: usize,
    end: usize,
    out: &mut Vec<Vec<u8>>,
    Ghost(pieces): Ghost<Seq<Seq<u8>>>,
)
    requires
        start <= end <= p.len(),
        views(old(out)@) == kept_pieces(pieces),
    ensures
        views(final(out)@) == kept_pieces(pieces.push(p@.subrange(start as int, end as int))),
{
    let ghost piece = p@.subrange(start as int, end as int);
    proof {
        assert(pieces.push(piece).drop_last() =~= pieces);
    }
    if is_kept_range(p, start, end) {
        let mut part: Vec<u8> = Vec::new();
        extend_range(&mut part, p, start, end);
        proof {
            assert(part@ =~= piece);
        }
        out.push(part);
        proof {
            assert(views(out@) =~= views(old(out)@).push(piece));
        }
    }
}

/// The components of `p`, computed.
fn components_of(p: &Vec<u8>) -> (out: Vec<Vec<u8>>)
    ensures
        views(out@) == path_components(p@),
{
    let n = p.len();
    let mut out: Vec<Vec<u8>> = Vec::new();
    if n > 0 && p[0] == SLASH {
        let mut root: Vec<u8> = Vec::new();
        root.push(SLASH);
        out.push(root);
    } else if n > 0 && p[0] == DOT && (n == 1 || p[1] == SLASH) {
        let mut dot: Vec<u8> = Vec::new();
        dot.push(DOT);
        out.push(dot);
    }
    let ghost lead = views(out@);
    proof {
        assert(lead =~= leading_component(p@));
    }
    let mut out_named: Vec<Vec<u8>> = Vec::new();
    let mut start: usize = 0;
    let mut i: usize = 0;
    let ghost mut done: Seq<Seq<u8>> = Seq::empty();
    proof {
        assert(p@.take(0) =~= Seq::<u8>::empty());
        assert(split_on(p@.take(0), SLASH) =~= seq![Seq::<u8>::empty()]);
        assert(p@.subrange(0, 0) =~= Seq::<u8>::empty());
        assert(views(out_named@) =~= Seq::<Seq<u8>>::empty());
    }
    while i < n
        invariant
            start <= i <= n == p.len(),
            split_on(p@.take(i as int), SLASH).len() >= 1,
            split_on(p@.take(i as int), SLASH).last() == p@.subrange(start as int, i as int),
            done == split_on(p@.take(i as int), SLASH).drop_last(),
            views(out_named@) == kept_pieces(done),
        decreases n - i,
    {
        let ghost s = split_on(p@.take(i as int), SLASH);
        proof {
            assert(p@.take(i + 1).drop_last() =~= p@.take(i as int));
            assert(p@.take(i + 1).last() == p@[i as int]);
        }
        if p[i] == SLASH {
            finish_piece(p, start, i, &mut out_named, Ghost(done));
            proof {
                let q = split_on(p@.take(i + 1), SLASH);
                assert(q == s.push(Seq::<u8>::empty()));
                assert(q.drop_last() =~= s);
                assert(s.drop_last().push(s.last()) =~= s);
                done = s;
                assert(p@.subrange(i + 1, i + 1) =~= Seq::<u8>::empty());
            }
            start = i + 1;
        } else {
            proof {
                let q = split_on(p@.take(i + 1), SLASH);
                assert(q == s.update(s.len() - 1, s.last().push(p@[i as int])));
                assert(q.drop_last() =~= s.drop_last());
                assert(p@.subrange(start as int, i + 1) =~= p@.subrange(
                    start as int,
                    i as int,
                ).push(p@[i as int]));
            }
        }
        i = i + 1;
    }
    finish_piece(p, start, i, &mut out_named, Ghost(done));
    proof {
        let s = split_on(p@.take(i as int), SLASH);
        assert(p@.take(i as int) =~= p@);
        assert(done.push(s.last()) =~= s);
    }
    let ghost named = views(out_named@);
    let mut k: usize = 0;
    let m = out_named.len();
    while k < m
        invariant
            k <= m == out_named.len(),
            named == views(out_named@),
            views(out@) == lead + named.take(k as int),
        decreases m - k,
    {
        let part = copy_bytes(&out_named[k]);
        let ghost before = out@;
        out.push(part);
        proof {
            assert(named[k as int] == part@);
            assert(views(out@) =~= views(before).push(part@));
            assert(named.take(k + 1) =~= named.take(k as int).push(named[k as int]));
        }
        k = k + 1;
    }
    proof {
        assert(named.take(m as int) =~= named);
    }
    out
}

pub(crate) fn copy_bytes(v: &Vec<u8>) -> (out: Vec<u8>)
    ensures
        out@ == v@,
{
    let mut out: Vec<u8> = Vec::new();
    extend_range(&mut out, v, 0, v.len());
    proof {
        assert(v@.subrange(0, v@.len() as int) =~= v@);
        assert(Seq::<u8>::empty() + v@ =~= v@);
    }
    out
}

fn same_chars(a: &Vec<u8>, b: &Vec<u8>) -> (r: bool)
    ensures
        r == (a@ == b@),
{
    if a.len() != b.len() {
        return false;
    }
    let mut i: usize = 0;
    while i < a.len()
        invariant
            i <= a.len() == b.len(),
            forall|k: int| 0 <= k < i ==> a@[k] == b@[k],
        decreases a.len() - i,
    {
        if a[i] != b[i] {
            return false;
        }
        i = i + 1;
    }
    assert(a@ =~= b@);
    true
}

/// Whether two paths name the same file, component by component.
pub fn paths_match(a: &Vec<u8>, b: &Vec<u8>) -> (r: bool)
    ensures
        r == same_path(a@, b@),
{
    let ca = components_of(a);
    let cb = components_of(b);
    if ca.len() != cb.len() {
        assert(views(ca@).len() != views(cb@).len());
        return false;
    }
    let mut i: usize = 0;
    while i < ca.len()
        invariant
            i <= ca.len() == cb.len(),
            views(ca@) == path_components(a@),
            views(cb@) == path_components(b@),
            forall|k: int| 0 <= k < i ==> views(ca@)[k] == views(cb@)[k],
        decreases ca.len() - i,
    {
        if !same_chars(&ca[i], &cb[i]) {
            assert(views(ca@)[i as int] != views(cb@)[i as int]);
            assert(views(ca@) != views(cb@));
            return false;
        }
        i = i + 1;
    }
    assert(views(ca@) =~= views(cb@));
    true
}

fn is_name_chars(c: &Vec<u8>) -> (r: bool)
    ensures
        r == is_name(c@),
{
    let root = c.len() == 1 && c[0] == SLASH;
    let dot = c.len() == 1 && c[0] == DOT;
    let dots = c.len() == 2 && c[0] == DOT && c[1] == DOT;
    proof {
        if c.len() == 1 {
            if c[0] == SLASH {
                assert(c@ =~= seq![SLASH]);
            } else {
                assert(c@[0] != seq![SLASH][0]);
            }
            if c[0] == DOT {
                assert(c@ =~= seq![DOT]);
            } else {
                assert(c@[0] != seq![DOT][0]);
            }
        }
        if c.len() == 2 {
            if c[0] == DOT && c[1] == DOT {
                assert(c@ =~= seq![DOT, DOT]);
            } else if c[0] != DOT {
                assert(c@[0] != seq![DOT, DOT][0]);
            } else {
                assert(c@[1] != seq![DOT, DOT][1]);
            }
        }
    }
    !(root || dot || dots)
}

/// The file name of a path and the name of the folder that holds it.
pub fn file_and_folder_names(p: &Vec<u8>) -> (r: (Option<Vec<u8>>, Option<Vec<u8>>))
    ensures
        r.0 matches Some(f) ==> file_name(p@) == Some(f@),
        r.0 is None ==> file_name(p@) is None,
        r.1 matches Some(f) ==> folder_name(p@) == Some(f@),
        r.1 is None ==> folder_name(p@) is None,
{
    let c = components_of(p);
    let n = c.len();
    let file = if n > 0 && is_name_chars(&c[n - 1]) {
        Some(c[n - 1].clone())
    } else {
        None
    };
    let folder = if n >= 2 && is_name_chars(&c[n - 2]) {
        Some(c[n - 2].clone())
    } else {
        None
    };
    (file, folder)
}

/// Pieces joined with `/` between them.
pub open spec fn join_pieces(ls: Seq<Seq<u8>>) -> Seq<u8>
    decreases ls.len(),
{
    if ls.len() == 0 {
        Seq::empty()
    } else if ls.len() == 1 {
        ls[0]
    } else {
        join_pieces(ls.drop_last()) + seq![SLASH] + ls.last()
    }
}

/// Joining the pieces of a split gives the bytes back.
pub proof fn lemma_join_split_pieces(t: Seq<u8>)
    ensures
        join_pieces(split_on(t, SLASH)) == t,
    decreases t.len(),
{
    if t.len() == 0 {
        assert(split_on(t, SLASH) =~= seq![Seq::<u8>::empty()]);
    } else {
        let dl = t.drop_last();
        lemma_join_split_pieces(dl);
        crate::text::lemma_split_on_nonempty(dl, SLASH);
        let p = split_on(dl, SLASH);
        let q = split_on(t, SLASH);
        if t.last() == SLASH {
            assert(q == p.push(Seq::<u8>::empty()));
            assert(q.drop_last() =~= p);
            assert(dl + seq![SLASH] + Seq::<u8>::empty() =~= t);
        } else {
            let y = p.last().push(t.last());
            assert(q == p.update(p.len() - 1, y));
            if p.len() == 1 {
                assert(y =~= t);
            } else {
                assert(q.drop_last() =~= p.drop_last());
                assert(join_pieces(q) == join_pieces(p.drop_last()) + seq![SLASH] + y);
                assert(join_pieces(q) =~= join_pieces(p).push(t.last()));
                assert(dl.push(t.last()) =~= t);
            }
        }
    }
}

/// Splitting bytes that start with `/` gives an empty first piece, then the
/// pieces of the rest.
pub proof fn lemma_split_after_slash(t: Seq<u8>)
    ensures
        split_on(seq![SLASH] + t, SLASH) == seq![Seq::<u8>::empty()] + split_on(t, SLASH),
    decreases t.len(),
{
    let x = seq![SLASH] + t;
    if t.len() == 0 {
        assert(x.drop_last() =~= Seq::<u8>::empty());
        assert(split_on(Seq::<u8>::empty(), SLASH) =~= seq![Seq::<u8>::empty()]);
        assert(split_on(x, SLASH) =~= seq![Seq::<u8>::empty()] + split_on(t, SLASH));
    } else {
        let dl = t.drop_last();
        lemma_split_after_slash(dl);
        crate::text::lemma_split_on_nonempty(dl, SLASH);
        assert(x.drop_last() =~= seq![SLASH] + dl);
        assert(x.last() == t.last());
        let p = split_on(dl, SLASH);
        let e = seq![Seq::<u8>::empty()];
        if t.last() == SLASH {
            assert(split_on(x, SLASH) =~= e + p.push(Seq::<u8>::empty()));
        } else {
            assert((e + p).last() == p.last());
            assert(split_on(x, SLASH) =~= e + p.update(p.len() - 1, p.last().push(t.last())));
        }
    }
}

/// Pieces that are all kept, after one empty piece, are the kept pieces.
pub proof fn lemma_kept_after_empty(ps: Seq<Seq<u8>>)
    requires
        forall|k: int| 0 <= k < ps.len() ==> is_kept_piece(#[trigger] ps[k]),
    ensures
        kept_pieces(seq![Seq::<u8>::empty()] + ps) == ps,
    decreases ps.len(),
{
    let q = seq![Seq::<u8>::empty()] + ps;
    if ps.len() == 0 {
        assert(q.drop_last() =~= Seq::<Seq<u8>>::empty());
        assert(q.last() == Seq::<u8>::empty());
        assert(!is_kept_piece(q.last()));
        assert(kept_pieces(q.drop_last()) == Seq::<Seq<u8>>::empty());
        assert(kept_pieces(q) =~= ps);
    } else {
        let dl = ps.drop_last();
        assert forall|k: int| 0 <= k < dl.len() implies is_kept_piece(#[trigger] dl[k]) by {
            assert(dl[k] == ps[k]);
        }
        lemma_kept_after_empty(dl);
        assert(q.drop_last() =~= seq![Seq::<u8>::empty()] + dl);
        assert(q.last() == ps[ps.len() - 1]);
        assert(is_kept_piece(ps[ps.len() - 1]));
        assert(kept_pieces(q) == kept_pieces(q.drop_last()).push(q.last()));
        assert(dl.push(ps.last()) =~= ps);
    }
}

/// What `String::from_utf8_lossy` of std makes of a path's bytes: the text
/// that `Path::display` shows on Unix.
pub uninterp spec fn path_display(bytes: Seq<u8>) -> Seq<char>;

/// Shows a path as text, with `String::from_utf8_lossy` of std: the result is
/// `path_display` of the bytes, and bytes that are valid UTF-8 are decoded as
/// they are. How invalid sequences are replaced is left unsaid here.
#[verifier::external_body]
pub(crate) fn display_path(bytes: &Vec<u8>) -> (s: String)
    ensures
        s@ == path_display(bytes@),
        vstd::utf8::valid_utf8(bytes@) ==> s@ == vstd::utf8::decode_utf8(bytes@),
{
    String::from_utf8_lossy(bytes.as_slice()).into_owned()
}

/// Reads bytes as UTF-8 text, with `std::str::from_utf8`: text when the bytes
/// are valid UTF-8 (as `OsStr::to_str` needs them), nothing otherwise.
#[verifier::external_body]
pub(crate) fn utf8_text(bytes: &Vec<u8>) -> (r: Option<String>)
    ensures
        r is Some <==> vstd::utf8::valid_utf8(bytes@),
        r matches Some(s) ==> s@ == vstd::utf8::decode_utf8(bytes@),
{
    match std::str::from_utf8(bytes.as_slice()) {
        Ok(text) => Some(text.to_owned()),
        Err(_) => None,
    }
}

} // verus!
