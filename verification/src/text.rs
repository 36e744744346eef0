//! Character-level helpers shared by the document decoder and the menu builder:
//! whitespace trimming, ASCII case folding and conversions between strings and
//! character vectors.
use vstd::prelude::*;

verus! {

/// Unicode `White_Space`, the set of characters that `str::trim` removes.
pub open spec fn is_white_space(c: char) -> bool {
    ||| ('\u{9}' <= c && c <= '\u{d}')
    ||| c == ' '
    ||| c == '\u{85}'
    ||| c == '\u{a0}'
    ||| c == '\u{1680}'
    ||| ('\u{2000}' <= c && c <= '\u{200a}')
    ||| c == '\u{2028}'
    ||| c == '\u{2029}'
    ||| c == '\u{202f}'
    ||| c == '\u{205f}'
    ||| c == '\u{3000}'
}

pub(crate) fn white_space(c: char) -> (r: bool)
    ensures
        r == is_white_space(c),
{
    ('\u{9}' <= c && c <= '\u{d}') || c == ' ' || c == '\u{85}' || c == '\u{a0}' || c == '\u{1680}'
        || ('\u{2000}' <= c && c <= '\u{200a}') || c == '\u{2028}' || c == '\u{2029}' || c
        == '\u{202f}' || c == '\u{205f}' || c == '\u{3000}'
}

/// `s` without its trailing white space.
pub open spec fn trim_end(s: Seq<char>) -> Seq<char>
    decreases s.len(),
{
    if s.len() > 0 && is_white_space(s.last()) {
        trim_end(s.drop_last())
    } else {
        s
    }
}

/// `s` without its leading white space.
pub open spec fn trim_start(s: Seq<char>) -> Seq<char>
    decreases s.len(),
{
    if s.len() > 0 && is_white_space(s[0]) {
        trim_start(s.drop_first())
    } else {
        s
    }
}

/// `s` without leading and trailing white space.
pub open spec fn trim(s: Seq<char>) -> Seq<char> {
    trim_start(trim_end(s))
}

/// ASCII lower case of one character; every other character is left as it is.
pub open spec fn ascii_lower(c: char) -> char {
    if 'A' <= c && c <= 'Z' {
        ((c as u32) + 32) as char
    } else {
        c
    }
}

/// ASCII lower case of a sequence, character by character.
pub open spec fn ascii_lower_seq(s: Seq<char>) -> Seq<char> {
    s.map_values(|c: char| ascii_lower(c))
}

pub open spec fn is_ascii_alpha(c: char) -> bool {
    ('a' <= c && c <= 'z') || ('A' <= c && c <= 'Z')
}

pub open spec fn is_ascii_digit(c: char) -> bool {
    '0' <= c && c <= '9'
}

/// Whether `s` starts with `prefix`.
pub open spec fn starts_with(s: Seq<char>, prefix: Seq<char>) -> bool {
    prefix.len() <= s.len() && s.take(prefix.len() as int) == prefix
}


/// The pieces of `t` between occurrences of `sep` (one more piece than there
/// are separators).
pub open spec fn split_on<A>(t: Seq<A>, sep: A) -> Seq<Seq<A>>
    decreases t.len(),
{
    if t.len() == 0 {
        seq![Seq::<A>::empty()]
    } else {
        let p = split_on(t.drop_last(), sep);
        if t.last() == sep {
            p.push(Seq::<A>::empty())
        } else {
            p.update(p.len() - 1, p.last().push(t.last()))
        }
    }
}

/// A split always has at least one piece.
pub proof fn lemma_split_on_nonempty<A>(t: Seq<A>, sep: A)
    ensures
        split_on(t, sep).len() >= 1,
    decreases t.len(),
{
    if t.len() > 0 {
        lemma_split_on_nonempty(t.drop_last(), sep);
    }
}

/// Removing trailing white space from a sequence that has none changes nothing more.
pub proof fn lemma_trim_end_idempotent(s: Seq<char>)
    ensures
        trim_end(trim_end(s)) == trim_end(s),
    decreases s.len(),
{
    if s.len() > 0 && is_white_space(s.last()) {
        lemma_trim_end_idempotent(s.drop_last());
    }
}

/// What `trim_end` leaves is a prefix of its argument that ends in no white space.
pub proof fn lemma_trim_end_shape(s: Seq<char>)
    ensures
        trim_end(s).len() <= s.len(),
        trim_end(s) == s.take(trim_end(s).len() as int),
        trim_end(s).len() > 0 ==> !is_white_space(trim_end(s).last()),
        forall|k: int| trim_end(s).len() <= k < s.len() ==> is_white_space(#[trigger] s[k]),
    decreases s.len(),
{
    if s.len() > 0 && is_white_space(s.last()) {
        lemma_trim_end_shape(s.drop_last());
        assert(s.drop_last().take(trim_end(s).len() as int) =~= s.take(trim_end(s).len() as int));
        assert forall|k: int| trim_end(s).len() <= k < s.len() implies is_white_space(#[trigger] s[k]) by {
            if k < s.len() - 1 {
                assert(s[k] == s.drop_last()[k]);
            }
        }
    } else {
        assert(s.take(s.len() as int) =~= s);
    }
}

/// What `trim_start` leaves is a suffix of its argument that starts with no white space.
pub proof fn lemma_trim_start_shape(s: Seq<char>)
    ensures
        trim_start(s).len() <= s.len(),
        trim_start(s) == s.skip(s.len() - trim_start(s).len()),
        trim_start(s).len() > 0 ==> !is_white_space(trim_start(s)[0]),
        forall|k: int| 0 <= k < s.len() - trim_start(s).len() ==> is_white_space(#[trigger] s[k]),
    decreases s.len(),
{
    if s.len() > 0 && is_white_space(s[0]) {
        lemma_trim_start_shape(s.drop_first());
        let n = s.len() - trim_start(s).len();
        assert(s.drop_first().skip(n - 1) =~= s.skip(n));
        assert forall|k: int| 0 <= k < s.len() - trim_start(s).len() implies is_white_space(
            #[trigger] s[k],
        ) by {
            if k > 0 {
                assert(s[k] == s.drop_first()[k - 1]);
            }
        }
    } else {
        assert(s.skip(0) =~= s);
    }
}

/// Index of the end of `s` once trailing white space is left out.
pub(crate) fn trimmed_end(s: &Vec<char>, start: usize, end: usize) -> (k: usize)
    requires
        start <= end <= s.len(),
    ensures
        start <= k <= end,
        s@.subrange(start as int, k as int) == trim_end(s@.subrange(start as int, end as int)),
{
    let mut k = end;
    while k > start && white_space(s[k - 1])
        invariant
            start <= k <= end <= s.len(),
            trim_end(s@.subrange(start as int, end as int)) == trim_end(
                s@.subrange(start as int, k as int),
            ),
        decreases k,
    {
        assert(s@.subrange(start as int, k as int).drop_last() =~= s@.subrange(
            start as int,
            k - 1,
        ));
        k = k - 1;
    }
    k
}

/// Index of the start of `s[start..end]` once leading white space is left out.
pub(crate) fn trimmed_start(s: &Vec<char>, start: usize, end: usize) -> (k: usize)
    requires
        start <= end <= s.len(),
    ensures
        start <= k <= end,
        s@.subrange(k as int, end as int) == trim_start(s@.subrange(start as int, end as int)),
{
    let mut k = start;
    while k < end && white_space(s[k])
        invariant
            start <= k <= end <= s.len(),
            trim_start(s@.subrange(start as int, end as int)) == trim_start(
                s@.subrange(k as int, end as int),
            ),
        decreases end - k,
    {
        assert(s@.subrange(k as int, end as int).drop_first() =~= s@.subrange(
            k + 1,
            end as int,
        ));
        k = k + 1;
    }
    k
}

/// Whether `s[start..end]`, folded to ASCII lower case, is `word`.
pub(crate) fn lower_range_is(s: &Vec<char>, start: usize, end: usize, word: &[char]) -> (r: bool)
    requires
        start <= end <= s.len(),
    ensures
        r == (ascii_lower_seq(s@.subrange(start as int, end as int)) == word@),
{
    let ghost sub = s@.subrange(start as int, end as int);
    if end - start != word.len() {
        assert(ascii_lower_seq(sub).len() != word@.len());
        return false;
    }
    let mut j: usize = 0;
    while j < word.len()
        invariant
            start <= end <= s.len(),
            end - start == word.len(),
            sub == s@.subrange(start as int, end as int),
            j <= word.len(),
            forall|k: int| 0 <= k < j ==> ascii_lower(#[trigger] sub[k]) == word@[k],
        decreases word.len() - j,
    {
        let c = s[start + j];
        let w = word[j];
        assert(c == sub[j as int]);
        let same = if 'A' <= c && c <= 'Z' {
            (c as u32) + 32 == (w as u32)
        } else {
            c == w
        };
        proof {
            vstd::utf8::char_u32_cast(w, w as u32);
        }
        if !same {
            assert(ascii_lower_seq(sub)[j as int] != word@[j as int]);
            return false;
        }
        j = j + 1;
    }
    assert(ascii_lower_seq(sub) =~= word@);
    true
}

/// Whether `s[start..end]` is exactly `word`.
pub(crate) fn range_is(s: &Vec<char>, start: usize, end: usize, word: &[char]) -> (r: bool)
    requires
        start <= end <= s.len(),
    ensures
        r == (s@.subrange(start as int, end as int) == word@),
{
    let ghost sub = s@.subrange(start as int, end as int);
    if end - start != word.len() {
        return false;
    }
    let mut j: usize = 0;
    while j < word.len()
        invariant
            start <= end <= s.len(),
            end - start == word.len(),
            sub == s@.subrange(start as int, end as int),
            j <= word.len(),
            forall|k: int| 0 <= k < j ==> #[trigger] sub[k] == word@[k],
        decreases word.len() - j,
    {
        if s[start + j] != word[j] {
            assert(sub[j as int] != word@[j as int]);
            return false;
        }
        j = j + 1;
    }
    assert(sub =~= word@);
    true
}

/// Collects the characters of `s` into a vector.
pub(crate) fn chars_of(s: &str) -> (out: Vec<char>)
    ensures
        out@ == s@,
{
    let mut out: Vec<char> = Vec::new();
    for c in it: s.chars()
        invariant
            out@ == it.seq().take(it.index() as int),
    {
        out.push(c);
    }
    out
}

/// Appends `s[start..end]` to `out`.
pub(crate) fn extend_range<T: Copy>(out: &mut Vec<T>, s: &Vec<T>, start: usize, end: usize)
    requires
        start <= end <= s.len(),
    ensures
        final(out)@ == old(out)@ + s@.subrange(start as int, end as int),
{
    let mut k = start;
    while k < end
        invariant
            start <= k <= end <= s.len(),
            out@ == old(out)@ + s@.subrange(start as int, k as int),
        decreases end - k,
    {
        out.push(s[k]);
        k = k + 1;
        assert(out@ =~= old(out)@ + s@.subrange(start as int, k as int));
    }
}

/// Builds a `String` from characters, with `String::from_iter` of std.
#[verifier::external_body]
pub(crate) fn string_from_chars(v: &Vec<char>) -> (s: String)
    ensures
        s@ == v@,
{
    String::from_iter(v.iter())
}

} // verus!
