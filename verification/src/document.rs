//! Turning the raw contents of a document into the text that the viewer shows.
//!
//! Plain text is shown as it is. Text that begins with an RTF header is reduced
//! to its visible characters: groups that hold fonts, colours, style sheets,
//! document information, pictures or generator notes are dropped, control
//! words for paragraph, line and tab become `\n` and `\t`, escaped characters
//! are kept, and lines left over from font tables are cleaned away.
use vstd::prelude::*;
use vstd::string::StringExecFns;
use crate::text::{
    ascii_lower_seq, chars_of, extend_range, is_ascii_alpha, is_ascii_digit, lower_range_is,
    range_is, split_on, starts_with, string_from_chars, trim, trim_end, trim_start, trimmed_end,
    trimmed_start,
};

verus! {

// ---------------------------------------------------------------------------
// The model of the RTF scanner
// ---------------------------------------------------------------------------

/// The state that the scanner carries from one character to the next: one
/// "skip" flag per open group, innermost last, and whether the group that
/// opens next was announced as ignorable with `\*`.
pub struct RtfScan {
    pub stack: Seq<bool>,
    pub skip_next: bool,
}

/// The state before the first character: one open, visible outer level.
pub open spec fn initial_scan() -> RtfScan {
    RtfScan { stack: seq![false], skip_next: false }
}

/// Whether the innermost group is skipped (`false` with no group at all).
pub open spec fn stack_top(stack: Seq<bool>) -> bool {
    if stack.len() == 0 {
        false
    } else {
        stack.last()
    }
}

/// The stack with its innermost group marked as skipped.
pub open spec fn mark_top_skipped(stack: Seq<bool>) -> Seq<bool> {
    if stack.len() == 0 {
        stack
    } else {
        stack.update(stack.len() - 1, true)
    }
}

/// Value of one hexadecimal digit.
pub open spec fn hex_digit(c: char) -> Option<u8> {
    if '0' <= c && c <= '9' {
        Some(((c as u32) - ('0' as u32)) as u8)
    } else if 'a' <= c && c <= 'f' {
        Some(((c as u32) - ('a' as u32) + 10) as u8)
    } else if 'A' <= c && c <= 'F' {
        Some(((c as u32) - ('A' as u32) + 10) as u8)
    } else {
        None
    }
}

/// The byte that the two characters after `\'` spell in base 16, as
/// `u8::from_str_radix` reads them: hexadecimal digits after an optional `+`.
pub open spec fn hex_byte(a: char, b: char) -> Option<u8> {
    if a == '+' {
        hex_digit(b)
    } else {
        match (hex_digit(a), hex_digit(b)) {
            (Some(x), Some(y)) => Some((x * 16 + y) as u8),
            _ => None,
        }
    }
}

/// The character whose code is the byte (the Latin-1 reading of it).
pub open spec fn latin1(b: u8) -> char {
    (b as u32) as char
}

/// End of the run of ASCII letters that starts at `k`.
pub open spec fn alpha_run_end(s: Seq<char>, k: int) -> int
    decreases s.len() - k,
{
    if 0 <= k < s.len() && is_ascii_alpha(s[k]) {
        alpha_run_end(s, k + 1)
    } else {
        k
    }
}

/// End of the run of digits and `-` that starts at `k` (a control word's parameter).
pub open spec fn param_run_end(s: Seq<char>, k: int) -> int
    decreases s.len() - k,
{
    if 0 <= k < s.len() && (s[k] == '-' || is_ascii_digit(s[k])) {
        param_run_end(s, k + 1)
    } else {
        k
    }
}

/// Control words that open a group whose contents are never shown.
pub open spec fn is_destination(w: Seq<char>) -> bool {
    ||| w == seq!['f', 'o', 'n', 't', 't', 'b', 'l']
    ||| w == seq!['c', 'o', 'l', 'o', 'r', 't', 'b', 'l']
    ||| w == seq!['s', 't', 'y', 'l', 'e', 's', 'h', 'e', 'e', 't']
    ||| w == seq!['i', 'n', 'f', 'o']
    ||| w == seq!['p', 'i', 'c', 't']
    ||| w == seq!['e', 'x', 'p', 'a', 'n', 'd', 'e', 'd', 'c', 'o', 'l', 'o', 'r', 't', 'b', 'l']
    ||| w == seq!['g', 'e', 'n', 'e', 'r', 'a', 't', 'o', 'r']
}

/// Text that a visible control word stands for.
pub open spec fn control_word_text(w: Seq<char>) -> Seq<char> {
    if w == seq!['p', 'a', 'r'] || w == seq!['l', 'i', 'n', 'e'] {
        seq!['\n']
    } else if w == seq!['t', 'a', 'b'] {
        seq!['\t']
    } else {
        Seq::empty()
    }
}

/// One step of the scanner at position `i`: the position after what it read,
/// the new state, and the text it emits.
pub open spec fn rtf_step(s: Seq<char>, i: int, st: RtfScan) -> (int, RtfScan, Seq<char>) {
    let c = s[i];
    let top = stack_top(st.stack);
    let none = Seq::<char>::empty();
    if c == '{' {
        (i + 1, RtfScan { stack: st.stack.push(top || st.skip_next), skip_next: false }, none)
    } else if c == '}' {
        let popped = if st.stack.len() > 0 {
            st.stack.drop_last()
        } else {
            st.stack
        };
        let stack = if popped.len() == 0 {
            seq![false]
        } else {
            popped
        };
        (i + 1, RtfScan { stack: stack, skip_next: st.skip_next }, none)
    } else if c == '\\' {
        if i + 1 >= s.len() {
            (i + 1, st, none)
        } else {
            let d = s[i + 1];
            if d == '\\' || d == '{' || d == '}' {
                (i + 2, st, if top { none } else { seq![d] })
            } else if d == '\'' {
                if i + 3 < s.len() {
                    let emitted = match hex_byte(s[i + 2], s[i + 3]) {
                        Some(b) => if top { none } else { seq![latin1(b)] },
                        None => none,
                    };
                    (i + 4, st, emitted)
                } else {
                    (s.len() as int, st, none)
                }
            } else if d == '*' {
                (i + 2, RtfScan { stack: st.stack, skip_next: true }, none)
            } else if is_ascii_alpha(d) {
                let word_end = alpha_run_end(s, i + 1);
                let param_end = param_run_end(s, word_end);
                let next = if param_end < s.len() && s[param_end] == ' ' {
                    param_end + 1
                } else {
                    param_end
                };
                let word = s.subrange(i + 1, word_end);
                if is_destination(word) {
                    (next, RtfScan { stack: mark_top_skipped(st.stack), skip_next: st.skip_next }, none)
                } else if top {
                    (next, st, none)
                } else {
                    (next, st, control_word_text(word))
                }
            } else {
                (i + 2, st, none)
            }
        }
    } else if c == '\r' {
        (i + 1, st, none)
    } else {
        (i + 1, st, if top { none } else { seq![c] })
    }
}

/// The text that the scanner emits from position `i` on, starting in state `st`.
pub open spec fn rtf_scan(s: Seq<char>, i: int, st: RtfScan) -> Seq<char>
    decreases s.len() - i,
{
    if i < 0 || i >= s.len() {
        Seq::empty()
    } else {
        let (j, next, emitted) = rtf_step(s, i, st);
        if j <= i || j > s.len() {
            // never taken: every step advances within the input
            Seq::empty()
        } else {
            emitted + rtf_scan(s, j, next)
        }
    }
}

// ---------------------------------------------------------------------------
// The model of the clean-up of lines
// ---------------------------------------------------------------------------

/// The pieces of `t` between `\n` characters (one more piece than there are
/// `\n`). Once each piece has lost its trailing white space, this gives what
/// `str::lines` gives, with perhaps an empty last piece more.
pub open spec fn split_lines(t: Seq<char>) -> Seq<Seq<char>> {
    split_on(t, '\n')
}

/// A line left over from RTF markup: blank once trimmed, made only of `;` and
/// `:`, or the bare name of a common font.
pub open spec fn is_rtf_junk(line: Seq<char>) -> bool {
    let lower = ascii_lower_seq(trim(line));
    ||| lower.len() == 0
    ||| (forall|k: int| 0 <= k < lower.len() ==> #[trigger] lower[k] == ';' || lower[k] == ':')
    ||| lower == seq!['h', 'e', 'l', 'v', 'e', 't', 'i', 'c', 'a']
    ||| lower == seq!['t', 'i', 'm', 'e', 's']
    ||| lower == seq!['c', 'o', 'u', 'r', 'i', 'e', 'r']
}

/// Each line without its trailing white space, leaving out the junk lines.
pub open spec fn kept_lines(ls: Seq<Seq<char>>) -> Seq<Seq<char>>
    decreases ls.len(),
{
    if ls.len() == 0 {
        Seq::empty()
    } else {
        let kept = kept_lines(ls.drop_last());
        let line = trim_end(ls.last());
        if is_rtf_junk(line) {
            kept
        } else {
            kept.push(line)
        }
    }
}

/// The lines joined with `\n` between them.
pub open spec fn join_lines(ls: Seq<Seq<char>>) -> Seq<char>
    decreases ls.len(),
{
    if ls.len() == 0 {
        Seq::empty()
    } else if ls.len() == 1 {
        ls[0]
    } else {
        join_lines(ls.drop_last()) + seq!['\n'] + ls.last()
    }
}

/// The scanned text once junk lines are gone and the whole is trimmed.
pub open spec fn tidy_rtf_text(t: Seq<char>) -> Seq<char> {
    trim(join_lines(kept_lines(split_lines(t))))
}

/// The visible text of an RTF document.
pub open spec fn rtf_plain_text(raw: Seq<char>) -> Seq<char> {
    tidy_rtf_text(rtf_scan(raw, 0, initial_scan()))
}

/// The five characters that open an RTF document.
pub open spec fn rtf_header() -> Seq<char> {
    seq!['{', '\\', 'r', 't', 'f']
}

/// Whether raw text is RTF: after leading white space it opens with `{\rtf`.
pub open spec fn is_rtf_text(raw: Seq<char>) -> bool {
    starts_with(trim_start(raw), rtf_header())
}

/// What the viewer shows for the raw contents of a document.
pub open spec fn decoded_text(raw: Seq<char>) -> Seq<char> {
    if is_rtf_text(raw) {
        rtf_plain_text(raw)
    } else {
        raw
    }
}

// ---------------------------------------------------------------------------
// Lemmas
// ---------------------------------------------------------------------------

pub proof fn lemma_alpha_run_end_bounds(s: Seq<char>, k: int)
    requires
        0 <= k <= s.len(),
    ensures
        k <= alpha_run_end(s, k) <= s.len(),
    decreases s.len() - k,
{
    if 0 <= k < s.len() && is_ascii_alpha(s[k]) {
        lemma_alpha_run_end_bounds(s, k + 1);
    }
}

pub proof fn lemma_param_run_end_bounds(s: Seq<char>, k: int)
    requires
        0 <= k <= s.len(),
    ensures
        k <= param_run_end(s, k) <= s.len(),
    decreases s.len() - k,
{
    if 0 <= k < s.len() && (s[k] == '-' || is_ascii_digit(s[k])) {
        lemma_param_run_end_bounds(s, k + 1);
    }
}

/// Every step of the scanner moves forward and stays within the input.
pub proof fn lemma_step_advances(s: Seq<char>, i: int, st: RtfScan)
    requires
        0 <= i < s.len(),
    ensures
        i < rtf_step(s, i, st).0 <= s.len(),
{
    if s[i] == '\\' && i + 1 < s.len() && is_ascii_alpha(s[i + 1]) {
        lemma_alpha_run_end_bounds(s, i + 1);
        lemma_param_run_end_bounds(s, alpha_run_end(s, i + 1));
    }
}

/// Runs of letters end at the same place once text is put in front.
pub proof fn lemma_alpha_run_end_shift(p: Seq<char>, t: Seq<char>, k: int)
    requires
        0 <= k,
    ensures
        alpha_run_end(p + t, p.len() + k) == p.len() + alpha_run_end(t, k),
    decreases t.len() - k,
{
    if k < t.len() {
        assert((p + t)[p.len() + k] == t[k]);
        if is_ascii_alpha(t[k]) {
            lemma_alpha_run_end_shift(p, t, k + 1);
        }
    }
}

/// Runs of parameter characters end at the same place once text is put in front.
pub proof fn lemma_param_run_end_shift(p: Seq<char>, t: Seq<char>, k: int)
    requires
        0 <= k,
    ensures
        param_run_end(p + t, p.len() + k) == p.len() + param_run_end(t, k),
    decreases t.len() - k,
{
    if k < t.len() {
        assert((p + t)[p.len() + k] == t[k]);
        if t[k] == '-' || is_ascii_digit(t[k]) {
            lemma_param_run_end_shift(p, t, k + 1);
        }
    }
}

/// A step reads the same once text is put in front; it lands as far further on.
pub proof fn lemma_step_shift(p: Seq<char>, t: Seq<char>, i: int, st: RtfScan)
    requires
        0 <= i < t.len(),
    ensures
        ({
            let (j, next, emitted) = rtf_step(t, i, st);
            rtf_step(p + t, p.len() + i, st) == (p.len() + j, next, emitted)
        }),
{
    let x = p + t;
    let n = p.len();
    assert forall|k: int| 0 <= k < t.len() implies x[n + k] == #[trigger] t[k] by {}
    if t[i] == '\\' && i + 1 < t.len() && is_ascii_alpha(t[i + 1]) {
        lemma_alpha_run_end_shift(p, t, i + 1);
        let we = alpha_run_end(t, i + 1);
        lemma_alpha_run_end_bounds(t, i + 1);
        lemma_param_run_end_shift(p, t, we);
        lemma_param_run_end_bounds(t, we);
        assert(x.subrange(n + i + 1, n + we) =~= t.subrange(i + 1, we));
    }
}

/// Scanning reads the same once text is put in front.
pub proof fn lemma_scan_shift(p: Seq<char>, t: Seq<char>, i: int, st: RtfScan)
    requires
        0 <= i,
    ensures
        rtf_scan(p + t, p.len() + i, st) == rtf_scan(t, i, st),
    decreases t.len() - i,
{
    if i < t.len() {
        lemma_step_shift(p, t, i, st);
        lemma_step_advances(t, i, st);
        let (j, next, emitted) = rtf_step(t, i, st);
        lemma_scan_shift(p, t, j, next);
    }
}

/// How far the braces of `c` leave the group depth: one up for each `{`,
/// one down for each `}`.
pub open spec fn brace_depth(c: Seq<char>) -> int
    decreases c.len(),
{
    if c.len() == 0 {
        0
    } else {
        (if c[0] == '{' {
            1int
        } else if c[0] == '}' {
            -1int
        } else {
            0int
        }) + brace_depth(c.drop_first())
    }
}

/// Braces that close every group they open and never close one they did not open.
pub open spec fn balanced_braces(c: Seq<char>) -> bool {
    &&& brace_depth(c) == 0
    &&& forall|k: int| 0 <= k <= c.len() ==> brace_depth(#[trigger] c.take(k)) >= 0
}

/// `n` skipped groups.
pub open spec fn all_skipped(n: nat) -> Seq<bool> {
    Seq::new(n, |i: int| true)
}

/// Characters that are neither a backslash, a brace nor a carriage return are
/// emitted one for one while the innermost group is shown.
pub proof fn lemma_plain_region(x: Seq<char>, j: int, end: int, st: RtfScan)
    requires
        0 <= j <= end <= x.len(),
        !stack_top(st.stack),
        forall|m: int|
            j <= m < end ==> #[trigger] x[m] != '\\' && x[m] != '{' && x[m] != '}' && x[m]
                != '\r',
    ensures
        rtf_scan(x, j, st) == x.subrange(j, end) + rtf_scan(x, end, st),
    decreases end - j,
{
    if j == end {
        assert(x.subrange(j, end) + rtf_scan(x, end, st) =~= rtf_scan(x, end, st));
    } else {
        assert(x[j] != '\\' && x[j] != '{' && x[j] != '}' && x[j] != '\r');
        assert(rtf_step(x, j, st) == (j + 1, st, seq![x[j]]));
        lemma_plain_region(x, j + 1, end, st);
        assert(x.subrange(j, end) =~= seq![x[j]] + x.subrange(j + 1, end));
    }
}

/// Inside a skipped group, text without backslashes whose braces balance
/// emits nothing and leaves the scanner as it was.
pub proof fn lemma_skipped_region(x: Seq<char>, j: int, end: int, base: Seq<bool>, depth: nat)
    requires
        0 <= j <= end <= x.len(),
        base.len() > 0,
        base.last(),
        forall|m: int| j <= m < end ==> #[trigger] x[m] != '\\',
        forall|k: int| 0 <= k <= end - j ==> depth + brace_depth(#[trigger] x.subrange(j, j + k)) >= 0,
        depth + brace_depth(x.subrange(j, end)) == 0,
    ensures
        rtf_scan(x, j, RtfScan { stack: base + all_skipped(depth), skip_next: false }) == rtf_scan(
            x,
            end,
            RtfScan { stack: base, skip_next: false },
        ),
    decreases end - j,
{
    let st = RtfScan { stack: base + all_skipped(depth), skip_next: false };
    let stack = st.stack;
    assert(stack_top(stack)) by {
        if depth > 0 {
            assert(stack.last() == all_skipped(depth)[depth - 1]);
        } else {
            assert(stack.last() == base.last());
        }
    }
    if j == end {
        assert(x.subrange(j, end).len() == 0);
        assert(depth == 0);
        assert(base + all_skipped(0) =~= base);
    } else {
        let c = x[j];
        assert(c != '\\');
        assert forall|k: int| 0 <= k <= end - j - 1 implies #[trigger] brace_depth(
            x.subrange(j + 1, j + 1 + k),
        ) + (if c == '{' {
            1int
        } else if c == '}' {
            -1int
        } else {
            0int
        }) == brace_depth(x.subrange(j, j + 1 + k)) by {
            assert(x.subrange(j, j + 1 + k).drop_first() =~= x.subrange(j + 1, j + 1 + k));
            assert(x.subrange(j, j + 1 + k)[0] == c);
        }
        assert(brace_depth(x.subrange(j + 1, end)) + (if c == '{' {
            1int
        } else if c == '}' {
            -1int
        } else {
            0int
        }) == brace_depth(x.subrange(j, end))) by {
            assert(x.subrange(j, end).drop_first() =~= x.subrange(j + 1, end));
        }
        assert(x.subrange(j, j + 0).len() == 0);
        assert(depth + brace_depth(x.subrange(j, j + 1)) >= 0);
        assert(brace_depth(x.subrange(j + 1, j + 1)) == 0) by {
            assert(x.subrange(j + 1, j + 1).len() == 0);
        }
        let delta: int = if c == '{' {
            1int
        } else if c == '}' {
            -1int
        } else {
            0int
        };
        assert forall|k: int| 0 <= k <= end - (j + 1) implies depth + delta + brace_depth(
            #[trigger] x.subrange(j + 1, j + 1 + k),
        ) >= 0 by {
            let k1 = k + 1;
            assert(depth + brace_depth(x.subrange(j, j + k1)) >= 0);
            assert(x.subrange(j, j + k1) == x.subrange(j, j + 1 + k));
        }
        if c == '{' {
            let d2 = (depth + 1) as nat;
            assert(rtf_step(x, j, st).1.stack =~= base + all_skipped(d2));
            lemma_skipped_region(x, j + 1, end, base, d2);
        } else if c == '}' {
            assert(depth + delta + brace_depth(x.subrange(j + 1, j + 1 + 0)) >= 0);
            assert(x.subrange(j + 1, j + 1 + 0) == x.subrange(j + 1, j + 1));
            assert(depth >= 1);
            let d2 = (depth - 1) as nat;
            assert(stack.drop_last() =~= base + all_skipped(d2));
            lemma_skipped_region(x, j + 1, end, base, d2);
        } else {
            assert(rtf_step(x, j, st) == (j + 1, st, Seq::<char>::empty()));
            lemma_skipped_region(x, j + 1, end, base, depth);
        }
        assert(rtf_scan(x, j, st) == Seq::<char>::empty() + rtf_scan(
            x,
            j + 1,
            rtf_step(x, j, st).1,
        ));
        assert(Seq::<char>::empty() + rtf_scan(x, j + 1, rtf_step(x, j, st).1) =~= rtf_scan(
            x,
            j + 1,
            rtf_step(x, j, st).1,
        ));
    }
}

/// A run of letters that stops before a non-letter ends there.
pub proof fn lemma_alpha_run_over(x: Seq<char>, k: int, n: nat)
    requires
        0 <= k,
        k + n <= x.len(),
        forall|m: int| k <= m < k + n ==> is_ascii_alpha(#[trigger] x[m]),
        k + n == x.len() || !is_ascii_alpha(x[k + n]),
    ensures
        alpha_run_end(x, k) == k + n,
    decreases n,
{
    if n > 0 {
        assert(is_ascii_alpha(x[k]));
        lemma_alpha_run_over(x, k + 1, (n - 1) as nat);
    }
}

/// The control words that open a skipped group are made of letters.
pub proof fn lemma_destination_letters(d: Seq<char>)
    requires
        is_destination(d),
    ensures
        d.len() > 0,
        forall|i: int| 0 <= i < d.len() ==> is_ascii_alpha(#[trigger] d[i]),
{
}

/// The header `{\rtf1 ` that opens a document.
pub open spec fn rtf1_header() -> Seq<char> {
    seq!['{', '\\', 'r', 't', 'f', '1', ' ']
}

/// The scanner's state after the header: the outer group open and shown.
pub open spec fn after_header() -> RtfScan {
    RtfScan { stack: seq![false, false], skip_next: false }
}

/// The header emits nothing and opens one shown group.
pub proof fn lemma_header(t: Seq<char>)
    ensures
        rtf_scan(rtf1_header() + t, 0, initial_scan()) == rtf_scan(t, 0, after_header()),
{
    let h = rtf1_header();
    let x = h + t;
    assert(x[0] == '{' && x[1] == '\\' && x[2] == 'r' && x[3] == 't' && x[4] == 'f' && x[5]
        == '1' && x[6] == ' ');
    let st0 = initial_scan();
    assert(rtf_step(x, 0, st0).1 == after_header()) by {
        assert(seq![false].push(false) =~= seq![false, false]);
    }
    assert(rtf_step(x, 0, st0) == (1int, after_header(), Seq::<char>::empty()));
    assert(alpha_run_end(x, 5) == 5);
    assert(alpha_run_end(x, 4) == 5);
    assert(alpha_run_end(x, 3) == 5);
    assert(alpha_run_end(x, 2) == 5);
    assert(param_run_end(x, 6) == 6);
    assert(param_run_end(x, 5) == 6);
    let word = x.subrange(2, 5);
    assert(word =~= seq!['r', 't', 'f']);
    assert(!is_destination(word));
    assert(word != seq!['p', 'a', 'r']) by {
        assert(word[0] != seq!['p', 'a', 'r'][0]);
    }
    assert(word != seq!['t', 'a', 'b']) by {
        assert(word[0] != seq!['t', 'a', 'b'][0]);
    }
    assert(control_word_text(word) == Seq::<char>::empty());
    assert(rtf_step(x, 1, after_header()) == (7int, after_header(), Seq::<char>::empty()));
    lemma_scan_shift(h, t, 0, after_header());
    assert(rtf_scan(x, 0, st0) == Seq::<char>::empty() + rtf_scan(x, 1, after_header()));
    assert(rtf_scan(x, 1, after_header()) == Seq::<char>::empty() + rtf_scan(
        x,
        7,
        after_header(),
    ));
    assert(Seq::<char>::empty() + rtf_scan(x, 7, after_header()) =~= rtf_scan(
        x,
        7,
        after_header(),
    ));
    assert(Seq::<char>::empty() + rtf_scan(x, 1, after_header()) =~= rtf_scan(
        x,
        1,
        after_header(),
    ));
}

/// Joining the lines of a text gives the text back.
pub proof fn lemma_join_split(t: Seq<char>)
    ensures
        join_lines(split_lines(t)) == t,
    decreases t.len(),
{
    if t.len() == 0 {
        assert(split_lines(t) =~= seq![Seq::<char>::empty()]);
    } else {
        let dl = t.drop_last();
        lemma_join_split(dl);
        crate::text::lemma_split_on_nonempty(dl, '\n');
        let p = split_lines(dl);
        let q = split_lines(t);
        if t.last() == '\n' {
            assert(q == p.push(Seq::<char>::empty()));
            assert(q.drop_last() =~= p);
            assert(join_lines(q) == join_lines(p) + seq!['\n'] + Seq::<char>::empty());
            assert(dl + seq!['\n'] + Seq::<char>::empty() =~= t);
        } else {
            let y = p.last().push(t.last());
            assert(q == p.update(p.len() - 1, y));
            if p.len() == 1 {
                assert(join_lines(q) == y);
                assert(join_lines(p) == p[0]);
                assert(y =~= t);
            } else {
                assert(q.drop_last() =~= p.drop_last());
                assert(join_lines(q) == join_lines(p.drop_last()) + seq!['\n'] + y);
                assert(join_lines(p) == join_lines(p.drop_last()) + seq!['\n'] + p.last());
                assert(join_lines(q) =~= join_lines(p).push(t.last()));
                assert(dl.push(t.last()) =~= t);
            }
        }
    }
}

/// Lines that are all clean are all kept, unchanged.
pub proof fn lemma_kept_all(ls: Seq<Seq<char>>)
    requires
        forall|k: int|
            0 <= k < ls.len() ==> trim_end(#[trigger] ls[k]) == ls[k] && !is_rtf_junk(ls[k]),
    ensures
        kept_lines(ls) == ls,
    decreases ls.len(),
{
    if ls.len() > 0 {
        let dl = ls.drop_last();
        assert forall|k: int| 0 <= k < dl.len() implies trim_end(#[trigger] dl[k]) == dl[k]
            && !is_rtf_junk(dl[k]) by {
            assert(dl[k] == ls[k]);
        }
        lemma_kept_all(dl);
        assert(trim_end(ls[ls.len() - 1]) == ls.last());
        assert(dl.push(ls.last()) =~= ls);
    }
}

/// Whether a character is a hexadecimal digit.
pub open spec fn is_hex_char(c: char) -> bool {
    ('0' <= c && c <= '9') || ('a' <= c && c <= 'f') || ('A' <= c && c <= 'F')
}

/// Within `x[j..end)`, every backslash starts a control word (a letter follows)
/// or a hexadecimal escape `\'hh` that ends within the range.
pub open spec fn escapes_are_words_or_hex(x: Seq<char>, j: int, end: int) -> bool {
    forall|m: int|
        j <= m < end && #[trigger] x[m] == '\\' ==> (m + 1 < end && is_ascii_alpha(x[m + 1])) || (
        m + 3 < end && x[m + 1] == '\'' && is_hex_char(x[m + 2]) && is_hex_char(x[m + 3]))
}

/// The brace depth of a range is that of its first character and the rest.
pub proof fn lemma_brace_depth_front(x: Seq<char>, j: int, e: int)
    requires
        0 <= j < e <= x.len(),
    ensures
        brace_depth(x.subrange(j, e)) == (if x[j] == '{' {
            1int
        } else if x[j] == '}' {
            -1int
        } else {
            0int
        }) + brace_depth(x.subrange(j + 1, e)),
{
    assert(x.subrange(j, e).drop_first() =~= x.subrange(j + 1, e));
}

/// Characters that are no braces leave the brace depth alone.
pub proof fn lemma_brace_depth_skip(x: Seq<char>, j: int, t: int, e: int)
    requires
        0 <= j <= t <= e <= x.len(),
        forall|m: int| j <= m < t ==> #[trigger] x[m] != '{' && x[m] != '}',
    ensures
        brace_depth(x.subrange(j, e)) == brace_depth(x.subrange(t, e)),
    decreases t - j,
{
    if j < t {
        assert(x[j] != '{' && x[j] != '}');
        lemma_brace_depth_front(x, j, e);
        lemma_brace_depth_skip(x, j + 1, t, e);
    }
}

/// A run of letters that starts before a non-letter ends there at the latest.
pub proof fn lemma_alpha_run_within(x: Seq<char>, k: int, end: int)
    requires
        0 <= k <= end < x.len(),
        !is_ascii_alpha(x[end]),
    ensures
        k <= alpha_run_end(x, k) <= end,
        forall|m: int| k <= m < alpha_run_end(x, k) ==> is_ascii_alpha(#[trigger] x[m]),
    decreases end - k,
{
    if k < end && is_ascii_alpha(x[k]) {
        lemma_alpha_run_within(x, k + 1, end);
    }
}

/// A run of parameter characters that starts before `}` ends there at the latest.
pub proof fn lemma_param_run_within(x: Seq<char>, k: int, end: int)
    requires
        0 <= k <= end < x.len(),
        x[end] == '}',
    ensures
        k <= param_run_end(x, k) <= end,
        forall|m: int| k <= m < param_run_end(x, k) ==> (#[trigger] x[m] == '-' || is_ascii_digit(x[m])),
    decreases end - k,
{
    if k < end && (x[k] == '-' || is_ascii_digit(x[k])) {
        lemma_param_run_within(x, k + 1, end);
    }
}

/// Inside a skipped group that a `}` closes at `end`, text whose braces balance
/// and whose backslashes start only control words or hexadecimal escapes
/// emits nothing and leaves the scanner as it was: an escaped character of a
/// hidden group never shows.
pub proof fn lemma_skipped_tokens(x: Seq<char>, j: int, end: int, base: Seq<bool>, depth: nat)
    requires
        0 <= j <= end < x.len(),
        x[end] == '}',
        base.len() > 0,
        base.last(),
        escapes_are_words_or_hex(x, j, end),
        forall|k: int| 0 <= k <= end - j ==> depth + brace_depth(#[trigger] x.subrange(j, j + k)) >= 0,
        depth + brace_depth(x.subrange(j, end)) == 0,
    ensures
        rtf_scan(x, j, RtfScan { stack: base + all_skipped(depth), skip_next: false }) == rtf_scan(
            x,
            end,
            RtfScan { stack: base, skip_next: false },
        ),
    decreases end - j,
{
    let st = RtfScan { stack: base + all_skipped(depth), skip_next: false };
    let stack = st.stack;
    assert(stack_top(stack)) by {
        if depth > 0 {
            assert(stack.last() == all_skipped(depth)[depth - 1]);
        } else {
            assert(stack.last() == base.last());
        }
    }
    if j == end || x[j] != '\\' {
        if j == end {
            assert(x.subrange(j, end).len() == 0);
            assert(depth == 0);
            assert(base + all_skipped(0) =~= base);
        } else {
            // one plain character, handled as in a group without escapes
            let c = x[j];
            let delta: int = if c == '{' {
                1int
            } else if c == '}' {
                -1int
            } else {
                0int
            };
            assert forall|k: int| 0 <= k <= end - (j + 1) implies depth + delta + brace_depth(
                #[trigger] x.subrange(j + 1, j + 1 + k),
            ) >= 0 by {
                let k1 = k + 1;
                assert(depth + brace_depth(x.subrange(j, j + k1)) >= 0);
                lemma_brace_depth_front(x, j, j + k1);
                assert(x.subrange(j + 1, j + k1) == x.subrange(j + 1, j + 1 + k));
            }
            lemma_brace_depth_front(x, j, end);
            assert(escapes_are_words_or_hex(x, j + 1, end));
            if c == '{' {
                let d2 = (depth + 1) as nat;
                assert(rtf_step(x, j, st).1.stack =~= base + all_skipped(d2));
                lemma_skipped_tokens(x, j + 1, end, base, d2);
            } else if c == '}' {
                assert(depth + delta + brace_depth(x.subrange(j + 1, j + 1 + 0)) >= 0);
                assert(x.subrange(j + 1, j + 1 + 0).len() == 0);
                assert(depth >= 1);
                let d2 = (depth - 1) as nat;
                assert(stack.drop_last() =~= base + all_skipped(d2));
                lemma_skipped_tokens(x, j + 1, end, base, d2);
            } else {
                assert(rtf_step(x, j, st) == (j + 1, st, Seq::<char>::empty()));
                lemma_skipped_tokens(x, j + 1, end, base, depth);
            }
            assert(Seq::<char>::empty() + rtf_scan(x, j + 1, rtf_step(x, j, st).1) =~= rtf_scan(
                x,
                j + 1,
                rtf_step(x, j, st).1,
            ));
        }
    } else {
        // a control word or a hexadecimal escape: no braces, nothing emitted
        let next: int = if j + 1 < end && is_ascii_alpha(x[j + 1]) {
            lemma_alpha_run_within(x, j + 1, end);
            let we = alpha_run_end(x, j + 1);
            lemma_param_run_within(x, we, end);
            let pe = param_run_end(x, we);
            let nx = if pe < x.len() && x[pe] == ' ' {
                pe + 1
            } else {
                pe
            };
            assert(nx <= end);
            assert forall|m: int| j <= m < nx implies #[trigger] x[m] != '{' && x[m] != '}' by {
                if j < m < we {
                    assert(is_ascii_alpha(x[m]));
                } else if we <= m < pe {
                    assert(x[m] == '-' || is_ascii_digit(x[m]));
                }
            }
            assert(mark_top_skipped(stack) =~= stack);
            assert(rtf_step(x, j, st) == (nx, st, Seq::<char>::empty()));
            nx
        } else {
            assert(j + 3 < end && x[j + 1] == '\'' && is_hex_char(x[j + 2]) && is_hex_char(
                x[j + 3],
            ));
            assert(rtf_step(x, j, st) == (j + 4, st, Seq::<char>::empty()));
            j + 4
        };
        assert forall|m: int| j <= m < next implies #[trigger] x[m] != '{' && x[m] != '}' by {
            if !(j + 1 < end && is_ascii_alpha(x[j + 1])) {
                assert(j + 3 < end && x[j + 1] == '\'' && is_hex_char(x[j + 2]) && is_hex_char(
                    x[j + 3],
                ));
            }
        }
        lemma_brace_depth_skip(x, j, next, end);
        assert forall|k: int| 0 <= k <= end - next implies depth + brace_depth(
            #[trigger] x.subrange(next, next + k),
        ) >= 0 by {
            let k1 = next + k - j;
            assert(depth + brace_depth(x.subrange(j, j + k1)) >= 0);
            lemma_brace_depth_skip(x, j, next, next + k);
            assert(x.subrange(j, j + k1) == x.subrange(j, next + k));
        }
        assert(escapes_are_words_or_hex(x, next, end));
        lemma_skipped_tokens(x, next, end, base, depth);
        assert(Seq::<char>::empty() + rtf_scan(x, next, st) =~= rtf_scan(x, next, st));
    }
}

// ---------------------------------------------------------------------------
// Executable code
// ---------------------------------------------------------------------------

fn ascii_alpha(c: char) -> (r: bool)
    ensures
        r == is_ascii_alpha(c),
{
    ('a' <= c && c <= 'z') || ('A' <= c && c <= 'Z')
}

fn ascii_digit(c: char) -> (r: bool)
    ensures
        r == is_ascii_digit(c),
{
    '0' <= c && c <= '9'
}

fn hex_digit_value(c: char) -> (r: Option<u8>)
    ensures
        r == hex_digit(c),
{
    if '0' <= c && c <= '9' {
        Some(((c as u32) - ('0' as u32)) as u8)
    } else if 'a' <= c && c <= 'f' {
        Some(((c as u32) - ('a' as u32) + 10) as u8)
    } else if 'A' <= c && c <= 'F' {
        Some(((c as u32) - ('A' as u32) + 10) as u8)
    } else {
        None
    }
}

fn hex_byte_value(a: char, b: char) -> (r: Option<u8>)
    ensures
        r == hex_byte(a, b),
{
    if a == '+' {
        hex_digit_value(b)
    } else {
        match (hex_digit_value(a), hex_digit_value(b)) {
            (Some(x), Some(y)) => Some(x * 16 + y),
            _ => None,
        }
    }
}

fn latin1_char(b: u8) -> (c: char)
    ensures
        c == latin1(b),
{
    let c = b as char;
    proof {
        vstd::utf8::char_u32_cast(c, c as u32);
    }
    c
}

fn top_of(stack: &Vec<bool>) -> (r: bool)
    ensures
        r == stack_top(stack@),
{
    if stack.len() == 0 {
        false
    } else {
        stack[stack.len() - 1]
    }
}

fn is_destination_range(v: &Vec<char>, start: usize, end: usize) -> (r: bool)
    requires
        start <= end <= v.len(),
    ensures
        r == is_destination(v@.subrange(start as int, end as int)),
{
    let r = range_is(v, start, end, &['f', 'o', 'n', 't', 't', 'b', 'l'])
        || range_is(v, start, end, &['c', 'o', 'l', 'o', 'r', 't', 'b', 'l'])
        || range_is(v, start, end, &['s', 't', 'y', 'l', 'e', 's', 'h', 'e', 'e', 't'])
        || range_is(v, start, end, &['i', 'n', 'f', 'o'])
        || range_is(v, start, end, &['p', 'i', 'c', 't'])
        || range_is(
            v,
            start,
            end,
            &['e', 'x', 'p', 'a', 'n', 'd', 'e', 'd', 'c', 'o', 'l', 'o', 'r', 't', 'b', 'l'],
        ) || range_is(v, start, end, &['g', 'e', 'n', 'e', 'r', 'a', 't', 'o', 'r']);
    r
}

/// Runs one step of the scanner at position `i`, updating the state and
/// appending what the step emits; returns the position after it.
fn scan_step(
    v: &Vec<char>,
    i: usize,
    stack: &mut Vec<bool>,
    skip_next: &mut bool,
    out: &mut Vec<char>,
) -> (j: usize)
    requires
        i < v.len(),
    ensures
        ({
            let (j2, st2, emitted) = rtf_step(
                v@,
                i as int,
                RtfScan { stack: old(stack)@, skip_next: *old(skip_next) },
            );
            &&& j == j2
            &&& final(stack)@ == st2.stack
            &&& *final(skip_next) == st2.skip_next
            &&& final(out)@ == old(out)@ + emitted
        }),
{
    let n = v.len();
    let c = v[i];
    let top = top_of(stack);
    proof {
        assert(old(out)@ + Seq::<char>::empty() =~= old(out)@);
    }
    if c == '{' {
        stack.push(top || *skip_next);
        *skip_next = false;
        i + 1
    } else if c == '}' {
        stack.pop();
        if stack.len() == 0 {
            stack.push(false);
        }
        proof {
            if old(stack)@.len() > 0 {
                assert(old(stack)@.drop_last() =~= old(stack)@.subrange(0, old(stack)@.len() - 1));
            }
            if stack@.len() == 1 && old(stack)@.len() <= 1 {
                assert(stack@ =~= seq![false]);
            }
        }
        i + 1
    } else if c == '\\' {
        if i + 1 >= n {
            i + 1
        } else {
            let d = v[i + 1];
            if d == '\\' || d == '{' || d == '}' {
                if !top {
                    out.push(d);
                }
                i + 2
            } else if d == '\'' {
                if n - i > 3 {
                    if let Some(b) = hex_byte_value(v[i + 2], v[i + 3]) {
                        if !top {
                            out.push(latin1_char(b));
                        }
                    }
                    i + 4
                } else {
                    n
                }
            } else if d == '*' {
                *skip_next = true;
                i + 2
            } else if ascii_alpha(d) {
                let mut word_end = i + 1;
                while word_end < n && ascii_alpha(v[word_end])
                    invariant
                        i + 1 <= word_end <= n,
                        n == v.len(),
                        alpha_run_end(v@, i + 1) == alpha_run_end(v@, word_end as int),
                    decreases n - word_end,
                {
                    word_end = word_end + 1;
                }
                let mut next = word_end;
                while next < n && (v[next] == '-' || ascii_digit(v[next]))
                    invariant
                        word_end <= next <= n,
                        n == v.len(),
                        param_run_end(v@, word_end as int) == param_run_end(v@, next as int),
                    decreases n - next,
                {
                    next = next + 1;
                }
                if next < n && v[next] == ' ' {
                    next = next + 1;
                }
                if is_destination_range(v, i + 1, word_end) {
                    if stack.len() > 0 {
                        let last = stack.len() - 1;
                        stack.set(last, true);
                    }
                    next
                } else if top {
                    next
                } else {
                    if range_is(v, i + 1, word_end, &['p', 'a', 'r'])
                        || range_is(v, i + 1, word_end, &['l', 'i', 'n', 'e']) {
                        out.push('\n');
                    } else if range_is(v, i + 1, word_end, &['t', 'a', 'b']) {
                        out.push('\t');
                    }
                    next
                }
            } else {
                i + 2
            }
        }
    } else if c == '\r' {
        i + 1
    } else {
        if !top {
            out.push(c);
        }
        i + 1
    }
}

/// The text that the scanner emits for the whole of `v`.
fn scan_rtf(v: &Vec<char>) -> (out: Vec<char>)
    ensures
        out@ == rtf_scan(v@, 0, initial_scan()),
{
    let mut out: Vec<char> = Vec::new();
    let mut stack: Vec<bool> = Vec::new();
    stack.push(false);
    let mut skip_next = false;
    let mut i: usize = 0;
    proof {
        assert(stack@ =~= seq![false]);
    }
    while i < v.len()
        invariant
            i <= v.len(),
            rtf_scan(v@, 0, initial_scan()) == out@ + rtf_scan(
                v@,
                i as int,
                RtfScan { stack: stack@, skip_next: skip_next },
            ),
        decreases v.len() - i,
    {
        let ghost st = RtfScan { stack: stack@, skip_next: skip_next };
        let ghost before = out@;
        proof {
            lemma_step_advances(v@, i as int, st);
        }
        let j = scan_step(v, i, &mut stack, &mut skip_next, &mut out);
        proof {
            let (j2, st2, emitted) = rtf_step(v@, i as int, st);
            assert(st2 == RtfScan { stack: stack@, skip_next: skip_next });
            assert(rtf_scan(v@, i as int, st) == emitted + rtf_scan(v@, j as int, st2));
            assert(before + (emitted + rtf_scan(v@, j as int, st2)) =~= out@ + rtf_scan(
                v@,
                j as int,
                st2,
            ));
        }
        i = j;
    }
    proof {
        assert(out@ + Seq::<char>::empty() =~= out@);
    }
    out
}

/// Whether the line `v[start..end]` is junk.
fn junk_range(v: &Vec<char>, start: usize, end: usize) -> (r: bool)
    requires
        start <= end <= v.len(),
    ensures
        r == is_rtf_junk(v@.subrange(start as int, end as int)),
{
    let e = trimmed_end(v, start, end);
    let b = trimmed_start(v, start, e);
    let ghost lower = ascii_lower_seq(v@.subrange(b as int, e as int));
    proof {
        assert(trim(v@.subrange(start as int, end as int)) == v@.subrange(b as int, e as int));
    }
    if b == e {
        return true;
    }
    let mut all_separators = true;
    let mut k = b;
    while k < e
        invariant
            b <= k <= e <= v.len(),
            lower == ascii_lower_seq(v@.subrange(b as int, e as int)),
            all_separators == (forall|m: int|
                0 <= m < k - b ==> #[trigger] lower[m] == ';' || lower[m] == ':'),
        decreases e - k,
    {
        let c = v[k];
        assert(lower[k - b] == crate::text::ascii_lower(c));
        if !(c == ';' || c == ':') {
            all_separators = false;
        }
        k = k + 1;
    }
    all_separators || lower_range_is(v, b, e, &['h', 'e', 'l', 'v', 'e', 't', 'i', 'c', 'a'])
        || lower_range_is(v, b, e, &['t', 'i', 'm', 'e', 's']) || lower_range_is(
        v,
        b,
        e,
        &['c', 'o', 'u', 'r', 'i', 'e', 'r'],
    )
}

/// Adds the line `v[start..end]` to the joined text of the lines kept so far.
fn finish_line(
    v: &Vec<char>,
    start: usize,
    end: usize,
    acc: &mut Vec<char>,
    any: &mut bool,
    Ghost(kept): Ghost<Seq<Seq<char>>>,
) -> (kept_after: Ghost<Seq<Seq<char>>>)
    requires
        start <= end <= v.len(),
        old(acc)@ == join_lines(kept),
        *old(any) == (kept.len() > 0),
    ensures
        ({
            let line = trim_end(v@.subrange(start as int, end as int));
            kept_after@ == if is_rtf_junk(line) {
                kept
            } else {
                kept.push(line)
            }
        }),
        final(acc)@ == join_lines(kept_after@),
        *final(any) == (kept_after@.len() > 0),
{
    let e = trimmed_end(v, start, end);
    proof {
        crate::text::lemma_trim_end_idempotent(v@.subrange(start as int, end as int));
    }
    if junk_range(v, start, e) {
        Ghost(kept)
    } else {
        if *any {
            acc.push('\n');
        }
        extend_range(acc, v, start, e);
        *any = true;
        let ghost line = v@.subrange(start as int, e as int);
        proof {
            assert(kept.push(line).drop_last() =~= kept);
            if kept.len() == 0 {
                assert(old(acc)@ + line =~= line);
            } else {
                assert(old(acc)@ + seq!['\n'] + line =~= acc@);
            }
        }
        Ghost(kept.push(line))
    }
}

/// Splits the scanned text into lines, drops junk lines and trailing white
/// space, joins the rest and trims the whole.
fn tidy_text(t: &Vec<char>) -> (out: Vec<char>)
    ensures
        out@ == tidy_rtf_text(t@),
{
    let mut acc: Vec<char> = Vec::new();
    let mut any = false;
    let mut line_start: usize = 0;
    let mut i: usize = 0;
    let ghost mut kept: Seq<Seq<char>> = Seq::empty();
    proof {
        assert(t@.take(0) =~= Seq::<char>::empty());
        assert(split_lines(t@.take(0)) =~= seq![Seq::<char>::empty()]);
        assert(t@.subrange(0, 0) =~= Seq::<char>::empty());
    }
    while i < t.len()
        invariant
            line_start <= i <= t.len(),
            split_lines(t@.take(i as int)).len() >= 1,
            split_lines(t@.take(i as int)).last() == t@.subrange(line_start as int, i as int),
            kept == kept_lines(split_lines(t@.take(i as int)).drop_last()),
            acc@ == join_lines(kept),
            any == (kept.len() > 0),
        decreases t.len() - i,
    {
        let ghost p = split_lines(t@.take(i as int));
        proof {
            assert(t@.take(i + 1).drop_last() =~= t@.take(i as int));
            assert(t@.take(i + 1).last() == t@[i as int]);
        }
        if t[i] == '\n' {
            let g = finish_line(t, line_start, i, &mut acc, &mut any, Ghost(kept));
            proof {
                let q = split_lines(t@.take(i + 1));
                assert(q == p.push(Seq::<char>::empty()));
                assert(q.drop_last() =~= p);
                assert(p.drop_last().push(p.last()) =~= p);
                assert(kept_lines(p) == g@);
                kept = g@;
                assert(t@.subrange(i + 1, i + 1) =~= Seq::<char>::empty());
            }
            line_start = i + 1;
        } else {
            proof {
                let q = split_lines(t@.take(i + 1));
                assert(q == p.update(p.len() - 1, p.last().push(t@[i as int])));
                assert(q.drop_last() =~= p.drop_last());
                assert(t@.subrange(line_start as int, i + 1) =~= t@.subrange(
                    line_start as int,
                    i as int,
                ).push(t@[i as int]));
            }
        }
        i = i + 1;
    }
    let g = finish_line(t, line_start, i, &mut acc, &mut any, Ghost(kept));
    proof {
        let p = split_lines(t@.take(i as int));
        assert(t@.take(i as int) =~= t@);
        assert(p.drop_last().push(p.last()) =~= p);
        assert(kept_lines(p) == g@);
    }
    let e = trimmed_end(&acc, 0, acc.len());
    let b = trimmed_start(&acc, 0, e);
    let mut out: Vec<char> = Vec::new();
    extend_range(&mut out, &acc, b, e);
    proof {
        assert(acc@.subrange(0, acc@.len() as int) =~= acc@);
        assert(Seq::<char>::empty() + acc@.subrange(b as int, e as int) =~= acc@.subrange(
            b as int,
            e as int,
        ));
    }
    out
}

/// Whether a line of a converted RTF document is left-over markup: blank,
/// made only of `;` and `:`, or the bare name of a common font (Helvetica,
/// Times, Courier), in any ASCII case and with any surrounding white space.
pub fn looks_like_rtf_junk(line: &str) -> (r: bool)
    ensures
        r == is_rtf_junk(line@),
{
    let v = chars_of(line);
    proof {
        assert(v@.subrange(0, v@.len() as int) =~= v@);
    }
    junk_range(&v, 0, v.len())
}

/// The visible text of an RTF document, by a small built-in reader.
pub fn strip_basic_rtf(raw: &str) -> (text: String)
    ensures
        text@ == rtf_plain_text(raw@),
{
    let v = chars_of(raw);
    let scanned = scan_rtf(&v);
    let tidy = tidy_text(&scanned);
    string_from_chars(&tidy)
}

/// What the viewer shows for the raw contents of a file: the visible text when
/// the contents are RTF, the contents unchanged otherwise.
pub fn decode_document_text(raw: &str) -> (text: String)
    ensures
        text@ == decoded_text(raw@),
{
    let v = chars_of(raw);
    let b = trimmed_start(&v, 0, v.len());
    proof {
        assert(v@.subrange(0, v@.len() as int) =~= v@);
    }
    let rtf = v.len() - b >= 5 && range_is(&v, b, b + 5, &['{', '\\', 'r', 't', 'f']);
    proof {
        let rest = v@.subrange(b as int, v@.len() as int);
        if v.len() - b >= 5 {
            assert(rest.take(5) =~= v@.subrange(b as int, b + 5));
        }
    }
    if rtf {
        strip_basic_rtf(raw)
    } else {
        raw.to_owned()
    }
}

/// `t` with every `\r\n` replaced by `\n`, reading from the left as
/// `str::replace` does.
pub open spec fn crlf_to_lf(t: Seq<char>) -> Seq<char>
    decreases t.len(),
{
    if t.len() == 0 {
        Seq::empty()
    } else if t.len() >= 2 && t[0] == '\r' && t[1] == '\n' {
        seq!['\n'] + crlf_to_lf(t.skip(2))
    } else {
        seq![t[0]] + crlf_to_lf(t.skip(1))
    }
}

/// Whether a file extension names RTF, in any ASCII case.
pub fn is_rtf_extension(ext: &str) -> (r: bool)
    ensures
        r == (ascii_lower_seq(ext@) == seq!['r', 't', 'f']),
{
    let v = chars_of(ext);
    proof {
        assert(v@.subrange(0, v@.len() as int) =~= v@);
    }
    lower_range_is(&v, 0, v.len(), &['r', 't', 'f'])
}

/// The text to show once a file was read: its decoded contents, or the
/// reason it could not be opened.
pub fn document_text_from_read(read: Result<String, String>) -> (r: Result<String, String>)
    ensures
        match read {
            Ok(raw) => r matches Ok(text) && text@ == decoded_text(raw@),
            Err(e) => r matches Err(msg) && msg@ == "Could not open file: "@ + e@,
        },
{
    match read {
        Ok(raw) => Ok(decode_document_text(raw.as_str())),
        Err(e) => Err(String::from_str("Could not open file: ").concat(e.as_str())),
    }
}

/// The text that an outside converter printed, with Windows line endings made
/// `\n` and trailing white space removed.
pub fn converted_text(stdout: &str) -> (text: String)
    ensures
        text@ == trim_end(crlf_to_lf(stdout@)),
{
    let v = chars_of(stdout);
    let n = v.len();
    let mut out: Vec<char> = Vec::new();
    let mut i: usize = 0;
    proof {
        assert(v@.skip(0) =~= v@);
        assert(Seq::<char>::empty() + crlf_to_lf(v@) =~= crlf_to_lf(v@));
    }
    while i < n
        invariant
            i <= n == v.len(),
            crlf_to_lf(v@) == out@ + crlf_to_lf(v@.skip(i as int)),
        decreases n - i,
    {
        let ghost rest = v@.skip(i as int);
        if n - i >= 2 && v[i] == '\r' && v[i + 1] == '\n' {
            out.push('\n');
            proof {
                assert(rest.skip(2) =~= v@.skip(i + 2));
                assert(crlf_to_lf(v@) =~= out@ + crlf_to_lf(v@.skip(i + 2)));
            }
            i = i + 2;
        } else {
            out.push(v[i]);
            proof {
                assert(rest.skip(1) =~= v@.skip(i + 1));
                assert(crlf_to_lf(v@) =~= out@ + crlf_to_lf(v@.skip(i + 1)));
            }
            i = i + 1;
        }
    }
    proof {
        assert(v@.skip(n as int) =~= Seq::<char>::empty());
        assert(out@ + Seq::<char>::empty() =~= out@);
    }
    let e = trimmed_end(&out, 0, out.len());
    let mut kept: Vec<char> = Vec::new();
    extend_range(&mut kept, &out, 0, e);
    proof {
        assert(out@.subrange(0, out@.len() as int) =~= out@);
        assert(Seq::<char>::empty() + out@.subrange(0, e as int) =~= out@.subrange(0, e as int));
    }
    string_from_chars(&kept)
}

/// `s` without leading and trailing white space.
pub fn trimmed_text(s: &str) -> (t: String)
    ensures
        t@ == trim(s@),
{
    let v = chars_of(s);
    let e = trimmed_end(&v, 0, v.len());
    let b = trimmed_start(&v, 0, e);
    let mut kept: Vec<char> = Vec::new();
    extend_range(&mut kept, &v, b, e);
    proof {
        assert(v@.subrange(0, v@.len() as int) =~= v@);
        assert(Seq::<char>::empty() + v@.subrange(b as int, e as int) =~= v@.subrange(
            b as int,
            e as int,
        ));
    }
    string_from_chars(&kept)
}

/// No piece of a split holds the separator.
pub proof fn lemma_split_pieces_lack_separator(t: Seq<char>, sep: char)
    ensures
        split_on(t, sep).len() >= 1,
        forall|k: int, i: int|
            0 <= k < split_on(t, sep).len() && 0 <= i < split_on(t, sep)[k].len()
                ==> #[trigger] split_on(t, sep)[k][i] != sep,
    decreases t.len(),
{
    if t.len() > 0 {
        lemma_split_pieces_lack_separator(t.drop_last(), sep);
        let p = split_on(t.drop_last(), sep);
        let q = split_on(t, sep);
        if t.last() != sep {
            assert forall|k: int, i: int|
                0 <= k < q.len() && 0 <= i < q[k].len() implies #[trigger] q[k][i] != sep by {
                if k < p.len() - 1 {
                    assert(q[k] == p[k]);
                } else {
                    assert(q[k] == p.last().push(t.last()));
                    if i < p.last().len() {
                        assert(q[k][i] == p[p.len() - 1][i]);
                    }
                }
            }
        } else {
            assert forall|k: int, i: int|
                0 <= k < q.len() && 0 <= i < q[k].len() implies #[trigger] q[k][i] != sep by {
                assert(q[k] == p[k]);
            }
        }
    }
}

/// A line that is not junk keeps some character once trimmed.
pub proof fn lemma_not_junk_has_text(line: Seq<char>)
    requires
        !is_rtf_junk(line),
    ensures
        trim(line).len() > 0,
{
    assert(ascii_lower_seq(trim(line)).len() == trim(line).len());
}

/// A sequence that trimming at the end leaves as it is ends in no white space.
pub proof fn lemma_trim_end_fixed(l: Seq<char>)
    requires
        trim_end(l) == l,
        l.len() > 0,
    ensures
        !crate::text::is_white_space(l.last()),
{
    crate::text::lemma_trim_end_shape(l.drop_last());
}

/// Every kept line is not junk, ends in no white space, and holds no `\n`
/// when no piece did.
pub proof fn lemma_kept_lines_clean(ls: Seq<Seq<char>>)
    ensures
        forall|k: int|
            0 <= k < kept_lines(ls).len() ==> !is_rtf_junk(#[trigger] kept_lines(ls)[k])
                && trim_end(kept_lines(ls)[k]) == kept_lines(ls)[k],
        (forall|k: int, i: int| 0 <= k < ls.len() && 0 <= i < ls[k].len() ==> #[trigger] ls[k][i]
            != '\n') ==> (forall|k: int, i: int|
            0 <= k < kept_lines(ls).len() && 0 <= i < kept_lines(ls)[k].len()
                ==> #[trigger] kept_lines(ls)[k][i] != '\n'),
    decreases ls.len(),
{
    if ls.len() > 0 {
        let dl = ls.drop_last();
        lemma_kept_lines_clean(dl);
        let line = trim_end(ls.last());
        crate::text::lemma_trim_end_idempotent(ls.last());
        crate::text::lemma_trim_end_shape(ls.last());
        let r = kept_lines(ls);
        if (forall|k: int, i: int| 0 <= k < ls.len() && 0 <= i < ls[k].len() ==> #[trigger] ls[k][i]
            != '\n') {
            assert forall|k: int, i: int| 0 <= k < dl.len() && 0 <= i < dl[k].len() implies #[trigger] dl[k][i]
                != '\n' by {
                assert(dl[k] == ls[k]);
            }
            assert forall|k: int, i: int|
                0 <= k < r.len() && 0 <= i < r[k].len() implies #[trigger] r[k][i] != '\n' by {
                if k < kept_lines(dl).len() {
                    assert(r[k] == kept_lines(dl)[k]);
                } else {
                    assert(r[k] == line);
                    assert(line[i] == ls.last()[i]);
                    assert(ls[ls.len() - 1][i] != '\n');
                }
            }
        }
        assert forall|k: int| 0 <= k < r.len() implies !is_rtf_junk(#[trigger] r[k]) && trim_end(r[k])
            == r[k] by {
            if k < kept_lines(dl).len() {
                assert(r[k] == kept_lines(dl)[k]);
            }
        }
    }
}

/// Splitting after appending text that holds no separator extends the last piece.
pub proof fn lemma_split_append(a: Seq<char>, b: Seq<char>, sep: char)
    requires
        forall|i: int| 0 <= i < b.len() ==> #[trigger] b[i] != sep,
    ensures
        split_on(a + b, sep) == split_on(a, sep).update(
            split_on(a, sep).len() - 1,
            split_on(a, sep).last() + b,
        ),
    decreases b.len(),
{
    crate::text::lemma_split_on_nonempty(a, sep);
    if b.len() == 0 {
        assert(a + b =~= a);
        assert(split_on(a, sep).last() + b =~= split_on(a, sep).last());
        assert(split_on(a, sep).update(split_on(a, sep).len() - 1, split_on(a, sep).last())
            =~= split_on(a, sep));
    } else {
        let bd = b.drop_last();
        assert forall|i: int| 0 <= i < bd.len() implies #[trigger] bd[i] != sep by {
            assert(bd[i] == b[i]);
        }
        lemma_split_append(a, bd, sep);
        assert((a + b).drop_last() =~= a + bd);
        assert((a + b).last() == b.last());
        assert(b.last() == b[b.len() - 1]);
        let p = split_on(a, sep);
        assert(p.last() + bd + seq![b.last()] =~= p.last() + b);
        assert((p.last() + bd).push(b.last()) =~= p.last() + b);
        assert(split_on(a + b, sep) =~= p.update(p.len() - 1, p.last() + b));
    }
}

/// Splitting joined lines that hold no `\n` gives the lines back.
pub proof fn lemma_split_join(ls: Seq<Seq<char>>)
    requires
        ls.len() >= 1,
        forall|k: int, i: int| 0 <= k < ls.len() && 0 <= i < ls[k].len() ==> #[trigger] ls[k][i]
            != '\n',
    ensures
        split_lines(join_lines(ls)) == ls,
    decreases ls.len(),
{
    let last = ls.last();
    assert forall|i: int| 0 <= i < last.len() implies #[trigger] last[i] != '\n' by {
        assert(ls[ls.len() - 1][i] != '\n');
    }
    if ls.len() == 1 {
        lemma_split_append(Seq::empty(), ls[0], '\n');
        assert(Seq::<char>::empty() + ls[0] =~= ls[0]);
        assert(split_on(Seq::<char>::empty(), '\n') =~= seq![Seq::<char>::empty()]);
        assert(Seq::<char>::empty() + ls[0] =~= ls[0]);
        assert(split_lines(join_lines(ls)) =~= ls);
    } else {
        let dl = ls.drop_last();
        assert forall|k: int, i: int| 0 <= k < dl.len() && 0 <= i < dl[k].len() implies #[trigger] dl[k][i]
            != '\n' by {
            assert(dl[k] == ls[k]);
        }
        lemma_split_join(dl);
        let a = join_lines(dl) + seq!['\n'];
        assert(a.drop_last() =~= join_lines(dl));
        assert(split_on(a, '\n') == dl.push(Seq::<char>::empty()));
        lemma_split_append(a, last, '\n');
        assert(join_lines(ls) == a + last);
        assert(Seq::<char>::empty() + last =~= last);
        assert(dl.push(Seq::<char>::empty()).update(dl.len() as int, last) =~= ls);
    }
}

/// The joined lines begin with the first line, and putting another first
/// line in its place changes only that beginning.
pub proof fn lemma_join_first(ls: Seq<Seq<char>>, x: Seq<char>)
    requires
        ls.len() >= 1,
    ensures
        join_lines(ls).len() >= ls[0].len(),
        join_lines(ls).take(ls[0].len() as int) == ls[0],
        join_lines(ls.update(0, x)) == x + join_lines(ls).skip(ls[0].len() as int),
    decreases ls.len(),
{
    if ls.len() == 1 {
        assert(ls.update(0, x).len() == 1);
        assert(join_lines(ls).take(ls[0].len() as int) =~= ls[0]);
        assert(x + join_lines(ls).skip(ls[0].len() as int) =~= x);
    } else {
        let dl = ls.drop_last();
        lemma_join_first(dl, x);
        let j = join_lines(dl);
        let n = ls[0].len() as int;
        assert(dl[0] == ls[0]);
        assert(join_lines(ls) == j + seq!['\n'] + ls.last());
        assert(join_lines(ls).take(n) =~= j.take(n));
        let u = ls.update(0, x);
        assert(u.drop_last() =~= dl.update(0, x));
        assert(u.last() == ls.last());
        assert(join_lines(u) == join_lines(dl.update(0, x)) + seq!['\n'] + ls.last());
        assert(join_lines(ls).skip(n) =~= j.skip(n) + seq!['\n'] + ls.last());
        assert(join_lines(u) =~= x + join_lines(ls).skip(n));
    }
}

/// The joined lines end with the last line.
pub proof fn lemma_join_last(ls: Seq<Seq<char>>)
    requires
        ls.len() >= 1,
        ls.last().len() > 0,
    ensures
        join_lines(ls).len() > 0,
        join_lines(ls).last() == ls.last().last(),
{
}

/// Leading white space is all in the first part when the first part has
/// more than white space.
pub proof fn lemma_trim_start_concat(a: Seq<char>, b: Seq<char>)
    requires
        trim_start(a).len() > 0,
    ensures
        trim_start(a + b) == trim_start(a) + b,
    decreases a.len(),
{
    if a.len() > 0 && crate::text::is_white_space(a[0]) {
        assert((a + b).drop_first() =~= a.drop_first() + b);
        lemma_trim_start_concat(a.drop_first(), b);
    } else {
        assert(a.len() > 0);
        assert((a + b)[0] == a[0]);
    }
}

/// Trimming the start of a sequence whose start is already trimmed changes nothing.
pub proof fn lemma_trim_start_idempotent(s: Seq<char>)
    ensures
        trim_start(trim_start(s)) == trim_start(s),
{
    crate::text::lemma_trim_start_shape(s);
}

} // verus!
