//! Character-level text helpers shared by the parser and the renderer:
//! substring search, decimal parsing, line splitting, padding and truncation.
//! All lengths and indices count Unicode scalar values, never bytes.

use vstd::prelude::*;
use vstd::string::*;

verus! {

/// An ASCII decimal digit.
pub open spec fn is_ascii_digit(c: char) -> bool {
    48 <= c as u32 <= 57
}

/// The numeric value of one ASCII digit; zero for any other character.
pub open spec fn digit_of(c: char) -> nat {
    if is_ascii_digit(c) {
        (c as u32 - 48) as nat
    } else {
        0
    }
}

/// Test one character for being an ASCII decimal digit.
pub fn is_digit_char(c: char) -> (b: bool)
    ensures
        b == is_ascii_digit(c),
{
    let u = c as u32;
    48 <= u && u <= 57
}

/// Every character of `s` is an ASCII decimal digit.
pub open spec fn all_digits(s: Seq<char>) -> bool {
    forall|k: int| 0 <= k < s.len() ==> is_ascii_digit(s[k])
}

/// The length of the digit run starting at position `i` of `s`.
pub open spec fn digit_run_len(s: Seq<char>, i: int) -> nat
    decreases s.len() - i,
{
    if i < 0 || i >= s.len() {
        0
    } else if is_ascii_digit(s[i]) {
        1 + digit_run_len(s, i + 1)
    } else {
        0
    }
}

/// The value of `s` read as a decimal numeral, accumulated left to right.
pub open spec fn digits_val(s: Seq<char>) -> nat
    decreases s.len(),
{
    if s.len() == 0 {
        0
    } else {
        digits_val(s.drop_last()) * 10 + digit_of(s.last())
    }
}

/// What `str::parse::<usize>` yields on `s`, as an `Option`: the decimal value
/// when `s` is a non-empty digit run that fits in `usize`, and `None` otherwise.
pub open spec fn spec_parse_usize(s: Seq<char>) -> Option<usize> {
    if s.len() == 0 || !all_digits(s) || digits_val(s) > usize::MAX {
        None
    } else {
        Some(digits_val(s) as usize)
    }
}

/// A longer digit prefix never reads as a smaller number.
proof fn lemma_digits_val_prefix(s: Seq<char>, k: int)
    requires
        0 <= k <= s.len(),
    ensures
        digits_val(s.take(k)) <= digits_val(s),
    decreases s.len() - k,
{
    if k < s.len() {
        lemma_digits_val_prefix(s, k + 1);
        let t = s.take(k + 1);
        assert(t.drop_last() =~= s.take(k));
        assert(digits_val(t) == digits_val(s.take(k)) * 10 + digit_of(t.last()));
        assert(digits_val(s.take(k)) <= digits_val(t));
    } else {
        assert(s.take(k) =~= s);
    }
}

/// Parse a string of text as an unsigned decimal number, as `str::parse::<usize>`
/// would: `None` on an empty string, on any non-digit character, and on overflow.
pub fn parse_usize(s: &str) -> (r: Option<usize>)
    ensures
        r == spec_parse_usize(s@),
{
    let n = s.unicode_len();
    if n == 0 {
        return None;
    }
    let mut val: usize = 0;
    let mut k: usize = 0;
    while k < n
        invariant
            n == s@.len(),
            0 <= k <= n,
            all_digits(s@.take(k as int)),
            val == digits_val(s@.take(k as int)),
        decreases n - k,
    {
        let c = s.get_char(k);
        let cu = c as u32;
        if !(48 <= cu && cu <= 57) {
            assert(!all_digits(s@));
            return None;
        }
        let d = (cu - 48) as usize;
        assert(d == digit_of(s@[k as int]));
        if val > (usize::MAX - d) / 10 {
            proof {
                assert(val * 10 + d > usize::MAX) by (nonlinear_arith)
                    requires
                        val > (usize::MAX - d) / 10,
                        d <= 9,
                ;
                assert(s@.take(k as int + 1).drop_last() =~= s@.take(k as int));
                assert(s@.take(k as int + 1).last() == s@[k as int]);
                assert(digits_val(s@.take(k as int + 1)) == val * 10 + d);
                lemma_digits_val_prefix(s@, k as int + 1);
                assert(digits_val(s@) > usize::MAX);
            }
            return None;
        }
        proof {
            assert(val * 10 + d <= usize::MAX) by (nonlinear_arith)
                requires
                    val <= (usize::MAX - d) / 10,
                    d <= 9,
            ;
            assert(s@.take(k as int + 1).drop_last() =~= s@.take(k as int));
            assert(s@.take(k as int + 1).last() == s@[k as int]);
        }
        val = val * 10 + d;
        k = k + 1;
    }
    proof {
        assert(s@.take(n as int) =~= s@);
    }
    Some(val)
}

/// `needle` occurs as a contiguous run of characters somewhere in `hay`.
pub open spec fn contains_seq(hay: Seq<char>, needle: Seq<char>) -> bool {
    exists|k: int|
        0 <= k && k + needle.len() <= hay.len() && #[trigger] hay.subrange(k, k + needle.len())
            == needle
}

/// Substring search by character, deciding `contains_seq` on the views.
pub fn str_contains(hay: &str, needle: &str) -> (b: bool)
    ensures
        b == contains_seq(hay@, needle@),
{
    let hn = hay.unicode_len();
    let nn = needle.unicode_len();
    if nn > hn {
        assert(!contains_seq(hay@, needle@));
        return false;
    }
    let mut k: usize = 0;
    while k <= hn - nn
        invariant
            hn == hay@.len(),
            nn == needle@.len(),
            nn <= hn,
            0 <= k <= hn - nn + 1,
            forall|t: int|
                0 <= t < k ==> #[trigger] hay@.subrange(t, t + needle@.len()) != needle@,
        decreases hn - nn - k + 1,
    {
        let mut j: usize = 0;
        while j < nn && hay.get_char(k + j) == needle.get_char(j)
            invariant
                hn == hay@.len(),
                nn == needle@.len(),
                k + nn <= hn,
                0 <= j <= nn,
                forall|t: int| 0 <= t < j ==> hay@[k + t] == needle@[t],
            decreases nn - j,
        {
            j = j + 1;
        }
        if j == nn {
            proof {
                assert(hay@.subrange(k as int, k + nn) =~= needle@);
            }
            return true;
        }
        proof {
            assert(hay@.subrange(k as int, k + nn)[j as int] == hay@[k + j]);
            assert(hay@.subrange(k as int, k + nn) != needle@);
        }
        k = k + 1;
    }
    proof {
        assert forall|t: int| 0 <= t && t + needle@.len() <= hay@.len() implies #[trigger] hay@
            .subrange(t, t + needle@.len()) != needle@ by {
            assert(t < k);
        }
    }
    false
}

/// A run of `n` space characters.
pub open spec fn spaces(n: nat) -> Seq<char> {
    Seq::new(n, |i: int| ' ')
}

/// Build a string of `n` spaces.
pub fn make_spaces(n: usize) -> (r: String)
    ensures
        r@ == spaces(n as nat),
{
    let mut r = String::new();
    let mut k: usize = 0;
    proof {
        reveal_strlit(" ");
    }
    while k < n
        invariant
            0 <= k <= n,
            r@ =~= spaces(k as nat),
            " "@ =~= seq![' '],
        decreases n - k,
    {
        r.append(" ");
        proof {
            assert(r@ =~= spaces(k as nat + 1));
        }
        k = k + 1;
    }
    r
}

/// `line` adjusted to exactly `w` characters: truncated when longer,
/// right-padded with spaces when shorter.
pub open spec fn fit_line(line: Seq<char>, w: nat) -> Seq<char> {
    if line.len() >= w {
        line.subrange(0, w as int)
    } else {
        line + spaces((w - line.len()) as nat)
    }
}

/// Truncate or right-pad `line` to exactly `w` characters.
pub fn fit_to_width(line: &str, w: usize) -> (r: String)
    ensures
        r@ == fit_line(line@, w as nat),
{
    let len = line.unicode_len();
    if len >= w {
        String::from_str(line.substring_char(0, w))
    } else {
        let mut r = String::from_str(line);
        let mut k: usize = len;
        proof {
            reveal_strlit(" ");
        }
        while k < w
            invariant
                len == line@.len(),
                len <= k <= w,
                r@ =~= line@ + spaces((k - len) as nat),
                " "@ =~= seq![' '],
            decreases w - k,
        {
            r.append(" ");
            proof {
                assert(r@ =~= line@ + spaces((k + 1 - len) as nat));
            }
            k = k + 1;
        }
        r
    }
}

/// The position of the first line feed in `s`, or `s.len()` when there is none.
pub open spec fn first_nl(s: Seq<char>) -> int
    decreases s.len(),
{
    if s.len() == 0 {
        0
    } else if s[0] == '\n' {
        0
    } else {
        1 + first_nl(s.drop_first())
    }
}

proof fn lemma_first_nl_bounds(s: Seq<char>)
    ensures
        0 <= first_nl(s) <= s.len(),
    decreases s.len(),
{
    if s.len() > 0 && s[0] != '\n' {
        lemma_first_nl_bounds(s.drop_first());
    }
}

/// Everything before the first line feed is no line feed, and the position of
/// the first line feed holds one when it is inside the text at all.
pub proof fn lemma_first_nl_prefix(s: Seq<char>)
    ensures
        0 <= first_nl(s) <= s.len(),
        forall|j: int| 0 <= j < first_nl(s) ==> s[j] != '\n',
        first_nl(s) < s.len() ==> s[first_nl(s)] == '\n',
    decreases s.len(),
{
    if s.len() > 0 && s[0] != '\n' {
        lemma_first_nl_prefix(s.drop_first());
        assert forall|j: int| 0 <= j < first_nl(s) implies s[j] != '\n' by {
            if j > 0 {
                assert(s.drop_first()[j - 1] == s[j]);
            }
        }
    }
}

proof fn lemma_first_nl_at(s: Seq<char>, k: int)
    requires
        0 <= k <= s.len(),
        forall|j: int| 0 <= j < k ==> s[j] != '\n',
        k < s.len() ==> s[k] == '\n',
    ensures
        first_nl(s) == k,
    decreases k,
{
    if s.len() == 0 {
    } else if k == 0 {
    } else {
        lemma_first_nl_at(s.drop_first(), k - 1);
    }
}

/// `s` broken into lines, as `str::lines` does it: segments are cut at every
/// line feed, a carriage return directly before a cut is dropped, and a final
/// line feed opens no further empty line.
pub open spec fn split_lines(s: Seq<char>) -> Seq<Seq<char>>
    decreases s.len(),
    via split_lines_decreases
{
    if s.len() == 0 {
        Seq::empty()
    } else {
        let i = first_nl(s);
        if i == s.len() {
            seq![s]
        } else {
            let line = if i > 0 && s[i - 1] == '\r' {
                s.subrange(0, i - 1)
            } else {
                s.subrange(0, i)
            };
            seq![line] + split_lines(s.subrange(i + 1, s.len() as int))
        }
    }
}

#[via_fn]
proof fn split_lines_decreases(s: Seq<char>) {
    lemma_first_nl_bounds(s);
}

/// The views of a sequence of owned lines.
pub open spec fn lines_view(v: Seq<String>) -> Seq<Seq<char>> {
    v.map_values(|line: String| line@)
}

/// Break `s` into its lines.
pub fn split_lines_exec(s: &str) -> (r: Vec<String>)
    ensures
        lines_view(r@) == split_lines(s@),
{
    let n = s.unicode_len();
    let mut out: Vec<String> = Vec::new();
    let mut pos: usize = 0;
    proof {
        assert(s@.subrange(0, n as int) =~= s@);
    }
    while pos < n
        invariant
            n == s@.len(),
            0 <= pos <= n,
            split_lines(s@) =~= lines_view(out@) + split_lines(s@.subrange(pos as int, n as int)),
        decreases n - pos,
    {
        let ghost u = s@.subrange(pos as int, n as int);
        let mut i: usize = pos;
        while i < n && s.get_char(i) != '\n'
            invariant
                n == s@.len(),
                pos <= i <= n,
                forall|j: int| pos <= j < i ==> s@[j] != '\n',
            decreases n - i,
        {
            i = i + 1;
        }
        proof {
            assert forall|j: int| 0 <= j < i - pos implies u[j] != '\n' by {
                assert(u[j] == s@[pos + j]);
            }
            if i < n {
                assert(u[i - pos] == s@[i as int]);
            }
            lemma_first_nl_at(u, i - pos);
        }
        let ghost prev = out@;
        if i == n {
            let line = s.substring_char(pos, n);
            out.push(String::from_str(line));
            proof {
                assert(line@ =~= u);
                assert(lines_view(out@) =~= lines_view(prev).push(u));
            }
            pos = n;
            proof {
                assert(split_lines(s@.subrange(pos as int, n as int)) =~= Seq::<Seq<char>>::empty());
            }
        } else {
            let end = if i > pos && s.get_char(i - 1) == '\r' {
                i - 1
            } else {
                i
            };
            let line = s.substring_char(pos, end);
            out.push(String::from_str(line));
            proof {
                assert(lines_view(out@) =~= lines_view(prev).push(line@));
                if i > pos && s@[i - 1] == '\r' {
                    assert(u[i - pos - 1] == s@[i - 1]);
                    assert(line@ =~= u.subrange(0, i - pos - 1));
                } else {
                    if i > pos {
                        assert(u[i - pos - 1] == s@[i - 1]);
                    }
                    assert(line@ =~= u.subrange(0, i - pos));
                }
                assert(s@.subrange(i as int + 1, n as int) =~= u.subrange(
                    i - pos + 1,
                    u.len() as int,
                ));
            }
            pos = i + 1;
        }
    }
    proof {
        assert(split_lines(s@.subrange(pos as int, n as int)) =~= Seq::<Seq<char>>::empty());
        assert(lines_view(out@) =~= split_lines(s@));
    }
    out
}

/// The number of occurrences of `c` in `s`.
pub open spec fn count_char(s: Seq<char>, c: char) -> nat
    decreases s.len(),
{
    if s.len() == 0 {
        0
    } else {
        count_char(s.drop_last(), c) + if s.last() == c {
            1nat
        } else {
            0nat
        }
    }
}

/// Counting occurrences distributes over concatenation.
pub proof fn lemma_count_char_add(a: Seq<char>, b: Seq<char>, c: char)
    ensures
        count_char(a + b, c) == count_char(a, c) + count_char(b, c),
    decreases b.len(),
{
    if b.len() == 0 {
        assert(a + b =~= a);
    } else {
        lemma_count_char_add(a, b.drop_last(), c);
        assert((a + b).drop_last() =~= a + b.drop_last());
        assert((a + b).last() == b.last());
    }
}

/// A sequence free of `c` counts zero occurrences of it.
pub proof fn lemma_count_char_zero(s: Seq<char>, c: char)
    requires
        forall|j: int| 0 <= j < s.len() ==> s[j] != c,
    ensures
        count_char(s, c) == 0,
    decreases s.len(),
{
    if s.len() > 0 {
        lemma_count_char_zero(s.drop_last(), c);
    }
}

} // verus!
