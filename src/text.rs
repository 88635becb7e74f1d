//! Whitespace trimming and the splitting of a run's text into words.
use vstd::prelude::*;

verus! {

/// The characters that Unicode calls white space.
pub open spec fn is_ws(c: char) -> bool {
    ('\u{9}' <= c && c <= '\u{d}') || c == ' ' || c == '\u{85}' || c == '\u{a0}'
        || c == '\u{1680}' || ('\u{2000}' <= c && c <= '\u{200a}') || c == '\u{2028}'
        || c == '\u{2029}' || c == '\u{202f}' || c == '\u{205f}' || c == '\u{3000}'
}

pub fn is_whitespace(c: char) -> (r: bool)
    ensures
        r == is_ws(c),
{
    ('\u{9}' <= c && c <= '\u{d}') || c == ' ' || c == '\u{85}' || c == '\u{a0}'
        || c == '\u{1680}' || ('\u{2000}' <= c && c <= '\u{200a}') || c == '\u{2028}'
        || c == '\u{2029}' || c == '\u{202f}' || c == '\u{205f}' || c == '\u{3000}'
}

/// The number of white-space characters of `t` from position `i` on, up to the first other one.
pub open spec fn ws_run_from(t: Seq<char>, i: int) -> nat
    decreases t.len() - i,
{
    if i < 0 || i >= t.len() || !is_ws(t[i]) {
        0
    } else {
        1 + ws_run_from(t, i + 1)
    }
}

/// The number of white-space characters of `t` ending at position `j`, not going below `lo`.
pub open spec fn ws_run_to(t: Seq<char>, lo: int, j: int) -> nat
    decreases j - lo,
{
    if j <= lo || j > t.len() || !is_ws(t[j - 1]) {
        0
    } else {
        1 + ws_run_to(t, lo, j - 1)
    }
}

/// The number of leading white-space characters.
pub open spec fn leading_ws(t: Seq<char>) -> nat {
    ws_run_from(t, 0)
}

/// The number of trailing white-space characters once the leading ones are gone.
pub open spec fn trailing_ws(t: Seq<char>) -> nat {
    ws_run_to(t, leading_ws(t) as int, t.len() as int)
}

/// The text with leading and trailing white space removed.
pub open spec fn trimmed(t: Seq<char>) -> Seq<char> {
    t.subrange(leading_ws(t) as int, t.len() - trailing_ws(t))
}

/// The words finished so far and the word in progress, after the first `i` characters of `b`,
/// splitting at every single space.
pub open spec fn split_prefix(b: Seq<char>, i: nat) -> (Seq<Seq<char>>, Seq<char>)
    decreases i,
{
    if i == 0 || i > b.len() {
        (Seq::empty(), Seq::empty())
    } else {
        let (done, cur) = split_prefix(b, (i - 1) as nat);
        if b[i - 1] == ' ' {
            (done.push(cur), Seq::empty())
        } else {
            (done, cur.push(b[i - 1]))
        }
    }
}

/// `b` split at every single space; there is always at least one (maybe empty) word.
pub open spec fn split_spaces(b: Seq<char>) -> Seq<Seq<char>> {
    let (done, cur) = split_prefix(b, b.len());
    done.push(cur)
}

/// The words of a run's text: its trimmed text split at single spaces.
pub open spec fn words_of(t: Seq<char>) -> Seq<Seq<char>> {
    split_spaces(trimmed(t))
}

/// The number of leading white-space characters of `s`.
pub fn count_leading_ws(s: &str) -> (r: usize)
    ensures
        r == leading_ws(s@),
        r <= s@.len(),
        r < s@.len() ==> !is_ws(s@[r as int]),
{
    let n = s.unicode_len();
    let mut i: usize = 0;
    while i < n && is_whitespace(s.get_char(i))
        invariant
            n == s@.len(),
            i <= n,
            ws_run_from(s@, 0) == i + ws_run_from(s@, i as int),
        decreases n - i,
    {
        i += 1;
    }
    i
}

/// The number of trailing white-space characters of `s` that stand after position `lo`.
pub fn count_trailing_ws(s: &str, lo: usize) -> (r: usize)
    requires
        lo <= s@.len(),
    ensures
        r == ws_run_to(s@, lo as int, s@.len() as int),
        lo + r <= s@.len(),
{
    let n = s.unicode_len();
    let mut j: usize = n;
    while j > lo && is_whitespace(s.get_char(j - 1))
        invariant
            n == s@.len(),
            lo <= j <= n,
            ws_run_to(s@, lo as int, n as int) == (n - j) + ws_run_to(s@, lo as int, j as int),
        decreases j,
    {
        j -= 1;
    }
    n - j
}

/// The number of words in a run's text.
pub fn word_count(s: &str) -> (r: usize)
    ensures
        r == words_of(s@).len(),
{
    let lead = count_leading_ws(s);
    let trail = count_trailing_ws(s, lead);
    let end = s.unicode_len() - trail;
    let ghost b = trimmed(s@);
    let mut spaces: usize = 0;
    let mut i: usize = lead;
    while i < end
        invariant
            lead <= i <= end,
            end <= s@.len(),
            b == s@.subrange(lead as int, end as int),
            spaces <= i - lead,
            i > lead ==> spaces < i - lead,
            lead < s@.len() ==> !is_ws(s@[lead as int]),
            spaces == split_prefix(b, (i - lead) as nat).0.len(),
        decreases end - i,
    {
        if s.get_char(i) == ' ' {
            spaces += 1;
        }
        i += 1;
    }
    spaces + 1
}

/// The words of a run's text, in order.
pub fn words(s: &str) -> (r: Vec<String>)
    ensures
        r@.map_values(|w: String| w@) == words_of(s@),
{
    let lead = count_leading_ws(s);
    let trail = count_trailing_ws(s, lead);
    let end = s.unicode_len() - trail;
    let ghost b = trimmed(s@);
    let mut out: Vec<String> = Vec::new();
    let mut start: usize = lead;
    let mut i: usize = lead;
    while i < end
        invariant
            lead <= start <= i <= end,
            end <= s@.len(),
            b == s@.subrange(lead as int, end as int),
            out@.map_values(|w: String| w@) == split_prefix(b, (i - lead) as nat).0,
            s@.subrange(start as int, i as int) == split_prefix(b, (i - lead) as nat).1,
        decreases end - i,
    {
        let ghost prev = out@.map_values(|w: String| w@);
        if s.get_char(i) == ' ' {
            let w = s.substring_char(start, i).to_owned();
            out.push(w);
            assert(out@.map_values(|w: String| w@) =~= prev.push(w@));
            start = i + 1;
        }
        i += 1;
        assert(s@.subrange(start as int, i as int) =~= split_prefix(b, (i - lead) as nat).1);
    }
    let ghost prev = out@.map_values(|w: String| w@);
    let w = s.substring_char(start, end).to_owned();
    out.push(w);
    assert(out@.map_values(|w: String| w@) =~= prev.push(w@));
    assert(b.len() == end - lead);
    out
}

} // verus!
