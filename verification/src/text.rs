//! Text helpers: decimal rendering of integers, path components, Unicode
//! white space, trimming and splitting.

use vstd::prelude::*;
use vstd::string::StrSliceExecFns;
use vstd::string::StringExecFns;

verus! {

/// The ASCII digit for `d` (meaningful for `d < 10`).
pub open spec fn digit_char(d: nat) -> char {
    (48 + d) as char
}

/// Decimal representation of `n`, most significant digit first, no leading zeros.
pub open spec fn decimal(n: nat) -> Seq<char>
    decreases n,
{
    if n < 10 {
        seq![digit_char(n)]
    } else {
        decimal(n / 10).push(digit_char(n % 10))
    }
}

/// Appends one character to a `String`.
///
/// Trusted: `String::push` appends `c` at the end and leaves the rest as it was.
#[verifier::external_body]
pub(crate) fn string_push(s: &mut String, c: char)
    ensures
        final(s)@ == old(s)@.push(c),
{
    s.push(c);
}

fn digit(d: u64) -> (c: char)
    requires
        d < 10,
    ensures
        c == digit_char(d as nat),
{
    let b: u8 = 48u8 + (d as u8);
    b as char
}

/// Appends the decimal representation of `n` to `s`.
pub fn push_decimal(s: &mut String, n: u64)
    ensures
        final(s)@ == old(s)@ + decimal(n as nat),
    decreases n,
{
    if n >= 10 {
        push_decimal(s, n / 10);
    }
    string_push(s, digit(n % 10));
}

} // verus!

verus! {

/// `c` separates path components: `/`, and also `\` when `also_backslash`.
pub open spec fn is_separator(c: char, also_backslash: bool) -> bool {
    c == '/' || (also_backslash && c == '\\')
}

/// Index just past the last separator in `s` (0 when there is none).
pub open spec fn component_start(s: Seq<char>, also_backslash: bool) -> int
    decreases s.len(),
{
    if s.len() == 0 {
        0
    } else if is_separator(s.last(), also_backslash) {
        s.len() as int
    } else {
        component_start(s.drop_last(), also_backslash)
    }
}

/// The text after the last separator of `s` (all of `s` when it has none).
pub open spec fn last_component(s: Seq<char>, also_backslash: bool) -> Seq<char> {
    s.subrange(component_start(s, also_backslash), s.len() as int)
}

proof fn lemma_component_start_bounds(s: Seq<char>, also_backslash: bool)
    ensures
        0 <= component_start(s, also_backslash) <= s.len(),
    decreases s.len(),
{
    if s.len() > 0 {
        lemma_component_start_bounds(s.drop_last(), also_backslash);
    }
}

/// The text after the last separator of `path`.
pub fn last_path_component(path: &str, also_backslash: bool) -> (res: &str)
    ensures
        res@ == last_component(path@, also_backslash),
{
    let n = path.unicode_len();
    let mut start: usize = 0;
    let mut i: usize = 0;
    for c in it: path.chars()
        invariant
            it.seq() == path@,
            n == path@.len(),
            i == it.index(),
            i <= path@.len(),
            start == component_start(path@.take(i as int), also_backslash),
    {
        assert(path@.take(i + 1).drop_last() =~= path@.take(i as int));
        if c == '/' || (also_backslash && c == '\\') {
            start = i + 1;
        }
        i = i + 1;
    }
    assert(path@.take(i as int) =~= path@);
    proof {
        lemma_component_start_bounds(path@, also_backslash);
    }
    path.substring_char(start, i)
}

} // verus!

verus! {

/// Unicode `White_Space`, the property `char::is_whitespace` tests.
pub open spec fn is_white_space(c: char) -> bool {
    let u = c as u32;
    ||| 9 <= u <= 13
    ||| u == 32
    ||| u == 0x85
    ||| u == 0xa0
    ||| u == 0x1680
    ||| 0x2000 <= u <= 0x200a
    ||| u == 0x2028
    ||| u == 0x2029
    ||| u == 0x202f
    ||| u == 0x205f
    ||| u == 0x3000
}

/// Index of the first non-white-space character of `s` (its length when none).
pub open spec fn content_start(s: Seq<char>) -> int
    decreases s.len(),
{
    if s.len() == 0 {
        0
    } else {
        let p = content_start(s.drop_last());
        if p == s.len() - 1 && is_white_space(s.last()) {
            s.len() as int
        } else {
            p
        }
    }
}

/// Index just past the last non-white-space character of `s` (0 when none).
pub open spec fn content_end(s: Seq<char>) -> int
    decreases s.len(),
{
    if s.len() == 0 {
        0
    } else if !is_white_space(s.last()) {
        s.len() as int
    } else {
        content_end(s.drop_last())
    }
}

/// `s` without leading and trailing white space (`str::trim`).
pub open spec fn trimmed(s: Seq<char>) -> Seq<char> {
    let a = content_start(s);
    let b = content_end(s);
    if a < b {
        s.subrange(a, b)
    } else {
        Seq::empty()
    }
}

/// A replay line that carries no record: empty once trimmed, or a `#` comment.
pub open spec fn is_blank_or_comment(s: Seq<char>) -> bool {
    let a = content_start(s);
    a == s.len() || s[a] == '#'
}

pub fn is_white_space_char(c: char) -> (b: bool)
    ensures
        b == is_white_space(c),
{
    let u = c as u32;
    (9 <= u && u <= 13) || u == 32 || u == 0x85 || u == 0xa0 || u == 0x1680 || (0x2000 <= u
        && u <= 0x200a) || u == 0x2028 || u == 0x2029 || u == 0x202f || u == 0x205f || u
        == 0x3000
}

pub(crate) proof fn lemma_content_bounds(s: Seq<char>)
    ensures
        0 <= content_start(s) <= s.len(),
        0 <= content_end(s) <= s.len(),
        content_start(s) < s.len() ==> !is_white_space(s[content_start(s)]),
        forall|i: int| 0 <= i < content_start(s) ==> is_white_space(#[trigger] s[i]),
    decreases s.len(),
{
    if s.len() > 0 {
        let t = s.drop_last();
        lemma_content_bounds(t);
        assert forall|i: int| 0 <= i < content_start(s) implies is_white_space(#[trigger] s[i]) by {
            if i < t.len() {
                assert(s[i] == t[i]);
            }
        }
        if content_start(t) < t.len() {
            assert(s[content_start(t)] == t[content_start(t)]);
        }
    }
}

/// Positions of the first and past-the-last non-white-space characters of `s`.
fn content_bounds(s: &str) -> (r: (usize, usize))
    ensures
        r.0 == content_start(s@),
        r.1 == content_end(s@),
        r.0 <= s@.len(),
        r.1 <= s@.len(),
{
    let n = s.unicode_len();
    let mut start: usize = 0;
    let mut end: usize = 0;
    let mut i: usize = 0;
    for c in it: s.chars()
        invariant
            it.seq() == s@,
            n == s@.len(),
            i == it.index(),
            i <= s@.len(),
            start == content_start(s@.take(i as int)),
            end == content_end(s@.take(i as int)),
    {
        assert(s@.take(i + 1).drop_last() =~= s@.take(i as int));
        let ws = is_white_space_char(c);
        if start == i && ws {
            start = i + 1;
        }
        if !ws {
            end = i + 1;
        }
        i = i + 1;
    }
    assert(s@.take(i as int) =~= s@);
    proof {
        lemma_content_bounds(s@);
    }
    (start, end)
}

/// `s` without leading and trailing white space.
pub fn trim(s: &str) -> (res: &str)
    ensures
        res@ == trimmed(s@),
{
    let (a, b) = content_bounds(s);
    if a < b {
        s.substring_char(a, b)
    } else {
        s.substring_char(0, 0)
    }
}

/// Whether a replay line carries no record (blank, or a `#` comment).
pub fn is_skipped_line(line: &str) -> (skip: bool)
    ensures
        skip == is_blank_or_comment(line@),
{
    let (a, _) = content_bounds(line);
    if a == line.unicode_len() {
        true
    } else {
        line.get_char(a) == '#'
    }
}

} // verus!

verus! {

/// The pieces of `s` between occurrences of `sep` (`str::split`): one more
/// piece than there are separators, possibly empty ones.
pub open spec fn split_on(s: Seq<char>, sep: char) -> Seq<Seq<char>>
    decreases s.len(),
{
    if s.len() == 0 {
        seq![Seq::empty()]
    } else {
        let parts = split_on(s.drop_last(), sep);
        if s.last() == sep {
            parts.push(Seq::empty())
        } else {
            parts.update(parts.len() - 1, parts.last().push(s.last()))
        }
    }
}

pub(crate) proof fn lemma_split_on_nonempty(s: Seq<char>, sep: char)
    ensures
        split_on(s, sep).len() >= 1,
    decreases s.len(),
{
    if s.len() > 0 {
        lemma_split_on_nonempty(s.drop_last(), sep);
    }
}

/// Splits `s` at each `sep` and trims white space off every piece.
pub fn split_trimmed(s: &str, sep: char) -> (res: Vec<String>)
    ensures
        res@.len() == split_on(s@, sep).len(),
        forall|i: int|
            0 <= i < res@.len() ==> #[trigger] res@[i]@ == trimmed(split_on(s@, sep)[i]),
{
    let mut done: Vec<String> = Vec::new();
    let mut current = String::new();
    let mut i: usize = 0;
    let n = s.unicode_len();
    for c in it: s.chars()
        invariant
            it.seq() == s@,
            n == s@.len(),
            i == it.index(),
            i <= s@.len(),
            done@.len() + 1 == split_on(s@.take(i as int), sep).len(),
            forall|j: int|
                0 <= j < done@.len() ==> #[trigger] done@[j]@ == trimmed(
                    split_on(s@.take(i as int), sep)[j],
                ),
            current@ == split_on(s@.take(i as int), sep).last(),
    {
        let ghost prev = s@.take(i as int);
        assert(s@.take(i + 1).drop_last() =~= prev);
        proof {
            lemma_split_on_nonempty(prev, sep);
        }
        if c == sep {
            let piece = trim(current.as_str());
            done.push(String::from_str(piece));
            current = String::new();
        } else {
            string_push(&mut current, c);
        }
        i = i + 1;
    }
    assert(s@.take(i as int) =~= s@);
    proof {
        lemma_split_on_nonempty(s@, sep);
    }
    let piece = trim(current.as_str());
    done.push(String::from_str(piece));
    done
}

} // verus!
