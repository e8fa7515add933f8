//! Characters and runs of characters: what counts as whitespace, and how far a
//! run of whitespace or of non-whitespace reaches.

use vstd::prelude::*;

verus! {

/// The characters that Unicode classes as `White_Space`.
pub open spec fn whitespace(c: char) -> bool {
    let n = c as u32;
    ||| 0x09 <= n <= 0x0D
    ||| n == 0x20
    ||| n == 0x85
    ||| n == 0xA0
    ||| n == 0x1680
    ||| 0x2000 <= n <= 0x200A
    ||| n == 0x2028
    ||| n == 0x2029
    ||| n == 0x202F
    ||| n == 0x205F
    ||| n == 0x3000
}

/// Tells whether `c` is whitespace.
pub fn is_whitespace(c: char) -> (b: bool)
    ensures
        b == whitespace(c),
{
    let n: u32 = c as u32;
    (0x09 <= n && n <= 0x0D) || n == 0x20 || n == 0x85 || n == 0xA0 || n == 0x1680 || (0x2000 <= n
        && n <= 0x200A) || n == 0x2028 || n == 0x2029 || n == 0x202F || n == 0x205F || n == 0x3000
}

/// The characters of `s`, one by one.
pub fn chars_of(s: &str) -> (v: Vec<char>)
    ensures
        v@ == s@,
{
    let mut v: Vec<char> = Vec::new();
    for c in it: s.chars()
        invariant
            it.seq() == s@,
            v@ == it.seq().take(it.index()),
    {
        v.push(c);
    }
    v
}

/// Tells whether `text` begins with `lead`, character for character.
pub fn starts_with(text: &Vec<char>, lead: &Vec<char>) -> (b: bool)
    ensures
        b == lead@.is_prefix_of(text@),
{
    if lead.len() > text.len() {
        return false;
    }
    let mut i: usize = 0;
    while i < lead.len()
        invariant
            i <= lead.len() <= text.len(),
            lead@.take(i as int) == text@.take(i as int),
        decreases lead.len() - i,
    {
        if lead[i] != text[i] {
            assert(lead@[i as int] != text@.subrange(0, lead@.len() as int)[i as int]);
            return false;
        }
        assert(lead@.take(i + 1) == lead@.take(i as int).push(lead@[i as int]));
        assert(text@.take(i + 1) == text@.take(i as int).push(text@[i as int]));
        i += 1;
    }
    assert(lead@ == lead@.take(lead@.len() as int));
    true
}

/// Where the run that starts at `from` ends: the first position at or after
/// `from` whose character `c` has `whitespace(c) != space`, or the length of
/// `s` when there is none. With `space` false the run is a word, with `space`
/// true it is a gap between words.
pub open spec fn run_end(s: Seq<char>, from: int, space: bool) -> int
    decreases s.len() - from,
{
    if 0 <= from < s.len() && whitespace(s[from]) == space {
        run_end(s, from + 1, space)
    } else {
        from
    }
}

/// `run_end` is the one position that closes the run: every character from
/// `from` up to it belongs to the run, and the character at it, if any, does
/// not.
pub proof fn lemma_run_end(s: Seq<char>, from: int, space: bool)
    requires
        0 <= from <= s.len(),
    ensures
        from <= run_end(s, from, space) <= s.len(),
        forall|i: int| from <= i < run_end(s, from, space) ==> whitespace(#[trigger] s[i]) == space,
        run_end(s, from, space) < s.len() ==> whitespace(s[run_end(s, from, space)]) != space,
    decreases s.len() - from,
{
    if from < s.len() && whitespace(s[from]) == space {
        lemma_run_end(s, from + 1, space);
    }
}

/// A position that closes the run is `run_end`.
pub proof fn lemma_run_end_unique(s: Seq<char>, from: int, space: bool, end: int)
    requires
        0 <= from <= end <= s.len(),
        forall|i: int| from <= i < end ==> whitespace(#[trigger] s[i]) == space,
        end < s.len() ==> whitespace(s[end]) != space,
    ensures
        run_end(s, from, space) == end,
    decreases end - from,
{
    if from < end {
        lemma_run_end_unique(s, from + 1, space, end);
    }
}

/// Scans the run that starts at `from` and returns where it ends.
pub fn scan_run(chars: &Vec<char>, from: usize, space: bool) -> (end: usize)
    requires
        from <= chars.len(),
    ensures
        end == run_end(chars@, from as int, space),
        from <= end <= chars.len(),
{
    let mut i: usize = from;
    while i < chars.len() && is_whitespace(chars[i]) == space
        invariant
            from <= i <= chars.len(),
            run_end(chars@, i as int, space) == run_end(chars@, from as int, space),
        decreases chars.len() - i,
    {
        i += 1;
    }
    i
}

/// The words of `s` from position `from` on: the maximal runs of
/// non-whitespace characters, in the order in which they occur.
pub open spec fn words_from(s: Seq<char>, from: int) -> Seq<Seq<char>>
    decreases s.len() - from,
    via words_from_decreases
{
    let start = run_end(s, from, true);
    let end = run_end(s, start, false);
    if 0 <= from && start < end {
        seq![s.subrange(start, end)] + words_from(s, end)
    } else {
        Seq::empty()
    }
}

#[via_fn]
proof fn words_from_decreases(s: Seq<char>, from: int) {
    if 0 <= from <= s.len() {
        lemma_run_end(s, from, true);
        lemma_run_end(s, run_end(s, from, true), false);
    }
}

/// The words of `s`.
pub open spec fn words(s: Seq<char>) -> Seq<Seq<char>> {
    words_from(s, 0)
}

} // verus!
