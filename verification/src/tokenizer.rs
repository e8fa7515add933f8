//! Splitting a message into a command name and the argument text behind it.

use crate::text::{
    chars_of, lemma_run_end, lemma_run_end_unique, run_end, scan_run, starts_with, whitespace,
    words, words_from,
};
use vstd::prelude::*;
use vstd::string::*;

verus! {

/// What the tokenizer makes of a message.
#[derive(Debug, Clone, PartialEq, Eq)]
pub enum Tokenized {
    /// The message does not begin with the prefix: it is no command.
    NoMatch,
    /// The message begins with the prefix.
    Matched {
        /// The non-whitespace run directly behind the prefix; may be empty.
        command_name: String,
        /// Everything behind the whitespace that follows the name, verbatim.
        raw_remainder: String,
    },
}

/// The mathematical value of a `Tokenized`.
pub enum TokenizedView {
    NoMatch,
    Matched { command_name: Seq<char>, raw_remainder: Seq<char> },
}

impl View for Tokenized {
    type V = TokenizedView;

    open spec fn view(&self) -> TokenizedView {
        match self {
            Tokenized::NoMatch => TokenizedView::NoMatch,
            Tokenized::Matched { command_name, raw_remainder } => TokenizedView::Matched {
                command_name: command_name@,
                raw_remainder: raw_remainder@,
            },
        }
    }
}

/// The split of `content` under `prefix`. The test for the prefix is literal
/// and case-sensitive, and nothing is trimmed before it. The name is the run
/// of non-whitespace that starts right behind the prefix; the remainder starts
/// behind the run of whitespace that follows the name and reaches to the end.
pub open spec fn tokenize_spec(content: Seq<char>, prefix: Seq<char>) -> TokenizedView {
    if prefix.is_prefix_of(content) {
        let start = prefix.len() as int;
        let name_end = run_end(content, start, false);
        let rest_start = run_end(content, name_end, true);
        TokenizedView::Matched {
            command_name: content.subrange(start, name_end),
            raw_remainder: content.subrange(rest_start, content.len() as int),
        }
    } else {
        TokenizedView::NoMatch
    }
}

/// Splits a message into command name and raw remainder, or finds that it
/// does not begin with the prefix.
pub fn tokenize(content: &str, prefix: &str) -> (r: Tokenized)
    ensures
        r@ == tokenize_spec(content@, prefix@),
        r is NoMatch <==> !prefix@.is_prefix_of(content@),
{
    let text = chars_of(content);
    let lead = chars_of(prefix);
    if !starts_with(&text, &lead) {
        return Tokenized::NoMatch;
    }
    let start = lead.len();
    let name_end = scan_run(&text, start, false);
    let rest_start = scan_run(&text, name_end, true);
    let command_name = String::from_str(content.substring_char(start, name_end));
    let raw_remainder = String::from_str(content.substring_char(rest_start, text.len()));
    Tokenized::Matched { command_name, raw_remainder }
}

/// The whitespace that `tokenize_spec` passes over between the name and the
/// remainder of a message that begins with the prefix.
pub open spec fn gap_spec(content: Seq<char>, prefix: Seq<char>) -> Seq<char> {
    let name_end = run_end(content, prefix.len() as int, false);
    content.subrange(name_end, run_end(content, name_end, true))
}

/// A message that begins with the prefix is the prefix, the name, a gap and
/// the remainder, one behind the other: the name holds no whitespace, the gap
/// holds nothing else, the remainder does not begin with whitespace, and
/// without a gap there is no remainder.
pub proof fn lemma_tokenize_splits(content: Seq<char>, prefix: Seq<char>)
    requires
        prefix.is_prefix_of(content),
    ensures
        tokenize_spec(content, prefix) is Matched,
        ({
            let name = tokenize_spec(content, prefix)->command_name;
            let gap = gap_spec(content, prefix);
            let rest = tokenize_spec(content, prefix)->raw_remainder;
            splits(name, gap, rest) && content == prefix + name + gap + rest
        }),
{
    let start = prefix.len() as int;
    let name_end = run_end(content, start, false);
    let rest_start = run_end(content, name_end, true);
    lemma_run_end(content, start, false);
    lemma_run_end(content, name_end, true);
    let name = content.subrange(start, name_end);
    let gap = content.subrange(name_end, rest_start);
    let rest = content.subrange(rest_start, content.len() as int);
    assert forall|i: int| 0 <= i < name.len() implies !whitespace(#[trigger] name[i]) by {
        assert(name[i] == content[start + i]);
    }
    assert forall|i: int| 0 <= i < gap.len() implies whitespace(#[trigger] gap[i]) by {
        assert(gap[i] == content[name_end + i]);
    }
    if rest.len() > 0 {
        assert(rest[0] == content[rest_start]);
        if gap.len() == 0 {
            assert(run_end(content, name_end, true) == name_end);
        }
    }
    assert(splits(name, gap, rest));
    assert(prefix =~= content.subrange(0, start));
    assert(content =~= prefix + name + gap + rest);
}

/// Whether a name, a gap and a remainder are such as the tokenizer tells
/// apart: the name holds no whitespace, the gap holds nothing else, the
/// remainder does not begin with whitespace, and without a gap there is no
/// remainder.
pub open spec fn splits(name: Seq<char>, gap: Seq<char>, rest: Seq<char>) -> bool {
    &&& forall|i: int| 0 <= i < name.len() ==> !whitespace(#[trigger] name[i])
    &&& forall|i: int| 0 <= i < gap.len() ==> whitespace(#[trigger] gap[i])
    &&& rest.len() > 0 ==> !whitespace(rest[0]) && gap.len() > 0
}

/// There is one way only to split a message: whatever parts of the right
/// shape it is put together from, the tokenizer finds that name and that
/// remainder.
pub proof fn lemma_tokenize_unique(
    prefix: Seq<char>,
    name: Seq<char>,
    gap: Seq<char>,
    rest: Seq<char>,
)
    requires
        splits(name, gap, rest),
    ensures
        tokenize_spec(prefix + name + gap + rest, prefix) == (TokenizedView::Matched {
            command_name: name,
            raw_remainder: rest,
        }),
{
    let content = prefix + name + gap + rest;
    let start = prefix.len() as int;
    let name_end = start + name.len();
    let rest_start = name_end + gap.len();
    assert(prefix =~= content.subrange(0, start));
    assert forall|i: int| start <= i < name_end implies !whitespace(#[trigger] content[i]) by {
        assert(content[i] == name[i - start]);
    }
    assert forall|i: int| name_end <= i < rest_start implies whitespace(#[trigger] content[i]) by {
        assert(content[i] == gap[i - name_end]);
    }
    if rest.len() > 0 {
        assert(content[rest_start] == rest[0]);
    }
    if gap.len() > 0 {
        assert(content[name_end] == gap[0]);
    }
    lemma_run_end_unique(content, start, false, name_end);
    lemma_run_end_unique(content, name_end, true, rest_start);
    assert(content.subrange(start, name_end) =~= name);
    assert(content.subrange(rest_start, content.len() as int) =~= rest);
}

/// The arguments of one invocation: the text behind the command name.
#[derive(Debug, Clone, PartialEq, Eq)]
pub struct ParsedArgs {
    /// The remainder of the message, verbatim.
    pub raw: String,
}

impl View for ParsedArgs {
    type V = Seq<char>;

    open spec fn view(&self) -> Seq<char> {
        self.raw@
    }
}

impl ParsedArgs {
    /// The arguments that stand for the remainder `raw`.
    pub fn new(raw: String) -> (args: ParsedArgs)
        ensures
            args@ == raw@,
    {
        ParsedArgs { raw }
    }

    /// The remainder as it was written.
    pub fn rest(&self) -> (r: &str)
        ensures
            r@ == self@,
    {
        self.raw.as_str()
    }

    /// The remainder split on whitespace: its words, in order.
    pub fn words(&self) -> (r: Vec<String>)
        ensures
            r.deep_view() == words(self@),
    {
        let chars = chars_of(self.raw.as_str());
        let mut out: Vec<String> = Vec::new();
        let mut pos: usize = 0;
        loop
            invariant
                chars@ == self.raw@,
                pos <= chars.len(),
                out.deep_view() + words_from(chars@, pos as int) == words(chars@),
            decreases chars.len() - pos,
        {
            let start = scan_run(&chars, pos, true);
            let end = scan_run(&chars, start, false);
            if start >= end {
                assert(words_from(chars@, pos as int) == Seq::<Seq<char>>::empty());
                assert(out.deep_view() == out.deep_view() + Seq::<Seq<char>>::empty());
                return out;
            }
            let word = String::from_str(self.raw.as_str().substring_char(start, end));
            let ghost before = out.deep_view();
            out.push(word);
            assert(out.deep_view() == before.push(chars@.subrange(start as int, end as int)));
            assert(before.push(chars@.subrange(start as int, end as int)) + words_from(
                chars@,
                end as int,
            ) == before + words_from(chars@, pos as int));
            pos = end;
        }
    }
}

/// No word is empty and no word holds whitespace.
pub proof fn lemma_words_are_words(s: Seq<char>, from: int)
    requires
        0 <= from <= s.len(),
    ensures
        forall|k: int|
            0 <= k < words_from(s, from).len() ==> {
                let w = #[trigger] words_from(s, from)[k];
                w.len() > 0 && forall|i: int| 0 <= i < w.len() ==> !whitespace(#[trigger] w[i])
            },
    decreases s.len() - from,
{
    let start = run_end(s, from, true);
    let end = run_end(s, start, false);
    lemma_run_end(s, from, true);
    lemma_run_end(s, start, false);
    if start < end {
        lemma_words_are_words(s, end);
        let first = s.subrange(start, end);
        assert forall|k: int| 0 <= k < words_from(s, from).len() implies {
            let w = #[trigger] words_from(s, from)[k];
            w.len() > 0 && forall|i: int| 0 <= i < w.len() ==> !whitespace(#[trigger] w[i])
        } by {
            if k == 0 {
                assert(words_from(s, from)[0] == first);
                assert forall|i: int| 0 <= i < first.len() implies !whitespace(
                    #[trigger] first[i],
                ) by {
                    assert(first[i] == s[start + i]);
                }
            } else {
                assert(words_from(s, from)[k] == words_from(s, end)[k - 1]);
            }
        }
    }
}

} // verus!
