//! Character-level helpers shared by the parser and the executor: conversion
//! between strings and character vectors, the white-space predicate, and the
//! splitting of a line into whitespace-delimited fields.

use vstd::prelude::*;
use vstd::string::StrSliceExecFns;

verus! {

/// The Unicode `White_Space` code points: the characters on which a line is
/// split into fields.
pub open spec fn is_space_char(c: char) -> bool {
    let u = c as u32;
    ||| (9 <= u && u <= 13)
    ||| u == 32
    ||| u == 0x85
    ||| u == 0xa0
    ||| u == 0x1680
    ||| (0x2000 <= u && u <= 0x200a)
    ||| u == 0x2028
    ||| u == 0x2029
    ||| u == 0x202f
    ||| u == 0x205f
    ||| u == 0x3000
}

/// Decides [`is_space_char`].
pub fn is_space(c: char) -> (b: bool)
    ensures
        b == is_space_char(c),
{
    let u = c as u32;
    (9 <= u && u <= 13) || u == 32 || u == 0x85 || u == 0xa0 || u == 0x1680 || (0x2000 <= u && u
        <= 0x200a) || u == 0x2028 || u == 0x2029 || u == 0x202f || u == 0x205f || u == 0x3000
}

/// The characters of `s`, as a vector.
pub fn str_to_chars(s: &str) -> (v: Vec<char>)
    ensures
        v@ == s@,
{
    let n = s.unicode_len();
    let mut v: Vec<char> = Vec::new();
    let mut i: usize = 0;
    while i < n
        invariant
            i <= n,
            n == s@.len(),
            v@ == s@.take(i as int),
        decreases n - i,
    {
        let c = s.get_char(i);
        v.push(c);
        proof {
            assert(s@.take(i + 1) =~= s@.take(i as int).push(s@[i as int]));
        }
        i += 1;
    }
    proof {
        assert(s@.take(n as int) =~= s@);
    }
    v
}

/// Relies on `String: FromIterator<char>` (`collect`): the resulting string
/// holds exactly the given characters, in order.
#[verifier::external_body]
pub fn chars_to_string(v: &Vec<char>) -> (s: String)
    ensures
        s@ == v@,
{
    v.iter().collect()
}

/// The first position at or after `i` that does not hold white space (or the
/// end of the sequence).
pub open spec fn skip_spaces(s: Seq<char>, i: int) -> int
    decreases s.len() - i,
    when 0 <= i <= s.len()
{
    if i < s.len() && is_space_char(s[i]) {
        skip_spaces(s, i + 1)
    } else {
        i
    }
}

/// The first position at or after `i` that holds white space (or the end of
/// the sequence): the end of the word starting at `i`.
pub open spec fn word_end(s: Seq<char>, i: int) -> int
    decreases s.len() - i,
    when 0 <= i <= s.len()
{
    if i < s.len() && !is_space_char(s[i]) {
        word_end(s, i + 1)
    } else {
        i
    }
}

pub proof fn lemma_skip_spaces_bounds(s: Seq<char>, i: int)
    requires
        0 <= i <= s.len(),
    ensures
        i <= skip_spaces(s, i) <= s.len(),
        skip_spaces(s, i) == s.len() || !is_space_char(s[skip_spaces(s, i)]),
    decreases s.len() - i,
{
    if i < s.len() && is_space_char(s[i]) {
        lemma_skip_spaces_bounds(s, i + 1);
    }
}

pub proof fn lemma_word_end_bounds(s: Seq<char>, i: int)
    requires
        0 <= i <= s.len(),
    ensures
        i <= word_end(s, i) <= s.len(),
        word_end(s, i) == s.len() || is_space_char(s[word_end(s, i)]),
        (i < s.len() && !is_space_char(s[i])) ==> word_end(s, i) > i,
        forall|k: int| i <= k < word_end(s, i) ==> !is_space_char(s[k]),
    decreases s.len() - i,
{
    if i < s.len() && !is_space_char(s[i]) {
        lemma_word_end_bounds(s, i + 1);
    }
}

/// `word_end` is the only position that closes a run of non-space characters.
pub proof fn lemma_word_end_unique(s: Seq<char>, i: int, j: int)
    requires
        0 <= i <= j <= s.len(),
        forall|k: int| i <= k < j ==> !is_space_char(s[k]),
        j == s.len() || is_space_char(s[j]),
    ensures
        word_end(s, i) == j,
    decreases j - i,
{
    if i < j {
        lemma_word_end_unique(s, i + 1, j);
    }
}

/// The fields of `s` from position `i` on: maximal runs of non-space
/// characters, in order.
pub open spec fn split_ws_from(s: Seq<char>, i: int) -> Seq<Seq<char>>
    decreases s.len() - i,
    when 0 <= i <= s.len()
    via split_ws_from_decreases
{
    let j = skip_spaces(s, i);
    if j >= s.len() {
        Seq::empty()
    } else {
        seq![s.subrange(j, word_end(s, j))] + split_ws_from(s, word_end(s, j))
    }
}

#[via_fn]
proof fn split_ws_from_decreases(s: Seq<char>, i: int) {
    lemma_skip_spaces_bounds(s, i);
    let j = skip_spaces(s, i);
    if j < s.len() {
        lemma_word_end_bounds(s, j);
    }
}

/// The whitespace-delimited fields of a whole line.
pub open spec fn split_ws(s: Seq<char>) -> Seq<Seq<char>> {
    split_ws_from(s, 0)
}

/// Skipping one space character does not change the remaining fields.
proof fn lemma_split_skip_space(s: Seq<char>, i: int)
    requires
        0 <= i < s.len(),
        is_space_char(s[i]),
    ensures
        split_ws_from(s, i) == split_ws_from(s, i + 1),
{
    assert(skip_spaces(s, i) == skip_spaces(s, i + 1));
}

/// At the start of a word, the remaining fields are that word followed by the
/// fields after it.
proof fn lemma_split_at_word(s: Seq<char>, i: int)
    requires
        0 <= i < s.len(),
        !is_space_char(s[i]),
    ensures
        split_ws_from(s, i) == seq![s.subrange(i, word_end(s, i))] + split_ws_from(
            s,
            word_end(s, i),
        ),
{
    lemma_word_end_bounds(s, i);
    assert(skip_spaces(s, i) == i);
    assert(split_ws_from(s, i) == seq![s.subrange(i, word_end(s, i))] + split_ws_from(
        s,
        word_end(s, i),
    ));
}

/// Splits a line into its whitespace-delimited fields.
pub fn split_fields(line: &str) -> (r: Vec<String>)
    ensures
        r.deep_view() == split_ws(line@),
{
    let chars = str_to_chars(line);
    let n = chars.len();
    let ghost s = line@;
    let mut out: Vec<String> = Vec::new();
    let mut i: usize = 0;
    while i < n
        invariant
            i <= n,
            n == s.len(),
            chars@ == s,
            split_ws(s) == out.deep_view() + split_ws_from(s, i as int),
        decreases n - i,
    {
        if is_space(chars[i]) {
            proof {
                lemma_split_skip_space(s, i as int);
            }
            i += 1;
        } else {
            let start = i;
            let mut word: Vec<char> = Vec::new();
            while i < n && !is_space(chars[i])
                invariant
                    start <= i <= n,
                    n == s.len(),
                    chars@ == s,
                    word@ == s.subrange(start as int, i as int),
                    forall|k: int| start <= k < i ==> !is_space_char(s[k]),
                decreases n - i,
            {
                word.push(chars[i]);
                proof {
                    assert(s.subrange(start as int, i + 1) =~= s.subrange(
                        start as int,
                        i as int,
                    ).push(s[i as int]));
                }
                i += 1;
            }
            proof {
                lemma_word_end_unique(s, start as int, i as int);
                lemma_split_at_word(s, start as int);
            }
            let field = chars_to_string(&word);
            let ghost prev = out.deep_view();
            out.push(field);
            proof {
                assert(out.deep_view() =~= prev.push(field@));
                assert(prev.push(field@) + split_ws_from(s, i as int) =~= prev + (seq![
                    s.subrange(start as int, i as int),
                ] + split_ws_from(s, i as int)));
            }
        }
    }
    proof {
        assert(split_ws_from(s, n as int) =~= Seq::<Seq<char>>::empty());
        assert(out.deep_view() + Seq::<Seq<char>>::empty() =~= out.deep_view());
    }
    out
}

} // verus!
