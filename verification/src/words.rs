//! A line of input as words: the runs of characters between whitespace.

use vstd::prelude::*;
use crate::path::texts;

verus! {

/// Whether `c` is whitespace, as `char::is_whitespace` tells it.
pub uninterp spec fn is_space(c: char) -> bool;

/// Calls `char::is_whitespace`, which tells whether a character has the
/// Unicode property `White_Space`. Nothing is proved of the answer; it is
/// taken as the meaning of [`is_space`].
#[verifier::external_body]
fn is_whitespace(c: char) -> (space: bool)
    ensures
        space == is_space(c),
{
    c.is_whitespace()
}

/// How many characters at the start of `s` are whitespace (`space`), or are
/// not (`!space`), before the first one of the other sort.
pub open spec fn run(s: Seq<char>, space: bool) -> nat
    decreases s.len(),
{
    if s.len() > 0 && is_space(s[0]) == space {
        1 + run(s.drop_first(), space)
    } else {
        0
    }
}

/// The words of `s`: after the whitespace at its start, the characters up to
/// the next whitespace, then the words of what follows. No word is empty, and
/// a line of whitespace alone has no word.
pub open spec fn words(s: Seq<char>) -> Seq<Seq<char>>
    decreases s.len(),
    via words_decreases
{
    let gap = run(s, true) as int;
    let word = run(s.skip(gap), false) as int;
    if word == 0 {
        Seq::empty()
    } else {
        seq![s.subrange(gap, gap + word)] + words(s.skip(gap + word))
    }
}

#[via_fn]
proof fn words_decreases(s: Seq<char>) {
    lemma_run_bound(s, true);
    lemma_run_bound(s.skip(run(s, true) as int), false);
}

/// A run is no longer than the text.
pub proof fn lemma_run_bound(s: Seq<char>, space: bool)
    ensures
        run(s, space) <= s.len(),
    decreases s.len(),
{
    if s.len() > 0 && is_space(s[0]) == space {
        lemma_run_bound(s.drop_first(), space);
    }
}

/// A run is as long as the stretch of characters of one sort that ends at a
/// character of the other sort, or at the end of the text.
pub proof fn lemma_run_is(s: Seq<char>, space: bool, n: int)
    requires
        0 <= n <= s.len(),
        forall|j: int| 0 <= j < n ==> is_space(s[j]) == space,
        n == s.len() || is_space(s[n]) != space,
    ensures
        run(s, space) == n,
    decreases n,
{
    if n > 0 {
        lemma_run_is(s.drop_first(), space, n - 1);
    }
}

/// Every character of a run is of the sort that the run is of.
pub proof fn lemma_run_holds(s: Seq<char>, space: bool, j: int)
    requires
        0 <= j < run(s, space),
    ensures
        j < s.len(),
        is_space(s[j]) == space,
    decreases s.len(),
{
    if j > 0 {
        lemma_run_holds(s.drop_first(), space, j - 1);
    }
}

/// Every word holds at least one character, and no whitespace.
pub proof fn law_words_hold_no_space(s: Seq<char>, k: int)
    requires
        0 <= k < words(s).len(),
    ensures
        words(s)[k].len() > 0,
        forall|j: int| 0 <= j < words(s)[k].len() ==> !is_space(#[trigger] words(s)[k][j]),
    decreases s.len(),
{
    let gap = run(s, true) as int;
    let rest = s.skip(gap);
    let word = run(rest, false) as int;
    lemma_run_bound(s, true);
    lemma_run_bound(rest, false);
    if k == 0 {
        assert(words(s)[0] == s.subrange(gap, gap + word));
        assert forall|j: int| 0 <= j < words(s)[0].len() implies !is_space(
            #[trigger] words(s)[0][j],
        ) by {
            lemma_run_holds(rest, false, j);
            assert(words(s)[0][j] == rest[j]);
        }
    } else {
        law_words_hold_no_space(s.skip(gap + word), k - 1);
        assert(words(s)[k] == words(s.skip(gap + word))[k - 1]);
    }
}

/// Whitespace at the start of a text changes none of its words.
pub proof fn lemma_words_after_space(s: Seq<char>)
    requires
        s.len() > 0,
        is_space(s[0]),
    ensures
        words(s) == words(s.drop_first()),
{
    let t = s.drop_first();
    let gap = run(t, true) as int;
    lemma_run_bound(t, true);
    assert(run(s, true) == gap + 1);
    assert(s.skip(gap + 1) == t.skip(gap));
    let word = run(t.skip(gap), false) as int;
    lemma_run_bound(t.skip(gap), false);
    if word > 0 {
        assert(s.subrange(gap + 1, gap + 1 + word) == t.subrange(gap, gap + word));
        assert(s.skip(gap + 1 + word) == t.skip(gap + word));
    }
}

/// A text that starts with `n > 0` characters that are no whitespace, and
/// goes on with whitespace or ends there, has these as its first word.
pub proof fn lemma_words_first(s: Seq<char>, n: int)
    requires
        0 < n <= s.len(),
        forall|j: int| 0 <= j < n ==> !is_space(s[j]),
        n == s.len() || is_space(s[n]),
    ensures
        words(s) == seq![s.take(n)] + words(s.skip(n)),
{
    assert(run(s, true) == 0);
    assert(s.skip(0) == s);
    lemma_run_is(s, false, n);
}

/// Cuts `line` into its words.
pub fn split_words(line: &str) -> (parts: Vec<String>)
    ensures
        texts(parts@) == words(line@),
{
    let len: usize = line.unicode_len();
    let mut parts: Vec<String> = Vec::new();
    let mut inside: bool = false;
    let mut start: usize = 0;
    let mut at: usize = 0;
    assert(line@.skip(0) == line@);
    for c in it: line.chars()
        invariant
            it.seq() == line@,
            len == line@.len(),
            at == it.index(),
            inside ==> start < at,
            inside ==> forall|j: int| start <= j < at ==> !is_space(line@[j]),
            words(line@) == texts(parts@) + words(line@.skip(if inside { start as int } else { at as int })),
    {
        if is_whitespace(c) {
            if inside {
                let part: String = line.substring_char(start, at).to_owned();
                proof {
                    let rest = line@.skip(start as int);
                    lemma_words_first(rest, at - start);
                    assert(rest.take(at - start) == line@.subrange(start as int, at as int));
                    assert(rest.skip(at - start) == line@.skip(at as int));
                    assert(texts(parts@.push(part)) == texts(parts@).push(part@));
                }
                parts.push(part);
                inside = false;
            }
            proof {
                lemma_words_after_space(line@.skip(at as int));
                assert(line@.skip(at as int).drop_first() == line@.skip(at + 1));
            }
        } else if !inside {
            start = at;
            inside = true;
        }
        at += 1;
    }
    if inside {
        let part: String = line.substring_char(start, len).to_owned();
        proof {
            let rest = line@.skip(start as int);
            lemma_words_first(rest, len - start);
            assert(rest.take(len - start) == line@.subrange(start as int, len as int));
            assert(rest.skip(len - start).len() == 0);
            assert(texts(parts@.push(part)) == texts(parts@).push(part@));
        }
        parts.push(part);
    } else {
        assert(line@.skip(at as int).len() == 0);
    }
    parts
}

} // verus!
