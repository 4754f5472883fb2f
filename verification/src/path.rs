//! Folder names and the paths typed after `cd`, as sequences of characters.

use vstd::prelude::*;

verus! {

/// Separates the segments of a path typed by the user.
pub const SEGMENT_SEPARATOR: char = '/';

/// Joins the names of a rendered path, root first.
pub const RENDER_SEPARATOR: char = '\\';

/// A folder name is acceptable when it is not empty and holds neither separator.
pub open spec fn valid_name(name: Seq<char>) -> bool {
    &&& name.len() > 0
    &&& !name.contains(SEGMENT_SEPARATOR)
    &&& !name.contains(RENDER_SEPARATOR)
}

/// The path segment that stands for "the parent folder".
pub open spec fn parent_segment() -> Seq<char> {
    seq!['.', '.']
}

/// The segments of `path`: what lies before its first `/`, then the segments of
/// what lies after it. A path without `/` is its own single segment, so every
/// path has one segment more than it has separators, and a leading, trailing or
/// doubled `/` gives an empty segment.
pub open spec fn segments(path: Seq<char>) -> Seq<Seq<char>>
    decreases path.len(),
    via segments_decreases
{
    match path.index_of_first(SEGMENT_SEPARATOR) {
        None => seq![path],
        Some(i) => seq![path.take(i)] + segments(path.skip(i + 1)),
    }
}

#[via_fn]
proof fn segments_decreases(path: Seq<char>) {
    path.index_of_first_ensures(SEGMENT_SEPARATOR);
}

/// A path without any `/` is one segment.
pub proof fn lemma_segments_of_name(name: Seq<char>)
    requires
        !name.contains(SEGMENT_SEPARATOR),
    ensures
        segments(name) == seq![name],
{
    name.index_of_first_ensures(SEGMENT_SEPARATOR);
}

/// Where the first `/` of `path` stands at `i`, the path splits there.
pub proof fn lemma_segments_at_first_separator(path: Seq<char>, i: int)
    requires
        0 <= i < path.len(),
        path[i] == SEGMENT_SEPARATOR,
        forall|j: int| 0 <= j < i ==> path[j] != SEGMENT_SEPARATOR,
    ensures
        segments(path) == seq![path.take(i)] + segments(path.skip(i + 1)),
{
    path.index_of_first_ensures(SEGMENT_SEPARATOR);
}

/// The text made of `parts` with a `/` between each two of them.
pub open spec fn join(parts: Seq<Seq<char>>) -> Seq<char>
    decreases parts.len(),
{
    if parts.len() == 0 {
        Seq::empty()
    } else if parts.len() == 1 {
        parts[0]
    } else {
        parts[0] + seq![SEGMENT_SEPARATOR] + join(parts.drop_first())
    }
}

/// Cutting undoes joining: parts that hold no `/` are the segments of the
/// path that they are joined to.
pub proof fn law_segments_of_join(parts: Seq<Seq<char>>)
    requires
        parts.len() >= 1,
        forall|k: int| 0 <= k < parts.len() ==> !(#[trigger] parts[k]).contains(SEGMENT_SEPARATOR),
    ensures
        segments(join(parts)) == parts,
    decreases parts.len(),
{
    let first = parts[0];
    if parts.len() == 1 {
        lemma_segments_of_name(first);
        assert(parts == seq![first]);
    } else {
        let rest = parts.drop_first();
        let path = join(parts);
        let at = first.len() as int;
        assert forall|k: int| 0 <= k < rest.len() implies !(#[trigger] rest[k]).contains(
            SEGMENT_SEPARATOR,
        ) by {
            assert(rest[k] == parts[k + 1]);
        }
        law_segments_of_join(rest);
        assert forall|j: int| 0 <= j < at implies path[j] != SEGMENT_SEPARATOR by {
            assert(path[j] == first[j]);
        }
        lemma_segments_at_first_separator(path, at);
        assert(path.take(at) == first);
        assert(path.skip(at + 1) == join(rest));
        assert(parts == seq![first] + rest);
    }
}

/// Joining undoes cutting: the segments of a path, joined, are the path.
pub proof fn law_join_of_segments(path: Seq<char>)
    ensures
        segments(path).len() >= 1,
        join(segments(path)) == path,
    decreases path.len(),
{
    path.index_of_first_ensures(SEGMENT_SEPARATOR);
    match path.index_of_first(SEGMENT_SEPARATOR) {
        None => {},
        Some(i) => {
            let rest = segments(path.skip(i + 1));
            law_join_of_segments(path.skip(i + 1));
            assert(segments(path).drop_first() == rest);
            assert(path.take(i) + seq![SEGMENT_SEPARATOR] + path.skip(i + 1) == path);
        },
    }
}

/// No segment holds a `/`.
pub proof fn law_segments_hold_no_separator(path: Seq<char>, k: int)
    requires
        0 <= k < segments(path).len(),
    ensures
        !segments(path)[k].contains(SEGMENT_SEPARATOR),
    decreases path.len(),
{
    path.index_of_first_ensures(SEGMENT_SEPARATOR);
    match path.index_of_first(SEGMENT_SEPARATOR) {
        None => {},
        Some(i) => {
            if k == 0 {
                assert(segments(path)[0] == path.take(i));
                if path.take(i).contains(SEGMENT_SEPARATOR) {
                    let j = choose|j: int|
                        0 <= j < path.take(i).len() && path.take(i)[j] == SEGMENT_SEPARATOR;
                    assert(path[j] == SEGMENT_SEPARATOR);
                }
            } else {
                law_segments_hold_no_separator(path.skip(i + 1), k - 1);
                assert(segments(path)[k] == segments(path.skip(i + 1))[k - 1]);
            }
        },
    }
}

/// The views of a vector of strings, in order.
pub open spec fn texts(v: Seq<String>) -> Seq<Seq<char>> {
    v.map_values(|s: String| s@)
}

/// Cuts `path` at every `/`.
pub fn split_segments(path: &str) -> (parts: Vec<String>)
    ensures
        texts(parts@) == segments(path@),
{
    let len: usize = path.unicode_len();
    let mut parts: Vec<String> = Vec::new();
    let mut start: usize = 0;
    let mut at: usize = 0;
    assert(path@.skip(0) == path@);
    for c in it: path.chars()
        invariant
            it.seq() == path@,
            len == path@.len(),
            at == it.index(),
            start <= at,
            forall|j: int| start <= j < at ==> path@[j] != SEGMENT_SEPARATOR,
            segments(path@) == texts(parts@) + segments(path@.skip(start as int)),
    {
        if c == SEGMENT_SEPARATOR {
            let part: String = path.substring_char(start, at).to_owned();
            proof {
                let rest = path@.skip(start as int);
                lemma_segments_at_first_separator(rest, at - start);
                assert(rest.take(at - start) == path@.subrange(start as int, at as int));
                assert(rest.skip(at - start + 1) == path@.skip(at + 1));
                assert(texts(parts@.push(part)) == texts(parts@).push(part@));
            }
            parts.push(part);
            start = at + 1;
        }
        at += 1;
    }
    let part: String = path.substring_char(start, len).to_owned();
    proof {
        let rest = path@.skip(start as int);
        if rest.contains(SEGMENT_SEPARATOR) {
            let j = choose|j: int| 0 <= j < rest.len() && rest[j] == SEGMENT_SEPARATOR;
            assert(path@[start + j] == SEGMENT_SEPARATOR);
        }
        lemma_segments_of_name(rest);
        assert(rest == path@.subrange(start as int, len as int));
        assert(texts(parts@.push(part)) == texts(parts@).push(part@));
    }
    parts.push(part);
    parts
}

} // verus!
