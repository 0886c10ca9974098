//! The three tag markers and how one line of a comment is read.

use crate::text::{
    contains, find, find_first, is_line, is_trimmed, is_whitespace,
    lemma_contains_in_subrange, lemma_find, lemma_find_first, lemma_trim, lemma_trim_contains,
    lemma_trim_ignores_trailing_whitespace, lemma_trim_is_trimmed, trim, trim_bounds,
};
use vstd::prelude::*;
use vstd::slice::slice_subrange;

verus! {

/// The kinds of tag that a documentation comment can carry.
#[derive(Clone, Copy, Debug, PartialEq, Eq)]
pub enum Tag {
    /// The canonical business term.
    Ubiquitous,
    /// The bounded context of the term.
    Context,
    /// The description of the term.
    Description,
}

impl Tag {
    /// The literal text that introduces a value of this kind.
    pub open spec fn marker(self) -> Seq<char> {
        match self {
            Tag::Ubiquitous => "@ubiquitous"@,
            Tag::Context => "@context"@,
            Tag::Description => "@description"@,
        }
    }

    /// The marker of this kind.
    pub fn marker_text(self) -> (text: &'static str)
        ensures
            text@ == self.marker(),
    {
        match self {
            Tag::Ubiquitous => "@ubiquitous",
            Tag::Context => "@context",
            Tag::Description => "@description",
        }
    }

    /// The order in which a line is searched: `self` is looked for before
    /// `other`.
    pub open spec fn precedes(self, other: Tag) -> bool {
        match (self, other) {
            (Tag::Ubiquitous, Tag::Context) => true,
            (Tag::Ubiquitous, Tag::Description) => true,
            (Tag::Context, Tag::Description) => true,
            _ => false,
        }
    }
}

/// A marker is not empty and holds neither whitespace nor a line feed.
pub proof fn lemma_marker(tag: Tag)
    ensures
        tag.marker().len() > 0,
        forall|i: int| 0 <= i < tag.marker().len() ==> !is_whitespace(#[trigger] tag.marker()[i]),
        is_trimmed(tag.marker()),
        is_line(tag.marker()),
{
    reveal_strlit("@ubiquitous");
    reveal_strlit("@context");
    reveal_strlit("@description");
}

/// The value that `line` gives for `tag`: what follows the first occurrence
/// of the marker, trimmed. `None` when the marker does not occur; the empty
/// text when nothing but whitespace follows it.
pub open spec fn value_after(line: Seq<char>, tag: Tag) -> Option<Seq<char>> {
    match find(line, tag.marker()) {
        Some(p) => Some(trim(line.skip(p + tag.marker().len()))),
        None => None,
    }
}

/// What one line contributes: the line is trimmed, and the first kind in the
/// order `Ubiquitous`, `Context`, `Description` whose marker occurs in it
/// takes the line, with the value that follows its marker.
pub open spec fn line_tag(line: Seq<char>) -> Option<(Tag, Seq<char>)> {
    let t = trim(line);
    if let Some(v) = value_after(t, Tag::Ubiquitous) {
        Some((Tag::Ubiquitous, v))
    } else if let Some(v) = value_after(t, Tag::Context) {
        Some((Tag::Context, v))
    } else if let Some(v) = value_after(t, Tag::Description) {
        Some((Tag::Description, v))
    } else {
        None
    }
}

/// `tag` is the kind that takes `line`.
pub open spec fn line_takes(line: Seq<char>, tag: Tag) -> bool {
    match line_tag(line) {
        Some((t, _)) => t == tag,
        None => false,
    }
}

/// A line gives a value for `tag` exactly when the marker of `tag` occurs in
/// it, and then the value neither starts nor ends with whitespace.
pub proof fn lemma_value_after(line: Seq<char>, tag: Tag)
    ensures
        value_after(line, tag) is Some <==> contains(line, tag.marker()),
        value_after(line, tag) matches Some(v) ==> is_trimmed(v),
{
    lemma_find(line, tag.marker());
    if let Some(p) = find(line, tag.marker()) {
        lemma_trim_is_trimmed(line.skip(p + tag.marker().len()));
    }
}

/// No kind of tag takes a line exactly when none of the three markers
/// occurs in it.
pub proof fn lemma_line_without_tag(line: Seq<char>)
    ensures
        line_tag(line) is None <==> forall|tag: Tag| !contains(line, #[trigger] tag.marker()),
{
    let t = trim(line);
    assert forall|tag: Tag|
        value_after(t, tag) is Some <==> contains(line, #[trigger] tag.marker()) by {
        lemma_marker(tag);
        lemma_trim_contains(line, tag.marker());
        lemma_value_after(t, tag);
    }
    if line_tag(line) is None {
        assert forall|tag: Tag| !contains(line, #[trigger] tag.marker()) by {
            match tag {
                Tag::Ubiquitous => {},
                Tag::Context => {},
                Tag::Description => {},
            }
        }
    } else {
        let (tag, _) = line_tag(line).unwrap();
        assert(contains(line, tag.marker()));
    }
}

/// The kind that takes a line is the first, in the order of search, whose
/// marker occurs in the line.
pub proof fn lemma_line_takes(line: Seq<char>, tag: Tag)
    ensures
        line_takes(line, tag) <==> contains(line, tag.marker()) && forall|t: Tag|
            #[trigger] t.precedes(tag) ==> !contains(line, t.marker()),
{
    let trimmed = trim(line);
    assert forall|t: Tag|
        value_after(trimmed, t) is Some <==> contains(line, #[trigger] t.marker()) by {
        lemma_marker(t);
        lemma_trim_contains(line, t.marker());
        lemma_value_after(trimmed, t);
    }
    assert(Tag::Ubiquitous.precedes(Tag::Context));
    assert(Tag::Ubiquitous.precedes(Tag::Description));
    assert(Tag::Context.precedes(Tag::Description));
    assert(contains(line, Tag::Ubiquitous.marker()) == (value_after(trimmed, Tag::Ubiquitous)
        is Some));
    assert(contains(line, Tag::Context.marker()) == (value_after(trimmed, Tag::Context) is Some));
    assert(contains(line, Tag::Description.marker()) == (value_after(trimmed, Tag::Description)
        is Some));
}

/// A line that begins with the marker of `tag`, and holds no marker that is
/// searched for before it, is taken by `tag`, and its value is what follows
/// the marker, trimmed: the empty text where nothing or only whitespace
/// follows.
pub proof fn lemma_line_with_leading_marker(tag: Tag, rest: Seq<char>)
    requires
        forall|t: Tag| #[trigger] t.precedes(tag) ==> !contains(tag.marker() + rest, t.marker()),
    ensures
        line_tag(tag.marker() + rest) == Some((tag, trim(rest))),
{
    let m = tag.marker();
    let line = m + rest;
    lemma_marker(tag);
    let (a, b) = lemma_trim(line);
    assert(line[0] == m[0]);
    assert(line[m.len() - 1] == m[m.len() - 1]);
    assert(a == 0 && b >= m.len());
    let trimmed = line.subrange(0, b);
    assert forall|t: Tag| #[trigger] t.precedes(tag) implies value_after(trimmed, t) is None by {
        if contains(trimmed, t.marker()) {
            lemma_contains_in_subrange(line, 0, b, t.marker());
        }
    }
    assert(trimmed.subrange(0, m.len() as int) == m);
    lemma_find_first(trimmed, m, 0);
    assert(trimmed.skip(m.len() as int) == rest.take(b - m.len()));
    assert(value_after(trimmed, tag) == Some(trim(rest))) by {
        assert forall|i: int| b - m.len() <= i < rest.len() implies is_whitespace(rest[i]) by {
            assert(rest[i] == line[m.len() + i]);
        }
        lemma_trim_ignores_trailing_whitespace(rest, b - m.len());
    }
    assert(Tag::Ubiquitous.precedes(Tag::Context));
    assert(Tag::Ubiquitous.precedes(Tag::Description));
    assert(Tag::Context.precedes(Tag::Description));
}

/// The value that a line gives neither starts nor ends with whitespace.
pub proof fn lemma_line_value_is_trimmed(line: Seq<char>)
    ensures
        line_tag(line) matches Some((_, v)) ==> is_trimmed(v),
{
    let t = trim(line);
    lemma_value_after(t, Tag::Ubiquitous);
    lemma_value_after(t, Tag::Context);
    lemma_value_after(t, Tag::Description);
}

/// The bounds in `line` of the value that follows the first occurrence of
/// the marker of `tag`, if the marker occurs.
fn value_bounds(line: &[char], tag: Tag) -> (r: Option<(usize, usize)>)
    ensures
        match r {
            Some((a, b)) => a <= b <= line@.len() && value_after(line@, tag) == Some(
                line@.subrange(a as int, b as int),
            ),
            None => value_after(line@, tag) is None,
        },
{
    let n = line.len();
    let marker = tag.marker_text();
    match find_first(line, marker) {
        Some(p) => {
            let start = p + marker.unicode_len();
            let rest = slice_subrange(line, start, n);
            let (a, b) = trim_bounds(rest);
            assert(rest@ == line@.skip(start as int));
            assert(rest@.subrange(a as int, b as int) == line@.subrange(start + a, start + b));
            Some((start + a, start + b))
        },
        None => None,
    }
}

/// Reads one line: the kind of tag that takes it and the bounds of the
/// tag's value within `line`, or `None` if the line holds no marker.
pub fn scan_line(line: &[char]) -> (r: Option<(Tag, usize, usize)>)
    ensures
        match r {
            Some((tag, a, b)) => a <= b <= line@.len() && line_tag(line@) == Some(
                (tag, line@.subrange(a as int, b as int)),
            ),
            None => line_tag(line@) is None,
        },
{
    let (lo, hi) = trim_bounds(line);
    let t = slice_subrange(line, lo, hi);
    assert forall|a: int, b: int| 0 <= a <= b <= t@.len() implies #[trigger] t@.subrange(a, b)
        == line@.subrange(lo + a, lo + b) by {
        assert(t@.subrange(a, b) =~= line@.subrange(lo + a, lo + b));
    }
    if let Some((a, b)) = value_bounds(t, Tag::Ubiquitous) {
        Some((Tag::Ubiquitous, lo + a, lo + b))
    } else if let Some((a, b)) = value_bounds(t, Tag::Context) {
        Some((Tag::Context, lo + a, lo + b))
    } else if let Some((a, b)) = value_bounds(t, Tag::Description) {
        Some((Tag::Description, lo + a, lo + b))
    } else {
        None
    }
}

} // verus!
