//! The tag extractor: from documented classes to glossary records.

use crate::tag::{
    lemma_line_value_is_trimmed, lemma_line_with_leading_marker, lemma_line_without_tag,
    lemma_marker, line_tag, line_takes, scan_line, Tag,
};
use crate::text::{
    chars_of, contains, is_line, is_trimmed, is_whitespace, lemma_contains_in_subrange,
    lemma_single_line, lemma_split_lines_contains, lemma_trim, lemma_trim_contains,
    lemma_trim_ignores_trailing_whitespace, line_len, split_lines, trim, trim_bounds,
};
use crate::ubiquitous::{GlossaryRecord, Ubiquitous};
use vstd::prelude::*;
use vstd::slice::slice_subrange;

verus! {

/// The mathematical model of a documented class: its identifier and the raw
/// text of its documentation comment.
pub struct RawDoc {
    pub identifier: Seq<char>,
    pub comment_text: Seq<char>,
}

/// A documented class: its name and the raw text of its documentation
/// comment.
pub struct ExtractUbiquitousParam {
    pub class_name: String,
    pub doc_comment: String,
}

impl View for ExtractUbiquitousParam {
    type V = RawDoc;

    open spec fn view(&self) -> RawDoc {
        RawDoc { identifier: self.class_name@, comment_text: self.doc_comment@ }
    }
}

impl DeepView for ExtractUbiquitousParam {
    type V = RawDoc;

    open spec fn deep_view(&self) -> RawDoc {
        self@
    }
}

/// The value that `lines` give for `tag`: that of the last line which the
/// tag takes, `None` if it takes no line.
pub open spec fn field_value(lines: Seq<Seq<char>>, tag: Tag) -> Option<Seq<char>>
    decreases lines.len(),
{
    if lines.len() == 0 {
        None
    } else {
        match line_tag(lines.last()) {
            Some((t, v)) => if t == tag {
                Some(v)
            } else {
                field_value(lines.drop_last(), tag)
            },
            None => field_value(lines.drop_last(), tag),
        }
    }
}

/// The record that `lines` give to the class `identifier`.
pub open spec fn record_of_lines(identifier: Seq<char>, lines: Seq<Seq<char>>) -> GlossaryRecord {
    GlossaryRecord {
        identifier,
        term: field_value(lines, Tag::Ubiquitous),
        context: field_value(lines, Tag::Context),
        description: field_value(lines, Tag::Description),
    }
}

/// The record of one documented class: the identifier is carried over, and
/// the fields are read from the lines of the trimmed comment.
pub open spec fn record_of(doc: RawDoc) -> GlossaryRecord {
    record_of_lines(doc.identifier, split_lines(trim(doc.comment_text)))
}

/// The record of a documented class, as a function value.
pub open spec fn to_record() -> spec_fn(RawDoc) -> GlossaryRecord {
    |doc: RawDoc| record_of(doc)
}

/// The test that a record passes when it is not empty.
pub open spec fn is_kept() -> spec_fn(GlossaryRecord) -> bool {
    |r: GlossaryRecord| !r.is_empty()
}

/// The records of `docs`, in the order of `docs`, without the empty ones.
pub open spec fn extract(docs: Seq<RawDoc>) -> Seq<GlossaryRecord> {
    docs.map_values(to_record()).filter(is_kept())
}

/// Reads the record of one documented class.
///
/// The class name is carried over. The comment is trimmed and split into
/// lines; each line is trimmed and searched for a marker, `@ubiquitous`
/// before `@context` before `@description`, and the first kind found takes
/// the line: what follows the first occurrence of its marker, trimmed, is
/// the value of its field, in place of any value from an earlier line.
pub fn get_ubiquitous(class_doc: ExtractUbiquitousParam) -> (r: Ubiquitous)
    ensures
        r@ == record_of(class_doc@),
{
    let ExtractUbiquitousParam { class_name, doc_comment } = class_doc;
    let doc = doc_comment.as_str();
    let chars = chars_of(doc);
    let (lo, hi) = trim_bounds(chars.as_slice());
    let ghost identifier = class_name@;
    let ghost body = chars@.subrange(lo as int, hi as int);
    let ghost done: Seq<Seq<char>> = Seq::empty();
    let mut result = Ubiquitous::new().set_class_name(class_name);
    let mut start = lo;
    let mut more = true;
    while more
        invariant
            chars@ == doc@,
            lo <= start <= hi <= chars@.len(),
            body == chars@.subrange(lo as int, hi as int),
            more ==> split_lines(body) == done + split_lines(
                chars@.subrange(start as int, hi as int),
            ),
            !more ==> split_lines(body) == done,
            result@ == record_of_lines(identifier, done),
        decreases hi - start + (if more { 1int } else { 0int }),
    {
        let rest = slice_subrange(chars.as_slice(), start, hi);
        let len = line_len(rest);
        let line = slice_subrange(rest, 0, len);
        assert(line@ == rest@.take(len as int));
        match scan_line(line) {
            Some((tag, a, b)) => {
                assert(line@.subrange(a as int, b as int) == doc@.subrange(start + a, start + b));
                let value = doc.substring_char(start + a, start + b).to_owned();
                result = match tag {
                    Tag::Ubiquitous => result.set_ubiquitous(value),
                    Tag::Context => result.set_context(value),
                    Tag::Description => result.set_description(value),
                };
            },
            None => {},
        }
        proof {
            assert(done.push(line@).drop_last() == done);
            assert(split_lines(body) == done.push(line@) + if len < hi - start {
                split_lines(chars@.subrange(start + len + 1, hi as int))
            } else {
                Seq::empty()
            }) by {
                if len < hi - start {
                    assert(rest@.skip(len + 1) == chars@.subrange(start + len + 1, hi as int));
                } else {
                    assert(rest@.take(len as int) == rest@);
                }
            }
            done = done.push(line@);
        }
        if len < hi - start {
            start = start + len + 1;
        } else {
            more = false;
        }
    }
    result
}

/// Reads the records of the documented classes, in their order, and leaves
/// out the empty ones.
pub fn extract_ubiquitous(class_docs: Vec<ExtractUbiquitousParam>) -> (r: Vec<Ubiquitous>)
    ensures
        r.deep_view() == extract(class_docs.deep_view()),
        r.len() <= class_docs.len(),
{
    let ghost docs = class_docs.deep_view();
    let mut out: Vec<Ubiquitous> = Vec::new();
    assert(docs.take(0) == Seq::<RawDoc>::empty());
    proof {
        lemma_extract_empty();
    }
    for class_doc in it: class_docs
        invariant
            it.seq() == class_docs@,
            docs == class_docs.deep_view(),
            out.deep_view() == extract(docs.take(it.index() as int)),
            out.len() <= it.index(),
    {
        let ghost before = out.deep_view();
        let ghost i = it.index() as int;
        proof {
            assert(docs.take(i + 1) == docs.take(i).push(class_doc@));
            lemma_extract_push(docs.take(i), class_doc@);
        }
        let record = get_ubiquitous(class_doc);
        if !record.is_all_none() {
            out.push(record);
            assert(out.deep_view() == before.push(record@));
        }
    }
    assert(docs.take(docs.len() as int) == docs);
    out
}

/// Line `i` is the last of `lines` that `tag` takes.
pub open spec fn is_last_taken(lines: Seq<Seq<char>>, tag: Tag, i: int) -> bool {
    &&& 0 <= i < lines.len()
    &&& line_takes(lines[i], tag)
    &&& forall|j: int| i < j < lines.len() ==> !line_takes(#[trigger] lines[j], tag)
}

/// The last occurrence wins: where line `i` is the last that `tag` takes,
/// the field holds the value of line `i`, whatever earlier lines gave.
pub proof fn lemma_last_occurrence_wins(lines: Seq<Seq<char>>, tag: Tag, i: int)
    requires
        is_last_taken(lines, tag, i),
    ensures
        field_value(lines, tag) == Some(line_tag(lines[i]).unwrap().1),
    decreases lines.len(),
{
    if i < lines.len() - 1 {
        let front = lines.drop_last();
        assert(!line_takes(lines.last(), tag));
        assert forall|j: int| i < j < front.len() implies !line_takes(#[trigger] front[j], tag) by {
            assert(front[j] == lines[j]);
        }
        lemma_last_occurrence_wins(front, tag, i);
    }
}

/// A field is present exactly when `tag` takes some line, and its value is
/// then that of the last such line.
pub proof fn lemma_field_value(lines: Seq<Seq<char>>, tag: Tag)
    ensures
        match field_value(lines, tag) {
            Some(v) => exists|i: int|
                is_last_taken(lines, tag, i) && line_tag(lines[i]) == Some((tag, v)),
            None => forall|i: int| 0 <= i < lines.len() ==> !line_takes(#[trigger] lines[i], tag),
        },
    decreases lines.len(),
{
    if lines.len() > 0 {
        let front = lines.drop_last();
        let last = lines.len() - 1;
        if line_takes(lines.last(), tag) {
            assert(is_last_taken(lines, tag, last));
        } else {
            lemma_field_value(front, tag);
            match field_value(front, tag) {
                Some(v) => {
                    let i = choose|i: int|
                        is_last_taken(front, tag, i) && line_tag(front[i]) == Some((tag, v));
                    assert forall|j: int| i < j < lines.len() implies !line_takes(
                        #[trigger] lines[j],
                        tag,
                    ) by {
                        if j < last {
                            assert(lines[j] == front[j]);
                        }
                    }
                    assert(is_last_taken(lines, tag, i));
                },
                None => {
                    assert forall|i: int| 0 <= i < lines.len() implies !line_takes(
                        #[trigger] lines[i],
                        tag,
                    ) by {
                        if i < last {
                            assert(lines[i] == front[i]);
                        }
                    }
                },
            }
        }
    }
}

/// The record of `lines` is empty exactly when no kind of tag takes any of
/// the lines.
pub proof fn lemma_empty_record(identifier: Seq<char>, lines: Seq<Seq<char>>)
    ensures
        record_of_lines(identifier, lines).is_empty() <==> forall|i: int|
            0 <= i < lines.len() ==> line_tag(#[trigger] lines[i]) is None,
{
    lemma_field_value(lines, Tag::Ubiquitous);
    lemma_field_value(lines, Tag::Context);
    lemma_field_value(lines, Tag::Description);
    if record_of_lines(identifier, lines).is_empty() {
        assert forall|i: int| 0 <= i < lines.len() implies line_tag(#[trigger] lines[i])
            is None by {
            assert(!line_takes(lines[i], Tag::Ubiquitous));
            assert(!line_takes(lines[i], Tag::Context));
            assert(!line_takes(lines[i], Tag::Description));
        }
    }
}

/// A documented class has an empty record, and is left out, exactly when
/// none of the three markers occurs anywhere in its comment.
pub proof fn lemma_record_without_marker(doc: RawDoc)
    ensures
        record_of(doc).is_empty() <==> forall|tag: Tag|
            !contains(doc.comment_text, #[trigger] tag.marker()),
{
    let body = trim(doc.comment_text);
    let lines = split_lines(body);
    lemma_empty_record(doc.identifier, lines);
    assert forall|tag: Tag|
        contains(doc.comment_text, #[trigger] tag.marker()) <==> exists|k: int|
            0 <= k < lines.len() && contains(#[trigger] lines[k], tag.marker()) by {
        lemma_marker(tag);
        lemma_trim_contains(doc.comment_text, tag.marker());
        lemma_split_lines_contains(body, tag.marker());
    }
    assert forall|i: int| 0 <= i < lines.len() implies (line_tag(#[trigger] lines[i]) is None
        <==> forall|tag: Tag| !contains(lines[i], #[trigger] tag.marker())) by {
        lemma_line_without_tag(lines[i]);
    }
    if record_of(doc).is_empty() {
        assert forall|tag: Tag| !contains(doc.comment_text, #[trigger] tag.marker()) by {
            if contains(doc.comment_text, tag.marker()) {
                let k = choose|k: int|
                    0 <= k < lines.len() && contains(#[trigger] lines[k], tag.marker());
                assert(line_tag(lines[k]) is None);
            }
        }
    } else {
        let i = choose|i: int| 0 <= i < lines.len() && !(line_tag(#[trigger] lines[i]) is None);
        let tag = choose|tag: Tag| contains(lines[i], #[trigger] tag.marker());
        assert(contains(doc.comment_text, tag.marker()));
    }
}

/// A field that is present neither starts nor ends with whitespace.
pub proof fn lemma_field_is_trimmed(lines: Seq<Seq<char>>, tag: Tag)
    ensures
        field_value(lines, tag) matches Some(v) ==> is_trimmed(v),
    decreases lines.len(),
{
    if lines.len() > 0 {
        lemma_line_value_is_trimmed(lines.last());
        lemma_field_is_trimmed(lines.drop_last(), tag);
    }
}

/// The record of a documented class carries the identifier as it is, and
/// each of its fields that is present is a trimmed text.
pub proof fn lemma_record_is_well_formed(doc: RawDoc)
    ensures
        record_of(doc).identifier == doc.identifier,
        record_of(doc).term matches Some(v) ==> is_trimmed(v),
        record_of(doc).context matches Some(v) ==> is_trimmed(v),
        record_of(doc).description matches Some(v) ==> is_trimmed(v),
{
    let lines = split_lines(trim(doc.comment_text));
    lemma_field_is_trimmed(lines, Tag::Ubiquitous);
    lemma_field_is_trimmed(lines, Tag::Context);
    lemma_field_is_trimmed(lines, Tag::Description);
}

/// The record that has `identifier` and, of the three fields, only the one
/// of `tag`, with `value`.
pub open spec fn record_with(identifier: Seq<char>, tag: Tag, value: Seq<char>) -> GlossaryRecord {
    match tag {
        Tag::Ubiquitous => GlossaryRecord {
            identifier,
            term: Some(value),
            context: None,
            description: None,
        },
        Tag::Context => GlossaryRecord {
            identifier,
            term: None,
            context: Some(value),
            description: None,
        },
        Tag::Description => GlossaryRecord {
            identifier,
            term: None,
            context: None,
            description: Some(value),
        },
    }
}

/// The record of a single line has the one field that the line gives, or
/// none.
pub proof fn lemma_record_of_one_line(identifier: Seq<char>, line: Seq<char>)
    ensures
        record_of_lines(identifier, seq![line]) == match line_tag(line) {
            Some((tag, value)) => record_with(identifier, tag, value),
            None => GlossaryRecord { identifier, ..GlossaryRecord::blank() },
        },
{
    let lines = seq![line];
    assert(lines.last() == line);
    let none = lines.drop_last();
    assert(field_value(none, Tag::Ubiquitous) is None);
    assert(field_value(none, Tag::Context) is None);
    assert(field_value(none, Tag::Description) is None);
}

/// A comment of one line that begins with the marker of `tag`, and holds no
/// marker that is searched for before it, gives a record with that one
/// field: its value is the rest of the line, trimmed. Where nothing or only
/// whitespace follows the marker, the field is present and empty, so the
/// record is not empty.
pub proof fn lemma_single_tag(identifier: Seq<char>, tag: Tag, rest: Seq<char>)
    requires
        is_line(rest),
        forall|t: Tag| #[trigger] t.precedes(tag) ==> !contains(tag.marker() + rest, t.marker()),
    ensures
        record_of(RawDoc { identifier, comment_text: tag.marker() + rest }) == record_with(
            identifier,
            tag,
            trim(rest),
        ),
        !record_of(RawDoc { identifier, comment_text: tag.marker() + rest }).is_empty(),
{
    let m = tag.marker();
    let text = m + rest;
    lemma_marker(tag);
    let (a, b) = lemma_trim(text);
    assert(text[0] == m[0]);
    assert(text[m.len() - 1] == m[m.len() - 1]);
    assert(a == 0 && b >= m.len());
    let line = text.subrange(0, b);
    let kept = rest.take(b - m.len());
    assert(line == m + kept);
    assert(is_line(line)) by {
        assert forall|i: int| 0 <= i < line.len() implies line[i] != '\n' by {
            if i < m.len() {
                assert(line[i] == m[i]);
            } else {
                assert(line[i] == rest[i - m.len()]);
            }
        }
    }
    lemma_single_line(line);
    assert forall|t: Tag| #[trigger] t.precedes(tag) implies !contains(line, t.marker()) by {
        if contains(line, t.marker()) {
            lemma_contains_in_subrange(text, 0, b, t.marker());
        }
    }
    lemma_line_with_leading_marker(tag, kept);
    assert(trim(kept) == trim(rest)) by {
        assert forall|i: int| b - m.len() <= i < rest.len() implies is_whitespace(rest[i]) by {
            assert(rest[i] == text[m.len() + i]);
        }
        lemma_trim_ignores_trailing_whitespace(rest, b - m.len());
    }
    lemma_record_of_one_line(identifier, line);
}

/// Nothing comes of nothing.
pub proof fn lemma_extract_empty()
    ensures
        extract(Seq::empty()) == Seq::<GlossaryRecord>::empty(),
{
    reveal(Seq::filter);
}

/// One more documented class adds its record at the end, unless the record
/// is empty.
pub proof fn lemma_extract_push(docs: Seq<RawDoc>, doc: RawDoc)
    ensures
        extract(docs.push(doc)) == if record_of(doc).is_empty() {
            extract(docs)
        } else {
            extract(docs).push(record_of(doc))
        },
{
    let records = docs.map_values(to_record());
    assert(docs.push(doc).map_values(to_record()) == records.push(record_of(doc)));
    records.lemma_filter_push(record_of(doc), is_kept());
}

/// The output is no longer than the input.
pub proof fn lemma_extract_len(docs: Seq<RawDoc>)
    ensures
        extract(docs).len() <= docs.len(),
{
    docs.map_values(to_record()).lemma_filter_len(is_kept());
}

/// The positions in `docs` of the documented classes whose record is not
/// empty, in increasing order.
pub open spec fn kept_indices(docs: Seq<RawDoc>) -> Seq<int>
    decreases docs.len(),
{
    if docs.len() == 0 {
        Seq::empty()
    } else if record_of(docs.last()).is_empty() {
        kept_indices(docs.drop_last())
    } else {
        kept_indices(docs.drop_last()).push(docs.len() - 1)
    }
}

/// The output holds, in the order of the input, the records of exactly
/// those documented classes whose record is not empty: record `k` of the
/// output is that of the class at position `kept_indices(docs)[k]`, these
/// positions increase, and they are all the positions with a record that is
/// not empty.
pub proof fn lemma_extract_order(docs: Seq<RawDoc>)
    ensures
        kept_indices(docs).len() == extract(docs).len(),
        forall|k: int|
            0 <= k < extract(docs).len() ==> {
                &&& 0 <= #[trigger] kept_indices(docs)[k] < docs.len()
                &&& extract(docs)[k] == record_of(docs[kept_indices(docs)[k]])
                &&& !extract(docs)[k].is_empty()
            },
        forall|j: int, k: int|
            0 <= j < k < extract(docs).len() ==> kept_indices(docs)[j] < kept_indices(docs)[k],
        forall|i: int|
            0 <= i < docs.len() && !record_of(#[trigger] docs[i]).is_empty()
                ==> kept_indices(docs).contains(i),
    decreases docs.len(),
{
    if docs.len() == 0 {
        lemma_extract_empty();
        assert(docs == Seq::<RawDoc>::empty());
    } else {
        let front = docs.drop_last();
        let last = docs.len() - 1;
        lemma_extract_order(front);
        lemma_extract_push(front, docs.last());
        assert(front.push(docs.last()) == docs);
        let kept = kept_indices(docs);
        let out = extract(docs);
        assert forall|k: int| 0 <= k < out.len() implies {
            &&& 0 <= #[trigger] kept[k] < docs.len()
            &&& out[k] == record_of(docs[kept[k]])
            &&& !out[k].is_empty()
        } by {
            if k < extract(front).len() {
                assert(kept[k] == kept_indices(front)[k]);
                assert(docs[kept[k]] == front[kept[k]]);
            }
        }
        assert forall|j: int, k: int| 0 <= j < k < out.len() implies kept[j] < kept[k] by {
            assert(kept[j] == kept_indices(front)[j]);
            if k < extract(front).len() {
                assert(kept[k] == kept_indices(front)[k]);
            }
        }
        assert forall|i: int|
            0 <= i < docs.len() && !record_of(#[trigger] docs[i]).is_empty() implies kept.contains(
            i,
        ) by {
            if i < last {
                assert(docs[i] == front[i]);
                let k = choose|k: int|
                    0 <= k < kept_indices(front).len() && kept_indices(front)[k] == i;
                assert(kept[k] == i);
            } else {
                assert(kept[kept.len() - 1] == i);
            }
        }
    }
}

} // verus!
