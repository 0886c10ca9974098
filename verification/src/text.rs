//! Character-level text primitives: whitespace, trimming, substring search
//! and line splitting, each defined on `Seq<char>` and implemented on
//! `&[char]`.

use vstd::prelude::*;

verus! {

/// The characters of `s`, in order.
pub fn chars_of(s: &str) -> (v: Vec<char>)
    ensures
        v@ == s@,
{
    let mut v: Vec<char> = Vec::new();
    for c in it: s.chars()
        invariant
            it.seq() == s@,
            v@ == it.seq().take(it.index() as int),
    {
        v.push(c);
    }
    v
}

/// The code points that carry the Unicode `White_Space` property.
pub open spec fn is_whitespace(c: char) -> bool {
    let u = c as u32;
    ||| 0x0009 <= u <= 0x000D
    ||| u == 0x0020
    ||| u == 0x0085
    ||| u == 0x00A0
    ||| u == 0x1680
    ||| 0x2000 <= u <= 0x200A
    ||| u == 0x2028
    ||| u == 0x2029
    ||| u == 0x202F
    ||| u == 0x205F
    ||| u == 0x3000
}

/// Tells whether `c` is whitespace.
pub fn char_is_whitespace(c: char) -> (b: bool)
    ensures
        b == is_whitespace(c),
{
    let u: u32 = c as u32;
    (0x0009 <= u && u <= 0x000D) || u == 0x0020 || u == 0x0085 || u == 0x00A0 || u == 0x1680 || (
    0x2000 <= u && u <= 0x200A) || u == 0x2028 || u == 0x2029 || u == 0x202F || u == 0x205F || u
        == 0x3000
}

/// `s` without its leading whitespace.
pub open spec fn trim_start(s: Seq<char>) -> Seq<char>
    decreases s.len(),
{
    if s.len() > 0 && is_whitespace(s.first()) {
        trim_start(s.drop_first())
    } else {
        s
    }
}

/// `s` without its trailing whitespace.
pub open spec fn trim_end(s: Seq<char>) -> Seq<char>
    decreases s.len(),
{
    if s.len() > 0 && is_whitespace(s.last()) {
        trim_end(s.drop_last())
    } else {
        s
    }
}

/// `s` without its leading and trailing whitespace.
pub open spec fn trim(s: Seq<char>) -> Seq<char> {
    trim_end(trim_start(s))
}

/// A text that neither starts nor ends with whitespace.
pub open spec fn is_trimmed(s: Seq<char>) -> bool {
    s.len() > 0 ==> !is_whitespace(s.first()) && !is_whitespace(s.last())
}

/// What `trim_start` removes: the index `a` at which `trim_start(s)` begins
/// in `s`. All before it is whitespace, and the character at it, if there is
/// one, is not.
pub proof fn lemma_trim_start(s: Seq<char>) -> (a: int)
    ensures
        0 <= a <= s.len(),
        trim_start(s) == s.skip(a),
        forall|i: int| 0 <= i < a ==> is_whitespace(s[i]),
        a < s.len() ==> !is_whitespace(s[a]),
    decreases s.len(),
{
    if s.len() > 0 && is_whitespace(s.first()) {
        let rest = s.drop_first();
        let a = lemma_trim_start(rest);
        assert(rest.skip(a) == s.skip(a + 1));
        assert forall|i: int| 0 <= i < a + 1 implies is_whitespace(s[i]) by {
            if i > 0 {
                assert(s[i] == rest[i - 1]);
            }
        }
        if a + 1 < s.len() {
            assert(s[a + 1] == rest[a]);
        }
        a + 1
    } else {
        assert(s.skip(0) == s);
        0
    }
}

/// What `trim_end` removes: the index `b` at which `trim_end(s)` ends in
/// `s`. All from it on is whitespace, and the character before it, if there
/// is one, is not.
pub proof fn lemma_trim_end(s: Seq<char>) -> (b: int)
    ensures
        0 <= b <= s.len(),
        trim_end(s) == s.take(b),
        forall|i: int| b <= i < s.len() ==> is_whitespace(s[i]),
        b > 0 ==> !is_whitespace(s[b - 1]),
    decreases s.len(),
{
    if s.len() > 0 && is_whitespace(s.last()) {
        let rest = s.drop_last();
        let b = lemma_trim_end(rest);
        assert(rest.take(b) == s.take(b));
        assert forall|i: int| b <= i < s.len() implies is_whitespace(s[i]) by {
            if i < s.len() - 1 {
                assert(s[i] == rest[i]);
            }
        }
        if b > 0 {
            assert(s[b - 1] == rest[b - 1]);
        }
        b
    } else {
        assert(s.take(s.len() as int) == s);
        s.len() as int
    }
}

/// `a` and `b` bound what trimming leaves of `s`: whitespace before `a` and
/// from `b` on, and between them a text that neither starts nor ends with
/// whitespace.
pub open spec fn trims_at(s: Seq<char>, a: int, b: int) -> bool {
    &&& 0 <= a <= b <= s.len()
    &&& forall|i: int| 0 <= i < a ==> is_whitespace(s[i])
    &&& forall|i: int| b <= i < s.len() ==> is_whitespace(s[i])
    &&& a < b ==> !is_whitespace(s[a]) && !is_whitespace(s[b - 1])
}

/// Trimming leaves one piece of the text: there are bounds `(a, b)` with
/// `trim(s) == s.subrange(a, b)` and nothing but whitespace outside them.
pub proof fn lemma_trim(s: Seq<char>) -> (r: (int, int))
    ensures
        trims_at(s, r.0, r.1),
        trim(s) == s.subrange(r.0, r.1),
{
    let a = lemma_trim_start(s);
    let rest = s.skip(a);
    let b = lemma_trim_end(rest);
    assert(rest.take(b) == s.subrange(a, a + b));
    assert forall|i: int| a + b <= i < s.len() implies is_whitespace(s[i]) by {
        assert(s[i] == rest[i - a]);
    }
    if b > 0 {
        assert(s[a + b - 1] == rest[b - 1]);
    }
    (a, a + b)
}

/// Such bounds give the trimmed text, whichever they are.
pub proof fn lemma_trim_is(s: Seq<char>, a: int, b: int)
    requires
        trims_at(s, a, b),
    ensures
        trim(s) == s.subrange(a, b),
{
    let (a0, b0) = lemma_trim(s);
    if a < b {
        assert(a0 == a);
        assert(b0 == b);
    } else {
        assert(a0 == b0) by {
            if a0 < b0 {
                assert(is_whitespace(s[a0]));
            }
        }
        assert(s.subrange(a0, b0) == s.subrange(a, b));
    }
}

/// Whitespace at the end of a text does not change what trimming leaves:
/// the text may be cut anywhere within it.
pub proof fn lemma_trim_ignores_trailing_whitespace(s: Seq<char>, c: int)
    requires
        0 <= c <= s.len(),
        forall|i: int| c <= i < s.len() ==> is_whitespace(s[i]),
    ensures
        trim(s.take(c)) == trim(s),
{
    let kept = s.take(c);
    let (a, b) = lemma_trim(kept);
    assert forall|i: int| 0 <= i < a implies is_whitespace(s[i]) by {
        assert(s[i] == kept[i]);
    }
    assert forall|i: int| b <= i < s.len() implies is_whitespace(s[i]) by {
        if i < c {
            assert(s[i] == kept[i]);
        }
    }
    if a < b {
        assert(s[a] == kept[a]);
        assert(s[b - 1] == kept[b - 1]);
    }
    lemma_trim_is(s, a, b);
    assert(s.subrange(a, b) == kept.subrange(a, b));
}

/// A trimmed text neither starts nor ends with whitespace.
pub proof fn lemma_trim_is_trimmed(s: Seq<char>)
    ensures
        is_trimmed(trim(s)),
{
    let (a, b) = lemma_trim(s);
}

/// Trimming changes nothing in a text that neither starts nor ends with
/// whitespace: in particular, trimming twice is trimming once.
pub proof fn lemma_trim_of_trimmed(s: Seq<char>)
    requires
        is_trimmed(s),
    ensures
        trim(s) == s,
{
}

/// The bounds `(a, b)` of what is left of `s` once the whitespace at both
/// ends is gone.
pub fn trim_bounds(s: &[char]) -> (r: (usize, usize))
    ensures
        trims_at(s@, r.0 as int, r.1 as int),
        s@.subrange(r.0 as int, r.1 as int) == trim(s@),
{
    let n = s.len();
    let mut a: usize = 0;
    while a < n && char_is_whitespace(s[a])
        invariant
            a <= n == s@.len(),
            forall|i: int| 0 <= i < a ==> is_whitespace(s@[i]),
        decreases n - a,
    {
        a += 1;
    }
    let mut b: usize = n;
    while b > a && char_is_whitespace(s[b - 1])
        invariant
            a <= b <= n == s@.len(),
            forall|i: int| b <= i < n ==> is_whitespace(s@[i]),
        decreases b - a,
    {
        b -= 1;
    }
    proof {
        lemma_trim_is(s@, a as int, b as int);
    }
    (a, b)
}

/// `needle` stands in `hay` at index `i`.
pub open spec fn occurs_at(hay: Seq<char>, needle: Seq<char>, i: int) -> bool {
    &&& 0 <= i
    &&& i + needle.len() <= hay.len()
    &&& hay.subrange(i, i + needle.len()) == needle
}

/// `needle` stands somewhere in `hay`.
pub open spec fn contains(hay: Seq<char>, needle: Seq<char>) -> bool {
    exists|i: int| occurs_at(hay, needle, i)
}

/// `needle` stands in `hay` at index `i` and at no smaller index.
pub open spec fn is_first_occurrence(hay: Seq<char>, needle: Seq<char>, i: int) -> bool {
    &&& occurs_at(hay, needle, i)
    &&& forall|j: int| 0 <= j < i ==> !occurs_at(hay, needle, j)
}

/// The index of the first occurrence of `needle` in `hay`, if there is one.
pub open spec fn find(hay: Seq<char>, needle: Seq<char>) -> Option<int> {
    if contains(hay, needle) {
        Some(choose|i: int| is_first_occurrence(hay, needle, i))
    } else {
        None
    }
}

/// Below any occurrence there is a first one.
proof fn lemma_least_occurrence(hay: Seq<char>, needle: Seq<char>, i: int)
    requires
        occurs_at(hay, needle, i),
    ensures
        exists|k: int| is_first_occurrence(hay, needle, k),
    decreases i,
{
    if forall|j: int| 0 <= j < i ==> !occurs_at(hay, needle, j) {
        assert(is_first_occurrence(hay, needle, i));
    } else {
        let j = choose|j: int| 0 <= j < i && occurs_at(hay, needle, j);
        lemma_least_occurrence(hay, needle, j);
    }
}

/// `find` returns the first occurrence when there is one, and `None`
/// exactly when there is none.
pub proof fn lemma_find(hay: Seq<char>, needle: Seq<char>)
    ensures
        match find(hay, needle) {
            Some(i) => is_first_occurrence(hay, needle, i),
            None => !contains(hay, needle),
        },
{
    if contains(hay, needle) {
        let i = choose|i: int| occurs_at(hay, needle, i);
        lemma_least_occurrence(hay, needle, i);
    }
}

/// A first occurrence is what `find` returns.
pub proof fn lemma_find_first(hay: Seq<char>, needle: Seq<char>, i: int)
    requires
        is_first_occurrence(hay, needle, i),
    ensures
        find(hay, needle) == Some(i),
{
    lemma_find(hay, needle);
    assert(contains(hay, needle));
}

/// What stands in a piece of a text stands in the text.
pub proof fn lemma_contains_in_subrange(s: Seq<char>, a: int, b: int, needle: Seq<char>)
    requires
        0 <= a <= b <= s.len(),
        contains(s.subrange(a, b), needle),
    ensures
        contains(s, needle),
{
    let piece = s.subrange(a, b);
    let i = choose|i: int| occurs_at(piece, needle, i);
    assert(s.subrange(a + i, a + i + needle.len()) == piece.subrange(i, i + needle.len()));
    assert(occurs_at(s, needle, a + i));
}

/// Trimming removes no occurrence of a text that neither starts nor ends
/// with whitespace.
pub proof fn lemma_trim_contains(s: Seq<char>, needle: Seq<char>)
    requires
        needle.len() > 0,
        is_trimmed(needle),
    ensures
        contains(trim(s), needle) == contains(s, needle),
{
    let (a, b) = lemma_trim(s);
    let m = needle.len() as int;
    if contains(trim(s), needle) {
        lemma_contains_in_subrange(s, a, b, needle);
    }
    if contains(s, needle) {
        let i = choose|i: int| occurs_at(s, needle, i);
        assert(s[i] == s.subrange(i, i + m)[0]);
        assert(s[i + m - 1] == s.subrange(i, i + m)[m - 1]);
        assert(a <= i && i + m <= b);
        assert(s.subrange(a, b).subrange(i - a, i - a + m) == s.subrange(i, i + m));
        assert(occurs_at(trim(s), needle, i - a));
    }
}

/// Tells whether `needle` stands in `hay` at index `i`.
fn starts_at(hay: &[char], needle: &str, i: usize) -> (b: bool)
    requires
        i + needle@.len() <= hay@.len(),
    ensures
        b == occurs_at(hay@, needle@, i as int),
{
    let n = hay.len();
    let ghost m = needle@.len() as int;
    let mut k: usize = 0;
    for c in it: needle.chars()
        invariant
            it.seq() == needle@,
            k == it.index(),
            i + m <= n == hay@.len(),
            m == needle@.len(),
            forall|t: int| 0 <= t < k ==> hay@[i + t] == needle@[t],
    {
        if hay[i + k] != c {
            assert(hay@.subrange(i as int, i + m)[k as int] != needle@[k as int]);
            return false;
        }
        k += 1;
    }
    assert(hay@.subrange(i as int, i + m) =~= needle@);
    true
}

/// The index of the first occurrence of `needle` in `hay`, if there is one.
pub fn find_first(hay: &[char], needle: &str) -> (r: Option<usize>)
    ensures
        match r {
            Some(i) => find(hay@, needle@) == Some(i as int) && i + needle@.len() <= hay@.len(),
            None => find(hay@, needle@) is None,
        },
{
    let n = hay.len();
    let m = needle.unicode_len();
    if m > n {
        return None;
    }
    let last = n - m;
    let mut i: usize = 0;
    loop
        invariant
            m == needle@.len(),
            n == hay@.len(),
            last == n - m,
            i <= last,
            forall|j: int| 0 <= j < i ==> !occurs_at(hay@, needle@, j),
        decreases last - i,
    {
        if starts_at(hay, needle, i) {
            proof {
                lemma_find_first(hay@, needle@, i as int);
            }
            return Some(i);
        }
        if i == last {
            return None;
        }
        i += 1;
    }
}

/// The number of characters before the first line feed of `s`, or the
/// length of `s` if it holds none.
pub open spec fn first_line_len(s: Seq<char>) -> nat
    decreases s.len(),
{
    if s.len() == 0 || s.first() == '\n' {
        0
    } else {
        1 + first_line_len(s.drop_first())
    }
}

/// The lines of `s`: the pieces between its line feeds, in order. A text
/// with `k` line feeds has `k + 1` lines; a carriage return stays in its
/// line, where it is whitespace.
pub open spec fn split_lines(s: Seq<char>) -> Seq<Seq<char>>
    decreases s.len(),
{
    let n = first_line_len(s) as int;
    if n >= s.len() {
        seq![s]
    } else {
        seq![s.take(n)] + split_lines(s.skip(n + 1))
    }
}

/// The lines put together again, with a line feed between each two.
pub open spec fn join_lines(lines: Seq<Seq<char>>) -> Seq<char>
    decreases lines.len(),
{
    if lines.len() == 0 {
        Seq::empty()
    } else if lines.len() == 1 {
        lines.first()
    } else {
        lines.first() + seq!['\n'] + join_lines(lines.drop_first())
    }
}

/// A text without a line feed.
pub open spec fn is_line(s: Seq<char>) -> bool {
    forall|i: int| 0 <= i < s.len() ==> s[i] != '\n'
}

/// The first line ends at the first line feed: none stands before
/// `first_line_len(s)`, and one stands at it unless the text ends there.
pub proof fn lemma_first_line_len(s: Seq<char>)
    ensures
        first_line_len(s) <= s.len(),
        is_line(s.take(first_line_len(s) as int)),
        first_line_len(s) < s.len() ==> s[first_line_len(s) as int] == '\n',
    decreases s.len(),
{
    if s.len() == 0 || s.first() == '\n' {
    } else {
        let rest = s.drop_first();
        lemma_first_line_len(rest);
        let n = first_line_len(rest) as int;
        let line = s.take(n + 1);
        assert forall|i: int| 0 <= i < line.len() implies line[i] != '\n' by {
            if i > 0 {
                assert(line[i] == rest.take(n)[i - 1]);
            }
        }
        if n + 1 < s.len() {
            assert(s[n + 1] == rest[n]);
        }
    }
}

/// A text without a line feed is its own single line.
pub proof fn lemma_single_line(s: Seq<char>)
    requires
        is_line(s),
    ensures
        split_lines(s) == seq![s],
{
    lemma_first_line_len(s);
}

/// Splitting loses nothing and leaves no line feed in a line: there is at
/// least one line, no line holds a line feed, and the lines joined by line
/// feeds are the text.
pub proof fn lemma_split_lines(s: Seq<char>)
    ensures
        split_lines(s).len() >= 1,
        forall|i: int| 0 <= i < split_lines(s).len() ==> is_line(#[trigger] split_lines(s)[i]),
        join_lines(split_lines(s)) == s,
    decreases s.len(),
{
    lemma_first_line_len(s);
    let n = first_line_len(s) as int;
    if n >= s.len() {
        assert(s.take(n) == s);
    } else {
        let rest = s.skip(n + 1);
        lemma_split_lines(rest);
        let lines = split_lines(s);
        assert(lines.drop_first() == split_lines(rest));
        assert(s == s.take(n) + seq!['\n'] + rest);
        assert forall|i: int| 0 <= i < lines.len() implies is_line(#[trigger] lines[i]) by {
            if i > 0 {
                assert(lines[i] == split_lines(rest)[i - 1]);
            }
        }
    }
}

/// A text without a line feed stands in a text exactly when it stands in
/// one of its lines.
pub proof fn lemma_split_lines_contains(s: Seq<char>, needle: Seq<char>)
    requires
        needle.len() > 0,
        is_line(needle),
    ensures
        contains(s, needle) <==> exists|k: int|
            0 <= k < split_lines(s).len() && contains(#[trigger] split_lines(s)[k], needle),
    decreases s.len(),
{
    lemma_first_line_len(s);
    let n = first_line_len(s) as int;
    let m = needle.len() as int;
    let lines = split_lines(s);
    if n >= s.len() {
        assert(lines[0] == s);
    } else {
        let head = s.take(n);
        let rest = s.skip(n + 1);
        lemma_split_lines_contains(rest, needle);
        let tail = split_lines(rest);
        assert(lines[0] == head);
        assert forall|k: int| 0 <= k < tail.len() implies lines[k + 1] == tail[k] by {}
        if contains(s, needle) {
            let i = choose|i: int| occurs_at(s, needle, i);
            assert(i + m <= n || i > n) by {
                if i <= n < i + m {
                    assert(s.subrange(i, i + m)[n - i] == s[n]);
                }
            }
            if i + m <= n {
                assert(head.subrange(i, i + m) == s.subrange(i, i + m));
                assert(occurs_at(head, needle, i));
                assert(contains(lines[0], needle));
            } else {
                assert(rest.subrange(i - n - 1, i - n - 1 + m) == s.subrange(i, i + m));
                assert(occurs_at(rest, needle, i - n - 1));
                let k = choose|k: int| 0 <= k < tail.len() && contains(#[trigger] tail[k], needle);
                assert(contains(lines[k + 1], needle));
            }
        }
        if exists|k: int| 0 <= k < lines.len() && contains(#[trigger] lines[k], needle) {
            let k = choose|k: int| 0 <= k < lines.len() && contains(#[trigger] lines[k], needle);
            if k == 0 {
                lemma_contains_in_subrange(s, 0, n, needle);
            } else {
                assert(lines[k] == tail[k - 1]);
                assert(contains(rest, needle));
                assert(rest == s.subrange(n + 1, s.len() as int));
                lemma_contains_in_subrange(s, n + 1, s.len() as int, needle);
            }
        }
    }
}

/// The length of the first line of `s`.
pub fn line_len(s: &[char]) -> (n: usize)
    ensures
        n == first_line_len(s@),
        n <= s@.len(),
{
    let len = s.len();
    let mut i: usize = 0;
    assert(s@.skip(0) == s@);
    while i < len && s[i] != '\n'
        invariant
            i <= len == s@.len(),
            first_line_len(s@) == i + first_line_len(s@.skip(i as int)),
        decreases len - i,
    {
        assert(s@.skip(i as int).drop_first() == s@.skip(i as int + 1));
        i += 1;
    }
    i
}

} // verus!
