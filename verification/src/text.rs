//! Cutting a text into pieces.
use vstd::prelude::*;
use vstd::string::StrSliceExecFns;

use crate::bindings::{is_white_space, white_space};

verus! {

/// The pieces between the separators, empty ones too: one more than there are
/// separators.
pub open spec fn split(text: Seq<char>, separator: char) -> Seq<Seq<char>>
    decreases text.len(),
{
    if text.len() == 0 {
        seq![Seq::<char>::empty()]
    } else {
        let pieces = split(text.drop_last(), separator);
        if text.last() == separator {
            pieces.push(Seq::<char>::empty())
        } else {
            pieces.drop_last().push(pieces.last().push(text.last()))
        }
    }
}

/// The text without a carriage return at its end.
pub open spec fn strip_return(text: Seq<char>) -> Seq<char> {
    if text.len() > 0 && text.last() == '\r' {
        text.drop_last()
    } else {
        text
    }
}

/// The lines of a text. A line feed ends a line, together with a carriage return right
/// before it; what follows the last line feed is a line too, unless it is empty.
pub open spec fn lines(text: Seq<char>) -> Seq<Seq<char>> {
    let pieces = split(text, '\n');
    let ended = pieces.drop_last().map_values(|piece: Seq<char>| strip_return(piece));
    if pieces.last().len() == 0 {
        ended
    } else {
        ended.push(pieces.last())
    }
}

/// The text without the white space that it starts with.
pub open spec fn trim_start(text: Seq<char>) -> Seq<char>
    decreases text.len(),
{
    if text.len() > 0 && white_space(text.first()) {
        trim_start(text.drop_first())
    } else {
        text
    }
}

/// The text without the white space that it ends with.
pub open spec fn trim_end(text: Seq<char>) -> Seq<char>
    decreases text.len(),
{
    if text.len() > 0 && white_space(text.last()) {
        trim_end(text.drop_last())
    } else {
        text
    }
}

/// The text without the white space around it.
pub open spec fn trimmed(text: Seq<char>) -> Seq<char> {
    trim_end(trim_start(text))
}

/// What the texts in a list hold.
pub open spec fn texts(list: Seq<&str>) -> Seq<Seq<char>> {
    list.map_values(|text: &str| text@)
}

/// What the strings in a list hold.
pub open spec fn strings(list: Seq<String>) -> Seq<Seq<char>> {
    list.map_values(|text: String| text@)
}

/// A text has at least one piece.
proof fn lemma_split_nonempty(text: Seq<char>, separator: char)
    ensures
        split(text, separator).len() > 0,
    decreases text.len(),
{
    if text.len() > 0 {
        lemma_split_nonempty(text.drop_last(), separator);
    }
}

/// The characters of a text.
fn chars_of(text: &str) -> (chars: Vec<char>)
    ensures
        chars@ == text@,
{
    let mut chars: Vec<char> = Vec::new();
    for c in iter: text.chars()
        invariant
            chars@ == iter.seq().take(iter.index() as int),
            iter.seq() == text@,
    {
        chars.push(c);
    }
    chars
}

/// Cuts a text at every separator.
pub(crate) fn split_text<'a>(text: &'a str, separator: char) -> (pieces: Vec<&'a str>)
    ensures
        texts(pieces@) == split(text@, separator),
{
    let chars = chars_of(text);
    let mut pieces: Vec<&'a str> = Vec::new();
    let mut start: usize = 0;
    let mut i: usize = 0;
    assert(text@.subrange(0, 0) =~= Seq::<char>::empty());
    while i < chars.len()
        invariant
            chars@ == text@,
            start <= i <= chars.len(),
            split(text@.take(i as int), separator) =~= texts(pieces@).push(
                text@.subrange(start as int, i as int),
            ),
        decreases chars.len() - i,
    {
        let ghost before = texts(pieces@);
        let ghost piece = text@.subrange(start as int, i as int);
        proof {
            assert(text@.take(i + 1).drop_last() =~= text@.take(i as int));
            assert(before.push(piece).drop_last() =~= before);
        }
        if chars[i] == separator {
            pieces.push(text.substring_char(start, i));
            start = i + 1;
            assert(texts(pieces@) =~= before.push(piece));
            assert(text@.subrange(i + 1, i + 1) =~= Seq::<char>::empty());
        } else {
            assert(piece.push(text@[i as int]) =~= text@.subrange(start as int, i + 1));
        }
        i += 1;
    }
    proof {
        assert(text@.take(i as int) =~= text@);
    }
    let ghost before = texts(pieces@);
    pieces.push(text.substring_char(start, i));
    assert(texts(pieces@) =~= before.push(text@.subrange(start as int, i as int)));
    pieces
}

/// Takes a carriage return off the end of a text.
fn without_return<'a>(text: &'a str) -> (rest: &'a str)
    ensures
        rest@ == strip_return(text@),
{
    let n: usize = text.unicode_len();
    if n > 0 && text.get_char(n - 1) == '\r' {
        text.substring_char(0, n - 1)
    } else {
        text
    }
}

/// Cuts a text into lines.
pub(crate) fn lines_of<'a>(text: &'a str) -> (found: Vec<&'a str>)
    ensures
        texts(found@) == lines(text@),
{
    let pieces = split_text(text, '\n');
    let ghost all = split(text@, '\n');
    proof {
        lemma_split_nonempty(text@, '\n');
    }
    let mut found: Vec<&'a str> = Vec::new();
    let last: usize = pieces.len() - 1;
    let mut i: usize = 0;
    while i < last
        invariant
            last + 1 == pieces.len(),
            all == texts(pieces@),
            i <= last,
            texts(found@) =~= all.take(i as int).map_values(|piece: Seq<char>| strip_return(piece)),
        decreases last - i,
    {
        let ghost before = texts(found@);
        found.push(without_return(pieces[i]));
        assert(texts(found@) =~= before.push(strip_return(all[i as int])));
        assert(all.take(i + 1) =~= all.take(i as int).push(all[i as int]));
        i += 1;
    }
    assert(all.take(i as int) =~= all.drop_last());
    assert(all.last() == pieces@[last as int]@);
    if pieces[last].unicode_len() > 0 {
        found.push(pieces[last]);
    }
    assert(texts(found@) =~= lines(text@));
    found
}

/// Where a text starts and ends without the white space around it, given which of its
/// characters are white space. The two are equal where there is nothing else.
pub fn trim_bounds(white: &Vec<bool>) -> (bounds: (usize, usize))
    ensures
        bounds.0 <= bounds.1 <= white.len(),
        forall|i: int| 0 <= i < bounds.0 ==> #[trigger] white@[i],
        forall|i: int| bounds.1 <= i < white.len() ==> #[trigger] white@[i],
        bounds.0 < bounds.1 ==> !white@[bounds.0 as int] && !white@[bounds.1 - 1],
        bounds.0 == bounds.1 ==> bounds.0 == white.len(),
{
    let mut start: usize = 0;
    while start < white.len() && white[start]
        invariant
            start <= white.len(),
            forall|i: int| 0 <= i < start ==> #[trigger] white@[i],
        decreases white.len() - start,
    {
        start += 1;
    }
    let mut end: usize = white.len();
    while end > start && white[end - 1]
        invariant
            start <= end <= white.len(),
            start < white.len() ==> !white@[start as int],
            forall|i: int| end <= i < white.len() ==> #[trigger] white@[i],
        decreases end,
    {
        end -= 1;
    }
    (start, end)
}

/// Leading white space is trimmed.
proof fn lemma_trim_start(text: Seq<char>, n: nat)
    requires
        n <= text.len(),
        forall|i: int| 0 <= i < n ==> white_space(#[trigger] text[i]),
        n < text.len() ==> !white_space(text[n as int]),
    ensures
        trim_start(text) == text.skip(n as int),
    decreases n,
{
    if n == 0 {
        assert(text.skip(0) =~= text);
    } else {
        lemma_trim_start(text.drop_first(), (n - 1) as nat);
        assert(white_space(text[0]));
        assert(text.drop_first().skip(n - 1) =~= text.skip(n as int));
    }
}

/// Trailing white space is trimmed.
proof fn lemma_trim_end(text: Seq<char>, n: nat)
    requires
        n <= text.len(),
        forall|i: int| n <= i < text.len() ==> white_space(#[trigger] text[i]),
        n > 0 ==> !white_space(text[n - 1]),
    ensures
        trim_end(text) == text.take(n as int),
    decreases text.len() - n,
{
    if n == text.len() {
        assert(text.take(n as int) =~= text);
    } else {
        lemma_trim_end(text.drop_last(), n);
        assert(white_space(text[text.len() - 1]));
        assert(text.drop_last().take(n as int) =~= text.take(n as int));
    }
}

/// Takes the white space off both ends of a text.
pub(crate) fn trim_text<'a>(text: &'a str) -> (rest: &'a str)
    ensures
        rest@ == trimmed(text@),
{
    let chars = chars_of(text);
    let mut white: Vec<bool> = Vec::new();
    let mut i: usize = 0;
    while i < chars.len()
        invariant
            i <= chars.len(),
            white.len() == i,
            forall|j: int| 0 <= j < i ==> #[trigger] white@[j] == white_space(chars@[j]),
        decreases chars.len() - i,
    {
        white.push(is_white_space(chars[i]));
        i += 1;
    }
    let (start, end) = trim_bounds(&white);
    proof {
        assert forall|j: int| 0 <= j < start implies white_space(#[trigger] text@[j]) by {
            assert(white@[j]);
        }
        lemma_trim_start(text@, start as nat);
        let from = text@.skip(start as int);
        assert forall|j: int| end - start <= j < from.len() implies white_space(
            #[trigger] from[j],
        ) by {
            assert(white@[j + start]);
        }
        lemma_trim_end(from, (end - start) as nat);
        assert(from.take(end - start) =~= text@.subrange(start as int, end as int));
    }
    text.substring_char(start, end)
}

} // verus!
