//! What holds of texts that are cut into pieces.
use vstd::prelude::*;

use crate::bindings::white_space;
use crate::text::{lines, split, strip_return, trim_end, trim_start, trimmed};

verus! {

/// The pieces put together again, with a separator between each and the next.
pub open spec fn join(pieces: Seq<Seq<char>>, separator: char) -> Seq<char>
    decreases pieces.len(),
{
    if pieces.len() == 0 {
        Seq::empty()
    } else if pieces.len() == 1 {
        pieces[0]
    } else {
        join(pieces.drop_last(), separator).push(separator) + pieces.last()
    }
}

/// The pieces are those of the text between its separators: there is at least one, none
/// holds a separator, and put together again they are the text.
pub open spec fn pieces_of(
    pieces: Seq<Seq<char>>,
    text: Seq<char>,
    separator: char,
) -> bool {
    &&& pieces.len() > 0
    &&& join(pieces, separator) == text
    &&& forall|i: int, j: int|
        0 <= i < pieces.len() && 0 <= j < pieces[i].len() ==> #[trigger] pieces[i][j] != separator
}

/// Splitting finds the pieces between the separators, all of them and nothing else, in
/// their order.
pub proof fn law_split(text: Seq<char>, pieces: Seq<Seq<char>>, separator: char)
    requires
        pieces_of(pieces, text, separator),
    ensures
        split(text, separator) == pieces,
    decreases text.len(),
{
    let last = pieces.last();
    let before = pieces.drop_last();
    if text.len() == 0 {
        assert(last =~= Seq::<char>::empty());
        assert(pieces =~= seq![Seq::<char>::empty()]);
    } else if last.len() == 0 {
        assert(text =~= join(before, separator).push(separator));
        assert(text.drop_last() =~= join(before, separator));
        assert forall|i: int, j: int|
            0 <= i < before.len() && 0 <= j < before[i].len() implies #[trigger] before[i][j]
            != separator by {
            assert(before[i] == pieces[i]);
        }
        law_split(text.drop_last(), before, separator);
        assert(pieces =~= before.push(last));
        assert(last =~= Seq::<char>::empty());
    } else {
        let shorter = before.push(last.drop_last());
        assert(shorter.drop_last() =~= before);
        assert(join(shorter, separator) =~= text.drop_last());
        assert(text.last() == last[last.len() - 1]);
        assert(pieces[pieces.len() - 1][last.len() - 1] != separator);
        assert forall|i: int, j: int|
            0 <= i < shorter.len() && 0 <= j < shorter[i].len() implies #[trigger] shorter[i][j]
            != separator by {
            assert(shorter[i][j] == pieces[i][j]);
        }
        law_split(text.drop_last(), shorter, separator);
        assert(last =~= last.drop_last().push(text.last()));
        assert(pieces =~= before.push(last));
    }
}

/// Splitting loses nothing: the pieces put together again are the text.
pub proof fn law_split_joins(text: Seq<char>, separator: char)
    ensures
        pieces_of(split(text, separator), text, separator),
    decreases text.len(),
{
    let pieces = split(text, separator);
    if text.len() == 0 {
        assert(text =~= Seq::<char>::empty());
    } else {
        let fewer = split(text.drop_last(), separator);
        law_split_joins(text.drop_last(), separator);
        assert(text =~= text.drop_last().push(text.last()));
        if text.last() == separator {
            assert(pieces.drop_last() =~= fewer);
            assert(join(pieces, separator) =~= text);
        } else {
            assert(pieces.drop_last() =~= fewer.drop_last());
            assert(pieces.last() == fewer.last().push(text.last()));
            if fewer.len() > 1 {
                let front = join(fewer.drop_last(), separator).push(separator);
                assert(front + fewer.last().push(text.last()) =~= (front + fewer.last()).push(
                    text.last(),
                ));
            }
            let last = pieces.len() - 1;
            assert forall|j: int| 0 <= j < pieces[last].len() implies #[trigger] pieces[last][j]
                != separator by {
                if j < fewer[last].len() {
                    assert(pieces[last][j] == fewer[last][j]);
                }
            }
        }
        assert forall|i: int, j: int|
            0 <= i < pieces.len() && 0 <= j < pieces[i].len() implies #[trigger] pieces[i][j]
            != separator by {
            if i < pieces.len() - 1 {
                assert(pieces[i] == fewer[i]);
                assert(fewer[i][j] != separator);
            }
        }
    }
}

/// There is a line for each line feed: what stands before it, but for one carriage return
/// right before it. What follows the last line feed is a line as it stands, unless it is
/// empty. There are no other lines.
pub proof fn law_lines(text: Seq<char>, pieces: Seq<Seq<char>>)
    requires
        pieces_of(pieces, text, '\n'),
    ensures
        pieces.last().len() == 0 ==> lines(text).len() == pieces.len() - 1,
        pieces.last().len() > 0 ==> lines(text).len() == pieces.len() && lines(text).last()
            == pieces.last(),
        forall|i: int|
            0 <= i < pieces.len() - 1 ==> {
                ||| #[trigger] lines(text)[i].push('\r') == pieces[i]
                ||| lines(text)[i] == pieces[i] && (pieces[i].len() == 0 || pieces[i].last()
                    != '\r')
            },
{
    law_split(text, pieces, '\n');
    assert forall|i: int| 0 <= i < pieces.len() - 1 implies {
        ||| #[trigger] lines(text)[i].push('\r') == pieces[i]
        ||| lines(text)[i] == pieces[i] && (pieces[i].len() == 0 || pieces[i].last() != '\r')
    } by {
        assert(lines(text)[i] == strip_return(pieces[i]));
        if pieces[i].len() > 0 && pieces[i].last() == '\r' {
            assert(pieces[i].drop_last().push('\r') =~= pieces[i]);
        }
    }
}

/// All the characters are white space.
pub open spec fn all_white(text: Seq<char>) -> bool {
    forall|i: int| 0 <= i < text.len() ==> white_space(#[trigger] text[i])
}

/// Only white space is taken off the front, and all of it.
proof fn lemma_trim_start_cuts(text: Seq<char>) -> (front: Seq<char>)
    ensures
        all_white(front),
        text == front + trim_start(text),
        trim_start(text).len() > 0 ==> !white_space(trim_start(text).first()),
    decreases text.len(),
{
    if text.len() > 0 && white_space(text.first()) {
        let rest = lemma_trim_start_cuts(text.drop_first());
        let front = seq![text.first()] + rest;
        assert(text =~= seq![text.first()] + text.drop_first());
        assert(front + trim_start(text) =~= seq![text.first()] + (rest + trim_start(text)));
        assert forall|i: int| 0 <= i < front.len() implies white_space(#[trigger] front[i]) by {
            if i > 0 {
                assert(front[i] == rest[i - 1]);
            }
        }
        front
    } else {
        assert(text =~= Seq::<char>::empty() + text);
        Seq::empty()
    }
}

/// Only white space is taken off the back, and all of it.
proof fn lemma_trim_end_cuts(text: Seq<char>) -> (back: Seq<char>)
    ensures
        all_white(back),
        text == trim_end(text) + back,
        trim_end(text).len() > 0 ==> !white_space(trim_end(text).last()),
    decreases text.len(),
{
    if text.len() > 0 && white_space(text.last()) {
        let rest = lemma_trim_end_cuts(text.drop_last());
        let back = rest.push(text.last());
        assert(text =~= text.drop_last().push(text.last()));
        assert(trim_end(text) + back =~= (trim_end(text) + rest).push(text.last()));
        assert forall|i: int| 0 <= i < back.len() implies white_space(#[trigger] back[i]) by {
            if i < rest.len() {
                assert(back[i] == rest[i]);
            }
        }
        back
    } else {
        assert(text =~= text + Seq::<char>::empty());
        Seq::empty()
    }
}

/// Trimming takes white space off both ends, nothing else, and leaves none there.
pub proof fn law_trimmed(text: Seq<char>) -> (cut: (Seq<char>, Seq<char>))
    ensures
        all_white(cut.0),
        all_white(cut.1),
        text == cut.0 + trimmed(text) + cut.1,
        trimmed(text).len() > 0 ==> !white_space(trimmed(text).first()) && !white_space(
            trimmed(text).last(),
        ),
{
    let front = lemma_trim_start_cuts(text);
    let back = lemma_trim_end_cuts(trim_start(text));
    assert(text =~= front + trimmed(text) + back);
    if trimmed(text).len() > 0 {
        assert(trimmed(text).first() == trim_start(text).first());
    }
    (front, back)
}

/// What stands between white space is what trimming leaves: any way to write a text as
/// white space, a middle that neither starts nor ends with any, and white space has the
/// trimmed text in the middle.
pub proof fn law_trimmed_middle(front: Seq<char>, middle: Seq<char>, back: Seq<char>)
    requires
        all_white(front),
        all_white(back),
        middle.len() > 0 ==> !white_space(middle.first()) && !white_space(middle.last()),
    ensures
        trimmed(front + middle + back) == middle,
{
    let text = front + middle + back;
    let (a, b) = law_trimmed(text);
    let t = trimmed(text);
    if middle.len() == 0 {
        if t.len() > 0 {
            assert(text[a.len() as int] == t.first());
            if a.len() < front.len() {
                assert(white_space(front[a.len() as int]));
            } else {
                assert(white_space(back[a.len() - front.len()]));
            }
        }
        assert(t =~= middle);
    } else {
        assert(text[front.len() as int] == middle.first());
        assert(text[front.len() + middle.len() - 1] == middle.last());
        if a.len() > front.len() {
            assert(white_space(a[front.len() as int]));
            assert(text[front.len() as int] == a[front.len() as int]);
        }
        if b.len() > back.len() {
            let k = front.len() + middle.len() - 1 - (text.len() - b.len());
            assert(white_space(b[k]));
            assert(text[front.len() + middle.len() - 1] == b[k]);
        }
        assert(t.len() > 0);
        assert(text[a.len() as int] == t.first());
        assert(text[a.len() + t.len() - 1] == t.last());
        if a.len() < front.len() {
            assert(white_space(front[a.len() as int]));
        }
        if b.len() < back.len() {
            let k = a.len() + t.len() - 1 - front.len() - middle.len();
            assert(white_space(back[k]));
        }
        assert forall|i: int| 0 <= i < t.len() implies t[i] == middle[i] by {
            assert(t[i] == text[a.len() + i]);
            assert(middle[i] == text[front.len() + i]);
        }
        assert(t =~= middle);
    }
}

/// Among the ASCII characters, the blank and those from the tabulator to the carriage
/// return are white space; nothing that an address is spelled with is.
pub proof fn law_white_space(c: char)
    ensures
        c as u32 <= 0x7f ==> (white_space(c) <==> c as u32 == 0x20 || 0x9 <= c as u32 <= 0xd),
        white_space(c) ==> c as u32 <= 0x20 || c as u32 >= 0x85,
{
}

} // verus!
