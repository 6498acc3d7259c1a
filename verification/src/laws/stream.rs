//! What a stream asks for, records and delivers.
use vstd::prelude::*;

use crate::address::{arguments_due, excluded_nets};
use crate::chunk::{chunking, chunks, count};
use crate::ip::{covered, Ip};
use crate::lookup::{
    recorded, request_due, text_ips, unasked, AnswerView, HostView, RequestView,
};
use crate::stream::{
    answers_within, known_arguments, known_file, known_files, known_ips, known_lines, stream_due, stream_file_due,
    stream_files_due, stream_lines_due, told_answer, told_line, told_opened, untold, Action,
    AddressStream, LineRead, StreamFile, StreamLine, StreamNeed, Transcript,
};
use crate::text::trimmed;

use super::chunks::{filling, law_count, law_held};
use super::targets::{
    holds, law_excluded_addresses, lemma_first_name, named_by, names_settled,
};
use super::{clean, in_some, law_chunks_members, law_pending_bounded, lemma_chunking};

verus! {

/// No lookup is due for any of the first `n` lines, each without the white space around
/// it.
pub open spec fn read_settled(lines: Seq<StreamLine>, n: int) -> bool {
    forall|j: int|
        0 <= j < n ==> request_due(trimmed((#[trigger] lines[j]).text), lines[j].host) is None
}

/// Nothing is left to do for a target as a file: it stands for an address by itself, or
/// there is no such file, or it was read to its end and none of its lines has a lookup
/// due.
pub open spec fn opened_settled(target: Seq<char>, host: HostView, file: StreamFile) -> bool {
    ||| text_ips(target, host).len() > 0
    ||| file == StreamFile::Absent
    ||| file matches StreamFile::Ended(lines) && read_settled(lines, lines.len() as int)
}

/// Nothing is left to do for any of the first `n` targets as files.
pub open spec fn all_opened_settled(
    targets: Seq<Seq<char>>,
    told: Transcript,
    n: int,
) -> bool {
    forall|i: int|
        0 <= i < n ==> opened_settled(#[trigger] targets[i], told.arguments[i], told.files[i])
}

/// What is due is what comes first among all that is left to do: the lookups for the
/// targets, in their order; then the targets that stand for no address as files, in their
/// order, each opened, then read line by line with the lookups for a line before the next
/// one. Nothing is due only when nothing is left.
pub open spec fn due_in_turn(
    targets: Seq<Seq<char>>,
    told: Transcript,
    due: Option<StreamNeed>,
) -> bool {
    let all = targets.len() as int;
    match due {
        None => {
            &&& names_settled(targets, told.arguments, all)
            &&& all_opened_settled(targets, told, all)
        },
        Some(StreamNeed::Argument { index, request }) => {
            &&& 0 <= index < targets.len()
            &&& request_due(targets[index], told.arguments[index]) == Some(request)
            &&& names_settled(targets, told.arguments, index)
        },
        Some(StreamNeed::Open { index, path }) => {
            &&& 0 <= index < targets.len()
            &&& path == targets[index]
            &&& text_ips(targets[index], told.arguments[index]).len() == 0
            &&& told.files[index] == StreamFile::Unopened
            &&& names_settled(targets, told.arguments, all)
            &&& all_opened_settled(targets, told, index)
        },
        Some(StreamNeed::Read { index }) => {
            &&& 0 <= index < targets.len()
            &&& text_ips(targets[index], told.arguments[index]).len() == 0
            &&& told.files[index] matches StreamFile::Reading(lines)
            &&& read_settled(lines, lines.len() as int)
            &&& names_settled(targets, told.arguments, all)
            &&& all_opened_settled(targets, told, index)
        },
        Some(StreamNeed::Line { index, line, request }) => {
            &&& 0 <= index < targets.len()
            &&& text_ips(targets[index], told.arguments[index]).len() == 0
            &&& match told.files[index] {
                StreamFile::Reading(lines) => line_in_turn(lines, line, request),
                StreamFile::Ended(lines) => line_in_turn(lines, line, request),
                _ => false,
            }
            &&& names_settled(targets, told.arguments, all)
            &&& all_opened_settled(targets, told, index)
        },
    }
}

/// The line is the first that has a lookup due, and this is the lookup.
pub open spec fn line_in_turn(
    lines: Seq<StreamLine>,
    line: int,
    request: RequestView,
) -> bool {
    &&& 0 <= line < lines.len()
    &&& request_due(trimmed(lines[line].text), lines[line].host) == Some(request)
    &&& read_settled(lines, line)
}

/// What is due for the lines is the lookup of the first that has one due.
proof fn lemma_first_read(lines: Seq<StreamLine>, k: int)
    requires
        0 <= k <= lines.len(),
        read_settled(lines, k),
    ensures
        match stream_lines_due(lines, k) {
            None => read_settled(lines, lines.len() as int),
            Some((line, request)) => k <= line && line_in_turn(lines, line, request),
        },
    decreases lines.len() - k,
{
    if k < lines.len() && request_due(trimmed(lines[k].text), lines[k].host) is None {
        lemma_first_read(lines, k + 1);
    }
}

/// What is due for the targets as files is that of the first with anything left to do.
proof fn lemma_first_opened(targets: Seq<Seq<char>>, told: Transcript, k: int)
    requires
        0 <= k <= targets.len(),
        names_settled(targets, told.arguments, targets.len() as int),
        all_opened_settled(targets, told, k),
    ensures
        due_in_turn(targets, told, stream_files_due(targets, told, k)),
        !(stream_files_due(targets, told, k) matches Some(StreamNeed::Argument { .. })),
    decreases targets.len() - k,
{
    if k < targets.len() {
        match told.files[k] {
            StreamFile::Reading(lines) => lemma_first_read(lines, 0),
            StreamFile::Ended(lines) => lemma_first_read(lines, 0),
            _ => {},
        }
        if stream_file_due(targets[k], told.arguments[k], told.files[k], k) is None {
            lemma_first_opened(targets, told, k + 1);
        }
    }
}

/// The stream asks for all the work, and for each piece in its turn.
pub proof fn law_stream_in_turn(targets: Seq<Seq<char>>, told: Transcript)
    ensures
        due_in_turn(targets, told, stream_due(targets, told)),
{
    lemma_first_name(targets, told.arguments, 0);
    if arguments_due(targets, told.arguments, 0) is None {
        lemma_first_opened(targets, told, 0);
    }
}

/// A lookup of a name gave at most so many addresses, whichever it was.
pub open spec fn at_most(host: HostView, most: nat) -> bool {
    &&& host.system matches AnswerView::Found(ips) ==> ips.len() <= most
    &&& host.verbatim matches AnswerView::Found(ips) ==> ips.len() <= most
    &&& host.dedicated matches AnswerView::Found(ips) ==> ips.len() <= most
}

/// Answers are within a bound where no lookup for a target, nor for a line of a file, gave
/// more addresses.
pub proof fn law_answers_within(told: Transcript, most: nat)
    requires
        forall|i: int|
            0 <= i < told.arguments.len() ==> at_most(#[trigger] told.arguments[i], most),
        forall|i: int, j: int|
            0 <= i < told.files.len() && (told.files[i] is Reading) && 0 <= j
                < told.files[i]->Reading_0.len() ==> at_most(
                (#[trigger] told.files[i]->Reading_0[j]).host,
                most,
            ),
        forall|i: int, j: int|
            0 <= i < told.files.len() && (told.files[i] is Ended) && 0 <= j
                < told.files[i]->Ended_0.len() ==> at_most(
                (#[trigger] told.files[i]->Ended_0[j]).host,
                most,
            ),
    ensures
        answers_within(told, most),
{
}

/// At the start nothing was looked up and no file opened, for any of the targets.
pub proof fn law_untold(targets: Seq<Seq<char>>, i: int)
    requires
        0 <= i < targets.len(),
    ensures
        untold(targets).arguments.len() == targets.len(),
        untold(targets).files.len() == targets.len(),
        untold(targets).arguments[i] == unasked(),
        untold(targets).files[i] == StreamFile::Unopened,
{
}

/// All but what is known of one target as a file is as it was.
pub open spec fn same_but_file(told: Transcript, after: Transcript, index: int) -> bool {
    &&& after.arguments == told.arguments
    &&& after.files.len() == told.files.len()
    &&& forall|i: int|
        0 <= i < told.files.len() && i != index ==> #[trigger] after.files[i] == told.files[i]
}

/// A file that is being read, and is the first that has anything left, is the one for
/// which something is due.
proof fn lemma_due_for(targets: Seq<Seq<char>>, told: Transcript, index: int)
    requires
        0 <= index < targets.len(),
        names_settled(targets, told.arguments, targets.len() as int),
        all_opened_settled(targets, told, index),
        text_ips(targets[index], told.arguments[index]).len() == 0,
        told.files[index] is Reading,
        read_settled(told.files[index]->Reading_0, told.files[index]->Reading_0.len() - 1),
    ensures
        match stream_due(targets, told) {
            Some(StreamNeed::Read { index: at }) => at == index,
            Some(StreamNeed::Line { index: at, line, request }) => at == index && line
                == told.files[index]->Reading_0.len() - 1,
            _ => false,
        },
{
    law_stream_in_turn(targets, told);
    let lines = told.files[index]->Reading_0;
    let due = stream_due(targets, told);
    assert(!opened_settled(targets[index], told.arguments[index], told.files[index]));
    let at = match due {
        Some(StreamNeed::Argument { index: at, .. }) => at,
        Some(StreamNeed::Open { index: at, .. }) => at,
        Some(StreamNeed::Read { index: at }) => at,
        Some(StreamNeed::Line { index: at, .. }) => at,
        None => -1,
    };
    if due is None {
        assert(opened_settled(targets[index], told.arguments[index], told.files[index]));
    } else if due matches Some(StreamNeed::Argument { .. }) {
        assert(request_due(targets[at], told.arguments[at]) is None);
    } else {
        if index < at {
            assert(opened_settled(targets[index], told.arguments[index], told.files[index]));
        }
        if at < index {
            assert(opened_settled(targets[at], told.arguments[at], told.files[at]));
            match due {
                Some(StreamNeed::Line { line, request, .. }) => {
                    if let StreamFile::Ended(lines) = told.files[at] {
                        assert(request_due(trimmed(lines[line].text), lines[line].host) is None);
                    }
                },
                _ => {},
            }
        }
        if let Some(StreamNeed::Line { line, .. }) = due {
            if line < lines.len() - 1 {
                assert(request_due(trimmed(lines[line].text), lines[line].host) is None);
            }
        }
    }
}

/// A line that was read as text, whatever it holds, goes on record behind the lines before
/// it, and the file stays open: what is due next is a lookup for that line or a further
/// line of the same file. A line that could not be read, or the end, ends the file with
/// the lines that it had. Nothing else on record changes.
pub proof fn law_line_told(targets: Seq<Seq<char>>, told: Transcript, index: int, line: LineRead)
    requires
        told.arguments.len() == targets.len(),
        told.files.len() == targets.len(),
        stream_due(targets, told) == Some(StreamNeed::Read { index }),
    ensures
        ({
            let due = stream_due(targets, told);
            let after = told_line(told, due, line);
            let lines = told.files[index]->Reading_0;
            &&& told.files[index] is Reading
            &&& same_but_file(told, after, index)
            &&& line matches LineRead::Text(text) ==> {
                &&& after.files[index] is Reading
                &&& after.files[index]->Reading_0.len() == lines.len() + 1
                &&& after.files[index]->Reading_0.drop_last() == lines
                &&& after.files[index]->Reading_0.last().text == text@
                &&& after.files[index]->Reading_0.last().host == unasked()
                &&& match stream_due(targets, after) {
                    Some(StreamNeed::Read { index: at }) => at == index,
                    Some(StreamNeed::Line { index: at, line: last, request }) => at == index && last
                        == lines.len(),
                    _ => false,
                }
            }
            &&& !(line is Text) ==> after.files[index] == StreamFile::Ended(lines)
        }),
{
    let due = stream_due(targets, told);
    let after = told_line(told, due, line);
    law_stream_in_turn(targets, told);
    let lines = told.files[index]->Reading_0;
    if let LineRead::Text(text) = line {
        let read = after.files[index]->Reading_0;
        assert(read.drop_last() =~= lines);
        assert forall|i: int| 0 <= i < index implies opened_settled(
            #[trigger] targets[i],
            after.arguments[i],
            after.files[i],
        ) by {
            assert(opened_settled(targets[i], told.arguments[i], told.files[i]));
        }
        assert forall|j: int| 0 <= j < lines.len() implies request_due(
            trimmed((#[trigger] read[j]).text),
            read[j].host,
        ) is None by {
            assert(read[j] == lines[j]);
        }
        lemma_due_for(targets, after, index);
    }
}

/// A file that could be opened is there with no line read yet; one that could not is not
/// there. Nothing else on record changes.
pub proof fn law_opened_told(targets: Seq<Seq<char>>, told: Transcript, index: int, opened: bool)
    requires
        told.arguments.len() == targets.len(),
        told.files.len() == targets.len(),
        stream_due(targets, told) == Some(StreamNeed::Open { index, path: targets[index] }),
    ensures
        ({
            let after = told_opened(told, stream_due(targets, told), opened);
            &&& same_but_file(told, after, index)
            &&& opened ==> after.files[index] is Reading
                && after.files[index]->Reading_0.len() == 0
            &&& !opened ==> after.files[index] == StreamFile::Absent
        }),
{
    law_stream_in_turn(targets, told);
}

/// What came of a lookup goes on record for the target, or for the line, that it was due
/// for; every line keeps its text, and nothing else on record changes.
pub proof fn law_answer_told(
    targets: Seq<Seq<char>>,
    told: Transcript,
    found: Option<Seq<Ip>>,
)
    requires
        told.arguments.len() == targets.len(),
        told.files.len() == targets.len(),
    ensures
        ({
            let after = told_answer(told, stream_due(targets, told), found);
            match stream_due(targets, told) {
                Some(StreamNeed::Argument { index, request }) => {
                    &&& after.files == told.files
                    &&& after.arguments.len() == told.arguments.len()
                    &&& after.arguments[index] == recorded(told.arguments[index], request, found)
                    &&& forall|i: int|
                        0 <= i < told.arguments.len() && i != index
                            ==> #[trigger] after.arguments[i] == told.arguments[i]
                },
                Some(StreamNeed::Line { index, line, request }) => {
                    &&& same_but_file(told, after, index)
                    &&& told.files[index] matches StreamFile::Reading(lines) ==> {
                        &&& after.files[index] is Reading
                        &&& after.files[index]->Reading_0.len() == lines.len()
                        &&& after.files[index]->Reading_0[line].host == recorded(
                            lines[line].host,
                            request,
                            found,
                        )
                        &&& after.files[index]->Reading_0[line].text == lines[line].text
                        &&& forall|j: int|
                            0 <= j < lines.len() && j != line
                                ==> #[trigger] after.files[index]->Reading_0[j] == lines[j]
                    }
                },
                _ => after == told,
            }
        }),
{
    law_stream_in_turn(targets, told);
}

/// What a stream is told while it reads a file.
pub enum Report {
    /// What came of a lookup for a line.
    Answer(Option<Seq<Ip>>),
    /// What came of reading a line.
    Line(LineRead),
}

/// What is on record after a report.
pub open spec fn reported(targets: Seq<Seq<char>>, told: Transcript, report: Report) -> Transcript {
    match report {
        Report::Answer(found) => told_answer(told, stream_due(targets, told), found),
        Report::Line(line) => told_line(told, stream_due(targets, told), line),
    }
}

/// What is on record after reports, one after the other.
pub open spec fn after_reports(
    targets: Seq<Seq<char>>,
    told: Transcript,
    reports: Seq<Report>,
) -> Transcript
    decreases reports.len(),
{
    if reports.len() == 0 {
        told
    } else {
        reported(targets, after_reports(targets, told, reports.drop_last()), reports.last())
    }
}

/// Each report is of what the stream asked for, and that was for this one file.
pub open spec fn reports_for(
    targets: Seq<Seq<char>>,
    told: Transcript,
    index: int,
    reports: Seq<Report>,
) -> bool
    decreases reports.len(),
{
    reports.len() > 0 ==> {
        let before = after_reports(targets, told, reports.drop_last());
        &&& reports_for(targets, told, index, reports.drop_last())
        &&& match reports.last() {
            Report::Answer(_) => stream_due(targets, before) matches Some(
                StreamNeed::Line { index: at, .. },
            ) && at == index,
            Report::Line(_) => stream_due(targets, before) == Some(StreamNeed::Read { index }),
        }
    }
}

/// The texts among the reports, in their order.
pub open spec fn reported_texts(reports: Seq<Report>) -> Seq<Seq<char>>
    decreases reports.len(),
{
    if reports.len() == 0 {
        Seq::empty()
    } else {
        let before = reported_texts(reports.drop_last());
        match reports.last() {
            Report::Line(LineRead::Text(text)) => before.push(text@),
            _ => before,
        }
    }
}

/// The texts of the lines.
pub open spec fn line_texts(lines: Seq<StreamLine>) -> Seq<Seq<char>> {
    Seq::new(lines.len(), |j: int| lines[j].text)
}

/// A file that was opened reads back just what was reported of it: the lines on record are
/// all the texts that were reported, in their order, blank ones too, and nothing else. It
/// has ended just when the last report was its end or a line that could not be read.
pub proof fn law_file_reads_back(
    targets: Seq<Seq<char>>,
    told: Transcript,
    index: int,
    reports: Seq<Report>,
)
    requires
        told.arguments.len() == targets.len(),
        told.files.len() == targets.len(),
        0 <= index < targets.len(),
        told.files[index] == StreamFile::Reading(Seq::empty()),
        reports_for(targets, told, index, reports),
    ensures
        ({
            let after = after_reports(targets, told, reports);
            &&& same_but_file(told, after, index)
            &&& match after.files[index] {
                StreamFile::Reading(lines) => line_texts(lines) == reported_texts(reports),
                StreamFile::Ended(lines) => line_texts(lines) == reported_texts(reports),
                _ => false,
            }
            &&& after.files[index] is Ended <==> reports.len() > 0 && (reports.last() matches
                Report::Line(line) && !(line is Text))
        }),
    decreases reports.len(), 0nat,
{
    if reports.len() == 0 {
        assert(line_texts(Seq::empty()) =~= Seq::<Seq<char>>::empty());
    } else {
        let fewer = reports.drop_last();
        let before = after_reports(targets, told, fewer);
        let after = after_reports(targets, told, reports);
        law_file_reads_back(targets, told, index, fewer);
        law_stream_in_turn(targets, before);
        match reports.last() {
            Report::Answer(found) => {
                law_answer_told(targets, before, found);
                lemma_ended_is_settled(targets, before, told, index, fewer);
                let lines = before.files[index]->Reading_0;
                assert(line_texts(after.files[index]->Reading_0) =~= line_texts(lines));
            },
            Report::Line(line) => {
                law_line_told(targets, before, index, line);
                let lines = before.files[index]->Reading_0;
                if let LineRead::Text(text) = line {
                    let read = after.files[index]->Reading_0;
                    assert forall|j: int| 0 <= j < lines.len() implies read[j] == lines[j] by {
                        assert(read.drop_last()[j] == read[j]);
                    }
                    assert(line_texts(read) =~= line_texts(lines).push(text@));
                }
            },
        }
    }
}

/// No lookup is due for a line of a file that has ended: the lines before the end were
/// settled when it came.
proof fn lemma_ended_is_settled(
    targets: Seq<Seq<char>>,
    before: Transcript,
    told: Transcript,
    index: int,
    reports: Seq<Report>,
)
    requires
        told.arguments.len() == targets.len(),
        told.files.len() == targets.len(),
        0 <= index < targets.len(),
        told.files[index] == StreamFile::Reading(Seq::empty()),
        reports_for(targets, told, index, reports),
        before == after_reports(targets, told, reports),
        stream_due(targets, before) matches Some(StreamNeed::Line { index: at, .. }) && at == index,
    ensures
        before.files[index] is Reading,
    decreases reports.len(), 1nat,
{
    law_file_reads_back(targets, told, index, reports);
    if before.files[index] is Ended {
        let fewer = reports.drop_last();
        let earlier = after_reports(targets, told, fewer);
        law_file_reads_back(targets, told, index, fewer);
        law_stream_in_turn(targets, earlier);
        law_stream_in_turn(targets, before);
        let line = reports.last()->Line_0;
        law_line_told(targets, earlier, index, line);
        let lines = before.files[index]->Ended_0;
        let at = stream_due(targets, before)->0->Line_line;
        assert(request_due(trimmed(lines[at].text), lines[at].host) is None);
    }
}

/// The addresses of the lines, line by line, each line without the white space around it.
pub open spec fn by_read(lines: Seq<StreamLine>) -> Seq<Seq<Ip>> {
    Seq::new(lines.len(), |j: int| text_ips(trimmed(lines[j].text), lines[j].host))
}

/// The addresses of the targets by themselves, target by target.
pub open spec fn by_name(targets: Seq<Seq<char>>, hosts: Seq<HostView>) -> Seq<Seq<Ip>> {
    Seq::new(targets.len(), |i: int| text_ips(targets[i], hosts[i]))
}

/// The addresses of the targets as files that have ended, target by target; one that
/// stands for an address by itself, or that is no file, has none.
pub open spec fn by_opened(targets: Seq<Seq<char>>, told: Transcript) -> Seq<Seq<Ip>> {
    Seq::new(
        targets.len(),
        |i: int|
            match told.files[i] {
                StreamFile::Ended(lines) if text_ips(targets[i], told.arguments[i]).len() == 0 =>
                    by_read(lines).flatten(),
                _ => Seq::empty(),
            },
    )
}

/// The targets before the first that has a lookup due are known, target by target.
proof fn lemma_known_names(targets: Seq<Seq<char>>, hosts: Seq<HostView>, k: int, m: int)
    requires
        0 <= k <= m <= targets.len(),
        names_settled(targets, hosts, m),
        m < targets.len() ==> request_due(targets[m], hosts[m]) is Some,
    ensures
        known_arguments(targets, hosts, k) == by_name(targets, hosts).subrange(k, m).flatten(),
    decreases m - k,
{
    let part = by_name(targets, hosts).subrange(k, m);
    if k < m {
        assert(request_due(targets[k], hosts[k]) is None);
        lemma_known_names(targets, hosts, k + 1, m);
        assert(part.drop_first() =~= by_name(targets, hosts).subrange(k + 1, m));
    } else {
        assert(part =~= Seq::empty());
    }
}

/// The lines before the first that has a lookup due are known, line by line.
proof fn lemma_known_read(lines: Seq<StreamLine>, k: int, m: int)
    requires
        0 <= k <= m <= lines.len(),
        read_settled(lines, m),
        m < lines.len() ==> request_due(trimmed(lines[m].text), lines[m].host) is Some,
    ensures
        known_lines(lines, k) == by_read(lines).subrange(k, m).flatten(),
    decreases m - k,
{
    let part = by_read(lines).subrange(k, m);
    if k < m {
        assert(request_due(trimmed(lines[k].text), lines[k].host) is None);
        lemma_known_read(lines, k + 1, m);
        assert(part.drop_first() =~= by_read(lines).subrange(k + 1, m));
    } else {
        assert(part =~= Seq::empty());
    }
}

/// A target with nothing left to do as a file is known with all its lines.
proof fn lemma_known_settled(targets: Seq<Seq<char>>, told: Transcript, i: int)
    requires
        0 <= i < targets.len(),
        opened_settled(targets[i], told.arguments[i], told.files[i]),
    ensures
        stream_file_due(targets[i], told.arguments[i], told.files[i], i) is None,
        known_file(targets[i], told.arguments[i], told.files[i]) == by_opened(targets, told)[i],
{
    if text_ips(targets[i], told.arguments[i]).len() == 0 {
        if let StreamFile::Ended(lines) = told.files[i] {
            lemma_first_read(lines, 0);
            if let Some((line, request)) = stream_lines_due(lines, 0) {
                assert(request_due(trimmed(lines[line].text), lines[line].host) is None);
            }
            lemma_known_read(lines, 0, lines.len() as int);
            assert(by_read(lines).subrange(0, lines.len() as int) =~= by_read(lines));
        }
    }
}

/// The files before the first with anything left to do are known, target by target, and
/// so is what that one has so far.
proof fn lemma_known_opened(targets: Seq<Seq<char>>, told: Transcript, k: int, m: int)
    requires
        0 <= k <= m <= targets.len(),
        all_opened_settled(targets, told, m),
        m < targets.len() ==> stream_file_due(
            targets[m],
            told.arguments[m],
            told.files[m],
            m,
        ) is Some,
    ensures
        known_files(targets, told, k) == by_opened(targets, told).subrange(k, m).flatten() + if m
            < targets.len() {
            known_file(targets[m], told.arguments[m], told.files[m])
        } else {
            Seq::empty()
        },
    decreases m - k,
{
    let part = by_opened(targets, told).subrange(k, m);
    let tail = if m < targets.len() {
        known_file(targets[m], told.arguments[m], told.files[m])
    } else {
        Seq::empty()
    };
    if k < m {
        lemma_known_settled(targets, told, k);
        lemma_known_opened(targets, told, k + 1, m);
        assert(part.drop_first() =~= by_opened(targets, told).subrange(k + 1, m));
        assert(part[0] + (part.drop_first().flatten() + tail) =~= part.flatten() + tail);
    } else {
        assert(part =~= Seq::empty());
        assert(part.flatten() + tail =~= tail);
    }
}

/// The addresses that are known are those of all that comes before what is due, in order:
/// of each target by itself, target by target; then of each target as a file, target by
/// target and line by line.
pub proof fn law_known_in_order(targets: Seq<Seq<char>>, told: Transcript)
    ensures
        ({
            let names = by_name(targets, told.arguments);
            let files = by_opened(targets, told);
            match stream_due(targets, told) {
                None => known_ips(targets, told) == names.flatten() + files.flatten(),
                Some(StreamNeed::Argument { index, .. }) => known_ips(targets, told) == names.take(
                    index,
                ).flatten(),
                Some(StreamNeed::Open { index, .. }) => known_ips(targets, told) == names.flatten()
                    + files.take(index).flatten(),
                Some(StreamNeed::Read { index }) => known_ips(targets, told) == names.flatten() + (
                files.take(index).flatten() + by_read(told.files[index]->Reading_0).flatten()),
                Some(StreamNeed::Line { index, line, .. }) => match told.files[index] {
                    StreamFile::Reading(lines) => known_ips(targets, told) == names.flatten() + (
                    files.take(index).flatten() + by_read(lines).take(line).flatten()),
                    StreamFile::Ended(lines) => known_ips(targets, told) == names.flatten() + (
                    files.take(index).flatten() + by_read(lines).take(line).flatten()),
                    _ => false,
                },
            }
        }),
{
    law_stream_in_turn(targets, told);
    lemma_first_name(targets, told.arguments, 0);
    let n = targets.len() as int;
    let names = by_name(targets, told.arguments);
    let files = by_opened(targets, told);
    match stream_due(targets, told) {
        None => {
            lemma_known_names(targets, told.arguments, 0, n);
            lemma_known_opened(targets, told, 0, n);
            assert(names.subrange(0, n) =~= names);
            assert(files.subrange(0, n) =~= files);
            assert(files.flatten() + Seq::<Ip>::empty() =~= files.flatten());
        },
        Some(StreamNeed::Argument { index, .. }) => {
            lemma_known_names(targets, told.arguments, 0, index);
            assert(names.subrange(0, index) =~= names.take(index));
            if arguments_due(targets, told.arguments, 0) is None {
                assert(request_due(targets[index], told.arguments[index]) is None);
            }
        },
        Some(StreamNeed::Open { index, .. }) => {
            lemma_known_names(targets, told.arguments, 0, n);
            lemma_known_opened(targets, told, 0, index);
            assert(names.subrange(0, n) =~= names);
            assert(files.subrange(0, index) =~= files.take(index));
            assert(files.take(index).flatten() + Seq::<Ip>::empty() =~= files.take(index).flatten());
        },
        Some(StreamNeed::Read { index }) => {
            let lines = told.files[index]->Reading_0;
            lemma_known_names(targets, told.arguments, 0, n);
            lemma_first_read(lines, 0);
            lemma_known_read(lines, 0, lines.len() as int);
            assert(by_read(lines).subrange(0, lines.len() as int) =~= by_read(lines));
            lemma_known_opened(targets, told, 0, index);
            assert(names.subrange(0, n) =~= names);
            assert(files.subrange(0, index) =~= files.take(index));
        },
        Some(StreamNeed::Line { index, line, .. }) => {
            let lines = match told.files[index] {
                StreamFile::Reading(lines) => lines,
                StreamFile::Ended(lines) => lines,
                _ => Seq::empty(),
            };
            lemma_known_names(targets, told.arguments, 0, n);
            lemma_first_read(lines, 0);
            if stream_lines_due(lines, 0) is None {
                assert(request_due(trimmed(lines[line].text), lines[line].host) is None);
            }
            lemma_known_read(lines, 0, line);
            assert(by_read(lines).subrange(0, line) =~= by_read(lines).take(line));
            lemma_known_opened(targets, told, 0, index);
            assert(names.subrange(0, n) =~= names);
            assert(files.subrange(0, index) =~= files.take(index));
        },
    }
}

/// Some line, without the white space around it, stands for the address.
pub open spec fn on_some_read(lines: Seq<StreamLine>, ip: Ip) -> bool {
    exists|j: int|
        0 <= j < lines.len() && text_ips(
            trimmed((#[trigger] lines[j]).text),
            lines[j].host,
        ).contains(ip)
}

/// A target stands for no address by itself, but a file of its name was read to its end,
/// and a line of it stands for the address.
pub open spec fn read_from(target: Seq<char>, host: HostView, file: StreamFile, ip: Ip) -> bool {
    &&& text_ips(target, host).len() == 0
    &&& file matches StreamFile::Ended(lines)
    &&& on_some_read(lines, ip)
}

/// What is in some of the sequences is in them one behind the other.
proof fn lemma_flatten_contains(parts: Seq<Seq<Ip>>, ip: Ip)
    ensures
        parts.flatten().contains(ip) <==> in_some(parts, ip),
    decreases parts.len(),
{
    if parts.len() > 0 {
        let rest = parts.drop_first();
        let first = parts.first();
        lemma_flatten_contains(rest, ip);
        if first.contains(ip) {
            assert(parts.flatten()[first.index_of(ip)] == ip);
            assert(parts[0].contains(ip));
        }
        if rest.flatten().contains(ip) {
            assert(parts.flatten()[first.len() + rest.flatten().index_of(ip)] == ip);
            let i = choose|i: int| 0 <= i < rest.len() && (#[trigger] rest[i]).contains(ip);
            assert(parts[i + 1].contains(ip));
        }
        if in_some(parts, ip) {
            let i = choose|i: int| 0 <= i < parts.len() && (#[trigger] parts[i]).contains(ip);
            if i > 0 {
                assert(rest[i - 1].contains(ip));
            }
        }
        if parts.flatten().contains(ip) {
            let at = parts.flatten().index_of(ip);
            if at < first.len() {
                assert(first[at] == ip);
            } else {
                assert(rest.flatten()[at - first.len()] == ip);
            }
        }
    }
}

/// A stream that is over has delivered every address that some target stands for, by
/// itself or as a file, and that is not excluded; and nothing else.
pub proof fn law_stream_members(stream: AddressStream, ip: Ip)
    requires
        stream.wf(),
        stream.over(),
    ensures
        in_some(stream.delivered(), ip) <==> {
            &&& {
                ||| exists|i: int|
                    0 <= i < stream.targets().len() && #[trigger] named_by(
                        stream.targets()[i],
                        stream.transcript().arguments[i],
                        ip,
                    )
                ||| exists|i: int|
                    0 <= i < stream.targets().len() && #[trigger] read_from(
                        stream.targets()[i],
                        stream.transcript().arguments[i],
                        stream.transcript().files[i],
                        ip,
                    )
            }
            &&& !covered(stream.excluded(), ip)
        },
{
    let targets = stream.targets();
    let told = stream.transcript();
    let names = by_name(targets, told.arguments);
    let files = by_opened(targets, told);
    law_known_in_order(targets, told);
    law_chunks_members(stream.known(), stream.excluded(), stream.size(), ip);
    lemma_flatten_contains(names, ip);
    lemma_flatten_contains(files, ip);
    let a = names.flatten();
    let b = files.flatten();
    if (a + b).contains(ip) {
        let at = (a + b).index_of(ip);
        if at < a.len() {
            assert(a[at] == ip);
        } else {
            assert(b[at - a.len()] == ip);
        }
    }
    if a.contains(ip) {
        assert((a + b)[a.index_of(ip)] == ip);
    }
    if b.contains(ip) {
        assert((a + b)[a.len() + b.index_of(ip)] == ip);
    }
    assert forall|i: int| 0 <= i < targets.len() implies (#[trigger] names[i]).contains(ip)
        == named_by(targets[i], told.arguments[i], ip) by {}
    assert forall|i: int| 0 <= i < targets.len() implies (#[trigger] files[i]).contains(ip)
        == read_from(targets[i], told.arguments[i], told.files[i], ip) by {
        if let StreamFile::Ended(lines) = told.files[i] {
            lemma_flatten_contains(by_read(lines), ip);
            assert forall|j: int| 0 <= j < lines.len() implies (#[trigger] by_read(
                lines,
            )[j]).contains(ip) == text_ips(trimmed(lines[j].text), lines[j].host).contains(ip) by {}
            if on_some_read(lines, ip) {
                let j = choose|j: int|
                    0 <= j < lines.len() && text_ips(
                        trimmed((#[trigger] lines[j]).text),
                        lines[j].host,
                    ).contains(ip);
                assert(by_read(lines)[j].contains(ip));
            }
            if in_some(by_read(lines), ip) {
                let j = choose|j: int|
                    0 <= j < by_read(lines).len() && (#[trigger] by_read(lines)[j]).contains(ip);
                assert(text_ips(trimmed(lines[j].text), lines[j].host).contains(ip));
            }
        }
    }
    if in_some(names, ip) {
        let i = choose|i: int| 0 <= i < names.len() && (#[trigger] names[i]).contains(ip);
        assert(named_by(targets[i], told.arguments[i], ip));
    }
    if exists|i: int| 0 <= i < targets.len() && #[trigger] named_by(targets[i], told.arguments[i], ip) {
        let i = choose|i: int|
            0 <= i < targets.len() && #[trigger] named_by(targets[i], told.arguments[i], ip);
        assert(names[i].contains(ip));
    }
    if in_some(files, ip) {
        let i = choose|i: int| 0 <= i < files.len() && (#[trigger] files[i]).contains(ip);
        assert(read_from(targets[i], told.arguments[i], told.files[i], ip));
    }
    if exists|i: int|
        0 <= i < targets.len() && #[trigger] read_from(
            targets[i],
            told.arguments[i],
            told.files[i],
            ip,
        ) {
        let i = choose|i: int|
            0 <= i < targets.len() && #[trigger] read_from(
                targets[i],
                told.arguments[i],
                told.files[i],
                ip,
            );
        assert(files[i].contains(ip));
    }
}

/// At any time, a chunk that a stream has delivered holds at least one address and no more
/// than were asked for, none of them twice and none that is excluded.
pub proof fn law_stream_chunk(stream: AddressStream, i: int)
    requires
        stream.wf(),
        0 <= i < stream.delivered().len(),
    ensures
        0 < stream.delivered()[i].len(),
        stream.size() >= 1 ==> stream.delivered()[i].len() <= stream.size(),
        stream.size() == 0 ==> stream.delivered()[i].len() == 1,
        stream.delivered()[i].no_duplicates(),
        forall|k: int|
            0 <= k < stream.delivered()[i].len() ==> !covered(
                stream.excluded(),
                #[trigger] stream.delivered()[i][k],
            ),
{
    let cut = chunking(stream.offered(), stream.excluded(), stream.size());
    lemma_chunking(stream.offered(), stream.excluded(), stream.size());
    if i < cut.full.len() {
        assert(stream.delivered()[i] == cut.full[i]);
        assert(clean(cut.full[i], stream.offered(), stream.excluded()));
    }
}

/// At any time, what a stream has taken up is the front part of what is known, and it has
/// delivered the chunks that this part fills; once it is over, that is all that is known,
/// and the last chunk was delivered too, full or not.
pub proof fn law_stream_keeps_pace(stream: AddressStream)
    requires
        stream.wf(),
    ensures
        ({
            let known = known_ips(stream.targets(), stream.transcript());
            &&& stream.offered().len() <= known.len()
            &&& stream.offered() == known.take(stream.offered().len() as int)
            &&& !stream.over() ==> stream.delivered() == chunking(
                stream.offered(),
                stream.excluded(),
                stream.size(),
            ).full
            &&& stream.over() ==> stream_due(stream.targets(), stream.transcript()) is None
                && stream.delivered() == chunks(known, stream.excluded(), stream.size())
        }),
{
}

/// At any time, no chunk that a stream has delivered holds an address that an exclusion
/// holds, whichever exclusion that is.
pub proof fn law_stream_excludes(
    stream: AddressStream,
    exclusions: Seq<Seq<char>>,
    hosts: Seq<HostView>,
    i: int,
    ip: Ip,
)
    requires
        stream.wf(),
        stream.excluded() == excluded_nets(exclusions, hosts, exclusions.len()),
        0 <= i < exclusions.len(),
        holds(exclusions[i], hosts[i], ip),
    ensures
        !in_some(stream.delivered(), ip),
{
    law_excluded_addresses(exclusions, hosts, ip);
    if in_some(stream.delivered(), ip) {
        let k = choose|k: int|
            0 <= k < stream.delivered().len() && (#[trigger] stream.delivered()[k]).contains(ip);
        law_stream_chunk(stream, k);
        let at = stream.delivered()[k].index_of(ip);
        assert(!covered(stream.excluded(), stream.delivered()[k][at]));
    }
}

/// Outside work is asked for just when it is due, and only once every address that is
/// known was taken up and every chunk that they fill was delivered.
pub proof fn law_stream_asks(stream: AddressStream, action: Action)
    requires
        stream.wf(),
        stream.asks(action),
        !(action is Finished),
    ensures
        match action {
            Action::Lookup(request) => match stream.due() {
                Some(StreamNeed::Argument { request: due, .. }) => due == request@,
                Some(StreamNeed::Line { request: due, .. }) => due == request@,
                _ => false,
            },
            Action::Open(path) => stream.due() matches Some(StreamNeed::Open { path: due, .. })
                && due == path@,
            Action::Read => stream.due() matches Some(StreamNeed::Read { .. }),
            _ => false,
        },
        stream.due() == stream_due(stream.targets(), stream.transcript()),
        stream.offered() == known_ips(stream.targets(), stream.transcript()),
        stream.delivered() == chunking(
            stream.offered(),
            stream.excluded(),
            stream.size(),
        ).full,
        chunking(stream.offered(), stream.excluded(), stream.size()).rest.len()
            < filling(stream.size()),
{
    law_pending_bounded(stream.offered(), stream.excluded(), stream.size());
}

/// The stream is over only when nothing is left to do and all that is known was delivered.
/// The total is then the number of addresses in all the chunks that were delivered; it is
/// missing only where no machine word holds it.
pub proof fn law_stream_finishes(stream: AddressStream, total: Option<usize>)
    requires
        stream.wf(),
        stream.asks(Action::Finished(total)),
    ensures
        stream_due(stream.targets(), stream.transcript()) is None,
        stream.delivered() == chunks(
            known_ips(stream.targets(), stream.transcript()),
            stream.excluded(),
            stream.size(),
        ),
        total matches Some(total) ==> total == stream.delivered().flatten().len(),
        total is None <==> stream.delivered().flatten().len() > usize::MAX,
{
    law_count(stream.delivered());
    law_held(count(stream.delivered()));
}

} // verus!
