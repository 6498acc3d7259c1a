//! The addresses to scan as a stream of chunks, for inputs that are too large to hold.
use vstd::prelude::*;

use crate::address::{
    argument_ips, arguments_due, excluded_nets, exclusions_due, host_views,
    parse_excluded_networks, Need, NeedView,
};
use crate::chunk::{capacity, chunking, chunks, count, held, Chunker};
use crate::input::Opts;
use crate::ip::{Ip, Net};
use crate::lookup::{
    found_view, host_len, host_within, is_literal, lemma_literal_nonempty, recorded, request_due,
    text_ips, unasked, walk_text, AnswerView, HostAnswers, HostView, Request, RequestView,
};
use crate::text::{strings, trim_text, trimmed};
use crate::walk::Walk;

verus! {

/// How many addresses make a chunk full, unless the caller says otherwise.
pub const STREAM_CHUNK_SIZE: usize = 65_536;

/// A line of a file, together with what is known of the name on it.
pub struct StreamLine {
    /// What the line holds, white space and all.
    pub text: Seq<char>,
    /// What is known of the name.
    pub host: HostView,
}

/// What is known of a target as a file.
pub enum StreamFile {
    /// Nobody has looked yet.
    Unopened,
    /// There is no such file, or it could not be opened.
    Absent,
    /// The file is open; these lines were read.
    Reading(Seq<StreamLine>),
    /// The file was read to its end, or to a line that could not be read.
    Ended(Seq<StreamLine>),
}

/// All that the stream was told.
pub struct Transcript {
    /// For each target, what is known of it as a name.
    pub arguments: Seq<HostView>,
    /// For each target, what is known of it as a file.
    pub files: Seq<StreamFile>,
}

/// Work that has to be done outside before the stream can go on.
pub enum StreamNeed {
    /// A lookup for a target.
    Argument {
        /// Which target.
        index: int,
        /// The lookup.
        request: RequestView,
    },
    /// A target has to be opened as a file.
    Open {
        /// Which target.
        index: int,
        /// The file's path.
        path: Seq<char>,
    },
    /// The next line of a file has to be read.
    Read {
        /// Which target is the file.
        index: int,
    },
    /// A lookup for a line of a file.
    Line {
        /// Which target is the file.
        index: int,
        /// Which line of it.
        line: int,
        /// The lookup.
        request: RequestView,
    },
}

/// The addresses that the targets from the `k`-th on stand for, up to the first for
/// which a lookup is due.
pub open spec fn known_arguments(
    targets: Seq<Seq<char>>,
    hosts: Seq<HostView>,
    k: int,
) -> Seq<Ip>
    decreases targets.len() - k,
{
    if k >= targets.len() || request_due(targets[k], hosts[k]) is Some {
        Seq::empty()
    } else {
        text_ips(targets[k], hosts[k]) + known_arguments(targets, hosts, k + 1)
    }
}

/// The lookup that is due for a line, which counts without the white space around it.
pub open spec fn stream_line_due(line: StreamLine) -> Option<RequestView> {
    request_due(trimmed(line.text), line.host)
}

/// The addresses that a line stands for, once no lookup is due.
pub open spec fn stream_line_ips(line: StreamLine) -> Seq<Ip> {
    text_ips(trimmed(line.text), line.host)
}

/// The first line from the `k`-th on for which a lookup is due.
pub open spec fn stream_lines_due(lines: Seq<StreamLine>, k: int) -> Option<(int, RequestView)>
    decreases lines.len() - k,
{
    if k >= lines.len() {
        None
    } else {
        match stream_line_due(lines[k]) {
            Some(request) => Some((k, request)),
            None => stream_lines_due(lines, k + 1),
        }
    }
}

/// The addresses that the lines from the `k`-th on stand for, up to the first for which
/// a lookup is due.
pub open spec fn known_lines(lines: Seq<StreamLine>, k: int) -> Seq<Ip>
    decreases lines.len() - k,
{
    if k >= lines.len() || stream_line_due(lines[k]) is Some {
        Seq::empty()
    } else {
        stream_line_ips(lines[k]) + known_lines(lines, k + 1)
    }
}

/// What is due for a target as a file. Only a target that stands for no address by
/// itself is read as one.
pub open spec fn stream_file_due(
    target: Seq<char>,
    host: HostView,
    file: StreamFile,
    index: int,
) -> Option<StreamNeed> {
    if text_ips(target, host).len() > 0 {
        None
    } else {
        match file {
            StreamFile::Unopened => Some(StreamNeed::Open { index, path: target }),
            StreamFile::Absent => None,
            StreamFile::Reading(lines) => match stream_lines_due(lines, 0) {
                Some((line, request)) => Some(StreamNeed::Line { index, line, request }),
                None => Some(StreamNeed::Read { index }),
            },
            StreamFile::Ended(lines) => match stream_lines_due(lines, 0) {
                Some((line, request)) => Some(StreamNeed::Line { index, line, request }),
                None => None,
            },
        }
    }
}

/// The addresses that are known from a target as a file.
pub open spec fn known_file(target: Seq<char>, host: HostView, file: StreamFile) -> Seq<Ip> {
    if text_ips(target, host).len() > 0 {
        Seq::empty()
    } else {
        match file {
            StreamFile::Unopened => Seq::empty(),
            StreamFile::Absent => Seq::empty(),
            StreamFile::Reading(lines) => known_lines(lines, 0),
            StreamFile::Ended(lines) => known_lines(lines, 0),
        }
    }
}

/// What is due for the first target from the `k`-th on that has anything due as a file.
pub open spec fn stream_files_due(
    targets: Seq<Seq<char>>,
    told: Transcript,
    k: int,
) -> Option<StreamNeed>
    decreases targets.len() - k,
{
    if k >= targets.len() {
        None
    } else {
        match stream_file_due(targets[k], told.arguments[k], told.files[k], k) {
            Some(need) => Some(need),
            None => stream_files_due(targets, told, k + 1),
        }
    }
}

/// The addresses that are known from the targets from the `k`-th on as files, up to the
/// first of them that has anything due.
pub open spec fn known_files(targets: Seq<Seq<char>>, told: Transcript, k: int) -> Seq<Ip>
    decreases targets.len() - k,
{
    if k >= targets.len() {
        Seq::empty()
    } else if stream_file_due(targets[k], told.arguments[k], told.files[k], k) is Some {
        known_file(targets[k], told.arguments[k], told.files[k])
    } else {
        known_file(targets[k], told.arguments[k], told.files[k]) + known_files(targets, told, k + 1)
    }
}

/// What is due next: lookups for the targets, then the targets as files, line by line.
pub open spec fn stream_due(targets: Seq<Seq<char>>, told: Transcript) -> Option<StreamNeed> {
    match arguments_due(targets, told.arguments, 0) {
        Some(NeedView::Argument { index, request }) => Some(
            StreamNeed::Argument { index, request },
        ),
        _ => stream_files_due(targets, told, 0),
    }
}

/// The addresses that are known before anything else is done, in the order in which
/// they count.
pub open spec fn known_ips(targets: Seq<Seq<char>>, told: Transcript) -> Seq<Ip> {
    if arguments_due(targets, told.arguments, 0) is Some {
        known_arguments(targets, told.arguments, 0)
    } else {
        known_arguments(targets, told.arguments, 0) + known_files(targets, told, 0)
    }
}

/// No lookup for a line gave more than `n` addresses.
pub open spec fn lines_within(lines: Seq<StreamLine>, n: nat) -> bool {
    forall|j: int| 0 <= j < lines.len() ==> host_within((#[trigger] lines[j]).host, n)
}

/// No lookup for a line of a file gave more than `n` addresses.
pub open spec fn file_within(file: StreamFile, n: nat) -> bool {
    match file {
        StreamFile::Reading(lines) => lines_within(lines, n),
        StreamFile::Ended(lines) => lines_within(lines, n),
        _ => true,
    }
}

/// No lookup that the stream was told of gave more than `n` addresses.
pub open spec fn answers_within(told: Transcript, n: nat) -> bool {
    &&& forall|i: int|
        0 <= i < told.arguments.len() ==> host_within(#[trigger] told.arguments[i], n)
    &&& forall|i: int| 0 <= i < told.files.len() ==> file_within(#[trigger] told.files[i], n)
}

/// Nothing was told yet.
pub open spec fn untold(targets: Seq<Seq<char>>) -> Transcript {
    Transcript {
        arguments: Seq::new(targets.len(), |i: int| unasked()),
        files: Seq::new(targets.len(), |i: int| StreamFile::Unopened),
    }
}

/// What is on record after a lookup, if a lookup was due.
pub open spec fn told_answer(
    told: Transcript,
    due: Option<StreamNeed>,
    found: Option<Seq<Ip>>,
) -> Transcript {
    match due {
        Some(StreamNeed::Argument { index, request }) => Transcript {
            arguments: told.arguments.update(
                index,
                recorded(told.arguments[index], request, found),
            ),
            ..told
        },
        Some(StreamNeed::Line { index, line, request }) => match told.files[index] {
            StreamFile::Reading(lines) => Transcript {
                files: told.files.update(
                    index,
                    StreamFile::Reading(
                        lines.update(
                            line,
                            StreamLine {
                                text: lines[line].text,
                                host: recorded(lines[line].host, request, found),
                            },
                        ),
                    ),
                ),
                ..told
            },
            _ => told,
        },
        _ => told,
    }
}

/// What is on record after a file was opened or not, if one had to be.
pub open spec fn told_opened(
    told: Transcript,
    due: Option<StreamNeed>,
    opened: bool,
) -> Transcript {
    match due {
        Some(StreamNeed::Open { index, path }) => Transcript {
            files: told.files.update(
                index,
                if opened {
                    StreamFile::Reading(Seq::empty())
                } else {
                    StreamFile::Absent
                },
            ),
            ..told
        },
        _ => told,
    }
}

/// What came of reading a line.
#[derive(Debug)]
pub enum LineRead {
    /// The line's text.
    Text(String),
    /// The line could not be read as text.
    Unreadable,
    /// There is no further line.
    End,
}

/// What is on record after a line was read, if one had to be. A line that cannot be
/// read ends the file.
pub open spec fn told_line(
    told: Transcript,
    due: Option<StreamNeed>,
    line: LineRead,
) -> Transcript {
    match due {
        Some(StreamNeed::Read { index }) => match told.files[index] {
            StreamFile::Reading(lines) => Transcript {
                files: told.files.update(
                    index,
                    match line {
                        LineRead::Text(text) => StreamFile::Reading(
                            lines.push(StreamLine { text: text@, host: unasked() }),
                        ),
                        _ => StreamFile::Ended(lines),
                    },
                ),
                ..told
            },
            _ => told,
        },
        _ => told,
    }
}

/// What the caller has to do next.
#[derive(Debug)]
pub enum Action {
    /// Take a chunk of addresses.
    Deliver(Vec<Ip>),
    /// Make a lookup and report it with [`AddressStream::answer`].
    Lookup(Request),
    /// Open the file at this path and report it with [`AddressStream::opened`].
    Open(String),
    /// Read a line of the file that was opened last and report it with
    /// [`AddressStream::line`].
    Read,
    /// Nothing: the stream is over. The total of the addresses that were delivered is
    /// given where it is small enough to be held.
    Finished(Option<usize>),
}

/// The addresses that the first `n` lines stand for, one line after the other.
pub open spec fn stream_lines_ips(lines: Seq<StreamLine>, n: nat) -> Seq<Ip>
    decreases n,
{
    if n == 0 {
        Seq::empty()
    } else {
        stream_lines_ips(lines, (n - 1) as nat) + stream_line_ips(lines[n - 1])
    }
}

/// The addresses that are known from the first `n` targets as files, one after the
/// other.
pub open spec fn stream_files_ips(
    targets: Seq<Seq<char>>,
    told: Transcript,
    n: nat,
) -> Seq<Ip>
    decreases n,
{
    if n == 0 {
        Seq::empty()
    } else {
        stream_files_ips(targets, told, (n - 1) as nat) + known_file(
            targets[n - 1],
            told.arguments[n - 1],
            told.files[n - 1],
        )
    }
}

/// No lookup is due for the first `n` targets.
spec fn arguments_settled(targets: Seq<Seq<char>>, hosts: Seq<HostView>, n: int) -> bool {
    forall|i: int| 0 <= i < n ==> request_due(#[trigger] targets[i], hosts[i]) is None
}

/// No lookup is due for the first `n` lines.
spec fn lines_settled(lines: Seq<StreamLine>, n: int) -> bool {
    forall|i: int| 0 <= i < n ==> stream_line_due(#[trigger] lines[i]) is None
}

/// Nothing is due for the first `n` targets as files.
spec fn files_settled(targets: Seq<Seq<char>>, told: Transcript, n: int) -> bool {
    forall|i: int|
        0 <= i < n ==> stream_file_due(
            #[trigger] targets[i],
            told.arguments[i],
            told.files[i],
            i,
        ) is None
}

/// Nobody has looked at the targets from the `n`-th on as files.
spec fn unopened_from(files: Seq<StreamFile>, n: int) -> bool {
    forall|i: int| n <= i < files.len() ==> #[trigger] files[i] == StreamFile::Unopened
}

/// A target that spells an address or a network was neither looked up nor opened.
spec fn literals_untouched(targets: Seq<Seq<char>>, told: Transcript) -> bool {
    forall|i: int|
        0 <= i < targets.len() && is_literal(#[trigger] targets[i]) ==> told.arguments[i]
            == unasked() && told.files[i] == StreamFile::Unopened
}

/// A name was looked up in one way after the other, each only where the one before it
/// failed.
spec fn asked_in_turn(host: HostView) -> bool {
    &&& host.verbatim == AnswerView::Pending || host.system == AnswerView::Failed
    &&& host.dedicated == AnswerView::Pending || host.system == AnswerView::Failed
        && host.verbatim == AnswerView::Failed
}

/// The flags say which of the first targets stand for no address by themselves.
spec fn flags_right(
    flags: Seq<bool>,
    targets: Seq<Seq<char>>,
    hosts: Seq<HostView>,
) -> bool {
    forall|i: int|
        0 <= i < flags.len() ==> (#[trigger] flags[i] <==> text_ips(targets[i], hosts[i]).len()
            == 0)
}

/// Targets that are settled can be taken off the front.
proof fn lemma_arguments(targets: Seq<Seq<char>>, hosts: Seq<HostView>, n: nat)
    requires
        n <= targets.len(),
        arguments_settled(targets, hosts, n as int),
    ensures
        arguments_due(targets, hosts, 0) == arguments_due(targets, hosts, n as int),
        known_arguments(targets, hosts, 0) == argument_ips(targets, hosts, n) + known_arguments(
            targets,
            hosts,
            n as int,
        ),
    decreases n,
{
    if n == 0 {
        assert(argument_ips(targets, hosts, 0) + known_arguments(targets, hosts, 0)
            =~= known_arguments(targets, hosts, 0));
    } else {
        lemma_arguments(targets, hosts, (n - 1) as nat);
        let last = targets[n - 1];
        assert(request_due(last, hosts[n - 1]) is None);
        assert(argument_ips(targets, hosts, n) + known_arguments(targets, hosts, n as int)
            =~= argument_ips(targets, hosts, (n - 1) as nat) + (text_ips(last, hosts[n - 1])
            + known_arguments(targets, hosts, n as int)));
    }
}

/// Lines that are settled can be taken off the front.
proof fn lemma_lines(lines: Seq<StreamLine>, n: nat)
    requires
        n <= lines.len(),
        lines_settled(lines, n as int),
    ensures
        stream_lines_due(lines, 0) == stream_lines_due(lines, n as int),
        known_lines(lines, 0) == stream_lines_ips(lines, n) + known_lines(lines, n as int),
    decreases n,
{
    if n == 0 {
        assert(stream_lines_ips(lines, 0) + known_lines(lines, 0) =~= known_lines(lines, 0));
    } else {
        lemma_lines(lines, (n - 1) as nat);
        let last = lines[n - 1];
        assert(stream_line_due(last) is None);
        assert(stream_lines_ips(lines, n) + known_lines(lines, n as int) =~= stream_lines_ips(
            lines,
            (n - 1) as nat,
        ) + (stream_line_ips(last) + known_lines(lines, n as int)));
    }
}

/// Files that are settled can be taken off the front.
proof fn lemma_files(targets: Seq<Seq<char>>, told: Transcript, n: nat)
    requires
        n <= targets.len(),
        files_settled(targets, told, n as int),
    ensures
        stream_files_due(targets, told, 0) == stream_files_due(targets, told, n as int),
        known_files(targets, told, 0) == stream_files_ips(targets, told, n) + known_files(
            targets,
            told,
            n as int,
        ),
    decreases n,
{
    if n == 0 {
        assert(stream_files_ips(targets, told, 0) + known_files(targets, told, 0) =~= known_files(
            targets,
            told,
            0,
        ));
    } else {
        lemma_files(targets, told, (n - 1) as nat);
        let last = targets[n - 1];
        let host = told.arguments[n - 1];
        let file = told.files[n - 1];
        assert(stream_file_due(last, host, file, n - 1) is None);
        assert(stream_files_ips(targets, told, n) + known_files(targets, told, n as int)
            =~= stream_files_ips(targets, told, (n - 1) as nat) + (known_file(last, host, file)
            + known_files(targets, told, n as int)));
    }
}

/// What is known of later targets does not matter for earlier ones.
proof fn lemma_argument_ips_agree(
    targets: Seq<Seq<char>>,
    hosts: Seq<HostView>,
    others: Seq<HostView>,
    n: nat,
)
    requires
        forall|i: int| 0 <= i < n ==> hosts[i] == others[i],
    ensures
        argument_ips(targets, hosts, n) == argument_ips(targets, others, n),
    decreases n,
{
    if n > 0 {
        lemma_argument_ips_agree(targets, hosts, others, (n - 1) as nat);
    }
}

/// Later lines do not matter for earlier ones.
proof fn lemma_lines_ips_agree(lines: Seq<StreamLine>, others: Seq<StreamLine>, n: nat)
    requires
        forall|i: int| 0 <= i < n ==> lines[i] == others[i],
    ensures
        stream_lines_ips(lines, n) == stream_lines_ips(others, n),
    decreases n,
{
    if n > 0 {
        lemma_lines_ips_agree(lines, others, (n - 1) as nat);
    }
}

/// Later files do not matter for earlier ones.
proof fn lemma_files_ips_agree(
    targets: Seq<Seq<char>>,
    told: Transcript,
    other: Transcript,
    n: nat,
)
    requires
        told.arguments == other.arguments,
        forall|i: int| 0 <= i < n ==> told.files[i] == other.files[i],
    ensures
        stream_files_ips(targets, told, n) == stream_files_ips(targets, other, n),
    decreases n,
{
    if n > 0 {
        lemma_files_ips_agree(targets, told, other, (n - 1) as nat);
    }
}

/// How far the stream has come.
enum Stage {
    /// The targets before `index` are through; this is known of the one at `index`.
    Argument { index: usize, host: HostAnswers },
    /// The targets before `index` are through as files too.
    Open { index: usize },
    /// The file at `index` is open, and its lines so far are through.
    Read { index: usize },
    /// The file at `index` is open, and this is known of its last line.
    Line { index: usize, text: String, host: HostAnswers },
    /// Everything is through, and the last chunk was delivered.
    Over,
}

/// The addresses to scan as a stream of chunks. Of the addresses, no more than the chunk
/// that is being filled, those that its duplicates are told by, and the answer to one
/// lookup are held from one call to the next; a network is walked address by address.
///
/// [`AddressStream::next`] says what to do; where that is outside work, its outcome is
/// reported before the next call.
pub struct AddressStream {
    addresses: Vec<String>,
    chunker: Chunker,
    walk: Walk,
    stage: Stage,
    unresolved: Vec<bool>,
    waiting: bool,
    transcript: Ghost<Transcript>,
}

impl AddressStream {
    /// The texts that name what to scan.
    pub closed spec fn targets(self) -> Seq<Seq<char>> {
        strings(self.addresses@)
    }

    /// The networks that are left out.
    pub closed spec fn excluded(self) -> Seq<Net> {
        self.chunker.excluded()
    }

    /// How many addresses make a chunk full.
    pub closed spec fn size(self) -> nat {
        self.chunker.size()
    }

    /// All that the stream was told.
    pub closed spec fn transcript(self) -> Transcript {
        self.transcript@
    }

    /// The addresses that went into chunks so far, or were dropped on the way there.
    pub closed spec fn offered(self) -> Seq<Ip> {
        self.chunker.offered()
    }

    /// The chunks that were delivered so far.
    pub closed spec fn delivered(self) -> Seq<Seq<Ip>> {
        self.chunker.delivered()
    }

    /// How many addresses the answers that are being worked on hold.
    spec fn answered(self) -> nat {
        match self.stage {
            Stage::Argument { host, .. } => host_len(host@),
            Stage::Line { host, .. } => host_len(host@),
            _ => 0,
        }
    }

    /// How many addresses the stream holds: those in the chunk that is being filled,
    /// those that duplicates are told by, those that are being walked over, and those in
    /// the answers that are being worked on.
    pub closed spec fn held(self) -> nat {
        self.chunker.held() + self.walk.stored() + self.answered()
    }

    /// Whether the last action was outside work that has not been reported yet.
    pub closed spec fn waiting(self) -> bool {
        self.waiting
    }

    /// Whether the last chunk was delivered.
    pub closed spec fn over(self) -> bool {
        self.stage is Over
    }

    /// What is due next.
    pub open spec fn due(self) -> Option<StreamNeed> {
        stream_due(self.targets(), self.transcript())
    }

    /// The addresses that are known so far.
    pub open spec fn known(self) -> Seq<Ip> {
        known_ips(self.targets(), self.transcript())
    }

    /// Everything but what the chunks, the walk and the stage hold is as in another
    /// stream.
    spec fn same_input(self, other: AddressStream) -> bool {
        &&& self.addresses == other.addresses
        &&& self.chunker.excluded() == other.chunker.excluded()
        &&& self.chunker.size() == other.chunker.size()
        &&& self.transcript == other.transcript
    }

    /// What the stage says holds of what was told and of what was offered.
    pub closed spec fn inv(self) -> bool {
        let targets = strings(self.addresses@);
        let told = self.transcript@;
        let n = targets.len();
        let hosts = told.arguments;
        let files = told.files;
        let taken = self.chunker.offered() + self.walk.remaining();
        &&& hosts.len() == n
        &&& files.len() == n
        &&& self.walk.wf()
        &&& !(self.stage is Over) ==> self.chunker.open()
        &&& self.waiting ==> self.walk.remaining().len() == 0
        &&& literals_untouched(targets, told)
        &&& flags_right(self.unresolved@, targets, hosts)
        &&& !(self.stage is Argument) ==> self.unresolved@.len() == n
        &&& self.walk.remaining().len() == 0 || self.answered() == 0
        &&& forall|most: nat|
            most >= 1 && #[trigger] answers_within(told, most) ==> self.walk.stored() <= most
        &&& match self.stage {
            Stage::Argument { index, host } => {
                &&& index <= n
                &&& arguments_settled(targets, hosts, index as int)
                &&& index < n ==> hosts[index as int] == host@
                &&& forall|i: int| index < i < n ==> #[trigger] hosts[i] == unasked()
                &&& index < n || host@ == unasked()
                &&& asked_in_turn(host@)
                &&& self.unresolved@.len() == index
                &&& unopened_from(files, 0)
                &&& taken == argument_ips(targets, hosts, index as nat)
                &&& self.waiting ==> index < n && request_due(
                    targets[index as int],
                    host@,
                ) is Some
            },
            Stage::Open { index } => {
                &&& index <= n
                &&& arguments_settled(targets, hosts, n as int)
                &&& files_settled(targets, told, index as int)
                &&& unopened_from(files, index as int)
                &&& taken == argument_ips(targets, hosts, n) + stream_files_ips(
                    targets,
                    told,
                    index as nat,
                )
                &&& self.waiting ==> index < n && text_ips(
                    targets[index as int],
                    hosts[index as int],
                ).len() == 0
            },
            Stage::Read { index } => {
                &&& index < n
                &&& arguments_settled(targets, hosts, n as int)
                &&& files_settled(targets, told, index as int)
                &&& unopened_from(files, index + 1)
                &&& text_ips(targets[index as int], hosts[index as int]).len() == 0
                &&& files[index as int] matches StreamFile::Reading(lines)
                &&& lines_settled(lines, lines.len() as int)
                &&& taken == argument_ips(targets, hosts, n) + stream_files_ips(
                    targets,
                    told,
                    index as nat,
                ) + stream_lines_ips(lines, lines.len())
            },
            Stage::Line { index, text, host } => {
                &&& index < n
                &&& arguments_settled(targets, hosts, n as int)
                &&& files_settled(targets, told, index as int)
                &&& unopened_from(files, index + 1)
                &&& text_ips(targets[index as int], hosts[index as int]).len() == 0
                &&& files[index as int] matches StreamFile::Reading(lines)
                &&& lines.len() > 0
                &&& lines_settled(lines, lines.len() - 1)
                &&& lines.last().host == host@
                &&& asked_in_turn(host@)
                &&& trimmed(lines.last().text) == text@
                &&& taken == argument_ips(targets, hosts, n) + stream_files_ips(
                    targets,
                    told,
                    index as nat,
                ) + stream_lines_ips(lines, (lines.len() - 1) as nat)
                &&& self.waiting ==> request_due(text@, host@) is Some
            },
            Stage::Over => {
                &&& arguments_settled(targets, hosts, n as int)
                &&& files_settled(targets, told, n as int)
                &&& self.walk.remaining().len() == 0
                &&& taken == argument_ips(targets, hosts, n) + stream_files_ips(targets, told, n)
                &&& self.chunker.inv()
                &&& self.chunker.held() == 0
                &&& self.chunker.delivered() == chunks(
                    self.chunker.offered(),
                    self.chunker.excluded(),
                    self.chunker.size(),
                )
                &&& !self.waiting
            },
        }
    }

    /// What was offered so far comes first among what is known. While the stream waits,
    /// all that is known was offered. Every full chunk was delivered, and once the
    /// stream is over, so was the last one.
    pub open spec fn wf(self) -> bool {
        &&& self.inv()
        &&& self.offered().is_prefix_of(self.known())
        &&& self.waiting() ==> self.due() is Some && self.offered() == self.known()
        &&& if self.over() {
            &&& self.due() is None
            &&& self.offered() == self.known()
            &&& self.delivered() == chunks(self.offered(), self.excluded(), self.size())
        } else {
            self.delivered() == chunking(self.offered(), self.excluded(), self.size()).full
        }
    }

    /// The stage determines what is due and what is known.
    proof fn lemma_stage(self)
        requires
            self.inv(),
        ensures
            self.wf(),
            match self.stage {
                Stage::Argument { index, host } => {
                    self.waiting ==> self.due() == Some(
                        StreamNeed::Argument {
                            index: index as int,
                            request: request_due(self.targets()[index as int], host@)->0,
                        },
                    )
                },
                Stage::Open { index } => {
                    self.waiting ==> self.due() == Some(
                        StreamNeed::Open {
                            index: index as int,
                            path: self.targets()[index as int],
                        },
                    )
                },
                Stage::Read { index } => self.due() == Some(StreamNeed::Read { index: index as int }),
                Stage::Line { index, text, host } => {
                    self.waiting ==> self.due() == Some(
                        StreamNeed::Line {
                            index: index as int,
                            line: self.transcript@.files[index as int]->Reading_0.len() - 1,
                            request: request_due(text@, host@)->0,
                        },
                    )
                },
                Stage::Over => true,
            },
    {
        let targets = strings(self.addresses@);
        let told = self.transcript@;
        let hosts = told.arguments;
        let files = told.files;
        let n = targets.len();
        let offered = self.chunker.offered();
        let remaining = self.walk.remaining();
        let known = self.known();
        if !(self.stage is Over) {
            self.chunker.lemma_open();
        }
        if remaining.len() == 0 {
            assert(offered + remaining =~= offered);
        }
        match self.stage {
            Stage::Argument { index, host } => {
                lemma_arguments(targets, hosts, index as nat);
                let tail = known_arguments(targets, hosts, index as int);
                let more = if arguments_due(targets, hosts, 0) is Some {
                    Seq::<Ip>::empty()
                } else {
                    known_files(targets, told, 0)
                };
                assert(known =~= (offered + remaining) + (tail + more));
                assert(known.subrange(0, offered.len() as int) =~= offered);
            },
            Stage::Open { index } => {
                lemma_arguments(targets, hosts, n);
                lemma_files(targets, told, index as nat);
                let tail = known_files(targets, told, index as int);
                assert(known =~= (offered + remaining) + tail);
                assert(known.subrange(0, offered.len() as int) =~= offered);
            },
            Stage::Read { index } => {
                let lines = files[index as int]->Reading_0;
                lemma_arguments(targets, hosts, n);
                lemma_files(targets, told, index as nat);
                lemma_lines(lines, lines.len());
                assert(known =~= offered + remaining);
                assert(known.subrange(0, offered.len() as int) =~= offered);
            },
            Stage::Line { index, text, host } => {
                let lines = files[index as int]->Reading_0;
                lemma_arguments(targets, hosts, n);
                lemma_files(targets, told, index as nat);
                lemma_lines(lines, (lines.len() - 1) as nat);
                let tail = known_lines(lines, lines.len() - 1);
                assert(known_files(targets, told, index as int) == known_lines(lines, 0));
                assert(known =~= (offered + remaining) + tail);
                assert(known.subrange(0, offered.len() as int) =~= offered);
            },
            Stage::Over => {
                lemma_arguments(targets, hosts, n);
                lemma_files(targets, told, n);
            },
        }
    }

    /// Where no lookup gave more than `most` addresses, the stream holds at most two full
    /// chunks and as many addresses as that.
    pub proof fn lemma_held(self, most: nat)
        requires
            self.wf(),
            most >= 1,
            answers_within(self.transcript(), most),
        ensures
            self.held() <= 2 * capacity(self.size()) + most,
    {
        let told = self.transcript@;
        if !(self.stage is Over) {
            self.chunker.lemma_open();
        }
        if self.walk.remaining().len() == 0 {
            self.walk.lemma_end();
        }
        match self.stage {
            Stage::Argument { index, host } => {
                if index < told.arguments.len() {
                    assert(host_within(told.arguments[index as int], most));
                }
            },
            Stage::Line { index, .. } => {
                assert(file_within(told.files[index as int], most));
            },
            _ => {},
        }
    }

    /// Where every target spells an address or a network, nothing was looked up,
    /// and no answer gave more addresses than any bound allows.
    pub proof fn lemma_literals(self, most: nat)
        requires
            self.wf(),
            forall|i: int|
                0 <= i < self.targets().len() ==> is_literal(#[trigger] self.targets()[i]),
        ensures
            answers_within(self.transcript(), most),
    {
        let told = self.transcript@;
        assert forall|i: int| 0 <= i < told.arguments.len() implies host_within(
            #[trigger] told.arguments[i],
            most,
        ) by {
            assert(is_literal(self.targets()[i]));
        }
        assert forall|i: int| 0 <= i < told.files.len() implies file_within(
            #[trigger] told.files[i],
            most,
        ) by {
            assert(is_literal(self.targets()[i]));
        }
    }

    /// How much the stream can advance by itself.
    spec fn fuel(self) -> nat {
        let n = self.addresses@.len();
        match self.stage {
            Stage::Argument { index, .. } => ((n - index) + n + 2) as nat,
            Stage::Open { index } => ((n - index) + 1) as nat,
            Stage::Line { .. } => 1,
            _ => 0,
        }
    }

    /// Moves addresses from the walk into chunks, until a chunk is full or the walk is
    /// at its end.
    fn drain(&mut self) -> (chunk: Option<Vec<Ip>>)
        requires
            old(self).inv(),
        ensures
            final(self).inv(),
            final(self).same_input(*old(self)),
            final(self).stage == old(self).stage,
            final(self).waiting == old(self).waiting,
            match chunk {
                Some(chunk) => {
                    &&& chunk@.len() > 0
                    &&& final(self).delivered() == old(self).delivered().push(chunk@)
                    &&& !(final(self).stage is Over)
                    &&& !final(self).waiting
                },
                None => {
                    &&& final(self).walk.remaining().len() == 0
                    &&& final(self).delivered() == old(self).delivered()
                },
            },
    {
        loop
            invariant
                self.inv(),
                self.same_input(*old(self)),
                self.stage == old(self).stage,
                self.waiting == old(self).waiting,
                self.delivered() == old(self).delivered(),
            decreases self.walk.remaining().len(),
        {
            let ghost taken = self.chunker.offered() + self.walk.remaining();
            match self.walk.next() {
                None => return None,
                Some(ip) => {
                    let chunk = self.chunker.push(ip);
                    assert(self.chunker.offered() + self.walk.remaining() =~= taken);
                    if chunk.is_some() {
                        return chunk;
                    }
                },
            }
        }
    }

    /// Takes the next step once the walk is at its end: either there is something for
    /// the caller to do, or the stream advances by itself.
    fn advance(&mut self) -> (action: Option<Action>)
        requires
            old(self).inv(),
            !old(self).waiting,
            old(self).walk.remaining().len() == 0,
        ensures
            final(self).inv(),
            final(self).same_input(*old(self)),
            match action {
                None => {
                    &&& final(self).fuel() < old(self).fuel()
                    &&& !final(self).waiting
                    &&& final(self).delivered() == old(self).delivered()
                },
                Some(Action::Deliver(chunk)) => {
                    &&& chunk@.len() > 0
                    &&& final(self).delivered() == old(self).delivered().push(chunk@)
                    &&& final(self).over()
                },
                Some(action) => {
                    &&& final(self).delivered() == old(self).delivered()
                    &&& final(self).asks(action)
                },
            },
    {
        assert(self.chunker.offered() + self.walk.remaining() =~= self.chunker.offered());
        match &self.stage {
            Stage::Argument { index, host } => {
                let index: usize = *index;
                if index == self.addresses.len() {
                    self.stage = Stage::Open { index: 0 };
                    assert(self.chunker.offered() + self.walk.remaining() =~= argument_ips(
                        self.targets(),
                        self.transcript@.arguments,
                        self.targets().len(),
                    ) + stream_files_ips(self.targets(), self.transcript@, 0));
                    None
                } else {
                    match walk_text(self.addresses[index].as_str(), host) {
                        Ok(walk) => {
                            self.unresolved.push(walk.is_empty());
                            self.walk = walk;
                            self.stage = Stage::Argument {
                                index: index + 1,
                                host: HostAnswers::new(),
                            };
                            None
                        },
                        Err(request) => {
                            self.waiting = true;
                            proof {
                                self.lemma_stage();
                            }
                            Some(Action::Lookup(request))
                        },
                    }
                }
            },
            Stage::Open { index } => {
                let index: usize = *index;
                if index == self.addresses.len() {
                    let chunk = self.chunker.flush();
                    self.stage = Stage::Over;
                    assert(self.chunker.offered() + self.walk.remaining()
                        =~= self.chunker.offered());
                    proof {
                        self.lemma_stage();
                    }
                    match chunk {
                        Some(chunk) => Some(Action::Deliver(chunk)),
                        None => Some(Action::Finished(self.chunker.total())),
                    }
                } else if !self.unresolved[index] {
                    self.stage = Stage::Open { index: index + 1 };
                    assert(self.chunker.offered() =~= self.chunker.offered() + Seq::<Ip>::empty());
                    None
                } else {
                    self.waiting = true;
                    proof {
                        self.lemma_stage();
                    }
                    Some(Action::Open(self.addresses[index].clone()))
                }
            },
            Stage::Read { index } => {
                self.waiting = true;
                proof {
                    self.lemma_stage();
                }
                Some(Action::Read)
            },
            Stage::Line { index, text, host } => {
                let index: usize = *index;
                match walk_text(text.as_str(), host) {
                    Ok(walk) => {
                        let ghost lines = self.transcript@.files[index as int]->Reading_0;
                        self.walk = walk;
                        self.stage = Stage::Read { index };
                        assert(self.chunker.offered() + self.walk.remaining() =~= argument_ips(
                            self.targets(),
                            self.transcript@.arguments,
                            self.targets().len(),
                        ) + stream_files_ips(
                            self.targets(),
                            self.transcript@,
                            index as nat,
                        ) + stream_lines_ips(lines, lines.len()));
                        None
                    },
                    Err(request) => {
                        self.waiting = true;
                        proof {
                            self.lemma_stage();
                        }
                        Some(Action::Lookup(request))
                    },
                }
            },
            Stage::Over => {
                proof {
                    self.lemma_stage();
                }
                Some(Action::Finished(self.chunker.total()))
            },
        }
    }

    /// Whether the stream waits for just the outside work that the action asks for; or
    /// whether it is over, and the action gives the total.
    pub open spec fn asks(self, action: Action) -> bool {
        match action {
            Action::Deliver(_) => false,
            Action::Lookup(request) => self.waiting() && match self.due() {
                Some(StreamNeed::Argument { request: due, .. }) => due == request@,
                Some(StreamNeed::Line { request: due, .. }) => due == request@,
                _ => false,
            },
            Action::Open(path) => self.waiting() && match self.due() {
                Some(StreamNeed::Open { path: due, .. }) => due == path@,
                _ => false,
            },
            Action::Read => self.waiting() && self.due() matches Some(StreamNeed::Read { .. }),
            Action::Finished(total) => {
                &&& self.over()
                &&& total == held(count(self.delivered()))
            },
        }
    }

    /// Says what to do next.
    ///
    /// A chunk is delivered as soon as it is full. Outside work is asked for once all
    /// that is known has gone into chunks. When nothing is due any more, the last chunk
    /// is delivered, full or not, and then the stream is over.
    pub fn next(&mut self) -> (action: Action)
        requires
            old(self).wf(),
        ensures
            final(self).wf(),
            final(self).targets() == old(self).targets(),
            final(self).excluded() == old(self).excluded(),
            final(self).size() == old(self).size(),
            final(self).transcript() == old(self).transcript(),
            match action {
                Action::Deliver(chunk) => {
                    &&& chunk@.len() > 0
                    &&& final(self).delivered() == old(self).delivered().push(chunk@)
                    &&& !final(self).waiting()
                },
                _ => final(self).delivered() == old(self).delivered() && final(self).asks(action),
            },
    {
        self.waiting = false;
        loop
            invariant
                self.inv(),
                !self.waiting,
                self.same_input(*old(self)),
                self.delivered() == old(self).delivered(),
            decreases self.fuel(),
        {
            if let Some(chunk) = self.drain() {
                proof {
                    self.lemma_stage();
                }
                return Action::Deliver(chunk);
            }
            if let Some(action) = self.advance() {
                proof {
                    self.lemma_stage();
                }
                return action;
            }
        }
    }

    /// Reports what came of the lookup that the stream waits for: the addresses that it
    /// gave, or `None` where it failed. Changes nothing where it waits for no lookup.
    pub fn answer(&mut self, found: Option<Vec<Ip>>)
        requires
            old(self).wf(),
        ensures
            final(self).wf(),
            final(self).targets() == old(self).targets(),
            final(self).excluded() == old(self).excluded(),
            final(self).size() == old(self).size(),
            final(self).offered() == old(self).offered(),
            final(self).delivered() == old(self).delivered(),
            final(self).over() == old(self).over(),
            final(self).transcript() == if old(self).waiting() {
                told_answer(old(self).transcript(), old(self).due(), found_view(found))
            } else {
                old(self).transcript()
            },
            final(self).waiting() == (old(self).waiting() && !(match old(self).due() {
                Some(StreamNeed::Argument { .. }) => true,
                Some(StreamNeed::Line { .. }) => true,
                _ => false,
            })),
    {
        proof {
            self.lemma_stage();
        }
        if !self.waiting {
            return;
        }
        let ghost targets = self.targets();
        let ghost told = self.transcript@;
        let ghost due = self.due();
        proof {
            self.walk.lemma_end();
        }
        let ghost heard = found_view(found);
        match &mut self.stage {
            Stage::Argument { index, host } => {
                if let Err(request) = walk_text(self.addresses[*index].as_str(), host) {
                    host.record(&request, found);
                }
                self.waiting = false;
                proof {
                    self.transcript@ = told_answer(told, due, heard);
                    lemma_argument_ips_agree(
                        targets,
                        told.arguments,
                        self.transcript@.arguments,
                        due->0->Argument_index as nat,
                    );
                }
            },
            Stage::Line { index, text, host } => {
                if let Err(request) = walk_text(text.as_str(), host) {
                    host.record(&request, found);
                }
                self.waiting = false;
                proof {
                    self.transcript@ = told_answer(told, due, heard);
                    let at = due->0->Line_index;
                    if is_literal(targets[at]) {
                        lemma_literal_nonempty(targets[at], told.arguments[at]);
                    }
                    let line = due->0->Line_line;
                    lemma_files_ips_agree(targets, told, self.transcript@, at as nat);
                    lemma_lines_ips_agree(
                        told.files[at]->Reading_0,
                        self.transcript@.files[at]->Reading_0,
                        line as nat,
                    );
                }
            },
            _ => {},
        }
        proof {
            self.lemma_stage();
        }
    }

    /// Reports whether the file that the stream waits for is there and could be opened.
    /// Changes nothing where it waits for no file.
    pub fn opened(&mut self, opened: bool)
        requires
            old(self).wf(),
        ensures
            final(self).wf(),
            final(self).targets() == old(self).targets(),
            final(self).excluded() == old(self).excluded(),
            final(self).size() == old(self).size(),
            final(self).offered() == old(self).offered(),
            final(self).delivered() == old(self).delivered(),
            final(self).over() == old(self).over(),
            final(self).transcript() == if old(self).waiting() {
                told_opened(old(self).transcript(), old(self).due(), opened)
            } else {
                old(self).transcript()
            },
            final(self).waiting() == (old(self).waiting() && !(old(self).due() matches Some(
                StreamNeed::Open { .. },
            ))),
    {
        proof {
            self.lemma_stage();
        }
        if !self.waiting {
            return;
        }
        let ghost targets = self.targets();
        let ghost told = self.transcript@;
        let ghost due = self.due();
        proof {
            self.walk.lemma_end();
        }
        if let Stage::Open { index } = &self.stage {
            let index: usize = *index;
            assert(index < self.addresses.len());
            self.waiting = false;
            proof {
                if is_literal(targets[index as int]) {
                    lemma_literal_nonempty(targets[index as int], told.arguments[index as int]);
                }
                self.transcript@ = told_opened(told, due, opened);
                lemma_files_ips_agree(targets, told, self.transcript@, index as nat);
            }
            if opened {
                self.stage = Stage::Read { index };
            } else {
                self.stage = Stage::Open { index: index + 1 };
            }
            assert(self.chunker.offered() + self.walk.remaining() =~= (self.chunker.offered()
                + self.walk.remaining()) + Seq::<Ip>::empty());
        }
        proof {
            self.lemma_stage();
        }
    }

    /// Reports the line that the stream waits for. Changes nothing where it waits for
    /// no line.
    pub fn line(&mut self, line: LineRead)
        requires
            old(self).wf(),
        ensures
            final(self).wf(),
            final(self).targets() == old(self).targets(),
            final(self).excluded() == old(self).excluded(),
            final(self).size() == old(self).size(),
            final(self).offered() == old(self).offered(),
            final(self).delivered() == old(self).delivered(),
            final(self).over() == old(self).over(),
            final(self).transcript() == if old(self).waiting() {
                told_line(old(self).transcript(), old(self).due(), line)
            } else {
                old(self).transcript()
            },
            final(self).waiting() == (old(self).waiting() && !(old(self).due() matches Some(
                StreamNeed::Read { .. },
            ))),
    {
        proof {
            self.lemma_stage();
        }
        if !self.waiting {
            return;
        }
        let ghost targets = self.targets();
        let ghost told = self.transcript@;
        let ghost due = self.due();
        proof {
            self.walk.lemma_end();
        }
        if let Stage::Read { index } = &self.stage {
            let index: usize = *index;
            assert(index < self.addresses.len());
            let ghost lines = told.files[index as int]->Reading_0;
            self.waiting = false;
            proof {
                if is_literal(targets[index as int]) {
                    lemma_literal_nonempty(targets[index as int], told.arguments[index as int]);
                }
                self.transcript@ = told_line(told, due, line);
                lemma_files_ips_agree(targets, told, self.transcript@, index as nat);
            }
            match line {
                LineRead::Text(text) => {
                    proof {
                        let read = lines.push(StreamLine { text: text@, host: unasked() });
                        lemma_lines_ips_agree(lines, read, lines.len());
                    }
                    self.stage = Stage::Line {
                        index,
                        text: trim_text(text.as_str()).to_owned(),
                        host: HostAnswers::new(),
                    };
                },
                _ => {
                    self.stage = Stage::Open { index: index + 1 };
                    proof {
                        let files = self.transcript@.files;
                        lemma_lines(lines, lines.len());
                        assert(known_file(
                            targets[index as int],
                            told.arguments[index as int],
                            files[index as int],
                        ) =~= stream_lines_ips(lines, lines.len()));
                        assert(self.chunker.offered() + self.walk.remaining() =~= argument_ips(
                            targets,
                            told.arguments,
                            targets.len(),
                        ) + stream_files_ips(targets, self.transcript@, (index + 1) as nat));
                    }
                },
            }
        }
        proof {
            self.lemma_stage();
        }
    }
}

/// Copies of strings.
fn copied_strings(list: &Vec<String>) -> (copy: Vec<String>)
    ensures
        strings(copy@) == strings(list@),
        copy.len() == list.len(),
{
    let mut copy: Vec<String> = Vec::new();
    let mut i: usize = 0;
    while i < list.len()
        invariant
            i <= list.len(),
            strings(copy@) =~= strings(list@).take(i as int),
        decreases list.len() - i,
    {
        let ghost before = strings(copy@);
        copy.push(list[i].clone());
        assert(strings(copy@) =~= before.push(list@[i as int]@));
        i += 1;
    }
    assert(strings(list@).take(i as int) =~= strings(list@));
    assert(strings(copy@).len() == copy@.len());
    copy
}

/// The addresses to scan, as a stream of chunks. All the addresses are never held at
/// once: a network is walked address by address, and a file line by line.
///
/// Duplicates within a chunk are removed, and so is what the exclusions hold; an address
/// may come again in a later chunk.
///
/// `exclusions` is what is known of each exclusion as a name. Where one of them has to
/// be looked up first, the error says which.
pub fn parse_addresses_chunked(
    input: &Opts,
    chunk_size: usize,
    exclusions: &Vec<HostAnswers>,
) -> (stream: Result<AddressStream, Need>)
    requires
        exclusions.len() == input.exclusions().len(),
    ensures
        match stream {
            Ok(stream) => {
                let texts = input.exclusions();
                &&& exclusions_due(texts, host_views(exclusions@), 0) is None
                &&& stream.wf()
                &&& stream.targets() == input.targets()
                &&& stream.excluded() == excluded_nets(texts, host_views(exclusions@), texts.len())
                &&& stream.size() == chunk_size
                &&& stream.transcript() == untold(input.targets())
                &&& stream.offered() == Seq::<Ip>::empty()
                &&& stream.delivered() == Seq::<Seq<Ip>>::empty()
                &&& !stream.waiting()
                &&& !stream.over()
            },
            Err(need) => exclusions_due(input.exclusions(), host_views(exclusions@), 0) == Some(
                need@,
            ),
        },
{
    match parse_excluded_networks(&input.exclude_addresses, exclusions) {
        Ok(excluded) => {
            let ghost targets = input.targets();
            let stream = AddressStream {
                addresses: copied_strings(&input.addresses),
                chunker: Chunker::new(excluded, chunk_size),
                walk: Walk::over_list(Vec::new()),
                stage: Stage::Argument { index: 0, host: HostAnswers::new() },
                unresolved: Vec::new(),
                waiting: false,
                transcript: Ghost(untold(targets)),
            };
            proof {
                assert(stream.chunker.offered() + stream.walk.remaining() =~= argument_ips(
                    targets,
                    untold(targets).arguments,
                    0,
                ));
                stream.lemma_stage();
            }
            Ok(stream)
        },
        Err(need) => Err(need),
    }
}

} // verus!
