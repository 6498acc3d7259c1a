//! Turning what the user typed into the addresses to scan.
use vstd::prelude::*;

use crate::bindings::{cidr_text, ip_text, new_host, parse_cidr, parse_inet, parse_ip};
use crate::input::{listed, Opts};
use crate::ip::{all_wf, host_net, lemma_host_net, Ip, Net};
use crate::lookup::{
    fallback_due, fallback_ips, read_address, request_due, resolve_ips_from_host, sound, text_ips,
    unasked, walk_text, HostAnswers, HostView, Request, RequestView,
};
use crate::select::{select, selected};
use crate::text::strings;

pub use crate::stream::{parse_addresses_chunked, STREAM_CHUNK_SIZE};

verus! {

/// A line of a file, together with what is known of the name on it.
#[derive(Debug)]
pub enum Line {
    /// The line could not be read as text.
    Unreadable,
    /// The line's text.
    Text {
        /// What the line holds, without its line ending.
        text: String,
        /// What is known of the name.
        host: HostAnswers,
    },
}

/// What a [`Line`] holds.
pub enum LineView {
    /// The line could not be read as text.
    Unreadable,
    /// The line's text.
    Text {
        /// What the line holds, without its line ending.
        text: Seq<char>,
        /// What is known of the name.
        host: HostView,
    },
}

impl View for Line {
    type V = LineView;

    open spec fn view(&self) -> LineView {
        match self {
            Line::Unreadable => LineView::Unreadable,
            Line::Text { text, host } => LineView::Text { text: text@, host: host@ },
        }
    }
}

/// What came of reading a file.
#[derive(Debug)]
pub enum FileAnswer {
    /// Nobody has looked yet.
    Unread,
    /// There is no such file.
    NotAFile,
    /// There is such a file, but it could not be opened.
    Unreadable,
    /// The file's lines.
    Lines(Vec<Line>),
}

/// What a [`FileAnswer`] holds.
pub enum FileView {
    /// Nobody has looked yet.
    Unread,
    /// There is no such file.
    NotAFile,
    /// There is such a file, but it could not be opened.
    Unreadable,
    /// The file's lines.
    Lines(Seq<LineView>),
}

/// What the lines in a list hold.
pub open spec fn line_views(lines: Seq<Line>) -> Seq<LineView> {
    lines.map_values(|line: Line| line@)
}

impl View for FileAnswer {
    type V = FileView;

    open spec fn view(&self) -> FileView {
        match self {
            FileAnswer::Unread => FileView::Unread,
            FileAnswer::NotAFile => FileView::NotAFile,
            FileAnswer::Unreadable => FileView::Unreadable,
            FileAnswer::Lines(lines) => FileView::Lines(line_views(lines@)),
        }
    }
}

/// What is known of everything that the user named.
#[derive(Debug)]
pub struct Answers {
    /// For each target, what is known of it as a name.
    pub arguments: Vec<HostAnswers>,
    /// For each target, what is known of it as a file.
    pub files: Vec<FileAnswer>,
    /// For each exclusion, what is known of it as a name.
    pub exclusions: Vec<HostAnswers>,
}

/// What an [`Answers`] holds.
pub struct AnswersView {
    /// For each target, what is known of it as a name.
    pub arguments: Seq<HostView>,
    /// For each target, what is known of it as a file.
    pub files: Seq<FileView>,
    /// For each exclusion, what is known of it as a name.
    pub exclusions: Seq<HostView>,
}

/// What the answers in a list hold.
pub open spec fn host_views(hosts: Seq<HostAnswers>) -> Seq<HostView> {
    hosts.map_values(|host: HostAnswers| host@)
}

impl View for Answers {
    type V = AnswersView;

    open spec fn view(&self) -> AnswersView {
        AnswersView {
            arguments: host_views(self.arguments@),
            files: self.files@.map_values(|file: FileAnswer| file@),
            exclusions: host_views(self.exclusions@),
        }
    }
}

/// Work that has to be done outside before the addresses are known.
#[derive(Debug)]
pub enum Need {
    /// A lookup for a target.
    Argument {
        /// Which target.
        index: usize,
        /// The lookup.
        request: Request,
    },
    /// A target has to be read as a file.
    File {
        /// Which target.
        index: usize,
        /// The file's path.
        path: String,
    },
    /// A lookup for a line of a file.
    Line {
        /// Which target is the file.
        index: usize,
        /// Which line of it.
        line: usize,
        /// The lookup.
        request: Request,
    },
    /// A lookup for an exclusion.
    Exclusion {
        /// Which exclusion.
        index: usize,
        /// The lookup.
        request: Request,
    },
}

/// What a [`Need`] holds.
pub enum NeedView {
    /// A lookup for a target.
    Argument {
        /// Which target.
        index: int,
        /// The lookup.
        request: RequestView,
    },
    /// A target has to be read as a file.
    File {
        /// Which target.
        index: int,
        /// The file's path.
        path: Seq<char>,
    },
    /// A lookup for a line of a file.
    Line {
        /// Which target is the file.
        index: int,
        /// Which line of it.
        line: int,
        /// The lookup.
        request: RequestView,
    },
    /// A lookup for an exclusion.
    Exclusion {
        /// Which exclusion.
        index: int,
        /// The lookup.
        request: RequestView,
    },
}

impl View for Need {
    type V = NeedView;

    open spec fn view(&self) -> NeedView {
        match self {
            Need::Argument { index, request } => NeedView::Argument {
                index: *index as int,
                request: request@,
            },
            Need::File { index, path } => NeedView::File { index: *index as int, path: path@ },
            Need::Line { index, line, request } => NeedView::Line {
                index: *index as int,
                line: *line as int,
                request: request@,
            },
            Need::Exclusion { index, request } => NeedView::Exclusion {
                index: *index as int,
                request: request@,
            },
        }
    }
}

/// In every line of a file, a lookup at the system that succeeded gave at least one
/// address.
pub open spec fn lines_sound(lines: Seq<LineView>) -> bool {
    forall|i: int|
        0 <= i < lines.len() ==> (#[trigger] lines[i] matches LineView::Text { host, .. } ==> sound(
            host,
        ))
}

impl AnswersView {
    /// There is one answer for each target and each exclusion, and no lookup at the
    /// system succeeded with nothing to show for it.
    pub open spec fn wf(self, targets: nat, exclusions: nat) -> bool {
        &&& self.arguments.len() == targets
        &&& self.files.len() == targets
        &&& self.exclusions.len() == exclusions
        &&& forall|i: int| 0 <= i < targets ==> sound(#[trigger] self.arguments[i])
        &&& forall|i: int|
            0 <= i < targets ==> (#[trigger] self.files[i] matches FileView::Lines(lines)
                ==> lines_sound(lines))
    }
}

/// The addresses that the first `n` targets stand for, one target after the other.
pub open spec fn argument_ips(targets: Seq<Seq<char>>, hosts: Seq<HostView>, n: nat) -> Seq<Ip>
    decreases n,
{
    if n == 0 {
        Seq::empty()
    } else {
        argument_ips(targets, hosts, (n - 1) as nat) + text_ips(targets[n - 1], hosts[n - 1])
    }
}

/// The addresses that a line stands for; one that could not be read stands for none.
pub open spec fn line_ips(line: LineView) -> Seq<Ip> {
    match line {
        LineView::Unreadable => Seq::empty(),
        LineView::Text { text, host } => text_ips(text, host),
    }
}

/// The addresses that the first `n` lines stand for, one line after the other.
pub open spec fn lines_ips(lines: Seq<LineView>, n: nat) -> Seq<Ip>
    decreases n,
{
    if n == 0 {
        Seq::empty()
    } else {
        lines_ips(lines, (n - 1) as nat) + line_ips(lines[n - 1])
    }
}

/// The addresses that a target stands for as a file. Only a target that stands for no
/// address by itself is read as one.
pub open spec fn file_ips(target: Seq<char>, host: HostView, file: FileView) -> Seq<Ip> {
    if text_ips(target, host).len() > 0 {
        Seq::empty()
    } else {
        match file {
            FileView::Lines(lines) => lines_ips(lines, lines.len()),
            _ => Seq::empty(),
        }
    }
}

/// The addresses that the first `n` targets stand for as files, one after the other.
pub open spec fn files_ips(targets: Seq<Seq<char>>, answers: AnswersView, n: nat) -> Seq<Ip>
    decreases n,
{
    if n == 0 {
        Seq::empty()
    } else {
        files_ips(targets, answers, (n - 1) as nat) + file_ips(
            targets[n - 1],
            answers.arguments[n - 1],
            answers.files[n - 1],
        )
    }
}

/// Every address that the targets stand for, duplicates and all: first those that they
/// stand for by themselves, then those on the lines of files.
pub open spec fn gathered(targets: Seq<Seq<char>>, answers: AnswersView) -> Seq<Ip> {
    argument_ips(targets, answers.arguments, targets.len()) + files_ips(
        targets,
        answers,
        targets.len(),
    )
}

/// The networks that an exclusion spells, given what it reads as: the one network, or
/// one for the address.
pub open spec fn spelled_nets(net: Option<Net>, ip: Option<Ip>) -> Option<Seq<Net>> {
    match net {
        Some(net) => Some(seq![net]),
        None => match ip {
            Some(ip) => Some(seq![host_net(ip)]),
            None => None,
        },
    }
}

/// The networks that stand for a host name: one for each address that the lookups amount
/// to.
pub open spec fn looked_up_nets(host: HostView) -> Seq<Net> {
    fallback_ips(host).map_values(|ip: Ip| host_net(ip))
}

/// The networks that an exclusion spells, where it spells a network or an address.
pub open spec fn literal_nets(text: Seq<char>) -> Option<Seq<Net>> {
    spelled_nets(cidr_text(text), ip_text(text))
}

/// The lookup that is due for an exclusion: none where it spells a network or an
/// address, else the two that stand in for the system's.
pub open spec fn exclusion_due(text: Seq<char>, host: HostView) -> Option<RequestView> {
    if literal_nets(text) is Some {
        None
    } else {
        fallback_due(text, host)
    }
}

/// The networks that an exclusion stands for, once no lookup is due: those that it
/// spells, else those that it was looked up as.
pub open spec fn exclusion_nets(text: Seq<char>, host: HostView) -> Seq<Net> {
    match literal_nets(text) {
        Some(nets) => nets,
        None => looked_up_nets(host),
    }
}

/// The networks that the first `n` exclusions stand for, one after the other.
pub open spec fn excluded_nets(texts: Seq<Seq<char>>, hosts: Seq<HostView>, n: nat) -> Seq<Net>
    decreases n,
{
    if n == 0 {
        Seq::empty()
    } else {
        excluded_nets(texts, hosts, (n - 1) as nat) + exclusion_nets(texts[n - 1], hosts[n - 1])
    }
}

/// The first target from the `k`-th on for which a lookup is due.
pub open spec fn arguments_due(
    targets: Seq<Seq<char>>,
    hosts: Seq<HostView>,
    k: int,
) -> Option<NeedView>
    decreases targets.len() - k,
{
    if k >= targets.len() {
        None
    } else {
        match request_due(targets[k], hosts[k]) {
            Some(request) => Some(NeedView::Argument { index: k, request }),
            None => arguments_due(targets, hosts, k + 1),
        }
    }
}

/// The lookup that is due for a line.
pub open spec fn line_due(line: LineView) -> Option<RequestView> {
    match line {
        LineView::Unreadable => None,
        LineView::Text { text, host } => request_due(text, host),
    }
}

/// The first line from the `k`-th on for which a lookup is due.
pub open spec fn lines_due(lines: Seq<LineView>, k: int) -> Option<(int, RequestView)>
    decreases lines.len() - k,
{
    if k >= lines.len() {
        None
    } else {
        match line_due(lines[k]) {
            Some(request) => Some((k, request)),
            None => lines_due(lines, k + 1),
        }
    }
}

/// What is due for a target as a file.
pub open spec fn file_due(
    target: Seq<char>,
    host: HostView,
    file: FileView,
    index: int,
) -> Option<NeedView> {
    if text_ips(target, host).len() > 0 {
        None
    } else {
        match file {
            FileView::Unread => Some(NeedView::File { index, path: target }),
            FileView::Lines(lines) => match lines_due(lines, 0) {
                Some((line, request)) => Some(NeedView::Line { index, line, request }),
                None => None,
            },
            _ => None,
        }
    }
}

/// What is due for the first target from the `k`-th on that has anything due as a file.
pub open spec fn files_due(
    targets: Seq<Seq<char>>,
    answers: AnswersView,
    k: int,
) -> Option<NeedView>
    decreases targets.len() - k,
{
    if k >= targets.len() {
        None
    } else {
        match file_due(targets[k], answers.arguments[k], answers.files[k], k) {
            Some(need) => Some(need),
            None => files_due(targets, answers, k + 1),
        }
    }
}

/// The first exclusion from the `k`-th on for which a lookup is due.
pub open spec fn exclusions_due(
    texts: Seq<Seq<char>>,
    hosts: Seq<HostView>,
    k: int,
) -> Option<NeedView>
    decreases texts.len() - k,
{
    if k >= texts.len() {
        None
    } else {
        match exclusion_due(texts[k], hosts[k]) {
            Some(request) => Some(NeedView::Exclusion { index: k, request }),
            None => exclusions_due(texts, hosts, k + 1),
        }
    }
}

/// What is due next: lookups for the targets, then files with the lookups for their
/// lines, then lookups for the exclusions.
pub open spec fn addresses_due(
    targets: Seq<Seq<char>>,
    exclusions: Seq<Seq<char>>,
    answers: AnswersView,
) -> Option<NeedView> {
    match arguments_due(targets, answers.arguments, 0) {
        Some(need) => Some(need),
        None => match files_due(targets, answers, 0) {
            Some(need) => Some(need),
            None => exclusions_due(exclusions, answers.exclusions, 0),
        },
    }
}

/// The addresses to scan, once nothing is due.
pub open spec fn parsed(
    targets: Seq<Seq<char>>,
    exclusions: Seq<Seq<char>>,
    answers: AnswersView,
) -> Seq<Ip> {
    selected(
        gathered(targets, answers),
        excluded_nets(exclusions, answers.exclusions, exclusions.len()),
    )
}

impl Answers {
    /// Nothing is known yet.
    pub fn new(input: &Opts) -> (answers: Answers)
        ensures
            answers@.wf(input.targets().len(), input.exclusions().len()),
            forall|i: int|
                0 <= i < input.targets().len() ==> #[trigger] answers@.arguments[i]
                    == unasked(),
            forall|i: int|
                0 <= i < input.targets().len() ==> #[trigger] answers@.files[i] == FileView::Unread,
            forall|i: int|
                0 <= i < input.exclusions().len() ==> #[trigger] answers@.exclusions[i]
                    == unasked(),
    {
        let count: usize = match &input.exclude_addresses {
            Some(list) => list.len(),
            None => 0,
        };
        let mut files: Vec<FileAnswer> = Vec::new();
        let mut i: usize = 0;
        while i < input.addresses.len()
            invariant
                i <= input.addresses.len(),
                files.len() == i,
                forall|j: int| 0 <= j < i ==> #[trigger] files@[j] is Unread,
            decreases input.addresses.len() - i,
        {
            files.push(FileAnswer::Unread);
            i += 1;
        }
        Answers {
            arguments: all_unasked(input.addresses.len()),
            files,
            exclusions: all_unasked(count),
        }
    }
}

/// A list of names of which nothing is known.
pub fn all_unasked(count: usize) -> (hosts: Vec<HostAnswers>)
    ensures
        hosts.len() == count,
        forall|i: int| 0 <= i < count ==> #[trigger] hosts@[i]@ == unasked(),
{
    let mut hosts: Vec<HostAnswers> = Vec::new();
    let mut i: usize = 0;
    while i < count
        invariant
            i <= count,
            hosts.len() == i,
            forall|j: int| 0 <= j < i ==> #[trigger] hosts@[j]@ == unasked(),
        decreases count - i,
    {
        hosts.push(HostAnswers::new());
        i += 1;
    }
    hosts
}

/// Reads a text as an address, a network or a host name.
///
/// An address stands for itself, a network for every address in it, and a host name for
/// what it was looked up as. Where a lookup has yet to be made, the error says which.
pub fn parse_address(address: &str, answers: &HostAnswers) -> (ips: Result<Vec<Ip>, Request>)
    requires
        sound(answers@),
    ensures
        match ips {
            Ok(ips) => {
                &&& request_due(address@, answers@) is None
                &&& ips@ == text_ips(address@, answers@)
            },
            Err(request) => request_due(address@, answers@) == Some(request@),
        },
{
    read_address(parse_ip(address), parse_inet(address), address, answers)
}

/// A network for each address.
fn host_nets(ips: &Vec<Ip>) -> (nets: Vec<Net>)
    ensures
        nets@ == ips@.map_values(|ip: Ip| host_net(ip)),
        all_wf(nets@),
{
    let mut nets: Vec<Net> = Vec::new();
    let mut i: usize = 0;
    while i < ips.len()
        invariant
            i <= ips.len(),
            nets@ =~= ips@.take(i as int).map_values(|ip: Ip| host_net(ip)),
            all_wf(nets@),
        decreases ips.len() - i,
    {
        proof {
            lemma_host_net(ips@[i as int]);
        }
        nets.push(new_host(ips[i]));
        i += 1;
    }
    assert(ips@.take(i as int) =~= ips@);
    nets
}

/// The networks that an exclusion stands for, given the network (`net`) or else the
/// address (`ip`) that it reads as.
///
/// Where it reads as neither, it is a host name; where a lookup for that has yet to be
/// made, the error says which.
pub fn read_exclusion(
    net: Option<Net>,
    ip: Option<Ip>,
    addr: &str,
    answers: &HostAnswers,
) -> (nets: Result<Vec<Net>, Request>)
    requires
        net matches Some(net) ==> net.wf(),
    ensures
        match nets {
            Ok(nets) => all_wf(nets@) && match spelled_nets(net, ip) {
                Some(spelled) => nets@ == spelled,
                None => fallback_due(addr@, answers@) is None && nets@ == looked_up_nets(answers@),
            },
            Err(request) => spelled_nets(net, ip) is None && fallback_due(addr@, answers@) == Some(
                request@,
            ),
        },
{
    if let Some(net) = net {
        let nets: Vec<Net> = vec![net];
        assert(nets@ =~= seq![net]);
        return Ok(nets);
    }
    if let Some(ip) = ip {
        proof {
            lemma_host_net(ip);
        }
        let nets: Vec<Net> = vec![new_host(ip)];
        assert(nets@ =~= seq![host_net(ip)]);
        return Ok(nets);
    }
    match resolve_ips_from_host(addr, answers) {
        Ok(ips) => Ok(host_nets(&ips)),
        Err(request) => Err(request),
    }
}

/// Reads an exclusion as a network, an address or a host name.
///
/// Where a lookup has yet to be made, the error says which.
pub fn parse_single_excluded_address(addr: &str, answers: &HostAnswers) -> (nets: Result<
    Vec<Net>,
    Request,
>)
    ensures
        match nets {
            Ok(nets) => {
                &&& exclusion_due(addr@, answers@) is None
                &&& nets@ == exclusion_nets(addr@, answers@)
                &&& all_wf(nets@)
            },
            Err(request) => exclusion_due(addr@, answers@) == Some(request@),
        },
{
    read_exclusion(parse_cidr(addr), parse_ip(addr), addr, answers)
}

/// Reads the exclusions as networks: networks stand for themselves, addresses for
/// networks of one, and host names for what they were looked up as.
///
/// Where a lookup has yet to be made, the error says which, and for which exclusion.
pub fn parse_excluded_networks(
    exclude_addresses: &Option<Vec<String>>,
    answers: &Vec<HostAnswers>,
) -> (nets: Result<Vec<Net>, Need>)
    requires
        answers.len() == listed(*exclude_addresses).len(),
    ensures
        match nets {
            Ok(nets) => {
                let texts = listed(*exclude_addresses);
                &&& exclusions_due(texts, host_views(answers@), 0) is None
                &&& nets@ == excluded_nets(texts, host_views(answers@), texts.len())
                &&& all_wf(nets@)
            },
            Err(need) => exclusions_due(listed(*exclude_addresses), host_views(answers@), 0)
                == Some(need@),
        },
{
    let mut nets: Vec<Net> = Vec::new();
    let list = match exclude_addresses {
        Some(list) => list,
        None => return Ok(nets),
    };
    let ghost texts = strings(list@);
    let ghost hosts = host_views(answers@);
    let mut i: usize = 0;
    while i < list.len()
        invariant
            texts == strings(list@),
            texts == listed(*exclude_addresses),
            hosts == host_views(answers@),
            i <= list.len() == answers.len(),
            exclusions_due(texts, hosts, 0) == exclusions_due(texts, hosts, i as int),
            nets@ == excluded_nets(texts, hosts, i as nat),
            all_wf(nets@),
        decreases list.len() - i,
    {
        match parse_single_excluded_address(list[i].as_str(), &answers[i]) {
            Ok(found) => {
                let mut found = found;
                nets.append(&mut found);
            },
            Err(request) => return Err(Need::Exclusion { index: i, request }),
        }
        i += 1;
    }
    Ok(nets)
}

/// Appends the addresses that the lines of a file stand for. A line that could not be
/// read is skipped.
///
/// Where a lookup has yet to be made, the error says for which line, and which; what
/// the lines before it stand for has been appended then.
pub fn read_ips_from_file(lines: &Vec<Line>, ips: &mut Vec<Ip>) -> (done: Result<
    (),
    (usize, Request),
>)
    requires
        lines_sound(line_views(lines@)),
    ensures
        match done {
            Ok(()) => {
                &&& lines_due(line_views(lines@), 0) is None
                &&& final(ips)@ == old(ips)@ + lines_ips(line_views(lines@), lines@.len())
            },
            Err((line, request)) => {
                &&& lines_due(line_views(lines@), 0) == Some((line as int, request@))
                &&& final(ips)@ == old(ips)@ + lines_ips(line_views(lines@), line as nat)
            },
        },
{
    let ghost views = line_views(lines@);
    let mut i: usize = 0;
    assert(ips@ =~= ips@ + lines_ips(views, 0));
    while i < lines.len()
        invariant
            views == line_views(lines@),
            lines_sound(views),
            i <= lines.len(),
            lines_due(views, 0) == lines_due(views, i as int),
            ips@ =~= old(ips)@ + lines_ips(views, i as nat),
        decreases lines.len() - i,
    {
        assert(views[i as int] == lines@[i as int]@);
        match &lines[i] {
            Line::Unreadable => {},
            Line::Text { text, host } => match parse_address(text.as_str(), host) {
                Ok(found) => {
                    let mut found = found;
                    ips.append(&mut found);
                },
                Err(request) => return Err((i, request)),
            },
        }
        i += 1;
    }
    Ok(())
}

/// The addresses to scan.
///
/// Every target is read as an address, a network or a host name; one that stands for no
/// address is read as a file of such texts, line by line. Duplicates are removed, and
/// so is what the exclusions hold.
///
/// Where something has to be looked up or read first, the error says what.
pub fn parse_addresses(input: &Opts, answers: &Answers) -> (ips: Result<Vec<Ip>, Need>)
    requires
        answers@.wf(input.targets().len(), input.exclusions().len()),
    ensures
        match ips {
            Ok(ips) => {
                &&& addresses_due(input.targets(), input.exclusions(), answers@) is None
                &&& ips@ == parsed(input.targets(), input.exclusions(), answers@)
            },
            Err(need) => addresses_due(input.targets(), input.exclusions(), answers@) == Some(
                need@,
            ),
        },
{
    let ghost targets = input.targets();
    let ghost known = answers@;
    let mut ips: Vec<Ip> = Vec::new();
    let mut unresolved: Vec<bool> = Vec::new();
    let mut i: usize = 0;
    while i < input.addresses.len()
        invariant
            targets == strings(input.addresses@),
            known == answers@,
            known.wf(targets.len(), input.exclusions().len()),
            i <= input.addresses.len(),
            arguments_due(targets, known.arguments, 0) == arguments_due(
                targets,
                known.arguments,
                i as int,
            ),
            ips@ == argument_ips(targets, known.arguments, i as nat),
            unresolved.len() == i,
            forall|j: int|
                0 <= j < i ==> (#[trigger] unresolved@[j] <==> text_ips(
                    targets[j],
                    known.arguments[j],
                ).len() == 0),
        decreases input.addresses.len() - i,
    {
        assert(known.arguments[i as int] == answers.arguments@[i as int]@);
        match parse_address(input.addresses[i].as_str(), &answers.arguments[i]) {
            Ok(found) => {
                unresolved.push(found.len() == 0);
                let mut found = found;
                ips.append(&mut found);
            },
            Err(request) => return Err(Need::Argument { index: i, request }),
        }
        i += 1;
    }
    let ghost direct = ips@;
    let mut k: usize = 0;
    assert(ips@ =~= direct + files_ips(targets, known, 0));
    while k < input.addresses.len()
        invariant
            targets == strings(input.addresses@),
            known == answers@,
            known.wf(targets.len(), input.exclusions().len()),
            k <= input.addresses.len(),
            arguments_due(targets, known.arguments, 0) is None,
            files_due(targets, known, 0) == files_due(targets, known, k as int),
            ips@ =~= direct + files_ips(targets, known, k as nat),
            unresolved.len() == targets.len(),
            forall|j: int|
                0 <= j < targets.len() ==> (#[trigger] unresolved@[j] <==> text_ips(
                    targets[j],
                    known.arguments[j],
                ).len() == 0),
        decreases input.addresses.len() - k,
    {
        assert(known.files[k as int] == answers.files@[k as int]@);
        assert(unresolved@[k as int] <==> text_ips(
            targets[k as int],
            known.arguments[k as int],
        ).len() == 0);
        if unresolved[k] {
            match &answers.files[k] {
                FileAnswer::Unread => {
                    return Err(Need::File { index: k, path: input.addresses[k].clone() });
                },
                FileAnswer::Lines(lines) => match read_ips_from_file(lines, &mut ips) {
                    Ok(()) => {},
                    Err((line, request)) => {
                        return Err(Need::Line { index: k, line, request });
                    },
                },
                _ => {},
            }
        }
        k += 1;
    }
    match parse_excluded_networks(&input.exclude_addresses, &answers.exclusions) {
        Ok(excluded) => Ok(select(&ips, &excluded)),
        Err(need) => Err(need),
    }
}

/// Whether nothing could be made of a target: it stands for no address, and there is no
/// file of its name that could be read.
pub open spec fn hopeless(target: Seq<char>, host: HostView, file: FileView) -> bool {
    &&& request_due(target, host) is None
    &&& text_ips(target, host).len() == 0
    &&& file is NotAFile || file is Unreadable
}

/// Those of the first `n` targets of which nothing could be made.
pub open spec fn hopeless_targets(
    targets: Seq<Seq<char>>,
    answers: AnswersView,
    n: nat,
) -> Seq<Seq<char>>
    decreases n,
{
    if n == 0 {
        Seq::empty()
    } else {
        let before = hopeless_targets(targets, answers, (n - 1) as nat);
        if hopeless(targets[n - 1], answers.arguments[n - 1], answers.files[n - 1]) {
            before.push(targets[n - 1])
        } else {
            before
        }
    }
}

/// The targets of which nothing could be made and which the user is to be warned of, in
/// their order.
pub fn unresolved_hosts(input: &Opts, answers: &Answers) -> (found: Vec<String>)
    requires
        answers@.wf(input.targets().len(), input.exclusions().len()),
    ensures
        strings(found@) == hopeless_targets(input.targets(), answers@, input.targets().len()),
{
    let ghost targets = input.targets();
    let ghost known = answers@;
    let mut found: Vec<String> = Vec::new();
    let mut i: usize = 0;
    while i < input.addresses.len()
        invariant
            targets == strings(input.addresses@),
            known == answers@,
            known.wf(targets.len(), input.exclusions().len()),
            i <= input.addresses.len(),
            strings(found@) =~= hopeless_targets(targets, known, i as nat),
        decreases input.addresses.len() - i,
    {
        let ghost before = strings(found@);
        assert(known.arguments[i as int] == answers.arguments@[i as int]@);
        assert(known.files[i as int] == answers.files@[i as int]@);
        let unreadable = match &answers.files[i] {
            FileAnswer::NotAFile => true,
            FileAnswer::Unreadable => true,
            _ => false,
        };
        if unreadable {
            let addressless = match walk_text(input.addresses[i].as_str(), &answers.arguments[i]) {
                Ok(walk) => {
                    let mut walk = walk;
                    walk.next().is_none()
                },
                Err(_) => false,
            };
            if addressless {
                found.push(input.addresses[i].clone());
                assert(strings(found@) =~= before.push(targets[i as int]));
            }
        }
        i += 1;
    }
    found
}

} // verus!
