//! Host names: which lookup is due, and what the answers amount to.
use vstd::arithmetic::power2::lemma_pow2_pos;
use vstd::prelude::*;
use vstd::string::StringExecFns;

use crate::bindings::{inet_text, ip_text, parse_inet, parse_ip};
use crate::ip::{Inet, Ip};
use crate::walk::Walk;

verus! {

/// What came of one lookup.
#[derive(Debug)]
pub enum Answer {
    /// The lookup has not been made.
    Pending,
    /// The lookup was made and failed.
    Failed,
    /// The lookup was made and gave these addresses.
    Found(Vec<Ip>),
}

/// What an [`Answer`] holds.
pub enum AnswerView {
    /// The lookup has not been made.
    Pending,
    /// The lookup was made and failed.
    Failed,
    /// The lookup was made and gave these addresses.
    Found(Seq<Ip>),
}

impl View for Answer {
    type V = AnswerView;

    open spec fn view(&self) -> AnswerView {
        match self {
            Answer::Pending => AnswerView::Pending,
            Answer::Failed => AnswerView::Failed,
            Answer::Found(ips) => AnswerView::Found(ips@),
        }
    }
}

/// What is known of one name so far. The lookups are made one after the other, each
/// only where the one before it failed.
#[derive(Debug)]
pub struct HostAnswers {
    /// The system's lookup of the name with a port behind it.
    pub system: Answer,
    /// The system's lookup of the text as it stands, which may carry a port of its own.
    pub verbatim: Answer,
    /// The lookup at the dedicated resolver.
    pub dedicated: Answer,
}

/// What a [`HostAnswers`] holds.
pub struct HostView {
    /// The system's lookup of the name with a port behind it.
    pub system: AnswerView,
    /// The system's lookup of the text as it stands.
    pub verbatim: AnswerView,
    /// The lookup at the dedicated resolver.
    pub dedicated: AnswerView,
}

impl View for HostAnswers {
    type V = HostView;

    open spec fn view(&self) -> HostView {
        HostView {
            system: self.system@,
            verbatim: self.verbatim@,
            dedicated: self.dedicated@,
        }
    }
}

/// A lookup that has to be made.
#[derive(Debug)]
pub enum Request {
    /// Ask the system for this name and port.
    System(String),
    /// Ask the system for this text as it stands.
    Verbatim(String),
    /// Ask the dedicated resolver for this name.
    Dedicated(String),
}

/// What a [`Request`] holds.
pub enum RequestView {
    /// Ask the system for this name and port.
    System(Seq<char>),
    /// Ask the system for this text as it stands.
    Verbatim(Seq<char>),
    /// Ask the dedicated resolver for this name.
    Dedicated(Seq<char>),
}

impl View for Request {
    type V = RequestView;

    open spec fn view(&self) -> RequestView {
        match self {
            Request::System(name) => RequestView::System(name@),
            Request::Verbatim(name) => RequestView::Verbatim(name@),
            Request::Dedicated(name) => RequestView::Dedicated(name@),
        }
    }
}

/// What an optional request holds.
pub open spec fn request_view(request: Option<Request>) -> Option<RequestView> {
    match request {
        Some(request) => Some(request@),
        None => None,
    }
}

/// Nothing has been looked up.
pub open spec fn unasked() -> HostView {
    HostView {
        system: AnswerView::Pending,
        verbatim: AnswerView::Pending,
        dedicated: AnswerView::Pending,
    }
}

/// The addresses that a text spells, given what it reads as: the one address, or every
/// address of the network. A prefix behind an address makes it a network, whatever its
/// host bits.
pub open spec fn spelled_ips(ip: Option<Ip>, inet: Option<Inet>) -> Option<Seq<Ip>> {
    match ip {
        Some(ip) => Some(seq![ip]),
        None => match inet {
            Some(inet) => Some(inet.network().addresses()),
            None => None,
        },
    }
}

/// The addresses that a text spells, where it spells an address or a network.
pub open spec fn literal_ips(text: Seq<char>) -> Option<Seq<Ip>> {
    spelled_ips(ip_text(text), inet_text(text))
}

/// Whether the text spells an address or a network, so that no lookup is needed.
pub open spec fn is_literal(text: Seq<char>) -> bool {
    literal_ips(text) is Some
}

/// The lookup that is due where the system knows no such name: first the text as it
/// stands, then the dedicated resolver.
pub open spec fn fallback_due(text: Seq<char>, answers: HostView) -> Option<RequestView> {
    match answers.verbatim {
        AnswerView::Pending => Some(RequestView::Verbatim(text)),
        AnswerView::Found(_) => None,
        AnswerView::Failed => match answers.dedicated {
            AnswerView::Pending => Some(RequestView::Dedicated(text)),
            _ => None,
        },
    }
}

/// The addresses that those two lookups amount to: all that the first of them to
/// succeed gave, or none.
pub open spec fn fallback_ips(answers: HostView) -> Seq<Ip> {
    match answers.verbatim {
        AnswerView::Found(ips) => ips,
        _ => match answers.dedicated {
            AnswerView::Found(ips) => ips,
            _ => Seq::empty(),
        },
    }
}

/// The lookup that is due for a host name: the system's for the web port, else the two
/// that stand in for it.
pub open spec fn lookup_due(text: Seq<char>, answers: HostView) -> Option<RequestView> {
    match answers.system {
        AnswerView::Pending => Some(RequestView::System(text + ":80"@)),
        AnswerView::Found(_) => None,
        AnswerView::Failed => fallback_due(text, answers),
    }
}

/// The addresses that a host name stands for, once no lookup is due: the first that the
/// system gave, else what the two other lookups amount to.
pub open spec fn lookup_ips(answers: HostView) -> Seq<Ip> {
    match answers.system {
        AnswerView::Found(ips) => if ips.len() > 0 {
            seq![ips.first()]
        } else {
            Seq::empty()
        },
        _ => fallback_ips(answers),
    }
}

/// The lookup that is due for a text; none where it spells an address or a network.
pub open spec fn request_due(text: Seq<char>, answers: HostView) -> Option<RequestView> {
    if is_literal(text) {
        None
    } else {
        lookup_due(text, answers)
    }
}

/// The addresses that a text stands for, once no lookup is due: those that it spells,
/// else what it was looked up as.
pub open spec fn text_ips(text: Seq<char>, answers: HostView) -> Seq<Ip> {
    match literal_ips(text) {
        Some(ips) => ips,
        None => lookup_ips(answers),
    }
}

/// A text that spells an address or a network stands for at least one address.
pub proof fn lemma_literal_nonempty(text: Seq<char>, answers: HostView)
    requires
        is_literal(text),
    ensures
        text_ips(text, answers).len() > 0,
{
    if ip_text(text) is None {
        let net = inet_text(text)->0.network();
        lemma_pow2_pos((net.first.width() - net.prefix) as nat);
    }
}

/// A lookup gave no more than `n` addresses.
pub open spec fn answer_within(answer: AnswerView, n: nat) -> bool {
    answer matches AnswerView::Found(ips) ==> ips.len() <= n
}

/// No lookup of a name gave more than `n` addresses.
pub open spec fn host_within(host: HostView, n: nat) -> bool {
    &&& answer_within(host.system, n)
    &&& answer_within(host.verbatim, n)
    &&& answer_within(host.dedicated, n)
}

/// How many addresses an answer holds.
pub open spec fn answer_len(answer: AnswerView) -> nat {
    match answer {
        AnswerView::Found(ips) => ips.len(),
        _ => 0,
    }
}

/// How many addresses the answers for a name hold.
pub open spec fn host_len(host: HostView) -> nat {
    answer_len(host.system) + answer_len(host.verbatim) + answer_len(host.dedicated)
}

/// What a lookup's outcome is on record as.
pub open spec fn answer_of(found: Option<Seq<Ip>>) -> AnswerView {
    match found {
        Some(ips) => AnswerView::Found(ips),
        None => AnswerView::Failed,
    }
}

/// A lookup at the system that succeeded gave at least one address.
pub open spec fn sound(host: HostView) -> bool {
    host.system matches AnswerView::Found(ips) ==> ips.len() > 0
}

/// What is known of a name after a lookup.
pub open spec fn recorded(
    answers: HostView,
    request: RequestView,
    found: Option<Seq<Ip>>,
) -> HostView {
    match request {
        RequestView::System(_) => HostView { system: answer_of(found), ..answers },
        RequestView::Verbatim(_) => HostView { verbatim: answer_of(found), ..answers },
        RequestView::Dedicated(_) => HostView { dedicated: answer_of(found), ..answers },
    }
}

/// What an optional list of addresses holds.
pub open spec fn found_view(found: Option<Vec<Ip>>) -> Option<Seq<Ip>> {
    match found {
        Some(ips) => Some(ips@),
        None => None,
    }
}

impl HostAnswers {
    /// Nothing has been looked up.
    pub fn new() -> (answers: HostAnswers)
        ensures
            answers@ == unasked(),
    {
        HostAnswers {
            system: Answer::Pending,
            verbatim: Answer::Pending,
            dedicated: Answer::Pending,
        }
    }

    /// Takes down what came of a lookup: the addresses that it gave, or `None` where it
    /// failed.
    pub fn record(&mut self, request: &Request, found: Option<Vec<Ip>>)
        ensures
            final(self)@ == recorded(old(self)@, request@, found_view(found)),
    {
        let answer = match found {
            Some(ips) => Answer::Found(ips),
            None => Answer::Failed,
        };
        match request {
            Request::System(_) => {
                self.system = answer;
            },
            Request::Verbatim(_) => {
                self.verbatim = answer;
            },
            Request::Dedicated(_) => {
                self.dedicated = answer;
            },
        }
    }
}

/// A copy of a list of addresses.
pub(crate) fn copied(ips: &Vec<Ip>) -> (copy: Vec<Ip>)
    ensures
        copy@ == ips@,
{
    let mut copy: Vec<Ip> = Vec::new();
    let mut i: usize = 0;
    while i < ips.len()
        invariant
            i <= ips.len(),
            copy@ =~= ips@.take(i as int),
        decreases ips.len() - i,
    {
        copy.push(ips[i]);
        i += 1;
    }
    assert(ips@.take(i as int) =~= ips@);
    copy
}

/// The addresses of a host that the system did not find under the web port: what the
/// system gives for the text as it stands, else what the dedicated resolver gives, else
/// none. Where one of those lookups has yet to be made, the error says which.
pub fn resolve_ips_from_host(source: &str, answers: &HostAnswers) -> (ips: Result<
    Vec<Ip>,
    Request,
>)
    ensures
        match ips {
            Ok(ips) => fallback_due(source@, answers@) is None && ips@ == fallback_ips(answers@),
            Err(request) => fallback_due(source@, answers@) == Some(request@),
        },
{
    match &answers.verbatim {
        Answer::Pending => Err(Request::Verbatim(source.to_owned())),
        Answer::Found(ips) => Ok(copied(ips)),
        Answer::Failed => match &answers.dedicated {
            Answer::Pending => Err(Request::Dedicated(source.to_owned())),
            Answer::Found(ips) => Ok(copied(ips)),
            Answer::Failed => Ok(Vec::new()),
        },
    }
}

/// The addresses that a text stands for, given what it reads as, as a walk: a network is
/// not written out.
fn walk_given(
    ip: Option<Ip>,
    inet: Option<Inet>,
    text: &str,
    answers: &HostAnswers,
) -> (walk: Result<Walk, Request>)
    requires
        inet matches Some(inet) ==> inet.wf(),
    ensures
        match walk {
            Ok(walk) => walk.wf() && match spelled_ips(ip, inet) {
                Some(ips) => walk.remaining() == ips && walk.stored() <= 1,
                None => {
                    &&& lookup_due(text@, answers@) is None
                    &&& walk.remaining() == lookup_ips(answers@)
                    &&& walk.stored() == lookup_ips(answers@).len()
                },
            },
            Err(request) => spelled_ips(ip, inet) is None && lookup_due(text@, answers@) == Some(
                request@,
            ),
        },
{
    if let Some(ip) = ip {
        let ips: Vec<Ip> = vec![ip];
        assert(ips@ =~= seq![ip]);
        return Ok(Walk::over_list(ips));
    }
    if let Some(inet) = inet {
        return Ok(Walk::over_inet(inet));
    }
    match &answers.system {
        Answer::Pending => Err(Request::System(text.to_owned().concat(":80"))),
        Answer::Found(found) => {
            let mut ips: Vec<Ip> = Vec::new();
            if found.len() > 0 {
                ips.push(found[0]);
            }
            assert(ips@ =~= lookup_ips(answers@));
            Ok(Walk::over_list(ips))
        },
        Answer::Failed => match resolve_ips_from_host(text, answers) {
            Ok(ips) => Ok(Walk::over_list(ips)),
            Err(request) => Err(request),
        },
    }
}

/// The addresses that a text stands for, as a walk: a network is not written out.
pub(crate) fn walk_text(text: &str, answers: &HostAnswers) -> (walk: Result<Walk, Request>)
    ensures
        match walk {
            Ok(walk) => {
                &&& request_due(text@, answers@) is None
                &&& walk.wf()
                &&& walk.remaining() == text_ips(text@, answers@)
                &&& walk.stored() <= if is_literal(text@) {
                    1
                } else {
                    text_ips(text@, answers@).len()
                }
            },
            Err(request) => request_due(text@, answers@) == Some(request@),
        },
{
    walk_given(parse_ip(text), parse_inet(text), text, answers)
}

/// The lookup that has to be made next for a text, if any. A network is not written out.
pub fn next_lookup(text: &str, answers: &HostAnswers) -> (request: Option<Request>)
    ensures
        request_view(request) == request_due(text@, answers@),
{
    match walk_text(text, answers) {
        Ok(_) => None,
        Err(request) => Some(request),
    }
}

/// The addresses that a text stands for, given the address (`ip`) or else the network
/// (`inet`) that it reads as.
///
/// Where it reads as neither, it is a host name; where a lookup for that has yet to be
/// made, the error says which.
pub fn read_address(
    ip: Option<Ip>,
    inet: Option<Inet>,
    address: &str,
    answers: &HostAnswers,
) -> (ips: Result<Vec<Ip>, Request>)
    requires
        inet matches Some(inet) ==> inet.wf(),
        sound(answers@),
    ensures
        match ips {
            Ok(ips) => match spelled_ips(ip, inet) {
                Some(spelled) => ips@ == spelled,
                None => lookup_due(address@, answers@) is None && ips@ == lookup_ips(answers@),
            },
            Err(request) => spelled_ips(ip, inet) is None && lookup_due(address@, answers@) == Some(
                request@,
            ),
        },
{
    match walk_given(ip, inet, address, answers) {
        Ok(walk) => Ok(walk.collect()),
        Err(request) => Err(request),
    }
}

} // verus!
