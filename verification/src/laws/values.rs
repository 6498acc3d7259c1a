//! What the values of the library hold.
use vstd::prelude::*;

use crate::address::{line_views, FileAnswer, FileView, Line, LineView, Need, NeedView};
use crate::ip::{lemma_net_bound, lemma_value_bound, lemma_with_value, Ip, Net};
use crate::lookup::{
    found_view, request_view, Answer, AnswerView, HostAnswers, Request, RequestView,
};
use crate::text::texts;

verus! {

/// An address is a number of 32 or 128 bits, all of them, and the number with its family
/// is the address.
pub proof fn law_ip(ip: Ip, other: Ip)
    ensures
        ip matches Ip::V4(bits) ==> ip.value() == bits && ip.width() == 32,
        ip matches Ip::V6(bits) ==> ip.value() == bits && ip.width() == 128,
        ip.same_family(other) <==> ip.width() == other.width(),
        ip.same_family(other) && ip.value() == other.value() <==> ip == other,
        ip.same_family(other) ==> ip.with_value(other.value()) == other,
{
    lemma_value_bound(other);
    if ip.same_family(other) {
        lemma_with_value(ip, other.value());
    }
}

/// The highest address of a network lies in it, and none that lies in it is higher.
pub proof fn law_network_last(net: Net, ip: Ip)
    requires
        net.wf(),
    ensures
        net.contains(net.last()),
        net.contains(net.first),
        net.contains(ip) ==> net.first.value() <= ip.value() <= net.last().value(),
{
    lemma_net_bound(net);
    lemma_with_value(net.first, (net.first.value() + net.size() - 1) as nat);
}

/// An answer holds what came of the lookup: every address that it gave, in their order.
pub proof fn law_answer(answer: Answer)
    ensures
        answer is Pending <==> answer@ == AnswerView::Pending,
        answer is Failed <==> answer@ == AnswerView::Failed,
        answer matches Answer::Found(ips) ==> answer@ == AnswerView::Found(ips@),
{
}

/// What is known of a name is what came of each of its lookups.
pub proof fn law_host_answers(host: HostAnswers)
    ensures
        host@.system == host.system@,
        host@.verbatim == host.verbatim@,
        host@.dedicated == host.dedicated@,
{
}

/// What was found is what is reported, and nothing where nothing was.
pub proof fn law_found(found: Option<Vec<Ip>>)
    ensures
        found matches Some(ips) ==> found_view(found) == Some(ips@),
        found is None ==> found_view(found) is None,
{
}

/// A request holds just the text that is to be looked up.
pub proof fn law_request(request: Request)
    ensures
        request matches Request::System(name) ==> request@ == RequestView::System(name@),
        request matches Request::Verbatim(name) ==> request@ == RequestView::Verbatim(name@),
        request matches Request::Dedicated(name) ==> request@ == RequestView::Dedicated(name@),
        request_view(Some(request)) == Some(request@),
        request_view(None) is None,
{
}

/// Work that is due points at the position that it names.
pub proof fn law_need(need: Need)
    ensures
        need matches Need::Argument { index, request } ==> need@ == (NeedView::Argument {
            index: index as int,
            request: request@,
        }),
        need matches Need::File { index, path } ==> need@ == (NeedView::File {
            index: index as int,
            path: path@,
        }),
        need matches Need::Line { index, line, request } ==> need@ == (NeedView::Line {
            index: index as int,
            line: line as int,
            request: request@,
        }),
        need matches Need::Exclusion { index, request } ==> need@ == (NeedView::Exclusion {
            index: index as int,
            request: request@,
        }),
{
}

/// A file that was read holds every line, in its place, with its text and what is known of
/// the name on it.
pub proof fn law_file(file: FileAnswer, i: int)
    ensures
        file is Unread <==> file@ == FileView::Unread,
        file is NotAFile <==> file@ == FileView::NotAFile,
        file is Unreadable <==> file@ == FileView::Unreadable,
        file matches FileAnswer::Lines(lines) ==> {
            &&& file@ == FileView::Lines(line_views(lines@))
            &&& line_views(lines@).len() == lines@.len()
            &&& 0 <= i < lines@.len() ==> {
                &&& lines@[i] is Unreadable ==> line_views(lines@)[i] == LineView::Unreadable
                &&& lines@[i] matches Line::Text { text, host } ==> line_views(lines@)[i] == (
                LineView::Text { text: text@, host: host@ })
            }
        },
{
}

/// A list of texts holds every text, in its place.
pub proof fn law_texts(list: Seq<&str>, i: int)
    ensures
        texts(list).len() == list.len(),
        0 <= i < list.len() ==> texts(list)[i] == list[i]@,
{
}

} // verus!
