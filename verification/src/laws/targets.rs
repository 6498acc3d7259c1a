//! What the targets and the exclusions stand for, all at once.
use vstd::prelude::*;

use crate::address::{
    addresses_due, argument_ips, arguments_due, excluded_nets, exclusion_due, exclusion_nets,
    exclusions_due, file_due, file_ips, files_due, files_ips, gathered, hopeless_targets, line_ips,
    lines_due, lines_ips, lines_sound, parsed, Answers, AnswersView, FileView, LineView, NeedView,
};
use crate::bindings::{cidr_text, ip_text};
use crate::chunk::chunks;
use crate::input::Opts;
use crate::ip::{covered, Ip, Net};
use crate::lookup::{request_due, sound, text_ips, AnswerView, HostView};

use super::lookup::{law_excluded_as_address, law_excluded_as_network};
use super::resolver::picks;
use super::{
    first_at, in_some, law_chunks_members, law_selection_distinct, law_selection_members,
    law_selection_order,
};

verus! {

/// What the options list is what is scanned and what is left out: every text, in its
/// place.
pub proof fn law_options(opts: Opts, i: int)
    ensures
        opts.targets().len() == opts.addresses@.len(),
        0 <= i < opts.addresses@.len() ==> opts.targets()[i] == opts.addresses@[i]@,
        opts.exclude_addresses is None ==> opts.exclusions().len() == 0,
        opts.exclude_addresses matches Some(list) ==> {
            &&& opts.exclusions().len() == list@.len()
            &&& 0 <= i < list@.len() ==> opts.exclusions()[i] == list@[i]@
        },
{
}

/// Answers count for the target or the exclusion that they are listed for.
pub proof fn law_answers(answers: Answers, i: int)
    ensures
        answers@.arguments.len() == answers.arguments@.len(),
        answers@.files.len() == answers.files@.len(),
        answers@.exclusions.len() == answers.exclusions@.len(),
        0 <= i < answers.arguments@.len() ==> answers@.arguments[i] == answers.arguments@[i]@,
        0 <= i < answers.files@.len() ==> answers@.files[i] == answers.files@[i]@,
        0 <= i < answers.exclusions@.len() ==> answers@.exclusions[i] == answers.exclusions@[i]@,
{
}

/// Only a lookup at the system that succeeded with nothing to show for it is ruled out.
pub open spec fn shows_something(host: HostView) -> bool {
    host.system matches AnswerView::Found(ips) ==> ips.len() > 0
}

/// Any answers will do that are one for each target and exclusion, where no lookup at the
/// system for a target or a line succeeded with nothing to show for it.
pub proof fn law_answers_accepted(answers: AnswersView, targets: nat, exclusions: nat)
    requires
        answers.arguments.len() == targets,
        answers.files.len() == targets,
        answers.exclusions.len() == exclusions,
        forall|i: int| 0 <= i < targets ==> shows_something(#[trigger] answers.arguments[i]),
        forall|i: int, j: int|
            0 <= i < targets && answers.files[i] is Lines && 0 <= j
                < answers.files[i]->Lines_0.len() && answers.files[i]->Lines_0[j] is Text
                ==> shows_something((#[trigger] answers.files[i]->Lines_0[j])->host),
    ensures
        answers.wf(targets, exclusions),
{
    assert forall|i: int| 0 <= i < targets implies sound(#[trigger] answers.arguments[i]) by {
        assert(shows_something(answers.arguments[i]));
    }
    assert forall|i: int| 0 <= i < targets implies (#[trigger] answers.files[i] matches
        FileView::Lines(lines) ==> lines_sound(lines)) by {
        if let FileView::Lines(lines) = answers.files[i] {
            assert forall|j: int| 0 <= j < lines.len() implies (#[trigger] lines[j] matches
                LineView::Text { host, .. } ==> sound(host)) by {
                assert(lines[j] == answers.files[i]->Lines_0[j]);
            }
        }
    }
}

/// An address is excluded where one of the networks contains it, whichever that is.
pub proof fn law_covered(nets: Seq<Net>, ip: Ip)
    ensures
        covered(nets, ip) <==> !(forall|i: int|
            0 <= i < nets.len() ==> !(#[trigger] nets[i]).contains(ip)),
{
    if exists|i: int| 0 <= i < nets.len() && (#[trigger] nets[i]).contains(ip) {
        let i = choose|i: int| 0 <= i < nets.len() && (#[trigger] nets[i]).contains(ip);
        assert(nets[i].contains(ip));
    }
}

/// A target stands for the address by itself.
pub open spec fn named_by(target: Seq<char>, host: HostView, ip: Ip) -> bool {
    text_ips(target, host).contains(ip)
}

/// Some line that could be read stands for the address.
pub open spec fn on_some_line(lines: Seq<LineView>, ip: Ip) -> bool {
    exists|j: int|
        0 <= j < lines.len() && (#[trigger] lines[j] matches LineView::Text { text, host }
            && text_ips(text, host).contains(ip))
}

/// A target stands for no address by itself, but there is a file of its name, and a line
/// of it stands for the address.
pub open spec fn listed_in(target: Seq<char>, host: HostView, file: FileView, ip: Ip) -> bool {
    &&& text_ips(target, host).len() == 0
    &&& file matches FileView::Lines(lines)
    &&& on_some_line(lines, ip)
}

/// What is in two sequences is in one behind the other.
proof fn lemma_add_contains<A>(a: Seq<A>, b: Seq<A>, x: A)
    ensures
        (a + b).contains(x) <==> a.contains(x) || b.contains(x),
{
    if a.contains(x) {
        assert((a + b)[a.index_of(x)] == x);
    }
    if b.contains(x) {
        assert((a + b)[a.len() + b.index_of(x)] == x);
    }
}

/// The first targets stand for the addresses that one of them stands for.
proof fn lemma_argument_members(targets: Seq<Seq<char>>, hosts: Seq<HostView>, n: nat, ip: Ip)
    ensures
        argument_ips(targets, hosts, n).contains(ip) <==> exists|i: int|
            0 <= i < n && #[trigger] named_by(targets[i], hosts[i], ip),
    decreases n,
{
    if n > 0 {
        let m = n - 1;
        lemma_argument_members(targets, hosts, m as nat, ip);
        lemma_add_contains(
            argument_ips(targets, hosts, m as nat),
            text_ips(targets[m], hosts[m]),
            ip,
        );
        assert(named_by(targets[m], hosts[m], ip) <==> text_ips(targets[m], hosts[m]).contains(ip));
    }
}

/// The first lines stand for the addresses that one of them stands for.
proof fn lemma_lines_members(lines: Seq<LineView>, n: nat, ip: Ip)
    requires
        n <= lines.len(),
    ensures
        lines_ips(lines, n).contains(ip) <==> exists|j: int|
            0 <= j < n && (#[trigger] lines[j] matches LineView::Text { text, host } && text_ips(
                text,
                host,
            ).contains(ip)),
    decreases n,
{
    if n > 0 {
        let m = n - 1;
        lemma_lines_members(lines, m as nat, ip);
        lemma_add_contains(lines_ips(lines, m as nat), line_ips(lines[m]), ip);
        assert(lines[m] matches LineView::Text { text, host } ==> line_ips(lines[m]) == text_ips(
            text,
            host,
        ));
    }
}

/// The first targets stand, as files, for the addresses that one of them stands for.
proof fn lemma_files_members(targets: Seq<Seq<char>>, answers: AnswersView, n: nat, ip: Ip)
    ensures
        files_ips(targets, answers, n).contains(ip) <==> exists|i: int|
            0 <= i < n && #[trigger] listed_in(
                targets[i],
                answers.arguments[i],
                answers.files[i],
                ip,
            ),
    decreases n,
{
    if n > 0 {
        let m = n - 1;
        let file = answers.files[m];
        let host = answers.arguments[m];
        lemma_files_members(targets, answers, m as nat, ip);
        lemma_add_contains(
            files_ips(targets, answers, m as nat),
            file_ips(targets[m], host, file),
            ip,
        );
        if let FileView::Lines(lines) = file {
            lemma_lines_members(lines, lines.len(), ip);
        }
        assert(listed_in(targets[m], host, file, ip) <==> file_ips(targets[m], host, file).contains(
            ip,
        ));
    }
}

/// What is gathered is every address that some target stands for by itself or as a file,
/// and nothing else.
pub proof fn law_gathered_members(targets: Seq<Seq<char>>, answers: AnswersView, ip: Ip)
    ensures
        gathered(targets, answers).contains(ip) <==> {
            ||| exists|i: int|
                0 <= i < targets.len() && #[trigger] named_by(targets[i], answers.arguments[i], ip)
            ||| exists|i: int|
                0 <= i < targets.len() && #[trigger] listed_in(
                    targets[i],
                    answers.arguments[i],
                    answers.files[i],
                    ip,
                )
        },
{
    lemma_argument_members(targets, answers.arguments, targets.len(), ip);
    lemma_files_members(targets, answers, targets.len(), ip);
    lemma_add_contains(
        argument_ips(targets, answers.arguments, targets.len()),
        files_ips(targets, answers, targets.len()),
        ip,
    );
}

/// The addresses of the first targets come target by target.
proof fn lemma_arguments_flat(targets: Seq<Seq<char>>, hosts: Seq<HostView>, n: nat)
    ensures
        argument_ips(targets, hosts, n) == Seq::new(
            n,
            |i: int| text_ips(targets[i], hosts[i]),
        ).flatten(),
    decreases n,
{
    let all = Seq::new(n, |i: int| text_ips(targets[i], hosts[i]));
    if n > 0 {
        let fewer = Seq::new((n - 1) as nat, |i: int| text_ips(targets[i], hosts[i]));
        lemma_arguments_flat(targets, hosts, (n - 1) as nat);
        assert(all =~= fewer.push(text_ips(targets[n - 1], hosts[n - 1])));
        fewer.lemma_flatten_push(text_ips(targets[n - 1], hosts[n - 1]));
    }
}

/// The addresses of the lines of a file, line by line; a line that could not be read has
/// none.
pub open spec fn by_line(lines: Seq<LineView>) -> Seq<Seq<Ip>> {
    Seq::new(
        lines.len(),
        |j: int|
            match lines[j] {
                LineView::Text { text, host } => text_ips(text, host),
                LineView::Unreadable => Seq::empty(),
            },
    )
}

/// The addresses of the first lines come line by line.
proof fn lemma_lines_flat(lines: Seq<LineView>, n: nat)
    requires
        n <= lines.len(),
    ensures
        lines_ips(lines, n) == by_line(lines).take(n as int).flatten(),
    decreases n,
{
    if n == 0 {
        assert(by_line(lines).take(0) =~= Seq::empty());
    } else {
        let fewer = by_line(lines).take(n - 1);
        lemma_lines_flat(lines, (n - 1) as nat);
        assert(by_line(lines).take(n as int) =~= fewer.push(by_line(lines)[n - 1]));
        fewer.lemma_flatten_push(by_line(lines)[n - 1]);
    }
}

/// The first lines of a file stand for their addresses, line by line; what is due is the
/// lookup of the first line that has one due.
pub proof fn law_lines_in_turn(lines: Seq<LineView>, n: nat)
    requires
        n <= lines.len(),
    ensures
        lines_ips(lines, n) == by_line(lines).take(n as int).flatten(),
        match lines_due(lines, 0) {
            None => lines_settled(lines, lines.len() as int),
            Some((line, request)) => {
                &&& 0 <= line < lines.len()
                &&& lines[line] matches LineView::Text { text, host }
                &&& request_due(text, host) == Some(request)
                &&& lines_settled(lines, line)
            },
        },
{
    lemma_lines_flat(lines, n);
    lemma_first_line(lines, 0);
}

/// The addresses of the targets as files, target by target; one that stands for an
/// address by itself, or that is no file, has none.
pub open spec fn by_file(targets: Seq<Seq<char>>, answers: AnswersView) -> Seq<Seq<Ip>> {
    Seq::new(
        targets.len(),
        |i: int|
            match answers.files[i] {
                FileView::Lines(lines) if text_ips(targets[i], answers.arguments[i]).len() == 0 =>
                    by_line(lines).flatten(),
                _ => Seq::empty(),
            },
    )
}

/// The addresses of the first targets as files come target by target.
proof fn lemma_files_flat(targets: Seq<Seq<char>>, answers: AnswersView, n: nat)
    requires
        n <= targets.len(),
    ensures
        files_ips(targets, answers, n) == by_file(targets, answers).take(n as int).flatten(),
    decreases n,
{
    let all = by_file(targets, answers);
    if n == 0 {
        assert(all.take(0) =~= Seq::empty());
    } else {
        let fewer = all.take(n - 1);
        lemma_files_flat(targets, answers, (n - 1) as nat);
        assert(all.take(n as int) =~= fewer.push(all[n - 1]));
        fewer.lemma_flatten_push(all[n - 1]);
        if let FileView::Lines(lines) = answers.files[n - 1] {
            lemma_lines_flat(lines, lines.len());
            assert(by_line(lines).take(lines.len() as int) =~= by_line(lines));
        }
        assert(all[n - 1] =~= file_ips(
            targets[n - 1],
            answers.arguments[n - 1],
            answers.files[n - 1],
        ));
    }
}

/// What is gathered comes in order: the addresses of each target by itself, target by
/// target, then the addresses of each target as a file, target by target and line by line.
pub proof fn law_gathered_order(targets: Seq<Seq<char>>, answers: AnswersView)
    ensures
        gathered(targets, answers) == Seq::new(
            targets.len(),
            |i: int| text_ips(targets[i], answers.arguments[i]),
        ).flatten() + by_file(targets, answers).flatten(),
{
    lemma_arguments_flat(targets, answers.arguments, targets.len());
    lemma_files_flat(targets, answers, targets.len());
    assert(by_file(targets, answers).take(targets.len() as int) =~= by_file(targets, answers));
}

/// The networks of the first exclusions come exclusion by exclusion.
proof fn lemma_excluded_flat(texts: Seq<Seq<char>>, hosts: Seq<HostView>, n: nat)
    ensures
        excluded_nets(texts, hosts, n) == Seq::new(
            n,
            |i: int| exclusion_nets(texts[i], hosts[i]),
        ).flatten(),
    decreases n,
{
    let all = Seq::new(n, |i: int| exclusion_nets(texts[i], hosts[i]));
    if n > 0 {
        let fewer = Seq::new((n - 1) as nat, |i: int| exclusion_nets(texts[i], hosts[i]));
        lemma_excluded_flat(texts, hosts, (n - 1) as nat);
        assert(all =~= fewer.push(exclusion_nets(texts[n - 1], hosts[n - 1])));
        fewer.lemma_flatten_push(exclusion_nets(texts[n - 1], hosts[n - 1]));
    }
}

/// The first exclusions stand for the networks that one of them stands for.
proof fn lemma_excluded_members(texts: Seq<Seq<char>>, hosts: Seq<HostView>, n: nat, net: Net)
    ensures
        excluded_nets(texts, hosts, n).contains(net) <==> exists|i: int|
            0 <= i < n && #[trigger] exclusion_nets(texts[i], hosts[i]).contains(net),
    decreases n,
{
    if n > 0 {
        let m = n - 1;
        lemma_excluded_members(texts, hosts, m as nat, net);
        lemma_add_contains(
            excluded_nets(texts, hosts, m as nat),
            exclusion_nets(texts[m], hosts[m]),
            net,
        );
    }
}

/// The excluded networks are those of every exclusion, exclusion by exclusion: each of
/// them counts, and nothing else is excluded.
pub proof fn law_excluded_networks(texts: Seq<Seq<char>>, hosts: Seq<HostView>, net: Net)
    ensures
        excluded_nets(texts, hosts, texts.len()) == Seq::new(
            texts.len(),
            |i: int| exclusion_nets(texts[i], hosts[i]),
        ).flatten(),
        excluded_nets(texts, hosts, texts.len()).contains(net) <==> exists|i: int|
            0 <= i < texts.len() && #[trigger] exclusion_nets(texts[i], hosts[i]).contains(net),
{
    lemma_excluded_flat(texts, hosts, texts.len());
    lemma_excluded_members(texts, hosts, texts.len(), net);
}

/// An exclusion holds the address: it lies in one of the networks that the exclusion
/// stands for.
pub open spec fn holds(text: Seq<char>, host: HostView, ip: Ip) -> bool {
    exists|k: int|
        0 <= k < exclusion_nets(text, host).len() && #[trigger] exclusion_nets(
            text,
            host,
        )[k].contains(ip)
}

/// An address is excluded where some exclusion holds it, whichever that is.
pub proof fn law_excluded_addresses(texts: Seq<Seq<char>>, hosts: Seq<HostView>, ip: Ip)
    ensures
        covered(excluded_nets(texts, hosts, texts.len()), ip) <==> exists|i: int|
            0 <= i < texts.len() && #[trigger] holds(texts[i], hosts[i], ip),
{
    let all = excluded_nets(texts, hosts, texts.len());
    if covered(all, ip) {
        let j = choose|j: int| 0 <= j < all.len() && #[trigger] all[j].contains(ip);
        assert(all.contains(all[j]));
        law_excluded_networks(texts, hosts, all[j]);
        let i = choose|i: int|
            0 <= i < texts.len() && #[trigger] exclusion_nets(texts[i], hosts[i]).contains(all[j]);
        let nets = exclusion_nets(texts[i], hosts[i]);
        assert(nets[nets.index_of(all[j])].contains(ip));
        assert(holds(texts[i], hosts[i], ip));
    }
    if exists|i: int| 0 <= i < texts.len() && #[trigger] holds(texts[i], hosts[i], ip) {
        let i = choose|i: int| 0 <= i < texts.len() && #[trigger] holds(texts[i], hosts[i], ip);
        let nets = exclusion_nets(texts[i], hosts[i]);
        let k = choose|k: int| 0 <= k < nets.len() && #[trigger] nets[k].contains(ip);
        assert(nets.contains(nets[k]));
        law_excluded_networks(texts, hosts, nets[k]);
        assert(all[all.index_of(nets[k])].contains(ip));
    }
}

/// An address that a spelled exclusion holds is neither parsed nor in any chunk, whichever
/// exclusion that is: one that lies in the network that it spells, or the address that it
/// spells.
pub proof fn law_spelled_exclusion(
    targets: Seq<Seq<char>>,
    exclusions: Seq<Seq<char>>,
    answers: AnswersView,
    ips: Seq<Ip>,
    size: nat,
    i: int,
    ip: Ip,
)
    requires
        0 <= i < exclusions.len(),
        match cidr_text(exclusions[i]) {
            Some(net) => net.contains(ip),
            None => ip_text(exclusions[i]) == Some(ip),
        },
    ensures
        !parsed(targets, exclusions, answers).contains(ip),
        !in_some(
            chunks(ips, excluded_nets(exclusions, answers.exclusions, exclusions.len()), size),
            ip,
        ),
{
    let excluded = excluded_nets(exclusions, answers.exclusions, exclusions.len());
    let host = answers.exclusions[i];
    match cidr_text(exclusions[i]) {
        Some(net) => {
            law_excluded_as_network(exclusions[i], host, net);
            assert(exclusion_nets(exclusions[i], host)[0].contains(ip));
        },
        None => {
            law_excluded_as_address(exclusions[i], host, ip);
            assert(exclusion_nets(exclusions[i], host)[0].contains(ip));
        },
    }
    assert(holds(exclusions[i], host, ip));
    law_excluded_addresses(exclusions, answers.exclusions, ip);
    law_selection_members(gathered(targets, answers), excluded, ip);
    law_chunks_members(ips, excluded, size, ip);
}

/// What is parsed is every address that some target stands for, by itself or as a file,
/// and that no exclusion holds; each of them once.
pub proof fn law_parsed_members(
    targets: Seq<Seq<char>>,
    exclusions: Seq<Seq<char>>,
    answers: AnswersView,
    ip: Ip,
)
    ensures
        parsed(targets, exclusions, answers).contains(ip) <==> {
            &&& {
                ||| exists|i: int|
                    0 <= i < targets.len() && #[trigger] named_by(
                        targets[i],
                        answers.arguments[i],
                        ip,
                    )
                ||| exists|i: int|
                    0 <= i < targets.len() && #[trigger] listed_in(
                        targets[i],
                        answers.arguments[i],
                        answers.files[i],
                        ip,
                    )
            }
            &&& !exists|i: int|
                0 <= i < exclusions.len() && #[trigger] holds(
                    exclusions[i],
                    answers.exclusions[i],
                    ip,
                )
        },
        parsed(targets, exclusions, answers).no_duplicates(),
{
    let excluded = excluded_nets(exclusions, answers.exclusions, exclusions.len());
    law_gathered_members(targets, answers, ip);
    law_excluded_addresses(exclusions, answers.exclusions, ip);
    law_selection_members(gathered(targets, answers), excluded, ip);
    law_selection_distinct(gathered(targets, answers), excluded);
}

/// What is parsed comes in the order in which it was first gathered.
pub proof fn law_parsed_order(
    targets: Seq<Seq<char>>,
    exclusions: Seq<Seq<char>>,
    answers: AnswersView,
    i: int,
    j: int,
)
    requires
        0 <= i < j < parsed(targets, exclusions, answers).len(),
    ensures
        exists|a: int, b: int|
            a < b && #[trigger] first_at(
                gathered(targets, answers),
                parsed(targets, exclusions, answers)[i],
                a,
            ) && #[trigger] first_at(
                gathered(targets, answers),
                parsed(targets, exclusions, answers)[j],
                b,
            ),
{
    law_selection_order(
        gathered(targets, answers),
        excluded_nets(exclusions, answers.exclusions, exclusions.len()),
        i,
        j,
    );
}

/// No lookup is due for any of the first `n` texts.
pub open spec fn names_settled(texts: Seq<Seq<char>>, hosts: Seq<HostView>, n: int) -> bool {
    forall|i: int| 0 <= i < n ==> request_due(#[trigger] texts[i], hosts[i]) is None
}

/// No lookup is due for any of the first `n` lines that could be read.
pub open spec fn lines_settled(lines: Seq<LineView>, n: int) -> bool {
    forall|j: int|
        0 <= j < n ==> (#[trigger] lines[j] matches LineView::Text { text, host } ==> request_due(
            text,
            host,
        ) is None)
}

/// Nothing is left to do for a target as a file: it stands for an address by itself, or it
/// was looked for and none of its lines has a lookup due.
pub open spec fn file_settled(target: Seq<char>, host: HostView, file: FileView) -> bool {
    ||| text_ips(target, host).len() > 0
    ||| match file {
        FileView::Unread => false,
        FileView::Lines(lines) => lines_settled(lines, lines.len() as int),
        _ => true,
    }
}

/// Nothing is left to do for any of the first `n` targets as files.
pub open spec fn files_settled(targets: Seq<Seq<char>>, answers: AnswersView, n: int) -> bool {
    forall|i: int|
        0 <= i < n ==> file_settled(#[trigger] targets[i], answers.arguments[i], answers.files[i])
}

/// No lookup is due for any of the first `n` exclusions.
pub open spec fn exclusions_settled(texts: Seq<Seq<char>>, hosts: Seq<HostView>, n: int) -> bool {
    forall|i: int| 0 <= i < n ==> exclusion_due(#[trigger] texts[i], hosts[i]) is None
}

/// What is due for the targets is the lookup of the first that has one due.
pub(super) proof fn lemma_first_name(targets: Seq<Seq<char>>, hosts: Seq<HostView>, k: int)
    requires
        0 <= k <= targets.len(),
        names_settled(targets, hosts, k),
    ensures
        match arguments_due(targets, hosts, k) {
            None => names_settled(targets, hosts, targets.len() as int),
            Some(NeedView::Argument { index, request }) => {
                &&& k <= index < targets.len()
                &&& request_due(targets[index], hosts[index]) == Some(request)
                &&& names_settled(targets, hosts, index)
            },
            _ => false,
        },
    decreases targets.len() - k,
{
    if k < targets.len() && request_due(targets[k], hosts[k]) is None {
        lemma_first_name(targets, hosts, k + 1);
    }
}

/// What is due for the lines is the lookup of the first that has one due.
proof fn lemma_first_line(lines: Seq<LineView>, k: int)
    requires
        0 <= k <= lines.len(),
        lines_settled(lines, k),
    ensures
        match lines_due(lines, k) {
            None => lines_settled(lines, lines.len() as int),
            Some((line, request)) => {
                &&& k <= line < lines.len()
                &&& lines[line] matches LineView::Text { text, host }
                &&& request_due(text, host) == Some(request)
                &&& lines_settled(lines, line)
            },
        },
    decreases lines.len() - k,
{
    if k < lines.len() && !(lines[k] matches LineView::Text { text, host } && request_due(
        text,
        host,
    ) is Some) {
        lemma_first_line(lines, k + 1);
    }
}

/// What is due for the targets as files is that of the first with anything left to do.
proof fn lemma_first_file(targets: Seq<Seq<char>>, answers: AnswersView, k: int)
    requires
        0 <= k <= targets.len(),
        files_settled(targets, answers, k),
    ensures
        match files_due(targets, answers, k) {
            None => files_settled(targets, answers, targets.len() as int),
            Some(NeedView::File { index, path }) => {
                &&& k <= index < targets.len()
                &&& path == targets[index]
                &&& text_ips(targets[index], answers.arguments[index]).len() == 0
                &&& answers.files[index] == FileView::Unread
                &&& files_settled(targets, answers, index)
            },
            Some(NeedView::Line { index, line, request }) => {
                &&& k <= index < targets.len()
                &&& text_ips(targets[index], answers.arguments[index]).len() == 0
                &&& answers.files[index] matches FileView::Lines(lines)
                &&& 0 <= line < lines.len()
                &&& lines[line] matches LineView::Text { text, host }
                &&& request_due(text, host) == Some(request)
                &&& lines_settled(lines, line)
                &&& files_settled(targets, answers, index)
            },
            _ => false,
        },
    decreases targets.len() - k,
{
    if k < targets.len() {
        if let FileView::Lines(lines) = answers.files[k] {
            lemma_first_line(lines, 0);
        }
        if file_due(targets[k], answers.arguments[k], answers.files[k], k) is None {
            lemma_first_file(targets, answers, k + 1);
        }
    }
}

/// What is due for the exclusions is the lookup of the first that has one due.
proof fn lemma_first_exclusion(texts: Seq<Seq<char>>, hosts: Seq<HostView>, k: int)
    requires
        0 <= k <= texts.len(),
        exclusions_settled(texts, hosts, k),
    ensures
        match exclusions_due(texts, hosts, k) {
            None => exclusions_settled(texts, hosts, texts.len() as int),
            Some(NeedView::Exclusion { index, request }) => {
                &&& k <= index < texts.len()
                &&& exclusion_due(texts[index], hosts[index]) == Some(request)
                &&& exclusions_settled(texts, hosts, index)
            },
            _ => false,
        },
    decreases texts.len() - k,
{
    if k < texts.len() && exclusion_due(texts[k], hosts[k]) is None {
        lemma_first_exclusion(texts, hosts, k + 1);
    }
}

/// What is due for the exclusions is the lookup of the first that has one due, and there
/// is something due as long as there is such a one.
pub proof fn law_exclusions_in_turn(texts: Seq<Seq<char>>, hosts: Seq<HostView>)
    ensures
        match exclusions_due(texts, hosts, 0) {
            None => exclusions_settled(texts, hosts, texts.len() as int),
            Some(NeedView::Exclusion { index, request }) => {
                &&& 0 <= index < texts.len()
                &&& exclusion_due(texts[index], hosts[index]) == Some(request)
                &&& exclusions_settled(texts, hosts, index)
            },
            _ => false,
        },
{
    lemma_first_exclusion(texts, hosts, 0);
}

/// The work is done in turn, all of it: the lookups for the targets come first, in their
/// order, then the targets that stand for no address as files, in their order and line by
/// line, then the lookups for the exclusions. Nothing is due only when nothing is left.
pub proof fn law_work_in_turn(
    targets: Seq<Seq<char>>,
    exclusions: Seq<Seq<char>>,
    answers: AnswersView,
)
    ensures
        ({
            let all = targets.len() as int;
            match addresses_due(targets, exclusions, answers) {
                None => {
                    &&& names_settled(targets, answers.arguments, all)
                    &&& files_settled(targets, answers, all)
                    &&& exclusions_settled(
                        exclusions,
                        answers.exclusions,
                        exclusions.len() as int,
                    )
                },
                Some(NeedView::Argument { index, request }) => {
                    &&& 0 <= index < targets.len()
                    &&& request_due(targets[index], answers.arguments[index]) == Some(request)
                    &&& names_settled(targets, answers.arguments, index)
                },
                Some(NeedView::File { index, path }) => {
                    &&& 0 <= index < targets.len()
                    &&& path == targets[index]
                    &&& text_ips(targets[index], answers.arguments[index]).len() == 0
                    &&& answers.files[index] == FileView::Unread
                    &&& names_settled(targets, answers.arguments, all)
                    &&& files_settled(targets, answers, index)
                },
                Some(NeedView::Line { index, line, request }) => {
                    &&& 0 <= index < targets.len()
                    &&& text_ips(targets[index], answers.arguments[index]).len() == 0
                    &&& answers.files[index] matches FileView::Lines(lines)
                    &&& 0 <= line < lines.len()
                    &&& lines[line] matches LineView::Text { text, host }
                    &&& request_due(text, host) == Some(request)
                    &&& lines_settled(lines, line)
                    &&& names_settled(targets, answers.arguments, all)
                    &&& files_settled(targets, answers, index)
                },
                Some(NeedView::Exclusion { index, request }) => {
                    &&& 0 <= index < exclusions.len()
                    &&& exclusion_due(exclusions[index], answers.exclusions[index]) == Some(request)
                    &&& names_settled(targets, answers.arguments, all)
                    &&& files_settled(targets, answers, all)
                    &&& exclusions_settled(exclusions, answers.exclusions, index)
                },
            }
        }),
{
    lemma_first_name(targets, answers.arguments, 0);
    lemma_first_file(targets, answers, 0);
    lemma_first_exclusion(exclusions, answers.exclusions, 0);
}

/// For each target, the target itself where nothing can be made of it: no lookup is due,
/// it stands for no address, and it is no file that can be read.
pub open spec fn lost(targets: Seq<Seq<char>>, answers: AnswersView, n: nat) -> Seq<
    Option<Seq<char>>,
> {
    Seq::new(
        n,
        |i: int|
            if request_due(targets[i], answers.arguments[i]) is None && text_ips(
                targets[i],
                answers.arguments[i],
            ).len() == 0 && (answers.files[i] == FileView::NotAFile || answers.files[i]
                == FileView::Unreadable) {
                Some(targets[i])
            } else {
                None
            },
    )
}

/// Among the first targets, those of which nothing can be made are found, in their order.
proof fn lemma_lost(targets: Seq<Seq<char>>, answers: AnswersView, n: nat) -> (at: Seq<int>)
    ensures
        picks(at, lost(targets, answers, n)),
        hopeless_targets(targets, answers, n).len() == at.len(),
        forall|j: int|
            0 <= j < at.len() ==> #[trigger] hopeless_targets(targets, answers, n)[j]
                == targets[at[j]],
    decreases n,
{
    let found = lost(targets, answers, n);
    if n == 0 {
        Seq::empty()
    } else {
        let last = n - 1;
        let before = lost(targets, answers, last as nat);
        let fewer = lemma_lost(targets, answers, last as nat);
        let at = if found[last] is Some {
            fewer.push(last)
        } else {
            fewer
        };
        assert forall|i: int| 0 <= i < last implies #[trigger] found[i] == before[i] by {}
        assert forall|j: int| 0 <= j < at.len() implies 0 <= #[trigger] at[j] < found.len()
            && found[at[j]] is Some by {
            if j < fewer.len() {
                assert(at[j] == fewer[j]);
                assert(found[fewer[j]] == before[fewer[j]]);
            }
        }
        assert forall|j: int| 0 <= j < at.len() implies #[trigger] hopeless_targets(
            targets,
            answers,
            n,
        )[j] == targets[at[j]] by {
            if j < fewer.len() {
                assert(hopeless_targets(targets, answers, last as nat)[j] == targets[fewer[j]]);
            }
        }
        assert forall|j: int, k: int| 0 <= j < k < at.len() implies #[trigger] at[j]
            < #[trigger] at[k] by {
            assert(at[j] == fewer[j]);
            if k < fewer.len() {
                assert(at[k] == fewer[k]);
            }
        }
        assert forall|i: int| 0 <= i < found.len() && #[trigger] found[i] is Some implies exists|
            j: int,
        | 0 <= j < at.len() && #[trigger] at[j] == i by {
            if i < last {
                assert(before[i] is Some);
                let j = choose|j: int| 0 <= j < fewer.len() && #[trigger] fewer[j] == i;
                assert(at[j] == i);
            } else {
                assert(at[fewer.len() as int] == i);
            }
        }
        at
    }
}

/// The user is warned of every target of which nothing can be made, in their order, and of
/// nothing else.
pub proof fn law_warnings(targets: Seq<Seq<char>>, answers: AnswersView) -> (at: Seq<int>)
    ensures
        picks(at, lost(targets, answers, targets.len())),
        hopeless_targets(targets, answers, targets.len()).len() == at.len(),
        forall|j: int|
            0 <= j < at.len() ==> #[trigger] hopeless_targets(targets, answers, targets.len())[j]
                == targets[at[j]],
{
    lemma_lost(targets, answers, targets.len())
}

} // verus!
