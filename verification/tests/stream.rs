use rustscan::address::{parse_addresses, Answers, FileAnswer, Line, Need};
use rustscan::chunk::Chunker;
use rustscan::input::Opts;
use rustscan::ip::{Ip, Net};
use rustscan::lookup::{next_lookup, HostAnswers, Request};
use rustscan::select::select;
use rustscan::stream::{parse_addresses_chunked, Action, LineRead, STREAM_CHUNK_SIZE};

fn v4(a: u8, b: u8, c: u8, d: u8) -> Ip {
    Ip::V4(u32::from_be_bytes([a, b, c, d]))
}

fn owned(texts: &[&str]) -> Vec<String> {
    texts.iter().map(|text| text.to_string()).collect()
}

/// Runs a stream to its end: the chunks, the total, and a note of the outside work.
fn run(
    opts: &Opts,
    size: usize,
    lookup: &dyn Fn(&Request) -> Option<Vec<Ip>>,
    file: &dyn Fn(&str) -> Option<Vec<Option<&'static str>>>,
) -> (Vec<Vec<Ip>>, Option<usize>, Vec<String>) {
    let count = opts.exclude_addresses.as_ref().map_or(0, |list| list.len());
    let mut exclusions: Vec<HostAnswers> = (0..count).map(|_| HostAnswers::new()).collect();
    let mut work = Vec::new();
    let mut stream = loop {
        match parse_addresses_chunked(opts, size, &exclusions) {
            Ok(stream) => break stream,
            Err(Need::Exclusion { index, request }) => {
                work.push(format!("{request:?}"));
                let found = lookup(&request);
                exclusions[index].record(&request, found);
            }
            Err(other) => panic!("{other:?}"),
        }
    };
    let mut chunks = Vec::new();
    let mut lines = Vec::new();
    loop {
        match stream.next() {
            Action::Deliver(chunk) => chunks.push(chunk),
            Action::Lookup(request) => {
                work.push(format!("{request:?}"));
                stream.answer(lookup(&request));
            }
            Action::Open(path) => {
                work.push(format!("open {path}"));
                match file(&path) {
                    Some(found) => {
                        lines = found;
                        lines.reverse();
                        stream.opened(true);
                    }
                    None => stream.opened(false),
                }
            }
            Action::Read => stream.line(match lines.pop() {
                Some(Some(text)) => LineRead::Text(text.to_owned()),
                Some(None) => LineRead::Unreadable,
                None => LineRead::End,
            }),
            Action::Finished(total) => return (chunks, total, work),
        }
    }
}

fn offline(opts: &Opts, size: usize) -> (Vec<Vec<Ip>>, Option<usize>) {
    let (chunks, total, _) = run(opts, size, &|_| None, &|_| None);
    (chunks, total)
}

#[test]
fn a_network_is_cut_into_chunks() {
    let opts = Opts { addresses: owned(&["10.0.0.0/29", "10.1.0.0/31"]), ..Default::default() };
    let (chunks, total) = offline(&opts, 4);
    assert_eq!(
        chunks,
        [
            vec![v4(10, 0, 0, 0), v4(10, 0, 0, 1), v4(10, 0, 0, 2), v4(10, 0, 0, 3)],
            vec![v4(10, 0, 0, 4), v4(10, 0, 0, 5), v4(10, 0, 0, 6), v4(10, 0, 0, 7)],
            vec![v4(10, 1, 0, 0), v4(10, 1, 0, 1)],
        ]
    );
    assert_eq!(total, Some(10));
}

#[test]
fn a_chunk_that_is_just_full_is_the_last() {
    let opts = Opts { addresses: owned(&["10.0.0.0/30"]), ..Default::default() };
    let (chunks, total) = offline(&opts, 4);
    assert_eq!(chunks.len(), 1);
    assert_eq!(total, Some(4));
}

#[test]
fn nothing_to_scan_is_no_chunk() {
    let (chunks, total) = offline(&Opts::default(), 4);
    assert!(chunks.is_empty());
    assert_eq!(total, Some(0));
}

#[test]
fn a_size_of_zero_is_one() {
    let opts = Opts { addresses: owned(&["10.0.0.0/31"]), ..Default::default() };
    let (chunks, total) = offline(&opts, 0);
    assert_eq!(chunks, [vec![v4(10, 0, 0, 0)], vec![v4(10, 0, 0, 1)]]);
    assert_eq!(total, Some(2));
}

#[test]
fn duplicates_go_within_a_chunk_only() {
    let opts = Opts {
        addresses: owned(&["10.0.0.1", "10.0.0.1", "10.0.0.2", "10.0.0.1"]),
        ..Default::default()
    };
    let (chunks, total) = offline(&opts, 2);
    assert_eq!(chunks, [vec![v4(10, 0, 0, 1), v4(10, 0, 0, 2)], vec![v4(10, 0, 0, 1)]]);
    assert_eq!(total, Some(3));
    let (chunks, total) = offline(&opts, STREAM_CHUNK_SIZE);
    assert_eq!(chunks, [vec![v4(10, 0, 0, 1), v4(10, 0, 0, 2)]]);
    assert_eq!(total, Some(2));
}

#[test]
fn exclusions_hold_in_every_chunk() {
    let opts = Opts {
        addresses: owned(&["10.0.0.0/29"]),
        exclude_addresses: Some(owned(&["10.0.0.0/30", "10.0.0.6"])),
        ..Default::default()
    };
    let (chunks, total) = offline(&opts, 2);
    assert_eq!(chunks, [vec![v4(10, 0, 0, 4), v4(10, 0, 0, 5)], vec![v4(10, 0, 0, 7)]]);
    assert_eq!(total, Some(3));
}

#[test]
fn a_huge_network_is_walked_lazily() {
    let opts = Opts { addresses: owned(&["2001:db8::/32"]), ..Default::default() };
    let mut stream = parse_addresses_chunked(&opts, 3, &vec![]).unwrap();
    for start in [0u128, 3] {
        match stream.next() {
            Action::Deliver(chunk) => {
                let first = (0x2001_0db8u128 << 96) + start;
                assert_eq!(chunk, [Ip::V6(first), Ip::V6(first + 1), Ip::V6(first + 2)]);
            }
            other => panic!("{other:?}"),
        }
    }
}

#[test]
fn outside_work_comes_in_order() {
    let opts = Opts {
        addresses: owned(&["hosts.txt", "10.0.0.1", "example.com"]),
        exclude_addresses: Some(owned(&["bad.example"])),
        ..Default::default()
    };
    let lookup = |request: &Request| match request {
        Request::System(name) if name == "example.com:80" => {
            Some(vec![v4(1, 1, 1, 1), v4(2, 2, 2, 2)])
        }
        Request::Dedicated(name) if name == "bad.example" => Some(vec![v4(10, 0, 0, 3)]),
        Request::Verbatim(name) if name == "c.example:9" => Some(vec![v4(3, 3, 3, 3), Ip::V6(3)]),
        _ => None,
    };
    let file = |path: &str| {
        if path == "hosts.txt" {
            Some(vec![Some(" 10.0.0.2\t"), Some("10.0.0.2/31"), Some("c.example:9"), None])
        } else {
            None
        }
    };
    let (chunks, total, work) = run(&opts, 10, &lookup, &file);
    assert_eq!(
        chunks,
        [vec![v4(10, 0, 0, 1), v4(1, 1, 1, 1), v4(10, 0, 0, 2), v4(3, 3, 3, 3), Ip::V6(3)]]
    );
    assert_eq!(total, Some(5));
    assert_eq!(
        work,
        [
            "Verbatim(\"bad.example\")",
            "Dedicated(\"bad.example\")",
            "System(\"hosts.txt:80\")",
            "Verbatim(\"hosts.txt\")",
            "Dedicated(\"hosts.txt\")",
            "System(\"example.com:80\")",
            "open hosts.txt",
            "System(\"c.example:9:80\")",
            "Verbatim(\"c.example:9\")",
        ]
    );
}

#[test]
fn an_unreadable_line_ends_a_file() {
    let opts = Opts { addresses: owned(&["hosts.txt"]), ..Default::default() };
    let file = |_: &str| Some(vec![Some("10.0.0.1"), None, Some("10.0.0.2")]);
    let (chunks, total, _) = run(&opts, 10, &|_| None, &file);
    assert_eq!(chunks, [vec![v4(10, 0, 0, 1)]]);
    assert_eq!(total, Some(1));
}

#[test]
fn a_host_that_is_known_is_not_tried_as_a_file() {
    let opts = Opts { addresses: owned(&["both"]), ..Default::default() };
    let lookup = |_: &Request| Some(vec![v4(1, 1, 1, 1)]);
    let file = |_: &str| Some(vec![Some("10.0.0.9")]);
    let (chunks, total, work) = run(&opts, 10, &lookup, &file);
    assert_eq!(chunks, [vec![v4(1, 1, 1, 1)]]);
    assert_eq!(total, Some(1));
    assert_eq!(work, ["System(\"both:80\")"]);
}

#[test]
fn a_host_known_to_the_dedicated_resolver_is_no_file() {
    let opts = Opts { addresses: owned(&["both", "list"]), ..Default::default() };
    let lookup = |request: &Request| match request {
        Request::Dedicated(name) if name == "both" => Some(vec![v4(1, 1, 1, 1)]),
        _ => None,
    };
    let file = |_: &str| Some(vec![Some("10.0.0.9")]);
    let (chunks, total, work) = run(&opts, 10, &lookup, &file);
    assert_eq!(chunks, [vec![v4(1, 1, 1, 1), v4(10, 0, 0, 9)]]);
    assert_eq!(total, Some(2));
    assert_eq!(work.last().map(String::as_str), Some("open list"));
    assert!(!work.contains(&"open both".to_owned()));
}

#[test]
fn an_excluded_network_that_is_scanned_leaves_nothing() {
    let opts = Opts {
        addresses: owned(&["10.1.0.0/16", "10.2.0.1"]),
        exclude_addresses: Some(owned(&["10.1.0.0/16"])),
        ..Default::default()
    };
    let (chunks, total) = offline(&opts, 4);
    assert_eq!(chunks, [vec![v4(10, 2, 0, 1)]]);
    assert_eq!(total, Some(1));
}

#[test]
fn an_excluded_address_that_comes_again_is_still_dropped() {
    let excluded = vec![Net { first: v4(10, 0, 0, 0), prefix: 32 }];
    let mut chunker = Chunker::new(excluded, 2);
    for _ in 0..3 {
        assert_eq!(chunker.push(v4(10, 0, 0, 0)), None);
    }
    assert_eq!(chunker.push(v4(10, 0, 0, 1)), None);
    assert_eq!(chunker.push(v4(10, 0, 0, 0)), None);
    assert_eq!(chunker.flush(), Some(vec![v4(10, 0, 0, 1)]));
}

#[test]
fn a_lookup_with_nothing_to_show_is_no_address() {
    let opts = Opts { addresses: owned(&["empty"]), ..Default::default() };
    let (chunks, total, _) = run(&opts, 10, &|_| Some(vec![]), &|_| None);
    assert!(chunks.is_empty());
    assert_eq!(total, Some(0));
}

#[test]
fn white_space_around_a_line_does_not_count() {
    let opts = Opts { addresses: owned(&["hosts.txt"]), ..Default::default() };
    let file = |_: &str| {
        Some(vec![Some("\u{a0}\u{3000}10.0.0.1\r"), Some("\u{2003}10.0.0.2\u{85}"), Some("  ")])
    };
    let (chunks, _, work) = run(&opts, 10, &|_| None, &file);
    assert_eq!(chunks, [vec![v4(10, 0, 0, 1), v4(10, 0, 0, 2)]]);
    assert!(work.contains(&"System(\":80\")".to_owned()));
}

#[test]
fn a_report_that_nobody_waits_for_changes_nothing() {
    let opts = Opts { addresses: owned(&["a.example"]), ..Default::default() };
    let mut stream = parse_addresses_chunked(&opts, 4, &vec![]).unwrap();
    stream.answer(Some(vec![v4(9, 9, 9, 9)]));
    assert!(matches!(stream.next(), Action::Lookup(Request::System(_))));
    stream.opened(true);
    stream.line(LineRead::Text("8.8.8.8".to_owned()));
    assert!(matches!(stream.next(), Action::Lookup(Request::System(_))));
    stream.answer(None);
    assert!(matches!(stream.next(), Action::Lookup(Request::Verbatim(_))));
    stream.answer(None);
    assert!(matches!(stream.next(), Action::Lookup(Request::Dedicated(_))));
    stream.answer(None);
    assert!(matches!(stream.next(), Action::Open(path) if path == "a.example"));
    stream.answer(Some(vec![v4(9, 9, 9, 9)]));
    assert!(matches!(stream.next(), Action::Open(_)));
    stream.opened(true);
    assert!(matches!(stream.next(), Action::Read));
    stream.opened(false);
    stream.answer(None);
    assert!(matches!(stream.next(), Action::Read));
    stream.line(LineRead::Text("1.1.1.1".to_owned()));
    assert!(matches!(stream.next(), Action::Read));
    stream.line(LineRead::End);
    match stream.next() {
        Action::Deliver(chunk) => assert_eq!(chunk, [v4(1, 1, 1, 1)]),
        other => panic!("{other:?}"),
    }
    assert!(matches!(stream.next(), Action::Finished(Some(1))));
    assert!(matches!(stream.next(), Action::Finished(Some(1))));
}

#[test]
fn a_chunker_counts_what_it_hands_out() {
    let excluded = vec![Net { first: v4(10, 0, 0, 0), prefix: 31 }];
    let mut chunker = Chunker::new(excluded, 2);
    assert_eq!(chunker.push(v4(10, 0, 0, 0)), None);
    assert_eq!(chunker.push(v4(10, 0, 0, 2)), None);
    assert_eq!(chunker.push(v4(10, 0, 0, 2)), None);
    assert_eq!(chunker.push(v4(10, 0, 0, 3)), Some(vec![v4(10, 0, 0, 2), v4(10, 0, 0, 3)]));
    assert_eq!(chunker.total(), Some(2));
    assert_eq!(chunker.push(v4(10, 0, 0, 2)), None);
    assert_eq!(chunker.flush(), Some(vec![v4(10, 0, 0, 2)]));
    assert_eq!(chunker.total(), Some(3));
}

#[test]
fn a_chunker_with_nothing_in_it_hands_nothing_out() {
    let mut chunker = Chunker::new(vec![], 2);
    assert_eq!(chunker.flush(), None);
    assert_eq!(chunker.total(), Some(0));
}

#[test]
fn the_stream_and_the_whole_agree() {
    let opts = Opts {
        addresses: owned(&["10.0.0.0/29", "hosts.txt", "10.0.0.4/30", "a.example"]),
        exclude_addresses: Some(owned(&["10.0.0.2", "10.9.0.0/16"])),
        ..Default::default()
    };
    let lookup = |request: &Request| match request {
        Request::System(name) if name == "a.example:80" => Some(vec![v4(1, 1, 1, 1)]),
        Request::Dedicated(name) if name == "b.example" => {
            Some(vec![v4(2, 2, 2, 2), v4(10, 9, 8, 7)])
        }
        _ => None,
    };
    let hosts = ["10.0.0.1", "b.example", "::1", "nowhere"];
    let file = |path: &str| {
        if path == "hosts.txt" {
            Some(vec![Some("10.0.0.1"), Some("b.example"), Some("::1"), Some("nowhere"), None])
        } else {
            None
        }
    };

    let mut answers = Answers::new(&opts);
    let whole = loop {
        match parse_addresses(&opts, &answers) {
            Ok(ips) => break ips,
            Err(Need::Argument { index, request }) => {
                let found = lookup(&request);
                answers.arguments[index].record(&request, found);
            }
            Err(Need::File { index, path }) => {
                assert_eq!(path, "hosts.txt");
                let mut lines: Vec<Line> = Vec::new();
                for text in hosts {
                    let mut host = HostAnswers::new();
                    while let Some(request) = next_lookup(text, &host) {
                        let found = lookup(&request);
                        host.record(&request, found);
                    }
                    lines.push(Line::Text { text: text.to_owned(), host });
                }
                lines.push(Line::Unreadable);
                answers.files[index] = FileAnswer::Lines(lines);
            }
            Err(other) => panic!("{other:?}"),
        }
    };
    assert_eq!(
        whole,
        [
            v4(10, 0, 0, 0),
            v4(10, 0, 0, 1),
            v4(10, 0, 0, 3),
            v4(10, 0, 0, 4),
            v4(10, 0, 0, 5),
            v4(10, 0, 0, 6),
            v4(10, 0, 0, 7),
            v4(1, 1, 1, 1),
            v4(2, 2, 2, 2),
            Ip::V6(1),
        ]
    );

    let (chunks, total, _) = run(&opts, STREAM_CHUNK_SIZE, &lookup, &file);
    assert_eq!(chunks, [whole.clone()]);
    assert_eq!(total, Some(whole.len()));

    let (chunks, total, _) = run(&opts, 3, &lookup, &file);
    let streamed: Vec<Ip> = chunks.into_iter().flatten().collect();
    assert!(streamed.iter().all(|ip| whole.contains(ip)));
    assert!(whole.iter().all(|ip| streamed.contains(ip)));
    assert_eq!(total, Some(streamed.len()));
    assert!(streamed.len() > whole.len());
    assert_eq!(select(&streamed, &vec![]), whole);
}
