use rustscan::address::{
    parse_address, parse_addresses, parse_excluded_networks, parse_single_excluded_address,
    read_exclusion, read_ips_from_file, unresolved_hosts, Answers, FileAnswer, Line, Need,
};
use rustscan::input::Opts;
use rustscan::ip::{Inet, Ip, Net};
use rustscan::lookup::{next_lookup, read_address, resolve_ips_from_host, Answer, HostAnswers, Request};

fn v4(a: u8, b: u8, c: u8, d: u8) -> Ip {
    Ip::V4(u32::from_be_bytes([a, b, c, d]))
}

fn owned(texts: &[&str]) -> Vec<String> {
    texts.iter().map(|text| text.to_string()).collect()
}

/// A file with these lines, none of them looked up yet.
fn file_of(lines: &[&str]) -> FileAnswer {
    FileAnswer::Lines(
        lines
            .iter()
            .map(|text| Line::Text { text: text.to_string(), host: HostAnswers::new() })
            .collect(),
    )
}

/// Does what is due until nothing is, and gives the answers.
fn settled(
    opts: &Opts,
    lookup: &dyn Fn(&Request) -> Option<Vec<Ip>>,
    file: &dyn Fn(&str) -> FileAnswer,
) -> (Vec<Ip>, Answers) {
    let mut answers = Answers::new(opts);
    loop {
        match parse_addresses(opts, &answers) {
            Ok(ips) => return (ips, answers),
            Err(Need::Argument { index, request }) => {
                let found = lookup(&request);
                answers.arguments[index].record(&request, found);
            }
            Err(Need::File { index, path }) => answers.files[index] = file(&path),
            Err(Need::Line { index, line, request }) => {
                let found = lookup(&request);
                match &mut answers.files[index] {
                    FileAnswer::Lines(lines) => match &mut lines[line] {
                        Line::Text { host, .. } => host.record(&request, found),
                        Line::Unreadable => unreachable!(),
                    },
                    _ => unreachable!(),
                }
            }
            Err(Need::Exclusion { index, request }) => {
                let found = lookup(&request);
                answers.exclusions[index].record(&request, found);
            }
        }
    }
}

fn nothing(_: &Request) -> Option<Vec<Ip>> {
    None
}

fn no_file(_: &str) -> FileAnswer {
    FileAnswer::NotAFile
}

/// The addresses where every lookup fails and there is no file.
fn offline(opts: &Opts) -> Vec<Ip> {
    settled(opts, &nothing, &no_file).0
}

#[test]
fn parse_correct_addresses() {
    let opts = Opts {
        addresses: vec!["127.0.0.1".to_owned(), "192.168.0.0/30".to_owned()],
        ..Default::default()
    };

    let ips = offline(&opts);

    assert_eq!(
        ips,
        [
            v4(127, 0, 0, 1),
            v4(192, 168, 0, 0),
            v4(192, 168, 0, 1),
            v4(192, 168, 0, 2),
            v4(192, 168, 0, 3)
        ]
    );
}

#[test]
fn parse_addresses_with_address_exclusions() {
    let opts = Opts {
        addresses: vec!["192.168.0.0/30".to_owned()],
        exclude_addresses: Some(vec!["192.168.0.1".to_owned()]),
        ..Default::default()
    };

    let ips = offline(&opts);

    assert_eq!(ips, [v4(192, 168, 0, 0), v4(192, 168, 0, 2), v4(192, 168, 0, 3)]);
}

#[test]
fn parse_addresses_with_cidr_exclusions() {
    let opts = Opts {
        addresses: vec!["192.168.0.0/29".to_owned()],
        exclude_addresses: Some(vec!["192.168.0.0/30".to_owned()]),
        ..Default::default()
    };

    let ips = offline(&opts);

    assert_eq!(
        ips,
        [v4(192, 168, 0, 4), v4(192, 168, 0, 5), v4(192, 168, 0, 6), v4(192, 168, 0, 7)]
    );
}

#[test]
fn parse_addresses_with_incorrect_address_exclusions() {
    let opts = Opts {
        addresses: vec!["192.168.0.0/30".to_owned()],
        exclude_addresses: Some(vec!["192.168.0.1".to_owned()]),
        ..Default::default()
    };

    let ips = offline(&opts);

    assert_eq!(ips, [v4(192, 168, 0, 0), v4(192, 168, 0, 2), v4(192, 168, 0, 3)]);
}

#[test]
fn parse_correct_host_addresses() {
    let opts = Opts { addresses: vec!["google.com".to_owned()], ..Default::default() };
    let lookup = |request: &Request| match request {
        Request::System(name) if name == "google.com:80" => {
            Some(vec![v4(142, 250, 1, 100), v4(142, 250, 1, 101)])
        }
        _ => None,
    };

    let ips = settled(&opts, &lookup, &no_file).0;

    assert_eq!(ips.len(), 1);
}

#[test]
fn parse_correct_and_incorrect_addresses() {
    let opts = Opts {
        addresses: vec!["127.0.0.1".to_owned(), "im_wrong".to_owned()],
        ..Default::default()
    };

    let ips = offline(&opts);

    assert_eq!(ips, [v4(127, 0, 0, 1)]);
}

#[test]
fn parse_incorrect_addresses() {
    let opts = Opts {
        addresses: vec!["im_wrong".to_owned(), "300.10.1.1".to_owned()],
        ..Default::default()
    };

    let ips = offline(&opts);

    assert!(ips.is_empty());
}

#[test]
fn parse_hosts_file_and_incorrect_hosts() {
    // The file holds an IP, hosts, incorrect IPs and incorrect hosts.
    let opts = Opts { addresses: vec!["fixtures/hosts.txt".to_owned()], ..Default::default() };
    let lookup = |request: &Request| match request {
        Request::System(name) if name == "google.com:80" => Some(vec![v4(142, 250, 1, 100)]),
        Request::System(name) if name == "example.com:80" => Some(vec![v4(93, 184, 216, 34)]),
        _ => None,
    };
    let file = |path: &str| {
        assert_eq!(path, "fixtures/hosts.txt");
        file_of(&["127.0.0.1", "google.com", "im_wrong", "example.com", "300.10.1.1"])
    };

    let ips = settled(&opts, &lookup, &file).0;

    assert_eq!(ips.len(), 3);
}

#[test]
fn parse_empty_hosts_file() {
    let opts =
        Opts { addresses: vec!["fixtures/empty_hosts.txt".to_owned()], ..Default::default() };

    let ips = settled(&opts, &nothing, &|_| file_of(&[])).0;

    assert_eq!(ips.len(), 0);
}

#[test]
fn parse_naughty_host_file() {
    let opts =
        Opts { addresses: vec!["fixtures/naughty_string.txt".to_owned()], ..Default::default() };
    let file = |_: &str| {
        file_of(&[
            "undefined",
            "NULL",
            "-1.00",
            "0..0",
            "<script>alert(0)</script>",
            "\u{3a9}\u{2248}\u{e7}\u{221a}",
            "../../../../etc/passwd%00",
            "",
        ])
    };

    let ips = settled(&opts, &nothing, &file).0;

    assert_eq!(ips.len(), 0);
}

#[test]
fn parse_duplicate_cidrs() {
    let opts = Opts {
        addresses: vec!["79.98.104.0/21".to_owned(), "79.98.104.0/24".to_owned()],
        ..Default::default()
    };

    let ips = offline(&opts);

    assert_eq!(ips.len(), 2_048);
}

#[test]
fn parse_overspecific_cidr() {
    // a canonical CIDR string has 0 in all host bits, but any CIDR-like string is a network
    let opts = Opts { addresses: vec!["192.128.1.1/24".to_owned()], ..Default::default() };

    let ips = offline(&opts);

    assert_eq!(ips.len(), 256);
    assert_eq!(ips[0], v4(192, 128, 1, 0));
    assert_eq!(ips[255], v4(192, 128, 1, 255));
}

#[test]
fn an_address_stands_for_itself() {
    let answers = HostAnswers::new();
    assert_eq!(parse_address("127.0.0.1", &answers).unwrap(), [v4(127, 0, 0, 1)]);
    assert_eq!(parse_address("::1", &answers).unwrap(), [Ip::V6(1)]);
    assert_eq!(
        parse_address("2001:db8::ff", &answers).unwrap(),
        [Ip::V6(0x2001_0db8_0000_0000_0000_0000_0000_00ff)]
    );
}

#[test]
fn an_ipv6_network_stands_for_its_addresses() {
    let answers = HostAnswers::new();
    assert_eq!(
        parse_address("2001:db8::5/126", &answers).unwrap(),
        [
            Ip::V6(0x2001_0db8_0000_0000_0000_0000_0000_0004),
            Ip::V6(0x2001_0db8_0000_0000_0000_0000_0000_0005),
            Ip::V6(0x2001_0db8_0000_0000_0000_0000_0000_0006),
            Ip::V6(0x2001_0db8_0000_0000_0000_0000_0000_0007),
        ]
    );
    let top = "ffff:ffff:ffff:ffff:ffff:ffff:ffff:ffff/127";
    assert_eq!(parse_address(top, &answers).unwrap(), [Ip::V6(u128::MAX - 1), Ip::V6(u128::MAX)]);
}

#[test]
fn the_highest_ipv4_network_ends_at_the_top() {
    let answers = HostAnswers::new();
    assert_eq!(
        parse_address("255.255.255.254/31", &answers).unwrap(),
        [v4(255, 255, 255, 254), v4(255, 255, 255, 255)]
    );
    assert_eq!(parse_address("10.0.0.9/32", &answers).unwrap(), [v4(10, 0, 0, 9)]);
}

#[test]
fn lookups_are_made_in_turn() {
    let mut answers = HostAnswers::new();

    let first = parse_address("example.com", &answers).unwrap_err();
    assert!(matches!(&first, Request::System(name) if name == "example.com:80"));
    answers.record(&first, None);

    let second = parse_address("example.com", &answers).unwrap_err();
    assert!(matches!(&second, Request::Verbatim(name) if name == "example.com"));
    answers.record(&second, None);

    let third = parse_address("example.com", &answers).unwrap_err();
    assert!(matches!(&third, Request::Dedicated(name) if name == "example.com"));
    answers.record(&third, Some(vec![v4(1, 2, 3, 4), v4(5, 6, 7, 8)]));

    assert_eq!(
        parse_address("example.com", &answers).unwrap(),
        [v4(1, 2, 3, 4), v4(5, 6, 7, 8)]
    );
}

#[test]
fn only_the_first_address_of_the_system_counts() {
    let mut answers = HostAnswers::new();
    answers.record(
        &Request::System("example.com:80".to_owned()),
        Some(vec![v4(1, 2, 3, 4), v4(5, 6, 7, 8)]),
    );
    assert_eq!(parse_address("example.com", &answers).unwrap(), [v4(1, 2, 3, 4)]);
}

#[test]
fn every_address_of_the_verbatim_lookup_counts() {
    let mut answers = HostAnswers::new();
    answers.system = Answer::Failed;
    answers.verbatim = Answer::Found(vec![v4(1, 2, 3, 4), v4(5, 6, 7, 8)]);
    assert_eq!(
        parse_address("example.com:443", &answers).unwrap(),
        [v4(1, 2, 3, 4), v4(5, 6, 7, 8)]
    );
    assert_eq!(
        resolve_ips_from_host("example.com:443", &answers).unwrap(),
        [v4(1, 2, 3, 4), v4(5, 6, 7, 8)]
    );
}

#[test]
fn a_host_that_nobody_knows_has_no_address() {
    let mut answers = HostAnswers::new();
    answers.system = Answer::Failed;
    answers.verbatim = Answer::Failed;
    answers.dedicated = Answer::Failed;
    assert!(parse_address("im_wrong", &answers).unwrap().is_empty());
    assert!(resolve_ips_from_host("im_wrong", &answers).unwrap().is_empty());
}

#[test]
fn what_was_read_decides() {
    let answers = HostAnswers::new();
    let inet = Inet { address: v4(10, 0, 0, 6), prefix: 31 };
    assert_eq!(
        read_address(Some(v4(9, 9, 9, 9)), Some(inet), "x", &answers).unwrap(),
        [v4(9, 9, 9, 9)]
    );
    assert_eq!(
        read_address(None, Some(inet), "x", &answers).unwrap(),
        [v4(10, 0, 0, 6), v4(10, 0, 0, 7)]
    );
    assert!(matches!(
        read_address(None, None, "x", &answers),
        Err(Request::System(name)) if name == "x:80"
    ));
}

#[test]
fn exclusions_read_as_networks() {
    let answers = HostAnswers::new();
    assert_eq!(
        parse_single_excluded_address("192.168.0.0/24", &answers).unwrap(),
        [Net { first: v4(192, 168, 0, 0), prefix: 24 }]
    );
    assert_eq!(
        parse_single_excluded_address("192.168.0.1", &answers).unwrap(),
        [Net { first: v4(192, 168, 0, 1), prefix: 32 }]
    );
    assert_eq!(
        parse_single_excluded_address("2001:db8::/32", &answers).unwrap(),
        [Net { first: Ip::V6(0x2001_0db8 << 96), prefix: 32 }]
    );
    assert_eq!(
        read_exclusion(None, Some(Ip::V6(7)), "x", &answers).unwrap(),
        [Net { first: Ip::V6(7), prefix: 128 }]
    );
    assert_eq!(
        read_exclusion(None, Some(v4(7, 7, 7, 7)), "x", &answers).unwrap(),
        [Net { first: v4(7, 7, 7, 7), prefix: 32 }]
    );
}

#[test]
fn an_exclusion_with_host_bits_is_a_host_name() {
    let answers = HostAnswers::new();
    assert!(matches!(
        parse_single_excluded_address("192.168.0.1/24", &answers),
        Err(Request::Verbatim(name)) if name == "192.168.0.1/24"
    ));
}

#[test]
fn an_excluded_host_stands_for_its_addresses() {
    let mut answers = vec![HostAnswers::new(), HostAnswers::new()];
    let list = Some(owned(&["10.0.0.0/8", "example.com"]));

    match parse_excluded_networks(&list, &answers) {
        Err(Need::Exclusion { index: 1, request: Request::Verbatim(name) }) => {
            assert_eq!(name, "example.com")
        }
        other => panic!("{other:?}"),
    }
    answers[1].verbatim = Answer::Failed;
    answers[1].dedicated = Answer::Found(vec![v4(1, 2, 3, 4), Ip::V6(9)]);

    assert_eq!(
        parse_excluded_networks(&list, &answers).unwrap(),
        [
            Net { first: v4(10, 0, 0, 0), prefix: 8 },
            Net { first: v4(1, 2, 3, 4), prefix: 32 },
            Net { first: Ip::V6(9), prefix: 128 },
        ]
    );
    assert!(parse_excluded_networks(&None, &vec![]).unwrap().is_empty());
}

#[test]
fn lines_that_cannot_be_read_are_skipped() {
    let lines = vec![
        Line::Text { text: "10.0.0.1".to_owned(), host: HostAnswers::new() },
        Line::Unreadable,
        Line::Text { text: "10.0.0.2/31".to_owned(), host: HostAnswers::new() },
    ];
    let mut ips = vec![v4(9, 9, 9, 9)];
    assert!(read_ips_from_file(&lines, &mut ips).is_ok());
    assert_eq!(ips, [v4(9, 9, 9, 9), v4(10, 0, 0, 1), v4(10, 0, 0, 2), v4(10, 0, 0, 3)]);
}

#[test]
fn a_line_is_read_with_its_white_space() {
    let lines = vec![Line::Text { text: " 10.0.0.1".to_owned(), host: HostAnswers::new() }];
    let mut ips = Vec::new();
    let due = read_ips_from_file(&lines, &mut ips);
    assert!(matches!(due, Err((0, Request::System(name))) if name == " 10.0.0.1:80"));
}

#[test]
fn targets_come_before_files() {
    let opts = Opts { addresses: owned(&["hosts.txt", "10.0.0.1"]), ..Default::default() };
    let ips = settled(&opts, &nothing, &|_| file_of(&["10.0.0.2", "10.0.0.1"])).0;
    assert_eq!(ips, [v4(10, 0, 0, 1), v4(10, 0, 0, 2)]);
}

#[test]
fn a_host_that_is_known_is_not_read_as_a_file() {
    let opts = Opts { addresses: owned(&["localhost"]), ..Default::default() };
    let lookup = |_: &Request| Some(vec![v4(127, 0, 0, 1)]);
    let ips = settled(&opts, &lookup, &|path| panic!("{path} was read")).0;
    assert_eq!(ips, [v4(127, 0, 0, 1)]);
}

#[test]
fn literals_need_nothing() {
    let opts = Opts {
        addresses: owned(&["10.0.0.1", "10.0.0.0/30", "::1"]),
        exclude_addresses: Some(owned(&["10.0.0.2", "10.0.0.0/31"])),
        ..Default::default()
    };
    let answers = Answers::new(&opts);
    assert_eq!(parse_addresses(&opts, &answers).unwrap(), [v4(10, 0, 0, 3), Ip::V6(1)]);
}

#[test]
fn the_user_is_warned_of_what_is_hopeless() {
    let opts = Opts {
        addresses: owned(&["10.0.0.1", "gone.txt", "locked.txt", "hosts.txt"]),
        ..Default::default()
    };
    let file = |path: &str| match path {
        "gone.txt" => FileAnswer::NotAFile,
        "locked.txt" => FileAnswer::Unreadable,
        _ => file_of(&["10.0.0.2"]),
    };
    let (ips, answers) = settled(&opts, &nothing, &file);
    assert_eq!(ips, [v4(10, 0, 0, 1), v4(10, 0, 0, 2)]);
    assert_eq!(unresolved_hosts(&opts, &answers), ["gone.txt", "locked.txt"]);
}

#[test]
fn nothing_is_asked_for_by_default() {
    let opts = Opts::default();
    assert!(opts.addresses.is_empty());
    assert!(opts.exclude_addresses.is_none());
    assert!(opts.resolver.is_none());
    assert!(offline(&opts).is_empty());
}

#[test]
fn the_next_lookup_is_known_without_writing_a_network_out() {
    let mut answers = HostAnswers::new();
    assert!(next_lookup("2001:db8::/32", &answers).is_none());
    assert!(next_lookup("10.0.0.1", &answers).is_none());
    let mut made = Vec::new();
    while let Some(request) = next_lookup("im_wrong", &answers) {
        made.push(format!("{request:?}"));
        answers.record(&request, None);
    }
    assert_eq!(
        made,
        ["System(\"im_wrong:80\")", "Verbatim(\"im_wrong\")", "Dedicated(\"im_wrong\")"]
    );
}
