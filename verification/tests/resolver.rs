use hickory_resolver::config::{Protocol, ResolverConfig};
use rustscan::ip::Ip;
use rustscan::resolver::{
    configure, get_resolver, keep_present, read_resolver_from_file, ResolverPlan,
};
use rustscan::text::trim_bounds;

fn v4(a: u8, b: u8, c: u8, d: u8) -> Ip {
    Ip::V4(u32::from_be_bytes([a, b, c, d]))
}

fn servers(config: &ResolverConfig) -> Vec<(String, Protocol)> {
    config
        .name_servers()
        .iter()
        .map(|server| (server.socket_addr.to_string(), server.protocol))
        .collect()
}

fn configured(resolver: &str, file: Option<&str>) -> Vec<(String, Protocol)> {
    match get_resolver(&Some(resolver.to_owned()), file) {
        ResolverPlan::Configured(config) => servers(&config),
        ResolverPlan::SystemOr(_) => panic!("a resolver was named"),
    }
}

#[test]
fn resolver_args_google_dns() {
    // https://developers.google.com/speed/public-dns
    assert_eq!(
        configured("8.8.8.8,8.8.4.4", None),
        [
            ("8.8.8.8:53".to_owned(), Protocol::Udp),
            ("8.8.4.4:53".to_owned(), Protocol::Udp)
        ]
    );
}

#[test]
fn what_is_no_address_is_skipped_in_a_list() {
    assert_eq!(
        configured("8.8.8.8,,nonsense, 1.1.1.1,10,9.9.9.9/32,2001:4860:4860::8888", None),
        [
            ("8.8.8.8:53".to_owned(), Protocol::Udp),
            ("[2001:4860:4860::8888]:53".to_owned(), Protocol::Udp)
        ]
    );
    assert!(configured("", None).is_empty());
}

#[test]
fn a_file_wins_over_the_list() {
    assert_eq!(
        configured("8.8.8.8", Some("  1.1.1.1 \r\n\nnonsense\n\t9.9.9.9")),
        [
            ("1.1.1.1:53".to_owned(), Protocol::Udp),
            ("9.9.9.9:53".to_owned(), Protocol::Udp)
        ]
    );
    assert!(configured("8.8.8.8", Some("")).is_empty());
}

#[test]
fn files_are_read_line_by_line() {
    assert_eq!(
        read_resolver_from_file("1.1.1.1\n\u{a0}2.2.2.2\r\n3.3.3.3,4.4.4.4\n::1\n"),
        [v4(1, 1, 1, 1), v4(2, 2, 2, 2), Ip::V6(1)]
    );
    assert_eq!(read_resolver_from_file("5.5.5.5\r"), [v4(5, 5, 5, 5)]);
    assert!(read_resolver_from_file("\n\n").is_empty());
}

#[test]
fn without_a_resolver_the_system_counts() {
    match get_resolver(&None, Some("8.8.8.8")) {
        ResolverPlan::SystemOr(config) => {
            assert_eq!(
                servers(&config),
                [
                    ("1.1.1.1:853".to_owned(), Protocol::Tls),
                    ("1.0.0.1:853".to_owned(), Protocol::Tls),
                    ("[2606:4700:4700::1111]:853".to_owned(), Protocol::Tls),
                    ("[2606:4700:4700::1001]:853".to_owned(), Protocol::Tls),
                ]
            );
            for server in config.name_servers() {
                assert_eq!(server.tls_dns_name.as_deref(), Some("cloudflare-dns.com"));
            }
        }
        ResolverPlan::Configured(_) => panic!("no resolver was named"),
    }
}

#[test]
fn servers_are_listed_in_order() {
    let config = configure(&vec![Ip::V6(1), v4(9, 9, 9, 9)]);
    assert_eq!(
        servers(&config),
        [("[::1]:53".to_owned(), Protocol::Udp), ("9.9.9.9:53".to_owned(), Protocol::Udp)]
    );
    assert!(servers(&configure(&vec![])).is_empty());
}

#[test]
fn what_is_there_is_kept() {
    assert_eq!(
        keep_present(&vec![None, Some(v4(1, 1, 1, 1)), None, Some(Ip::V6(2))]),
        [v4(1, 1, 1, 1), Ip::V6(2)]
    );
}

#[test]
fn bounds_leave_out_what_is_white() {
    assert_eq!(trim_bounds(&vec![true, false, true, false, true, true]), (1, 4));
    assert_eq!(trim_bounds(&vec![false]), (0, 1));
    assert_eq!(trim_bounds(&vec![true, true]), (2, 2));
    assert_eq!(trim_bounds(&vec![]), (0, 0));
}

#[test]
fn white_space_is_what_unicode_says() {
    let listed = |c: char| {
        matches!(
            c,
            '\u{9}'..='\u{d}'
                | '\u{20}'
                | '\u{85}'
                | '\u{a0}'
                | '\u{1680}'
                | '\u{2000}'..='\u{200a}'
                | '\u{2028}'
                | '\u{2029}'
                | '\u{202f}'
                | '\u{205f}'
                | '\u{3000}'
        )
    };
    for c in '\u{0}'..=char::MAX {
        assert_eq!(c.is_whitespace(), listed(c), "{c:?}");
    }
    for c in '\u{0}'..='\u{3100}' {
        let found = read_resolver_from_file(&format!("{c}1.1.1.1"));
        if listed(c) {
            assert_eq!(found, [v4(1, 1, 1, 1)], "{c:?}");
        } else {
            assert!(found.len() <= 1 && !found.contains(&v4(1, 1, 1, 1)), "{c:?}");
        }
    }
}
