use rustscan::ip::{Ip, Net};
use rustscan::select::select;

fn v4(a: u8, b: u8, c: u8, d: u8) -> Ip {
    Ip::V4(u32::from_be_bytes([a, b, c, d]))
}

#[test]
fn duplicates_go_and_the_order_stays() {
    let ips = vec![v4(3, 0, 0, 0), v4(1, 0, 0, 0), v4(3, 0, 0, 0), v4(2, 0, 0, 0), v4(1, 0, 0, 0)];
    let kept = select(&ips, &vec![]);
    assert_eq!(kept, [v4(3, 0, 0, 0), v4(1, 0, 0, 0), v4(2, 0, 0, 0)]);
    assert_eq!(select(&kept, &vec![]), kept);
}

#[test]
fn families_do_not_mix() {
    let ips = vec![Ip::V4(1), Ip::V6(1), Ip::V4(1), Ip::V6(1)];
    assert_eq!(select(&ips, &vec![]), [Ip::V4(1), Ip::V6(1)]);
    let excluded = vec![Net { first: Ip::V4(0), prefix: 0 }];
    assert_eq!(select(&ips, &excluded), [Ip::V6(1)]);
    let excluded = vec![Net { first: Ip::V6(0), prefix: 0 }];
    assert_eq!(select(&ips, &excluded), [Ip::V4(1)]);
}

#[test]
fn excluded_networks_hold_their_bounds() {
    let ips: Vec<Ip> = (0u8..=9).map(|d| v4(10, 0, 0, d)).collect();
    let excluded = vec![
        Net { first: v4(10, 0, 0, 4), prefix: 30 },
        Net { first: v4(10, 0, 0, 9), prefix: 32 },
    ];
    assert_eq!(
        select(&ips, &excluded),
        [
            v4(10, 0, 0, 0),
            v4(10, 0, 0, 1),
            v4(10, 0, 0, 2),
            v4(10, 0, 0, 3),
            v4(10, 0, 0, 8)
        ]
    );
}

#[test]
fn excluding_everything_leaves_nothing() {
    let ips: Vec<Ip> = (0u8..=7).map(|d| v4(10, 0, 0, d)).collect();
    let excluded = vec![Net { first: v4(10, 0, 0, 0), prefix: 29 }];
    assert!(select(&ips, &excluded).is_empty());
}

#[test]
fn repeats_add_nothing() {
    let ips: Vec<Ip> = (0u8..=7).map(|d| v4(10, 0, 0, d)).collect();
    let mut twice = ips.clone();
    twice.extend_from_slice(&ips[2..5]);
    assert_eq!(select(&twice, &vec![]), ips);
}
