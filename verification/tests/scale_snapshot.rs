use std::collections::HashMap;

use aerosuite::infra::asg::{AsgGroup, AsgInstance as GroupInstance};
use aerosuite::infra::ipv4::Ipv4;
use aerosuite::infra::slot_network::SlotNetwork;
use aerosuite::scale::group;
use aerosuite::scale::ipvs::{parse, parse_hex_ip};
use aerosuite::scale::leases::{read_all, resolve_owner, slot_of, OwnerReply, RawLease};
use aerosuite::scale::listing::list_text;
use aerosuite::scale::snapshot::{
    AsgGroupInfo, AsgInstance, BackendState, IpvsBackend, SlotLease, SystemSnapshot, WeightEntry,
};
use aerosuite::scale::vrrp::{is_master, resolve_vip, role};
use aerosuite::scale::weight_sync::{
    address_of_file, compute_from_leases, init, persist, restore_from_redis, sync_from_redis,
};

// ── IPVS ──────────────────────────────────────────────────────────────────

/// The kernel's table on a load balancer with three backends.
const SAMPLE: &str = "\
IP Virtual Server version 1.2.1 (size=4096)
Prot LocalAddress:Port Scheduler Flags
  -> RemoteAddress:Port Forward Weight ActiveConn InActConn
TCP  AC101D64:0015 wlc  persistent 30000 FFFFFFFF
  -> AC102027:0015      Masq    0      0          0
  -> AC102015:0015      Masq    1      3          1
  -> AC102014:0015      Masq    1      5          2
";

#[test]
fn parse_hex_ips() {
    assert_eq!(parse_hex_ip("AC102014"), Some(Ipv4::new(172, 16, 32, 20)));
    assert_eq!(parse_hex_ip("AC102015"), Some(Ipv4::new(172, 16, 32, 21)));
    assert_eq!(parse_hex_ip("AC102027"), Some(Ipv4::new(172, 16, 32, 39)));
    assert_eq!(parse_hex_ip("AC101D64"), Some(Ipv4::new(172, 16, 29, 100)));
    assert_eq!(parse_hex_ip("ZZZZZZZZ"), None);
}

#[test]
fn parse_real_servers() {
    let backends = parse(SAMPLE);
    assert_eq!(backends.len(), 3);

    assert_eq!(backends[0].ip, Ipv4::new(172, 16, 32, 20));
    assert_eq!(backends[0].active_connections, 5);
    assert_eq!(backends[0].inactive_connections, 2);

    assert_eq!(backends[1].ip, Ipv4::new(172, 16, 32, 21));
    assert_eq!(backends[1].active_connections, 3);
    assert_eq!(backends[1].inactive_connections, 1);

    assert_eq!(backends[2].ip, Ipv4::new(172, 16, 32, 39));
    assert_eq!(backends[2].active_connections, 0);
}

#[test]
fn parse_empty() {
    assert!(parse("").is_empty());
}

#[test]
fn skips_virtual_service_lines() {
    let backends = parse(SAMPLE);
    let vip = Ipv4::new(172, 16, 29, 100);
    assert!(!backends.iter().any(|b| b.ip == vip));
}

#[test]
fn odd_server_lines() {
    assert!(parse("-> AC102014:0015 Masq 1 5").is_empty());
    assert!(parse("-> AC102014 Masq 1 5 2").is_empty());
    assert!(parse("x -> AC102014:0015 Masq 1 5 2").is_empty());
    let b = parse("-> ac102014:0015 Masq 1 many -2");
    assert_eq!((b[0].active_connections, b[0].inactive_connections), (0, 0));
    for s in ["", "+", "-1", "1FFFFFFFF"] {
        assert_eq!(parse_hex_ip(s), None, "{s}");
    }
    assert_eq!(parse_hex_ip("+f"), Some(Ipv4::new(0, 0, 0, 15)));
}

// ── Leases ────────────────────────────────────────────────────────────────

#[test]
fn owners_of_earlier_cycles_stand_in() {
    let mut cache = HashMap::new();
    assert_eq!(resolve_owner(&mut cache, 3, OwnerReply::Failed), "(unknown)");
    assert_eq!(resolve_owner(&mut cache, 3, OwnerReply::Found("i-1".to_string())), "i-1");
    assert_eq!(resolve_owner(&mut cache, 3, OwnerReply::Failed), "i-1");
    assert_eq!(resolve_owner(&mut cache, 4, OwnerReply::Failed), "(unknown)");
    assert_eq!(resolve_owner(&mut cache, 3, OwnerReply::Missing), "(missing)");
    assert_eq!(resolve_owner(&mut cache, 3, OwnerReply::Failed), "(unknown)");
}

#[test]
fn leases_come_sorted() {
    let raw = |slot: &str, expires_ms: u64, owner: OwnerReply| RawLease {
        slot: slot.to_string(),
        expires_ms,
        owner,
    };
    let mut cache = HashMap::new();
    cache.insert(1, "i-old".to_string());
    let l = read_all(
        vec![
            raw("12", 9, OwnerReply::Found("i-12".to_string())),
            raw("1", 8, OwnerReply::Failed),
            raw("junk", 7, OwnerReply::Missing),
        ],
        &mut cache,
    );
    let got: Vec<(u32, &str, u64)> =
        l.iter().map(|x| (x.slot, x.owner_instance_id.as_str(), x.expires_ms)).collect();
    assert_eq!(got, [(0, "(missing)", 7), (1, "i-old", 8), (12, "i-12", 9)]);
    assert_eq!(cache.get(&12).map(|s| s.as_str()), Some("i-12"));
    assert_eq!((slot_of("7"), slot_of("-7"), slot_of("4294967296")), (7, 0, 0));
}

fn lease(slot: u32, owner: &str, expires_ms: u64) -> SlotLease {
    SlotLease { slot, owner_instance_id: owner.to_string(), expires_ms }
}

#[test]
fn leases_run_out() {
    let l = lease(1, "i", 1000);
    assert!(!l.is_expired_at(999) && l.is_expired_at(1000));
    assert_eq!((l.remaining_ms(400), l.remaining_ms(2000)), (600, 0));
    assert!(l.is_expired());
    assert!(!lease(1, "i", u64::MAX).is_expired());
}

// ── Snapshot ──────────────────────────────────────────────────────────────

fn net() -> SlotNetwork {
    SlotNetwork::new(Ipv4::new(172, 16, 32, 0), 20, 26)
}

fn weight(ip: [u8; 4], s: &str) -> WeightEntry {
    WeightEntry {
        ip: Ipv4::new(ip[0], ip[1], ip[2], ip[3]),
        state: BackendState::from_weight_str(s),
    }
}

fn instance(id: &str, state: &str) -> AsgInstance {
    AsgInstance {
        instance_id: id.to_string(),
        lifecycle_state: state.to_string(),
        health_status: "Healthy".to_string(),
    }
}

#[test]
fn weights_have_meanings() {
    let label = |s: &str| BackendState::from_weight_str(s).label().to_string();
    assert_eq!(label(" 0\n"), "active");
    assert_eq!(label("-1"), "draining");
    assert_eq!(label("-2147483648"), "disabled");
    assert_eq!(label("5"), "unknown");
    assert!(matches!(BackendState::from_weight_str(" 5 "), BackendState::Unknown(v) if v == "5"));
    assert!(BackendState::Active.is_active() && !BackendState::Active.is_draining());
    assert!(BackendState::Draining.is_draining());
    assert!(instance("i", "InService").is_in_service());
    assert!(!instance("i", "Terminating").is_in_service());
}

fn snapshot() -> SystemSnapshot {
    SystemSnapshot::collect(
        &vec![weight([172, 16, 32, 20], "0"), weight([10, 0, 0, 1], "-1"), weight([172, 16, 32, 25], "x")],
        vec![lease(0, "i-a", 5000), lease(0, "i-b", 6000), lease(7, "i-c", 10)],
        Some(AsgGroupInfo {
            name: "g".to_string(),
            desired_capacity: 2,
            min_size: 2,
            max_size: 5,
        }),
        vec![instance("i-b", "InService"), instance("i-c", "Pending")],
        vec![IpvsBackend {
            ip: Ipv4::new(172, 16, 32, 20),
            active_connections: 14,
            inactive_connections: 3,
        }],
        &net(),
        "2026-01-02 03:04:05 UTC".to_string(),
    )
}

#[test]
fn backends_are_joined_on_their_address() {
    let s = snapshot();
    assert_eq!(s.backends.len(), 3);
    let b = &s.backends[0];
    assert_eq!(b.slot, Some(0));
    assert_eq!(b.lease.as_ref().unwrap().owner_instance_id, "i-b");
    assert_eq!(b.ipvs.unwrap().active_connections, 14);
    let b = &s.backends[1];
    assert!(b.slot.is_none() && b.lease.is_none() && b.ipvs.is_none());
    assert_eq!(s.backends[2].slot, Some(5));
    assert!(s.backends[2].lease.is_none());
    assert!(s.asg_group.as_ref().unwrap().would_violate_min());
}

#[test]
fn the_report_has_its_columns() {
    let out = snapshot().print(
        &vec!["4.0".to_string(), "5.0".to_string(), "0.0".to_string()],
        1000,
    );
    let plain: String = {
        let mut s = String::new();
        let mut skip = false;
        for c in out.chars() {
            if c == '\x1b' {
                skip = true;
            } else if skip {
                skip = c != 'm';
            } else {
                s.push(c);
            }
        }
        s
    };
    let has = |line: &str| assert!(plain.lines().any(|l| l == line), "{line:?} in\n{plain}");
    has(" System Snapshot  2026-01-02 03:04:05 UTC");
    has(" Backends  (3 weight file(s))");
    has("   172.16.32.20       active       0      i-b                              14         3");
    has("   10.0.0.1           draining     -      -                                 -         -");
    has(" Redis Leases  (3 slot(s) leased)");
    has("   0      i-a                              4.0 s  ");
    has("   7      i-c                              0.0 s  EXPIRED");
    has(" ASG Instances  (2 total, 1 InService)  desired=2  min=2  max=5 [!] desired=min");
    has("   i-c                        Healthy        Pending");
    has(" Summary:  1 active  1 drains  1 disabled  |  3 leases  |  1 inservice  |  14 conns");
}

// ── Groups ────────────────────────────────────────────────────────────────

fn groups() -> Vec<AsgGroup> {
    let inst = |id: &str| GroupInstance {
        instance_id: id.to_string(),
        availability_zone: "eu-west-2a".to_string(),
        lifecycle_state: "InService".to_string(),
        health_status: "Healthy".to_string(),
    };
    let g = |name: &str, instances: Vec<GroupInstance>| AsgGroup {
        name: name.to_string(),
        desired_capacity: 3,
        min_size: 1,
        max_size: -4,
        instances,
    };
    vec![g("one", vec![inst("i-9"), inst("i-10")]), g("two", vec![inst("i-1")]), g("none", vec![])]
}

#[test]
fn instances_of_all_groups_are_sorted() {
    let (info, list) = group::read_all(&groups());
    let info = info.unwrap();
    assert_eq!((info.name.as_str(), info.desired_capacity, info.max_size), ("one", 3, -4));
    let ids: Vec<&str> = list.iter().map(|i| i.instance_id.as_str()).collect();
    assert_eq!(ids, ["i-1", "i-10", "i-9"]);
    let (info, list) = group::read_all(&vec![]);
    assert!(info.is_none() && list.is_empty());
}

#[test]
fn groups_are_listed() {
    let out = list_text(&groups());
    assert!(out.starts_with(
        "\nAuto Scaling Group: one\n  Capacity — desired: 3  min: 1  max: -4\n  Instances (2):\n"
    ));
    assert!(out.contains("    i-9                       Healthy         InService      eu-west-2a\n"));
    assert!(out.ends_with("  Instances (0):\n    (none)\n"));
    assert_eq!(
        list_text(&vec![]),
        "No auto scaling groups found (has the ASG been created in the console yet?)\n"
    );
}

// ── Role ──────────────────────────────────────────────────────────────────

#[test]
fn the_master_holds_the_inside_address() {
    let vip = Ipv4::new(172, 16, 32, 1);
    let listing = |s: &str| Some(s.to_string());
    assert!(is_master(&listing("inet 10.0.0.1/24\n inet 172.16.32.1/32 scope"), vip));
    assert!(is_master(&listing("172.16.32.1"), vip));
    assert!(!is_master(&listing("inet 172.16.32.10/26"), vip));
    assert!(!is_master(&listing("inet 1172.16.32.1/26"), vip));
    assert!(!is_master(&listing(""), vip));
    assert!(!is_master(&None, vip));
    assert!(role(None, &None) && !role(Some(vip), &None));
    assert!(role(Some(vip), &listing("172.16.32.1/32")));
    assert_eq!(resolve_vip(Some(vip), &None), Some(vip));
    assert_eq!(resolve_vip(None, &listing(" 172.16.32.1\n")), Some(vip));
    assert_eq!(resolve_vip(None, &listing("soon")), None);
    assert_eq!(resolve_vip(None, &None), None);
}

// ── Weight files ──────────────────────────────────────────────────────────

#[test]
fn weight_files_and_their_copies() {
    assert_eq!(address_of_file("backend-10.0.0.1.weight").as_deref(), Some("10.0.0.1"));
    assert_eq!(address_of_file("backend-10.0.0.1"), None);
    assert_eq!(address_of_file("x-10.0.0.1.weight"), None);
    assert_eq!(
        persist("backend-10.0.0.1.weight", " -1\n"),
        Some(("backend:weight:10.0.0.1".to_string(), "-1".to_string()))
    );
    assert_eq!(persist("notes", "0"), None);
    assert_eq!(sync_from_redis("0\n", "0"), None);
    assert_eq!(sync_from_redis("0\n", " -1 ").as_deref(), Some("-1"));
    assert_eq!(sync_from_redis("-1", " -1 "), None);
    let (key, value) = persist("backend-172.16.32.20.weight", "-1\n").unwrap();
    assert_eq!(key, "backend:weight:172.16.32.20");
    assert_eq!(sync_from_redis("0", &value).as_deref(), Some("-1"));
    assert_ne!(persist("backend-172.16.32.21.weight", "-1\n").unwrap().0, key);
    assert_eq!(restore_from_redis(&Some(" 0\n".to_string())).as_deref(), Some("0"));
    assert_eq!(restore_from_redis(&None), None);
}

#[test]
fn stored_weights_grow_old() {
    let stamp = |s: &str| Some(s.to_string());
    assert!(init(&stamp("1000"), 10_999, 10));
    assert!(!init(&stamp("1000"), 11_000, 10));
    assert!(init(&stamp("5000"), 1000, 1));
    assert!(!init(&stamp("soon"), 1000, 10));
    assert!(!init(&None, 1000, 10));
}

#[test]
fn weights_follow_the_leases() {
    let leases = vec![lease(0, "i", 2000), lease(1, "i", 1000)];
    let w = |name: &str| compute_from_leases(name, &leases, &net(), 1000);
    assert_eq!(w("backend-172.16.32.20.weight"), Some("0"));
    assert_eq!(w("backend-172.16.32.21.weight"), Some("-2147483648"));
    assert_eq!(w("backend-10.0.0.1.weight"), Some("-2147483648"));
    assert_eq!(w("backend-here.weight"), None);
    assert_eq!(w("README"), None);
}
