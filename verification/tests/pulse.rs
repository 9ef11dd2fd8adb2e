use aerosuite::pulse::{
    parse_interface, pick_interfaces, render_all, render_chk_backends, render_chk_forward_path,
    render_notify_backup, render_notify_master, render_track_interface_block,
    render_track_scripts_references, render_vrrp_conf, render_vrrp_scripts_definitions, IfaceInfo,
    InstanceData, Options, OptionsError, Role, CONF_MODE, SCRIPT_MODE,
};
use aerosuite::template::{fill, put};

fn options() -> Options {
    Options {
        auth_pass: "pw".to_string(),
        out: "/k/vrrp.conf".to_string(),
        notify_master_out: "/k/notify-master.sh".to_string(),
        notify_backup_out: "/k/notify-backup.sh".to_string(),
        chk_backends_out: "/k/chk-backends.sh".to_string(),
        chk_forward_out: "/k/chk-forward-path.sh".to_string(),
        vip_outside: "172.16.29.100".to_string(),
        vip_inside: "172.16.32.10".to_string(),
        iface_outside: "eth0".to_string(),
        iface_inside: "eth1".to_string(),
        vrid_outside: 51,
        vrid_inside: 52,
        advert_int: 1,
        down_timer_adverts: 3,
        priority_master: 150,
        priority_backup: 100,
        enable_track_interface: false,
        enable_track_backends: false,
        track_min_backends: 2,
        enable_track_forward: false,
        track_probe_host: None,
        track_probe_port: 80,
        track_probe_timeout: 4,
        track_weight: -60,
        track_interval: 5,
        track_fall: 6,
        track_rise: 7,
        assign_bin: "/usr/local/bin/aeroplug".to_string(),
        region: "eu-west-2".to_string(),
    }
}

fn iface(n: u32) -> IfaceInfo {
    IfaceInfo { device_number: n, eni_id: format!("eni-{n}"), primary_ip: format!("10.0.0.{n}") }
}

fn data(role: Role) -> InstanceData {
    InstanceData {
        instance_id: "i-1".to_string(),
        role,
        outside: iface(0),
        inside: iface(1),
        peer_inside_ip: "10.9.9.9".to_string(),
    }
}

#[test]
fn forward_check_needs_a_host() {
    let mut o = options();
    assert!(o.validate().is_ok());
    o.enable_track_forward = true;
    let e = o.validate().unwrap_err();
    assert_eq!(e, OptionsError::ProbeHostMissing);
    assert_eq!(
        e.to_string(),
        "--track-probe-host <IP> is required when --enable-track-forward is set"
    );
    o.track_probe_host = Some("h".to_string());
    assert!(o.validate().is_ok());
}

#[test]
fn roles_come_from_tags() {
    assert_eq!(Role::from_tag("master"), Ok(Role::Master));
    assert_eq!(Role::from_tag("backup"), Ok(Role::Backup));
    assert_eq!(
        Role::from_tag("Master").unwrap_err(),
        "Tag 'keepalived-role' has unexpected value 'Master'. Expected 'master' or 'backup'."
    );
    assert_eq!((Role::Master.as_str(), Role::Master.vrrp_state()), ("master", "BACKUP"));
    assert_eq!((Role::Backup.as_str(), Role::Backup.vrrp_state()), ("backup", "BACKUP"));
}

#[test]
fn interfaces_are_read_and_picked() {
    let i = parse_interface("m", "1", "eni-1", " 10.0.0.1 \n10.0.0.2\n").unwrap();
    assert_eq!((i.device_number, i.eni_id.as_str(), i.primary_ip.as_str()), (1, "eni-1", "10.0.0.1"));
    assert_eq!(
        parse_interface("02:aa", "one", "e", "1").unwrap_err(),
        "device-number for MAC 02:aa is not a valid integer"
    );
    assert_eq!(
        parse_interface("02:aa", "1", "e", "").unwrap_err(),
        "local-ipv4s returned an empty response"
    );
    let (outside, inside) = pick_interfaces(&vec![iface(2), iface(1), iface(0)]).unwrap();
    assert_eq!((outside.device_number, inside.device_number), (0, 1));
    assert_eq!(
        pick_interfaces(&vec![iface(0)]).unwrap_err(),
        "Expected at least 2 network interfaces (eth0 + eth1), found 1. Is the inside ENI attached?"
    );
}

#[test]
fn checks_are_defined_when_enabled() {
    let mut o = options();
    assert!(render_vrrp_scripts_definitions(&o)
        .starts_with("\n# ── track_script definitions (currently disabled)"));
    o.enable_track_backends = true;
    let backends = "
vrrp_script chk_backends {
    script   \"/k/chk-backends.sh\"
    interval 5
    weight   -60
    fall     6
    rise     7
    # Queries IPVS via ipvsadm.  Fails if fewer than 2 real server(s) are
    # active.  Both nodes failing simultaneously does not cause a failover
    # because both priorities drop equally and the master retains its lead.
}
";
    let forward = "
vrrp_script chk_forward_path {
    script   \"/k/chk-forward-path.sh\"
    interval 5
    weight   -60
    fall     6
    rise     7
    # TCP-probes a real server through eth1.  Source-bound to eth1's own IP
    # so a broken eth1 cannot silently pass the check via eth0.
}
";
    assert_eq!(render_vrrp_scripts_definitions(&o), backends);
    o.enable_track_forward = true;
    assert_eq!(render_vrrp_scripts_definitions(&o), format!("{backends}{forward}"));
    o.enable_track_backends = false;
    assert_eq!(render_vrrp_scripts_definitions(&o), forward);
}

#[test]
fn blocks_are_comments_until_enabled() {
    let mut o = options();
    assert_eq!(
        render_track_interface_block(&o),
        "
    # track_interface disabled — enable with --enable-track-interface and regenerate.
    # track_interface {
    #     eth0
    #     eth1
    # }
"
    );
    assert_eq!(
        render_track_scripts_references(&o),
        "
    track_script {
        # chk_backends    (enable with --enable-track-backends)
        # chk_forward_path    (enable with --enable-track-forward --track-probe-host <IP>)
    }
"
    );
    o.enable_track_interface = true;
    o.enable_track_backends = true;
    o.enable_track_forward = true;
    assert_eq!(
        render_track_interface_block(&o),
        "
    track_interface {
        eth0
        eth1
    }
"
    );
    assert_eq!(
        render_track_scripts_references(&o),
        "
    track_script {
        chk_backends
        chk_forward_path
    }
"
    );
}

#[test]
fn the_master_does_not_preempt() {
    let o = options();
    let m = render_vrrp_conf(&o, &data(Role::Master), "T");
    let b = render_vrrp_conf(&o, &data(Role::Backup), "T");
    assert_eq!(m.matches("\n    nopreempt\n").count(), 2);
    assert_eq!(b.matches("nopreempt").count(), 0);
    assert_eq!(m.matches("    priority          150\n").count(), 2);
    assert_eq!(b.matches("    priority          100\n").count(), 2);
    assert_eq!(m.matches("    state             BACKUP\n").count(), 2);
    for line in [
        "# Instance  : i-1",
        "# Role      : master",
        "# Generated : T",
        "#   include \"/k/vrrp.conf\"",
        "    notify_master \"/k/notify-master.sh\"",
        "    notify_backup \"/k/notify-backup.sh\"",
        "    virtual_router_id 51",
        "    virtual_router_id 52",
        "    advert_int        1",
        "    down_timer_adverts 3",
        "    interface         eth1",
        "    unicast_src_ip  10.0.0.1",
        "        10.9.9.9",
        "        auth_pass pw",
        "        172.16.29.100/32 dev eth0",
        "        172.16.32.10/32 dev eth1",
    ] {
        assert!(m.lines().any(|l| l == line), "{line}");
    }
    assert!(!m.contains("%{"));
    assert!(m.contains(&render_vrrp_scripts_definitions(&o)));
    assert_eq!(m.matches(&render_track_interface_block(&o)).count(), 2);
    assert_eq!(m.matches(&render_track_scripts_references(&o)).count(), 2);
}

#[test]
fn a_failed_check_on_the_master_alone_moves_the_role() {
    let mut o = options();
    o.enable_track_backends = true;
    let number = |conf: &str, key: &str| -> i32 {
        let line = conf.lines().find(|l| l.trim().starts_with(key)).unwrap();
        line.split_whitespace().last().unwrap().parse().unwrap()
    };
    let m = render_vrrp_conf(&o, &data(Role::Master), "T");
    let b = render_vrrp_conf(&o, &data(Role::Backup), "T");
    let weight = number(&m, "weight ");
    assert_eq!((weight, number(&b, "weight ")), (-60, -60));
    let (master, backup) = (number(&m, "priority "), number(&b, "priority "));
    assert_eq!(master + weight, 90);
    assert!(master + weight < backup);
    assert!(master + weight > backup + weight);
}

#[test]
fn scripts_hold_their_values() {
    let mut o = options();
    let s = render_notify_master(&o, &data(Role::Master), "T");
    assert!(s.starts_with("#!/bin/sh\n# notify-master.sh — generated by aeropulse for i-1\n"));
    assert!(s.contains("log() { logger -t keepalived-notify \"notify-master[${TYPE:-?}/${NAME:-?}]: $*\"; }\n"));
    assert!(s.contains(
        "/usr/local/bin/aeroplug assign-ip \\\n    --ip 172.16.32.10 \\\n    --eni eni-1 \\\n    --region eu-west-2 \\\n"
    ));
    let s = render_notify_backup("T");
    assert!(s.contains("# Generated : T\n") && s.contains("notify-backup[${1:-?}/${2:-?}]"));

    let s = render_chk_backends(&o, "T");
    assert!(s.contains("MIN_ACTIVE=2\n") && s.contains("NOT YET ACTIVE"));
    assert!(s.contains("# Test:     /k/chk-backends.sh && echo OK || echo FAIL\n"));
    assert!(s.contains("{ if ($4 > 0) count++ } END { print count+0 }"));
    let s = render_chk_forward_path(&o, &data(Role::Master), "T");
    assert!(s.contains("PROBE_HOST=\"<not configured — set --track-probe-host>\"\n"));
    assert!(s.contains("PROBE_PORT=80\nPROBE_TIMEOUT=4\nSRC_IP=\"10.0.0.1\"\n"));
    o.enable_track_backends = true;
    o.enable_track_forward = true;
    o.track_probe_host = Some("172.16.32.100".to_string());
    assert!(render_chk_backends(&o, "T").contains("# # Status: ACTIVE — referenced"));
    let s = render_chk_forward_path(&o, &data(Role::Master), "T");
    assert!(s.contains("PROBE_HOST=\"172.16.32.100\"\n") && s.contains("# # Status: ACTIVE"));
}

#[test]
fn all_files_are_written() {
    let o = options();
    let d = data(Role::Backup);
    let files = render_all(&o, &d);
    let paths: Vec<&str> = files.iter().map(|f| f.path.as_str()).collect();
    assert_eq!(
        paths,
        [
            "/k/vrrp.conf",
            "/k/notify-master.sh",
            "/k/notify-backup.sh",
            "/k/chk-backends.sh",
            "/k/chk-forward-path.sh"
        ]
    );
    assert_eq!((files[0].mode, CONF_MODE, SCRIPT_MODE), (0o640, 0o640, 0o750));
    assert!(files[1..].iter().all(|f| f.mode == 0o750));
    let line = files[2].content.lines().find(|l| l.starts_with("# Generated : ")).unwrap();
    let ts = &line["# Generated : ".len()..];
    assert_eq!(ts.len(), "2026-01-02T03:04:05Z".len());
    assert_eq!(files[0].content, render_vrrp_conf(&o, &d, ts));
    assert_eq!(files[1].content, render_notify_master(&o, &d, ts));
    assert_eq!(files[2].content, render_notify_backup(ts));
    assert_eq!(files[3].content, render_chk_backends(&o, ts));
    assert_eq!(files[4].content, render_chk_forward_path(&o, &d, ts));
}

#[test]
fn templates_fill_their_fields() {
    let mut f = vec![];
    put(&mut f, "a", "1");
    put(&mut f, "a", "2");
    put(&mut f, "b", "%{a}");
    assert_eq!(fill("x%{a}y%{b}%{c}z", &f), "x1y%{a}z");
    assert_eq!(fill("100% {a} %{a", &f), "100% {a} %{a");
    assert_eq!(fill("no fields", &f), "no fields");
    assert_eq!(fill("", &f), "");
}
