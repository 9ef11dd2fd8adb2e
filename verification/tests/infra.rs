use aerosuite::infra::asg::{
    asg_host, describe_params, elements_of, parse_asg_describe, push_param, set_desired_confirmed,
    set_desired_params, terminate_confirmed, terminate_params,
};
use aerosuite::infra::aws::{
    aws_query, aws_reply, hmac_sha256, sha256_hex, sigv4_sign, sigv4_sign_at, AwsCredentials,
};
use aerosuite::infra::ipv4::Ipv4;
use aerosuite::infra::redis_pool::{
    key_owner, key_weight, now_ms, redis_target, KEY_AVAILABLE, KEY_BACKEND_WEIGHTS_TS,
    KEY_BACKEND_WEIGHT_PREFIX, KEY_LEASES,
};
use aerosuite::infra::slot_network::{
    is_inside_device, macs_of, SlotNetwork, SlotNetworkError,
};
use aerosuite::infra::xml::{extract_all_scalars, extract_balanced, extract_scalar};

fn ip(s: &str) -> Ipv4 {
    Ipv4::parse(s).unwrap()
}

fn net() -> SlotNetwork {
    SlotNetwork::new(ip("172.16.32.0"), 20, 26)
}

// ── Slots ─────────────────────────────────────────────────────────────────

#[test]
fn slot_to_ip() {
    assert_eq!(net().ip_for_slot(0), ip("172.16.32.20"));
    assert_eq!(net().ip_for_slot(11), ip("172.16.32.31"));
    assert_eq!(net().ip_for_slot(12), ip("172.16.32.32"));
    assert_eq!(net().ip_for_slot(19), ip("172.16.32.39"));
}

#[test]
fn ip_to_slot() {
    assert_eq!(net().slot_for_ip(ip("172.16.32.20")), Some(0));
    assert_eq!(net().slot_for_ip(ip("172.16.32.31")), Some(11));
    assert_eq!(net().slot_for_ip(ip("172.16.32.32")), Some(12));
    assert_eq!(net().slot_for_ip(ip("172.16.32.19")), None);
    assert_eq!(net().slot_for_ip(ip("172.16.29.100")), None);
}

#[test]
fn roundtrip() {
    let n = net();
    for slot in 0..20 {
        let ip = n.ip_for_slot(slot);
        assert_eq!(n.slot_for_ip(ip), Some(slot), "roundtrip failed for slot {slot}");
    }
}

#[test]
fn network_from_metadata() {
    assert_eq!(SlotNetwork::from_imds(" 172.16.32.0/26\n", " 20 ").unwrap(), net());
    let e = |c: &str, o: &str| SlotNetwork::from_imds(c, o).unwrap_err();
    assert_eq!(e("172.16.32.0", "20"), SlotNetworkError::InvalidCidr);
    assert_eq!(e("172.16.32/26", "20"), SlotNetworkError::InvalidBase);
    assert_eq!(e("172.16.32.0/x", "20"), SlotNetworkError::InvalidPrefix);
    assert_eq!(e("172.16.32.0/256", "20"), SlotNetworkError::InvalidPrefix);
    assert_eq!(e("172.16.32.0/26", "-1"), SlotNetworkError::InvalidOffset);
    assert_eq!(macs_of("02:aa/\n\n 02:bb// \n02:cc"), ["02:aa", "02:bb//", "02:cc"]);
    assert!(is_inside_device(" 1\n") && !is_inside_device("11") && !is_inside_device(""));
}

// ── Addresses ─────────────────────────────────────────────────────────────

#[test]
fn addresses_read_back() {
    for s in ["0.0.0.0", "255.255.255.255", "172.16.32.20", "10.0.0.1"] {
        assert_eq!(ip(s).to_text(), s);
    }
    assert_eq!(Ipv4::new(172, 16, 32, 20).bits, 0xAC10_2014);
    for s in ["", "1.2.3", "1.2.3.4.5", "256.1.1.1", "01.2.3.4", "1.2.3.+4", "1.2.3.", " 1.2.3.4"] {
        assert_eq!(Ipv4::parse(s), None, "{s}");
    }
}

// ── Signature ─────────────────────────────────────────────────────────────

fn sign(date: &str, body: &str, token: Option<&str>) -> String {
    sigv4_sign_at(
        date,
        "POST",
        "autoscaling.eu-west-2.amazonaws.com",
        "/",
        body,
        "autoscaling",
        "eu-west-2",
        "AK",
        "SK",
        token,
    )
    .authorization
}

#[test]
fn signatures_are_exact() {
    let body = "Action=Describe&Version=2011-01-01";
    assert_eq!(
        sign("20260227T201033Z", body, None),
        "AWS4-HMAC-SHA256 Credential=AK/20260227/eu-west-2/autoscaling/aws4_request, \
         SignedHeaders=content-type;host;x-amz-date, \
         Signature=018e9e73eebfb003c9f2f2b2d781c6a56159f1d5f23bf1b78610768818e95335"
    );
    assert_eq!(
        sign("20260227T201033Z", body, Some("TOK")),
        "AWS4-HMAC-SHA256 Credential=AK/20260227/eu-west-2/autoscaling/aws4_request, \
         SignedHeaders=content-type;host;x-amz-date;x-amz-security-token, \
         Signature=b794ca120bf1698e17994a120c835ad4776e2dcbb0d7f474c8585f8e6905a821"
    );
    assert_ne!(sign("20260227T201033Z", body, None), sign("20260227T201033Z", "", None));
}

#[test]
fn digests_are_exact() {
    assert_eq!(
        sha256_hex(b"abc"),
        "ba7816bf8f01cfea414140de5dae2223b00361a396177a9cb410ff61f20015ad"
    );
    let code = hmac_sha256(b"key", b"The quick brown fox jumps over the lazy dog");
    let hex: String = code.iter().map(|b| format!("{b:02x}")).collect();
    assert_eq!(hex, "f7bc83f430538424b13298e6aa6fb143ef4d59a14946175997479dbc2d1a3cd8");
}

#[test]
fn signature_now_is_the_one_for_its_date() {
    let s = sigv4_sign(
        "POST",
        "autoscaling.eu-west-2.amazonaws.com",
        "/",
        "x=1",
        "autoscaling",
        "eu-west-2",
        "AK",
        "SK",
        None,
    );
    assert_eq!(s.authorization, sign(&s.x_amz_date, "x=1", None));
    assert_eq!(s.x_amz_date.len(), "20260227T201033Z".len());
    assert!(s.x_amz_date.ends_with('Z'));
}

#[test]
fn queries_are_encoded_and_signed() {
    let creds = AwsCredentials {
        access_key_id: "AK".to_string(),
        secret_access_key: "SK".to_string(),
        session_token: Some("TOK".to_string()),
    };
    let mut params = vec![];
    push_param(&mut params, "a b", "x&y=é");
    push_param(&mut params, "c", "");
    let host = asg_host("eu-west-2");
    let q = aws_query(&host, "autoscaling", "eu-west-2", &creds, &params);
    assert_eq!(q.endpoint, "https://autoscaling.eu-west-2.amazonaws.com/");
    assert_eq!(q.body, "a+b=x%26y%3D%C3%A9&c=");
    assert_eq!(q.session_token.as_deref(), Some("TOK"));
    assert_eq!(q.authorization, sign(&q.x_amz_date, &q.body, Some("TOK")));

    assert_eq!(aws_reply(200, "ok".to_string()), Ok("ok".to_string()));
    assert_eq!(aws_reply(299, "ok".to_string()), Ok("ok".to_string()));
    assert_eq!(aws_reply(300, "no".to_string()), Err((300, "no".to_string())));
    assert_eq!(aws_reply(403, "no".to_string()), Err((403, "no".to_string())));
}

// ── XML ───────────────────────────────────────────────────────────────────

#[test]
fn balanced_content_spans_nested_elements() {
    let x = "<a><m>1<m>2</m></m><m>3</m></a>";
    assert_eq!(extract_balanced(x, "m"), Some("1<m>2</m>"));
    assert_eq!(extract_balanced(x, "a"), Some("<m>1<m>2</m></m><m>3</m>"));
    assert_eq!(extract_balanced("<m><m></m>", "m"), None);
    assert_eq!(extract_balanced("é<m>ü</m>", "m"), Some("ü"));
    assert_eq!(extract_balanced("x", "m"), None);
}

#[test]
fn scalars_are_trimmed() {
    let x = "<v> 1 </v><v>2</v><v>3";
    assert_eq!(extract_scalar(x, "v"), Some("1"));
    assert_eq!(extract_scalar(x, "w"), None);
    assert_eq!(extract_scalar("<v>3", "v"), None);
    assert_eq!(extract_all_scalars(x, "v"), ["1", "2"]);
    assert!(extract_all_scalars("", "v").is_empty());
    assert_eq!(elements_of("<m>a</m> <m><m>b</m></m>", "m"), ["a", "<m>b</m>"]);
}

#[test]
fn scaling_groups_are_read() {
    let x = "<R><AutoScalingGroups><member>\
        <AutoScalingGroupName>g</AutoScalingGroupName>\
        <DesiredCapacity>3</DesiredCapacity><MinSize>x</MinSize><MaxSize>-2</MaxSize>\
        <AvailabilityZones><member>z</member></AvailabilityZones>\
        <Instances>\
        <member><InstanceId>i-1</InstanceId><AvailabilityZone>a</AvailabilityZone>\
        <LifecycleState>InService</LifecycleState><HealthStatus>Healthy</HealthStatus></member>\
        <member></member></Instances></member>\
        <member>no name</member></AutoScalingGroups></R>";
    let g = parse_asg_describe(x);
    assert_eq!(g.len(), 1);
    let g = &g[0];
    assert_eq!((g.name.as_str(), g.desired_capacity, g.min_size, g.max_size), ("g", 3, 0, -2));
    assert_eq!(g.instances.len(), 2);
    let i = &g.instances[0];
    assert_eq!((i.instance_id.as_str(), i.availability_zone.as_str()), ("i-1", "a"));
    assert_eq!((i.lifecycle_state.as_str(), i.health_status.as_str()), ("InService", "Healthy"));
    assert_eq!(g.instances[1].instance_id, "(unknown)");
    assert_eq!(g.instances[1].health_status, "");
    assert!(parse_asg_describe("").is_empty());
}

fn text(params: Vec<(String, String)>) -> String {
    params.iter().map(|(k, v)| format!("{k}={v};")).collect()
}

#[test]
fn scaling_requests() {
    assert_eq!(
        text(describe_params("g")),
        "Action=DescribeAutoScalingGroups;Version=2011-01-01;AutoScalingGroupNames.member.1=g;"
    );
    assert_eq!(
        text(set_desired_params("g", 12)),
        "Action=SetDesiredCapacity;Version=2011-01-01;AutoScalingGroupName=g;\
         DesiredCapacity=12;HonorCooldown=false;"
    );
    assert_eq!(
        text(terminate_params("i-1", true)),
        "Action=TerminateInstanceInAutoScalingGroup;Version=2011-01-01;InstanceId=i-1;\
         ShouldDecrementDesiredCapacity=true;"
    );
    assert!(text(terminate_params("i-1", false)).ends_with("Capacity=false;"));
    assert!(set_desired_confirmed("<SetDesiredCapacityResponse>"));
    assert!(!set_desired_confirmed("<ErrorResponse>"));
    assert!(terminate_confirmed("x TerminateInstanceInAutoScalingGroupResponse"));
    assert!(!terminate_confirmed(""));
}

// ── Pool ──────────────────────────────────────────────────────────────────

#[test]
fn pool_keys() {
    assert_eq!((KEY_AVAILABLE, KEY_LEASES), ("slots:available", "slots:leases"));
    assert_eq!(KEY_BACKEND_WEIGHT_PREFIX, "backend:weight:");
    assert_eq!(KEY_BACKEND_WEIGHTS_TS, "backend:weights:ts");
    assert_eq!(key_owner("7"), "slot:owner:7");
    assert_eq!(key_weight("10.0.0.1"), "backend:weight:10.0.0.1");
    assert!(now_ms() > 1_600_000_000_000);
}

#[test]
fn redis_urls() {
    let t = |u: &str, tls: bool, ins: bool, ca: bool| {
        let t = redis_target(u, tls, ins, ca);
        (t.url, t.use_tls)
    };
    let is = |u: &str, tls: bool| (u.to_string(), tls);
    assert_eq!(t("redis://h", false, false, false), is("redis://h", false));
    assert_eq!(t("redis://h", true, false, false), is("rediss://h", true));
    assert_eq!(t("redis://h", false, false, true), is("rediss://h", true));
    assert_eq!(t("redis://h", false, true, false), is("rediss://h#insecure", true));
    assert_eq!(t("rediss://h", false, false, false), is("rediss://h", true));
    assert_eq!(t("rediss://h#insecure", false, true, false), is("rediss://h#insecure", true));
    assert_eq!(t("h:1/redis://", true, false, false), is("h:1/redis://", true));
}
