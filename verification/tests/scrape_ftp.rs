use aerosuite::ftp::{
    lookup_error, lookup_key, otel_settings, put_result, user_detail, DataEvent, EventMeta,
    FtpDataTracer, SpanRecord,
};
use aerosuite::order::{str_less, stable_order, text_order};
use aerosuite::scale::metrics::{ParsedSample, ParsedValue};
use aerosuite::scrape::{
    credential_source, discover_body, endpoints_of, find_attribute, is_fresh, list_body, recordings,
    same_endpoints, scrape_and_record, AwsCreds, CredentialSource, CredentialVariables,
    DiscoverInstancesResponse, Expiry, Instance, RecordValue,
};
use aerosuite::text::{
    before_suffix, cut_once, decimal_of, has, lines_of, padded_left, padded_right, parse_hex_u32,
    parse_i64, parse_up_to, signed_decimal_of, trimmed, words_of,
};

fn pair(a: &str, b: &str) -> (String, String) {
    (a.to_string(), b.to_string())
}

// ── Discovery ─────────────────────────────────────────────────────────────

fn instance(id: &str, attributes: Vec<(String, String)>) -> Instance {
    Instance {
        instance_id: id.to_string(),
        namespace_name: "aeroftp".to_string(),
        service_name: "aeroftp-service".to_string(),
        health_status: "UNKNOWN".to_string(),
        attributes,
    }
}

#[test]
fn instances_with_addresses_are_scraped() {
    let r = DiscoverInstancesResponse {
        instances: vec![
            instance("t1", vec![pair("X", "1"), pair("AWS_INSTANCE_IPV4", "172.16.24.156")]),
            instance("t2", vec![pair("AWS_INSTANCE_PORT", "21")]),
            instance("t3", vec![pair("AWS_INSTANCE_IPV4", "172.16.12.216")]),
        ],
        instances_revision: 1,
    };
    let e = endpoints_of(&r, "/metrics");
    assert_eq!(
        e,
        [
            pair("t1", "http://172.16.24.156:9090/metrics"),
            pair("t3", "http://172.16.12.216:9090/metrics")
        ]
    );
    let bare = endpoints_of(&r, "");
    assert_eq!(bare[0].1, "http://172.16.24.156:9090");
    assert!(same_endpoints(&e, &e) && !same_endpoints(&e, &bare));
    assert!(!same_endpoints(&e, &vec![]) && same_endpoints(&vec![], &vec![]));
    assert_eq!(find_attribute(&r.instances[0].attributes, "X"), Some("1"));
    assert_eq!(find_attribute(&r.instances[0].attributes, "Y"), None);
}

#[test]
fn instances_are_listed_by_service_id() {
    assert_eq!(list_body("srv-1"), "{\"ServiceId\":\"srv-1\"}");
}

#[test]
fn discovery_asks_for_a_service() {
    assert_eq!(
        discover_body("aeroftp", "a\"b"),
        r#"{"NamespaceName":"aeroftp","ServiceName":"a\"b"}"#
    );
}

// ── Credentials ───────────────────────────────────────────────────────────

fn expiring(s: &str) -> Expiry {
    let mut c = AwsCreds::none();
    c.expiration = s.to_string();
    c.expiry()
}

#[test]
fn credentials_expire() {
    assert_eq!(AwsCreds::none().expiry(), Expiry::Unset);
    assert_eq!(expiring("soon"), Expiry::Unreadable);
    assert_eq!(
        expiring("1970-01-01T01:00:01.5+01:00"),
        Expiry::At { secs: 1, nanos: 500_000_000 }
    );
    let e = expiring("2026-02-27T20:10:33Z");
    assert_eq!(e, Expiry::At { secs: 1_772_223_033, nanos: 0 });
    assert!(is_fresh(e, 1_772_223_033 - 900, 0));
    assert!(!is_fresh(e, 1_772_223_033 - 900, 1));
    assert!(!is_fresh(e, 1_772_223_034, 0));
    assert!(!is_fresh(Expiry::Unset, 0, 0) && !is_fresh(Expiry::Unreadable, 0, 0));
}

#[test]
fn credentials_have_a_source() {
    let mut v = CredentialVariables {
        session_token: None,
        access_key_id: None,
        secret_access_key: None,
        token_expiration: None,
        full_uri: None,
        relative_uri: None,
    };
    assert!(matches!(credential_source(&v), CredentialSource::Nowhere));
    v.relative_uri = Some("/x".to_string());
    assert!(matches!(
        credential_source(&v),
        CredentialSource::Fetch { url } if url == "http://169.254.170.2/x"
    ));
    v.full_uri = Some("http://y".to_string());
    assert!(matches!(credential_source(&v), CredentialSource::Fetch { url } if url == "http://y"));
    v.session_token = Some("T".to_string());
    let missing = |v: &CredentialVariables, name: &str| {
        assert!(matches!(
            credential_source(v),
            CredentialSource::Missing { variable } if variable == name
        ));
    };
    missing(&v, "AWS_ACCESS_KEY_ID");
    v.access_key_id = Some("A".to_string());
    missing(&v, "AWS_SECRET_ACCESS_KEY");
    v.secret_access_key = Some("S".to_string());
    missing(&v, "AWS_TOKEN_EXPIRATION");
    v.token_expiration = Some("E".to_string());
    match credential_source(&v) {
        CredentialSource::Given(c) => {
            assert_eq!((c.role_arn.as_str(), c.token.as_str()), ("unused", "T"));
            assert_eq!((c.access_key_id.as_str(), c.secret_access_key.as_str()), ("A", "S"));
            assert_eq!(c.expiration, "E");
        },
        other => panic!("unexpected {other:?}"),
    }
}

// ── Recording ─────────────────────────────────────────────────────────────

#[test]
fn samples_become_recordings() {
    let p = |value: ParsedValue| ParsedSample {
        metric: "m".to_string(),
        value,
        labels: vec![pair("k", "v")],
    };
    let out = recordings(
        vec![
            p(ParsedValue::Counter(1)),
            p(ParsedValue::Gauge(2)),
            p(ParsedValue::Untyped(3)),
            p(ParsedValue::Histogram(vec![4, 5])),
            p(ParsedValue::Summary),
        ],
        "t1",
    );
    assert_eq!(out.len(), 5);
    assert!(out.iter().all(|r| r.metric == "m" && r.labels == [pair("k", "v"), pair("TaskId", "t1")]));
    assert!(matches!(out[0].value, RecordValue::Counter(1)));
    assert!(matches!(out[1].value, RecordValue::Gauge(2)));
    assert!(matches!(out[2].value, RecordValue::Gauge(3)));
    assert!(matches!(&out[3].value, RecordValue::GaugeSum(v) if *v == [4, 5]));
    assert!(matches!(out[4].value, RecordValue::Zero));
}

#[test]
fn bodies_are_recorded() {
    let out = scrape_and_record("t1", "# TYPE c counter\nc{a=\"b\"} 7\n");
    assert_eq!(out.len(), 1);
    assert_eq!(out[0].labels, [pair("a", "b"), pair("TaskId", "t1")]);
    assert!(matches!(out[0].value, RecordValue::Counter(b) if f64::from_bits(b) == 7.0));
}

#[test]
fn histograms_and_summaries_are_recorded_too() {
    let out = scrape_and_record(
        "t1",
        "g 1\n# TYPE h histogram\nh_bucket{le=\"1\"} 2\nh_bucket{le=\"+Inf\"} 3\n\
         # TYPE s summary\ns{quantile=\"0.5\"} 7\n",
    );
    assert_eq!(out.len(), 3);
    assert!(out.iter().all(|r| r.labels == [pair("TaskId", "t1")]));
    let h = out.iter().find(|r| r.metric == "h").unwrap();
    let want = [2.0f64.to_bits(), 3.0f64.to_bits()];
    assert!(matches!(&h.value, RecordValue::GaugeSum(c) if c[..] == want));
    let s = out.iter().find(|r| r.metric == "s").unwrap();
    assert!(matches!(s.value, RecordValue::Zero));
}

// ── FTP ───────────────────────────────────────────────────────────────────

#[test]
fn unknown_devices_are_quarantined() {
    let u = user_detail("bob", "10.0.0.1", vec![]);
    assert!(u.quarantined && u.account_enabled());
    assert_eq!(u.to_string(), "bob@10.0.0.1");
    assert_eq!(u.require("site").unwrap_err(), "system metadata missing required field 'site'");
    assert_eq!(u.field_or_unknown("site"), "?");
    let u = user_detail("bob", "10.0.0.1", vec![pair("site", "x")]);
    assert!(!u.quarantined);
    assert_eq!((u.require("site"), u.field_or_unknown("site")), (Ok("x"), "x"));
    assert_eq!(lookup_key(&Some("10.0.0.1".to_string())).unwrap(), "systems:by-ip:10.0.0.1");
    assert_eq!(
        lookup_key(&None).unwrap_err(),
        "Principal is missing source_ip — AeroAuthenticator must be used"
    );
    assert_eq!(lookup_error("k", "down"), "Redis error looking up 'k': down");
}

#[test]
fn uploads_need_copy_and_close() {
    let e = |s: &str| s.to_string();
    assert_eq!(put_result(Ok(5), Ok(())), Ok(5));
    assert_eq!(put_result(Err(e("c")), Ok(())), Err(e("copy failed: c")));
    assert_eq!(put_result(Ok(5), Err(e("s"))), Err(e("shutdown failed: s")));
    assert_eq!(put_result(Err(e("c")), Err(e("s"))), Err(e("copy failed: c; shutdown failed: s")));
}

fn traced(event: DataEvent) -> SpanRecord {
    let meta = EventMeta {
        username: "bob".to_string(),
        trace_id: "s1".to_string(),
        sequence_number: 9,
    };
    FtpDataTracer.receive_data_event(event, meta)
}

#[test]
fn events_become_spans() {
    let path = || "/p".to_string();
    let s = traced(DataEvent::Put { path: path(), bytes: 3 });
    assert_eq!((s.name.as_str(), s.path.as_str(), s.bytes), ("ftp.stor", "/p", Some(3)));
    assert_eq!((s.username.as_str(), s.session_id.as_str(), s.sequence), ("bob", "s1", Some(9)));
    let s = traced(DataEvent::Got { path: path(), bytes: 4 });
    assert_eq!((s.name.as_str(), s.bytes), ("ftp.retr", Some(4)));
    let s = traced(DataEvent::Deleted { path: path() });
    assert_eq!((s.name.as_str(), s.bytes, s.sequence), ("ftp.dele", None, Some(9)));
    let s = traced(DataEvent::Renamed { from: "/a".to_string(), to: "/b".to_string() });
    assert_eq!((s.name.as_str(), s.path.as_str(), s.path_from.as_deref()), ("ftp.rename", "/b", Some("/a")));
    let s = traced(DataEvent::MadeDir { path: path() });
    assert_eq!((s.name.as_str(), s.sequence), ("ftp.mkd", None));
    let s = traced(DataEvent::RemovedDir { path: path() });
    assert_eq!((s.name.as_str(), s.sequence), ("ftp.rmd", None));
}

#[test]
fn export_can_be_switched_off() {
    let v = |s: &str| Some(s.to_string());
    assert!(otel_settings(&v("TrUe"), &None, &None).is_none());
    for s in ["truth", "1", "", "tru"] {
        assert!(otel_settings(&v(s), &None, &None).is_some(), "{s}");
    }
    let o = otel_settings(&None, &None, &None).unwrap();
    assert_eq!((o.endpoint.as_str(), o.service_name.as_str()), ("http://aeromon.aerosuite:4317", "aeroftp"));
    let o = otel_settings(&None, &v("http://x"), &v("y")).unwrap();
    assert_eq!((o.endpoint.as_str(), o.service_name.as_str()), ("http://x", "y"));
}

// ── Texts and orders ──────────────────────────────────────────────────────

#[test]
fn texts_agree_with_the_standard_library() {
    let samples = [
        "", " ", "a", " a b ", "a\nb", "a\r\nb\n", "\n\n", "x\r", "\u{3000}é ü\u{a0}", "a=b=c", "=", "+7", "-0",
        "18446744073709551615", "18446744073709551616", "-9223372036854775808", "9223372036854775808",
        "00012", "FFFFFFFF", "fg", "\tword\u{85}next",
    ];
    for s in samples {
        assert_eq!(trimmed(s), s.trim(), "{s:?}");
        assert_eq!(lines_of(s), s.lines().collect::<Vec<_>>(), "{s:?}");
        assert_eq!(words_of(s), s.split_whitespace().collect::<Vec<_>>(), "{s:?}");
        assert_eq!(cut_once(s, '='), s.split_once('=').map(|(a, b)| pair(a, b)), "{s:?}");
        assert_eq!(parse_up_to(s, u64::MAX), s.parse::<u64>().ok(), "{s:?}");
        assert_eq!(parse_up_to(s, 255), s.parse::<u8>().ok().map(|n| n as u64), "{s:?}");
        assert_eq!(parse_i64(s), s.parse::<i64>().ok(), "{s:?}");
        assert_eq!(parse_hex_u32(s), u32::from_str_radix(s, 16).ok(), "{s:?}");
        assert_eq!(padded_right(s, 5), format!("{s:<5}"), "{s:?}");
        assert_eq!(padded_left(s, ' ', 5), format!("{s:>5}"), "{s:?}");
        for t in samples {
            assert_eq!(has(s, t), s.contains(t), "{s:?} {t:?}");
            assert_eq!(before_suffix(s, t).as_deref(), s.strip_suffix(t), "{s:?} {t:?}");
            assert_eq!(str_less(s, t), s < t, "{s:?} {t:?}");
        }
    }
    for n in [0, 9, 10, 12345, u64::MAX] {
        assert_eq!(decimal_of(n), n.to_string());
        assert_eq!(parse_up_to(&decimal_of(n), u64::MAX), Some(n));
    }
    for n in [0, -1, 7, i64::MIN, i64::MAX] {
        assert_eq!(signed_decimal_of(n), n.to_string());
    }
}

#[test]
fn orders_are_stable() {
    assert_eq!(stable_order(&vec![5, 1, 5, 0]), [3, 1, 0, 2]);
    assert!(stable_order(&vec![]).is_empty());
    let words: Vec<String> = ["b", "a", "", "ab", "B", "a"].iter().map(|s| s.to_string()).collect();
    let sorted: Vec<&str> = text_order(&words).iter().map(|i| words[*i].as_str()).collect();
    assert_eq!(sorted, ["", "B", "a", "a", "ab", "b"]);
}
