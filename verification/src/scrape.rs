//! Scraping the tasks of a service: finding them, the credentials for that, and
//! what is recorded of their metrics.

use vstd::prelude::*;

use crate::infra::asg;
use crate::infra::asg::push_param;
use crate::json;
use crate::json::FieldView;
use crate::scale::metrics;
use crate::scale::metrics::{parse_samples, ParsedSample, ParsedValue};
use crate::text;

verus! {

// ── Discovery ─────────────────────────────────────────────────────────────

/// One instance of a service.
#[derive(Debug)]
pub struct Instance {
    pub instance_id: String,
    pub namespace_name: String,
    pub service_name: String,
    pub health_status: String,
    /// Names and values; no name occurs twice.
    pub attributes: Vec<(String, String)>,
}

/// The answer of the service discovery.
#[derive(Debug)]
pub struct DiscoverInstancesResponse {
    pub instances: Vec<Instance>,
    pub instances_revision: u64,
}

/// The value of the first attribute of this name, from `i` on.
pub open spec fn attribute(v: Seq<(Seq<char>, Seq<char>)>, name: Seq<char>, i: int) -> Option<
    Seq<char>,
>
    decreases v.len() - i,
{
    if i < 0 || i >= v.len() {
        None
    } else if v[i].0 == name {
        Some(v[i].1)
    } else {
        attribute(v, name, i + 1)
    }
}

/// The value of the first pair of this name.
pub fn find_attribute<'a>(v: &'a Vec<(String, String)>, name: &str) -> (r: Option<&'a str>)
    ensures
        match r {
            Some(s) => attribute(asg::pairs(v@), name@, 0) == Some(s@),
            None => attribute(asg::pairs(v@), name@, 0) is None,
        },
{
    let ghost all = asg::pairs(v@);
    let mut i: usize = 0;
    while i < v.len()
        invariant
            i <= v@.len(),
            all == asg::pairs(v@),
            attribute(all, name@, 0) == attribute(all, name@, i as int),
        decreases v@.len() - i,
    {
        assert(all[i as int] == (v@[i as int].0@, v@[i as int].1@));
        if text::str_eq(v[i].0.as_str(), name) {
            return Some(v[i].1.as_str());
        }
        i = i + 1;
    }
    None
}

/// The address of an instance.
pub open spec fn address(i: Instance) -> Option<Seq<char>> {
    attribute(asg::pairs(i.attributes@), "AWS_INSTANCE_IPV4"@, 0)
}

/// The ids and endpoints of the instances that have an address, in their order.
/// An endpoint is the address on port 9090, followed by `path`.
pub open spec fn endpoints(v: Seq<Instance>, path: Seq<char>) -> Seq<(Seq<char>, Seq<char>)>
    decreases v.len(),
{
    if v.len() == 0 {
        Seq::empty()
    } else {
        let front = endpoints(v.drop_last(), path);
        match address(v.last()) {
            Some(ip) => front.push((v.last().instance_id@, "http://"@ + ip + ":9090"@ + path)),
            None => front,
        }
    }
}

/// The ids and endpoints of the instances that have an address.
pub fn endpoints_of(response: &DiscoverInstancesResponse, path: &str) -> (out: Vec<(String, String)>)
    ensures
        asg::pairs(out@) == endpoints(response.instances@, path@),
{
    let ghost all = response.instances@;
    let mut out: Vec<(String, String)> = Vec::new();
    let mut i: usize = 0;
    assert(all.take(0) =~= Seq::<Instance>::empty());
    assert(asg::pairs(out@) =~= endpoints(all.take(0), path@));
    while i < response.instances.len()
        invariant
            i <= response.instances@.len(),
            all == response.instances@,
            asg::pairs(out@) == endpoints(all.take(i as int), path@),
        decreases response.instances@.len() - i,
    {
        let instance = &response.instances[i];
        proof {
            assert(all.take(i + 1).last() == *instance);
            assert(all.take(i + 1).drop_last() =~= all.take(i as int));
        }
        match find_attribute(&instance.attributes, "AWS_INSTANCE_IPV4") {
            Some(ip) => {
                let mut url = text::copy_str("http://");
                url.push_str(ip);
                url.push_str(":9090");
                url.push_str(path);
                push_param(&mut out, instance.instance_id.as_str(), url.as_str());
            },
            None => {},
        }
        i = i + 1;
    }
    assert(all.take(i as int) =~= all);
    out
}

/// Whether two lists of endpoints are the same.
pub fn same_endpoints(a: &Vec<(String, String)>, b: &Vec<(String, String)>) -> (same: bool)
    ensures
        same == (asg::pairs(a@) == asg::pairs(b@)),
{
    if a.len() != b.len() {
        assert(asg::pairs(a@).len() != asg::pairs(b@).len());
        return false;
    }
    let mut i: usize = 0;
    while i < a.len()
        invariant
            i <= a@.len(),
            a@.len() == b@.len(),
            forall|k: int| 0 <= k < i ==> (#[trigger] asg::pairs(a@)[k]) == asg::pairs(b@)[k],
        decreases a@.len() - i,
    {
        let same: bool = text::str_eq(a[i].0.as_str(), b[i].0.as_str()) && text::str_eq(
            a[i].1.as_str(),
            b[i].1.as_str(),
        );
        assert(asg::pairs(a@)[i as int] == (a@[i as int].0@, a@[i as int].1@));
        assert(asg::pairs(b@)[i as int] == (b@[i as int].0@, b@[i as int].1@));
        if !same {
            return false;
        }
        i = i + 1;
    }
    assert(asg::pairs(a@) =~= asg::pairs(b@));
    true
}

/// The fields of the request for the instances of a service.
pub open spec fn discover_fields(namespace: Seq<char>, service: Seq<char>) -> Map<
    Seq<char>,
    FieldView,
> {
    json::no_fields().insert("NamespaceName"@, FieldView::Text(namespace)).insert(
        "ServiceName"@,
        FieldView::Text(service),
    )
}

/// The body of the request for the instances of a service.
pub fn discover_body(namespace: &str, service: &str) -> (s: String)
    ensures
        s@ == json::object_text(discover_fields(namespace@, service@)),
{
    let mut o = json::new_object();
    json::put_text(&mut o, "NamespaceName", namespace);
    json::put_text(&mut o, "ServiceName", service);
    json::write_object(&o)
}

/// The body of the request for all instances of a service, by the id of the
/// service.
pub fn list_body(service_id: &str) -> (s: String)
    ensures
        s@ == json::object_text(
            json::no_fields().insert("ServiceId"@, FieldView::Text(service_id@)),
        ),
{
    let mut o = json::new_object();
    json::put_text(&mut o, "ServiceId", service_id);
    json::write_object(&o)
}

// ── Credentials ───────────────────────────────────────────────────────────

/// Credentials of a task role.
#[derive(Debug)]
pub struct AwsCreds {
    pub role_arn: String,
    pub access_key_id: String,
    pub secret_access_key: String,
    pub token: String,
    /// When they expire, in the form of RFC 3339; empty where there are none.
    pub expiration: String,
}

/// The point in time that a text in the form of RFC 3339 names: seconds since
/// 1970 and nanoseconds after that; `None` where the text has another form.
pub uninterp spec fn rfc3339_time(s: Seq<char>) -> Option<(i64, u32)>;

/// `chrono::DateTime::parse_from_rfc3339`. The result is named; it depends on
/// the text alone.
#[verifier::external_body]
fn parse_rfc3339(s: &str) -> (r: Option<(i64, u32)>)
    ensures
        r == rfc3339_time(s@),
{
    let t = chrono::DateTime::parse_from_rfc3339(s).ok()?;
    Some((t.timestamp(), t.timestamp_subsec_nanos()))
}

/// When credentials expire.
#[derive(Debug, Clone, Copy, PartialEq, Eq, Structural)]
pub enum Expiry {
    /// There are no credentials.
    Unset,
    /// The text cannot be read.
    Unreadable,
    At { secs: i64, nanos: u32 },
}

impl AwsCreds {
    /// No credentials.
    pub fn none() -> (c: AwsCreds)
        ensures
            c.role_arn@ == ""@,
            c.access_key_id@ == ""@,
            c.secret_access_key@ == ""@,
            c.token@ == ""@,
            c.expiration@ == ""@,
    {
        AwsCreds {
            role_arn: text::copy_str(""),
            access_key_id: text::copy_str(""),
            secret_access_key: text::copy_str(""),
            token: text::copy_str(""),
            expiration: text::copy_str(""),
        }
    }

    /// When the credentials expire.
    pub fn expiry(&self) -> (e: Expiry)
        ensures
            e == (if self.expiration@.len() == 0 {
                Expiry::Unset
            } else {
                match rfc3339_time(self.expiration@) {
                    Some(t) => Expiry::At { secs: t.0, nanos: t.1 },
                    None => Expiry::Unreadable,
                }
            }),
    {
        if text::chars_of(self.expiration.as_str()).len() == 0 {
            return Expiry::Unset;
        }
        match parse_rfc3339(self.expiration.as_str()) {
            Some(t) => Expiry::At { secs: t.0, nanos: t.1 },
            None => Expiry::Unreadable,
        }
    }
}

/// How long credentials must still be valid to be used again, in seconds.
pub const MIN_VALIDITY_SECS: i64 = 900;

/// Nanoseconds since 1970.
pub open spec fn nanoseconds(secs: i64, nanos: u32) -> int {
    secs * 1_000_000_000 + nanos
}

/// Whether credentials that expire then can be used again at a time: they must
/// be valid for at least 15 more minutes.
pub fn is_fresh(expiry: Expiry, now_secs: i64, now_nanos: u32) -> (yes: bool)
    ensures
        yes == (match expiry {
            Expiry::At { secs, nanos } => nanoseconds(secs, nanos) - nanoseconds(
                now_secs,
                now_nanos,
            ) >= MIN_VALIDITY_SECS * 1_000_000_000,
            _ => false,
        }),
{
    match expiry {
        Expiry::At { secs, nanos } => {
            let end: i128 = secs as i128 * 1_000_000_000 + nanos as i128;
            let now: i128 = now_secs as i128 * 1_000_000_000 + now_nanos as i128;
            end - now >= 900_000_000_000
        },
        _ => false,
    }
}

/// The variables that credentials come from; `None` where one is not set.
#[derive(Debug)]
pub struct CredentialVariables {
    /// `AWS_SESSION_TOKEN`
    pub session_token: Option<String>,
    /// `AWS_ACCESS_KEY_ID`
    pub access_key_id: Option<String>,
    /// `AWS_SECRET_ACCESS_KEY`
    pub secret_access_key: Option<String>,
    /// `AWS_TOKEN_EXPIRATION`
    pub token_expiration: Option<String>,
    /// `AWS_CONTAINER_CREDENTIALS_FULL_URI`
    pub full_uri: Option<String>,
    /// `AWS_CONTAINER_CREDENTIALS_RELATIVE_URI`
    pub relative_uri: Option<String>,
}

/// Where credentials come from.
#[derive(Debug)]
pub enum CredentialSource {
    /// The variables hold them.
    Given(AwsCreds),
    /// They are to be fetched from there.
    Fetch { url: String },
    /// A variable that is needed is not set.
    Missing { variable: String },
    /// Nothing says where they are.
    Nowhere,
}

/// Where credentials come from: the variables themselves where there is a
/// session token, otherwise the address in the variables, of which the full one
/// goes first.
pub fn credential_source(v: &CredentialVariables) -> (s: CredentialSource)
    ensures
        match v.session_token {
            Some(token) => if v.access_key_id is None {
                s matches CredentialSource::Missing { variable } && variable@
                    == "AWS_ACCESS_KEY_ID"@
            } else if v.secret_access_key is None {
                s matches CredentialSource::Missing { variable } && variable@
                    == "AWS_SECRET_ACCESS_KEY"@
            } else if v.token_expiration is None {
                s matches CredentialSource::Missing { variable } && variable@
                    == "AWS_TOKEN_EXPIRATION"@
            } else {
                s matches CredentialSource::Given(c) && c.role_arn@ == "unused"@ && c.token@
                    == token@ && c.access_key_id@ == (v.access_key_id->0)@ && c.secret_access_key@
                    == (v.secret_access_key->0)@ && c.expiration@ == (v.token_expiration->0)@
            },
            None => match (v.full_uri, v.relative_uri) {
                (Some(u), _) => s matches CredentialSource::Fetch { url } && url@ == u@,
                (None, Some(u)) => s matches CredentialSource::Fetch { url } && url@
                    == "http://169.254.170.2"@ + u@,
                (None, None) => s is Nowhere,
            },
        },
{
    match &v.session_token {
        Some(token) => {
            let access = match &v.access_key_id {
                Some(s) => text::copy_str(s.as_str()),
                None => {
                    return CredentialSource::Missing {
                        variable: text::copy_str("AWS_ACCESS_KEY_ID"),
                    };
                },
            };
            let secret = match &v.secret_access_key {
                Some(s) => text::copy_str(s.as_str()),
                None => {
                    return CredentialSource::Missing {
                        variable: text::copy_str("AWS_SECRET_ACCESS_KEY"),
                    };
                },
            };
            let expiration = match &v.token_expiration {
                Some(s) => text::copy_str(s.as_str()),
                None => {
                    return CredentialSource::Missing {
                        variable: text::copy_str("AWS_TOKEN_EXPIRATION"),
                    };
                },
            };
            CredentialSource::Given(
                AwsCreds {
                    role_arn: text::copy_str("unused"),
                    access_key_id: access,
                    secret_access_key: secret,
                    token: text::copy_str(token.as_str()),
                    expiration,
                },
            )
        },
        None => match &v.full_uri {
            Some(u) => CredentialSource::Fetch { url: text::copy_str(u.as_str()) },
            None => match &v.relative_uri {
                Some(u) => {
                    let mut url = text::copy_str("http://169.254.170.2");
                    url.push_str(u.as_str());
                    CredentialSource::Fetch { url }
                },
                None => CredentialSource::Nowhere,
            },
        },
    }
}

// ── Recording ─────────────────────────────────────────────────────────────

/// What is recorded of a sample. Numbers are carried as their bit patterns.
#[derive(Debug)]
pub enum RecordValue {
    /// A counter, set to this value without its fraction.
    Counter(u64),
    /// A gauge, set to this value.
    Gauge(u64),
    /// A gauge, set to the sum of these values.
    GaugeSum(Vec<u64>),
    /// A gauge, set to 0.
    Zero,
}

/// One value to record.
#[derive(Debug)]
pub struct Recording {
    pub metric: String,
    /// The labels of the sample, and the task that it comes from.
    pub labels: Vec<(String, String)>,
    pub value: RecordValue,
}

/// Whether a value is recorded for a parsed one: counters stay counters, gauges
/// and untyped values become gauges, of a histogram the counts are added up, and
/// a summary counts as 0.
pub open spec fn stands_for(r: RecordValue, v: ParsedValue) -> bool {
    match v {
        ParsedValue::Counter(b) => r == RecordValue::Counter(b),
        ParsedValue::Gauge(b) => r == RecordValue::Gauge(b),
        ParsedValue::Untyped(b) => r == RecordValue::Gauge(b),
        ParsedValue::Histogram(counts) => r == RecordValue::GaugeSum(counts),
        ParsedValue::Summary => r is Zero,
    }
}

/// Whether these are the recordings of parsed samples of a task.
pub open spec fn are_recordings(out: Seq<Recording>, parsed: Seq<ParsedSample>, id: Seq<char>) -> bool {
    &&& out.len() == parsed.len()
    &&& forall|i: int|
        0 <= i < out.len() ==> {
            &&& (#[trigger] out[i]).metric == parsed[i].metric
            &&& asg::pairs(out[i].labels@) == asg::pairs(parsed[i].labels@).push(("TaskId"@, id))
            &&& stands_for(out[i].value, parsed[i].value)
        }
}

/// What is recorded of the parsed samples of a task.
pub fn recordings(parsed: Vec<ParsedSample>, id: &str) -> (out: Vec<Recording>)
    ensures
        are_recordings(out@, parsed@, id@),
{
    let ghost all = parsed@;
    let mut out: Vec<Recording> = Vec::new();
    for s in it: parsed
        invariant
            it.seq() == all,
            out@.len() == it.index(),
            forall|i: int|
                0 <= i < out@.len() ==> {
                    &&& (#[trigger] out@[i]).metric == all[i].metric
                    &&& asg::pairs(out@[i].labels@) == asg::pairs(all[i].labels@).push(
                        ("TaskId"@, id@),
                    )
                    &&& stands_for(out@[i].value, all[i].value)
                },
    {
        let mut labels = s.labels;
        push_param(&mut labels, "TaskId", id);
        let value: RecordValue = match s.value {
            ParsedValue::Counter(b) => RecordValue::Counter(b),
            ParsedValue::Gauge(b) => RecordValue::Gauge(b),
            ParsedValue::Untyped(b) => RecordValue::Gauge(b),
            ParsedValue::Histogram(counts) => RecordValue::GaugeSum(counts),
            ParsedValue::Summary => RecordValue::Zero,
        };
        out.push(Recording { metric: s.metric, labels, value });
    }
    out
}

/// Whether these are the samples of a text in the Prometheus format: its scalars
/// in their order, and its histograms and summaries in any order and place.
pub open spec fn are_samples_of(parsed: Seq<ParsedSample>, body: Seq<char>) -> bool {
    let views = metrics::parsed_views(parsed);
    &&& metrics::scalars(views) == metrics::prometheus_scrape(body).0
    &&& metrics::others(views).to_multiset() == metrics::prometheus_scrape(body).1
}

/// What is recorded of the metrics of a task, given their text: one value for
/// each sample.
pub fn scrape_and_record(id: &str, body: &str) -> (out: Vec<Recording>)
    ensures
        exists|parsed: Seq<ParsedSample>|
            are_samples_of(parsed, body@) && #[trigger] are_recordings(out@, parsed, id@),
{
    let (parsed, _docs) = parse_samples(body);
    recordings(parsed, id)
}

proof fn lemma_attribute_is_first(v: Seq<(Seq<char>, Seq<char>)>, name: Seq<char>, i: int)
    requires
        0 <= i <= v.len(),
    ensures
        match attribute(v, name, i) {
            Some(x) => exists|k: int|
                i <= k < v.len() && (#[trigger] v[k]).0 == name && v[k].1 == x && forall|j: int|
                    i <= j < k ==> (#[trigger] v[j]).0 != name,
            None => forall|j: int| i <= j < v.len() ==> (#[trigger] v[j]).0 != name,
        },
    decreases v.len() - i,
{
    if i < v.len() {
        if v[i].0 == name {
            assert(v[i].1 == v[i].1);
        } else {
            lemma_attribute_is_first(v, name, i + 1);
            match attribute(v, name, i) {
                Some(x) => {
                    let k = choose|k: int|
                        i + 1 <= k < v.len() && (#[trigger] v[k]).0 == name && v[k].1 == x
                            && forall|j: int| i + 1 <= j < k ==> (#[trigger] v[j]).0 != name;
                    assert(v[k].0 == name);
                },
                None => {},
            }
        }
    }
}

/// The value of an attribute is that of the first pair with its name, and there is
/// none only where no pair has it.
pub proof fn law_attribute_is_first(v: Seq<(Seq<char>, Seq<char>)>, name: Seq<char>)
    ensures
        match attribute(v, name, 0) {
            Some(x) => exists|k: int|
                0 <= k < v.len() && (#[trigger] v[k]).0 == name && v[k].1 == x && forall|j: int|
                    0 <= j < k ==> (#[trigger] v[j]).0 != name,
            None => forall|j: int| 0 <= j < v.len() ==> (#[trigger] v[j]).0 != name,
        },
{
    lemma_attribute_is_first(v, name, 0);
}

/// The endpoints of two lists of instances follow each other. An instance with an
/// address has one endpoint there, under its own id; one without has none.
pub proof fn law_endpoints_by_instance(
    a: Seq<Instance>,
    b: Seq<Instance>,
    x: Instance,
    path: Seq<char>,
    k: int,
)
    ensures
        endpoints(a + b, path) == endpoints(a, path) + endpoints(b, path),
        ({
            let v = asg::pairs(x.attributes@);
            let first = 0 <= k < v.len() && v[k].0 == "AWS_INSTANCE_IPV4"@ && forall|j: int|
                0 <= j < k ==> (#[trigger] v[j]).0 != "AWS_INSTANCE_IPV4"@;
            let none = forall|j: int|
                0 <= j < v.len() ==> (#[trigger] v[j]).0 != "AWS_INSTANCE_IPV4"@;
            &&& first ==> endpoints(seq![x], path) == seq![
                (x.instance_id@, "http://"@ + v[k].1 + ":9090"@ + path),
            ]
            &&& none ==> endpoints(seq![x], path).len() == 0
        }),
    decreases b.len(),
{
    reveal_with_fuel(endpoints, 2);
    assert(seq![x].drop_last() =~= Seq::<Instance>::empty());
    let v = asg::pairs(x.attributes@);
    law_attribute_is_first(v, "AWS_INSTANCE_IPV4"@);
    if b.len() == 0 {
        assert(a + b =~= a);
        assert(endpoints(a, path) + endpoints(b, path) =~= endpoints(a, path));
    } else {
        law_endpoints_by_instance(a, b.drop_last(), x, path, k);
        assert((a + b).drop_last() =~= a + b.drop_last());
        assert(endpoints(a + b, path) =~= endpoints(a, path) + endpoints(b, path));
    }
}

/// Each sample is recorded once, in order, under its name with its labels and the
/// task behind them: a counter as a counter, a gauge and an untyped value as a gauge,
/// a histogram as the sum of its counts and a summary as 0.
pub proof fn law_samples_are_recorded(
    out: Seq<Recording>,
    parsed: Seq<ParsedSample>,
    id: Seq<char>,
    i: int,
)
    requires
        are_recordings(out, parsed, id),
        0 <= i < parsed.len(),
    ensures
        out.len() == parsed.len(),
        out[i].metric@ == parsed[i].metric@,
        out[i].labels@.len() == parsed[i].labels@.len() + 1,
        asg::pairs(out[i].labels@).last() == ("TaskId"@, id),
        forall|k: int|
            0 <= k < parsed[i].labels@.len() ==> #[trigger] asg::pairs(out[i].labels@)[k]
                == asg::pairs(parsed[i].labels@)[k],
        match parsed[i].value {
            ParsedValue::Counter(b) => out[i].value == RecordValue::Counter(b),
            ParsedValue::Gauge(b) => out[i].value == RecordValue::Gauge(b),
            ParsedValue::Untyped(b) => out[i].value == RecordValue::Gauge(b),
            ParsedValue::Histogram(counts) => out[i].value == RecordValue::GaugeSum(counts),
            ParsedValue::Summary => out[i].value is Zero,
        },
{
    let a = asg::pairs(out[i].labels@);
    let b = asg::pairs(parsed[i].labels@);
    assert(out[i].metric == parsed[i].metric);
    assert(a == b.push(("TaskId"@, id)));
    assert(a.len() == out[i].labels@.len() && b.len() == parsed[i].labels@.len());
}

} // verus!
