//! Metrics of the backends: what is scraped, what is checked against IPVS and
//! what is pushed to CloudWatch.
//!
//! The value of a sample is a floating-point number; it is carried as its bit
//! pattern.

use prometheus_parse::{Sample, Scrape, Value};

use vstd::multiset::Multiset;
use vstd::prelude::*;

use crate::infra::asg;
use crate::infra::ipv4;
use crate::infra::ipv4::Ipv4;
use crate::order;
use crate::scale::snapshot;
use crate::scale::snapshot::{BackendStatus, BackendView};
use crate::text;

verus! {

/// The kind of a metric.
#[derive(Debug, Clone, Copy, PartialEq, Eq, Structural)]
pub enum SampleKind {
    Counter,
    Gauge,
    Untyped,
}

/// The name of a kind.
pub open spec fn kind_name(k: SampleKind) -> Seq<char> {
    match k {
        SampleKind::Counter => "counter"@,
        SampleKind::Gauge => "gauge"@,
        SampleKind::Untyped => "untyped"@,
    }
}

impl SampleKind {
    /// The name of this kind, as in a `# TYPE` line.
    pub fn as_str(self) -> (s: &'static str)
        ensures
            s@ == kind_name(self),
    {
        match self {
            SampleKind::Counter => "counter",
            SampleKind::Gauge => "gauge",
            SampleKind::Untyped => "untyped",
        }
    }
}

/// One scalar data point of a backend.
#[derive(Debug)]
pub struct RawSample {
    pub metric: String,
    /// The bits of the value.
    pub value: u64,
    pub kind: SampleKind,
    /// The labels in no particular order.
    pub labels: Vec<(String, String)>,
}

/// A data point with its texts and labels.
pub struct SampleView {
    pub metric: Seq<char>,
    pub value: u64,
    pub kind: SampleKind,
    pub labels: Map<Seq<char>, Seq<char>>,
}

/// The map that a list of pairs stands for.
pub open spec fn pair_map(v: Seq<(String, String)>) -> Map<Seq<char>, Seq<char>>
    decreases v.len(),
{
    if v.len() == 0 {
        Map::empty()
    } else {
        pair_map(v.drop_last()).insert(v.last().0@, v.last().1@)
    }
}

impl View for RawSample {
    type V = SampleView;

    open spec fn view(&self) -> SampleView {
        SampleView {
            metric: self.metric@,
            value: self.value,
            kind: self.kind,
            labels: pair_map(self.labels@),
        }
    }
}

/// The views of a list of samples.
pub open spec fn sample_views(v: Seq<RawSample>) -> Seq<SampleView> {
    Seq::new(v.len(), |i: int| v[i]@)
}

// ── Reading the text format ───────────────────────────────────────────────

/// A value as the text format has it.
#[derive(Debug)]
pub enum ParsedValue {
    Counter(u64),
    Gauge(u64),
    Untyped(u64),
    /// The bits of the counts of the buckets.
    Histogram(Vec<u64>),
    Summary,
}

/// A sample as the text format has it.
#[derive(Debug)]
pub struct ParsedSample {
    pub metric: String,
    pub value: ParsedValue,
    pub labels: Vec<(String, String)>,
}

/// A value with the bits of its counts.
pub enum ValueView {
    Counter(u64),
    Gauge(u64),
    Untyped(u64),
    Histogram(Seq<u64>),
    Summary,
}

impl View for ParsedValue {
    type V = ValueView;

    open spec fn view(&self) -> ValueView {
        match *self {
            ParsedValue::Counter(v) => ValueView::Counter(v),
            ParsedValue::Gauge(v) => ValueView::Gauge(v),
            ParsedValue::Untyped(v) => ValueView::Untyped(v),
            ParsedValue::Histogram(c) => ValueView::Histogram(c@),
            ParsedValue::Summary => ValueView::Summary,
        }
    }
}

/// A sample with its texts and labels.
pub struct ParsedView {
    pub metric: Seq<char>,
    pub value: ValueView,
    pub labels: Map<Seq<char>, Seq<char>>,
}

impl View for ParsedSample {
    type V = ParsedView;

    open spec fn view(&self) -> ParsedView {
        ParsedView { metric: self.metric@, value: self.value@, labels: pair_map(self.labels@) }
    }
}

/// The views of a list of parsed samples.
pub open spec fn parsed_views(v: Seq<ParsedSample>) -> Seq<ParsedView> {
    Seq::new(v.len(), |i: int| v[i]@)
}

/// The scalar that a parsed sample is; `None` for histograms and summaries.
pub open spec fn scalar_view(s: ParsedView) -> Option<SampleView> {
    match s.value {
        ValueView::Counter(value) => Some(
            SampleView { metric: s.metric, value, kind: SampleKind::Counter, labels: s.labels },
        ),
        ValueView::Gauge(value) => Some(
            SampleView { metric: s.metric, value, kind: SampleKind::Gauge, labels: s.labels },
        ),
        ValueView::Untyped(value) => Some(
            SampleView { metric: s.metric, value, kind: SampleKind::Untyped, labels: s.labels },
        ),
        ValueView::Histogram(_) => None,
        ValueView::Summary => None,
    }
}

/// The scalars of a list of parsed samples.
pub open spec fn scalars(v: Seq<ParsedView>) -> Seq<SampleView>
    decreases v.len(),
{
    if v.len() == 0 {
        Seq::empty()
    } else {
        let rest = scalars(v.drop_last());
        match scalar_view(v.last()) {
            Some(s) => rest.push(s),
            None => rest,
        }
    }
}

/// The histograms and summaries of a list of parsed samples.
pub open spec fn others(v: Seq<ParsedView>) -> Seq<ParsedView>
    decreases v.len(),
{
    if v.len() == 0 {
        Seq::empty()
    } else {
        let rest = others(v.drop_last());
        match scalar_view(v.last()) {
            Some(_) => rest,
            None => rest.push(v.last()),
        }
    }
}

/// A sample of `prometheus_parse`.
#[verifier::external_type_specification]
#[verifier::external_body]
pub struct ExSample(prometheus_parse::Sample);

/// What a sample of `prometheus_parse` holds.
pub uninterp spec fn sample_contents(s: prometheus_parse::Sample) -> ParsedView;

/// What a list of samples of `prometheus_parse` holds.
pub open spec fn contents(v: Seq<prometheus_parse::Sample>) -> Seq<ParsedView> {
    Seq::new(v.len(), |i: int| sample_contents(v[i]))
}

/// The scalar samples of a text in the Prometheus format, in its order, its
/// histograms and summaries, and its help texts by metric.
pub uninterp spec fn prometheus_scrape(body: Seq<char>) -> (
    Seq<SampleView>,
    Multiset<ParsedView>,
    Map<Seq<char>, Seq<char>>,
);

/// `prometheus_parse::Scrape::parse`: the samples and help texts of a body.
///
/// The scalar samples in their order, the histograms and summaries, and the help
/// texts depend on the body alone. Where the histograms and summaries stand among
/// the samples, and in which order they and the help texts are listed, is left
/// open. Reading lines that are in memory cannot fail.
#[verifier::external_body]
fn scrape_text(body: &str) -> (r: (Vec<Sample>, Vec<(String, String)>))
    ensures
        scalars(contents(r.0@)) == prometheus_scrape(body@).0,
        others(contents(r.0@)).to_multiset() == prometheus_scrape(body@).1,
        pair_map(r.1@) == prometheus_scrape(body@).2,
{
    let scrape = Scrape::parse(body.lines().map(|s| Ok(s.to_owned()))).expect("lines are in memory");
    (scrape.samples, scrape.docs.into_iter().collect())
}

/// The field `metric` of a `prometheus_parse::Sample`.
#[verifier::external_body]
fn metric_of(s: &Sample) -> (metric: String)
    ensures
        metric@ == sample_contents(*s).metric,
{
    s.metric.clone()
}

/// The field `value` of a `prometheus_parse::Sample`, with numbers as their
/// bits.
#[verifier::external_body]
fn value_of(s: &Sample) -> (value: ParsedValue)
    ensures
        value@ == sample_contents(*s).value,
{
    match &s.value {
        Value::Counter(v) => ParsedValue::Counter(v.to_bits()),
        Value::Gauge(v) => ParsedValue::Gauge(v.to_bits()),
        Value::Untyped(v) => ParsedValue::Untyped(v.to_bits()),
        Value::Histogram(h) => ParsedValue::Histogram(h.iter().map(|b| b.count.to_bits()).collect()),
        Value::Summary(_) => ParsedValue::Summary,
    }
}

/// The field `labels` of a `prometheus_parse::Sample`. The order of the labels is
/// left open.
#[verifier::external_body]
fn labels_of(s: &Sample) -> (labels: Vec<(String, String)>)
    ensures
        pair_map(labels@) == sample_contents(*s).labels,
{
    s.labels.iter().map(|(k, v)| (k.clone(), v.clone())).collect()
}

/// The samples and the help texts in a text in the Prometheus format.
///
/// The scalar samples come in the order of the text. Where histograms and
/// summaries stand among them, and in which order they come, is left open, as is
/// the order of labels and of help texts.
pub fn parse_samples(body: &str) -> (r: (Vec<ParsedSample>, Vec<(String, String)>))
    ensures
        scalars(parsed_views(r.0@)) == prometheus_scrape(body@).0,
        others(parsed_views(r.0@)).to_multiset() == prometheus_scrape(body@).1,
        pair_map(r.1@) == prometheus_scrape(body@).2,
{
    let (samples, docs) = scrape_text(body);
    let mut parsed: Vec<ParsedSample> = Vec::new();
    let mut i: usize = 0;
    while i < samples.len()
        invariant
            i <= samples@.len(),
            parsed@.len() == i,
            forall|k: int|
                0 <= k < i ==> (#[trigger] parsed@[k])@ == sample_contents(samples@[k]),
        decreases samples@.len() - i,
    {
        let s = &samples[i];
        let p = ParsedSample { metric: metric_of(s), value: value_of(s), labels: labels_of(s) };
        assert(p@ == sample_contents(*s));
        parsed.push(p);
        i = i + 1;
    }
    assert(parsed_views(parsed@) =~= contents(samples@));
    (parsed, docs)
}

/// The scalar samples among the parsed ones: histograms and summaries are
/// passed over.
pub fn keep_scalars(parsed: Vec<ParsedSample>) -> (out: Vec<RawSample>)
    ensures
        sample_views(out@) == scalars(parsed_views(parsed@)),
{
    let ghost list = parsed@;
    let ghost all = parsed_views(list);
    let mut out: Vec<RawSample> = Vec::new();
    assert(all.take(0) =~= Seq::<ParsedView>::empty());
    assert(sample_views(out@) =~= scalars(all.take(0)));
    for s in it: parsed
        invariant
            it.seq() == list,
            all == parsed_views(list),
            sample_views(out@) == scalars(all.take(it.index())),
    {
        let ghost was = out@;
        proof {
            let i = it.index();
            assert(all.take(i + 1).last() == s@);
            assert(all.take(i + 1).drop_last() =~= all.take(i));
        }
        let scalar: Option<(u64, SampleKind)> = match s.value {
            ParsedValue::Counter(v) => Some((v, SampleKind::Counter)),
            ParsedValue::Gauge(v) => Some((v, SampleKind::Gauge)),
            ParsedValue::Untyped(v) => Some((v, SampleKind::Untyped)),
            ParsedValue::Histogram(_) => None,
            ParsedValue::Summary => None,
        };
        match scalar {
            Some((value, kind)) => {
                let r = RawSample { metric: s.metric, value, kind, labels: s.labels };
                out.push(r);
                assert(sample_views(out@) =~= sample_views(was).push(r@));
            },
            None => {},
        }
    }
    assert(all.take(all.len() as int) =~= all);
    out
}

/// The scalar samples and the help texts in the text of a `/metrics` endpoint.
pub fn parse_text(body: &str) -> (r: (Vec<RawSample>, Vec<(String, String)>))
    ensures
        sample_views(r.0@) == prometheus_scrape(body@).0,
        pair_map(r.1@) == prometheus_scrape(body@).2,
{
    let (parsed, docs) = parse_samples(body);
    (keep_scalars(parsed), docs)
}

/// The address of a backend's metrics.
pub fn scrape_url(ip: Ipv4, port: u16) -> (url: String)
    ensures
        url@ == "http://"@ + ipv4::dotted(ip) + ":"@ + text::decimal(port as nat) + "/metrics"@,
{
    let mut url = text::copy_str("http://");
    url.push_str(ip.to_text().as_str());
    url.push_str(":");
    url.push_str(text::decimal_of(port as u64).as_str());
    url.push_str("/metrics");
    url
}

/// The value of the first sample of a metric without labels.
pub open spec fn plain_value(list: Seq<SampleView>, metric: Seq<char>) -> Option<u64>
    decreases list.len(),
{
    if list.len() == 0 {
        None
    } else if list[0].metric == metric && list[0].labels == Map::<Seq<char>, Seq<char>>::empty() {
        Some(list[0].value)
    } else {
        plain_value(list.skip(1), metric)
    }
}

proof fn lemma_pair_map_empty(v: Seq<(String, String)>)
    ensures
        v.len() == 0 <==> pair_map(v) == Map::<Seq<char>, Seq<char>>::empty(),
{
    if v.len() > 0 {
        assert(pair_map(v).contains_key(v.last().0@));
    }
}

/// The value of the first sample of a metric without labels.
pub fn find_plain(samples: &Vec<RawSample>, metric: &str) -> (value: Option<u64>)
    ensures
        value == plain_value(sample_views(samples@), metric@),
{
    let ghost all = sample_views(samples@);
    let mut i: usize = 0;
    assert(all.skip(0) =~= all);
    while i < samples.len()
        invariant
            i <= samples@.len(),
            all == sample_views(samples@),
            plain_value(all, metric@) == plain_value(all.skip(i as int), metric@),
        decreases samples@.len() - i,
    {
        proof {
            assert(all.skip(i as int)[0] == samples@[i as int]@);
            lemma_pair_map_empty(samples@[i as int].labels@);
            assert(all.skip(i as int).skip(1) =~= all.skip(i + 1));
        }
        if text::str_eq(samples[i].metric.as_str(), metric) && samples[i].labels.len() == 0 {
            return Some(samples[i].value);
        }
        i = i + 1;
    }
    None
}

/// A value that may be absent; 0 then, which also stands for the number 0.
pub open spec fn or_zero(value: Option<u64>) -> u64 {
    match value {
        Some(v) => v,
        None => 0,
    }
}

/// The active and the cumulative sessions that a backend reports, each as its
/// bits; 0 where a count is not reported.
pub fn session_counts(samples: &Vec<RawSample>) -> (r: (u64, u64))
    ensures
        r.0 == or_zero(plain_value(sample_views(samples@), "ftp_sessions_total"@)),
        r.1 == or_zero(plain_value(sample_views(samples@), "ftp_sessions_count"@)),
{
    let active: u64 = match find_plain(samples, "ftp_sessions_total") {
        Some(v) => v,
        None => 0,
    };
    let cumulative: u64 = match find_plain(samples, "ftp_sessions_count") {
        Some(v) => v,
        None => 0,
    };
    (active, cumulative)
}

// ── What is scraped ───────────────────────────────────────────────────────

/// A backend that is scraped.
#[derive(Debug, Clone, Copy, PartialEq, Eq, Structural)]
pub struct ScrapeTarget {
    pub slot: u32,
    pub ip: Ipv4,
    /// Active connections that IPVS reports, 0 where it does not know the
    /// backend.
    pub ipvs_active: u32,
}

/// Whether a backend is scraped: it has a slot and a lease that has not run
/// out at `now`.
pub open spec fn scrapes(b: BackendView, now: u64) -> bool {
    b.lease is Some && b.lease->0.expires_ms > now && b.slot is Some
}

/// The backends that are scraped, in the order of the snapshot.
pub open spec fn targets(list: Seq<BackendView>, now: u64) -> Seq<ScrapeTarget>
    decreases list.len(),
{
    if list.len() == 0 {
        Seq::empty()
    } else {
        let rest = targets(list.drop_last(), now);
        let b = list.last();
        if scrapes(b, now) {
            rest.push(
                ScrapeTarget {
                    slot: b.slot->0,
                    ip: b.ip,
                    ipvs_active: match b.ipvs {
                        Some(v) => v.active_connections,
                        None => 0,
                    },
                },
            )
        } else {
            rest
        }
    }
}

/// The backends that are scraped.
pub fn scrape_targets(backends: &Vec<BackendStatus>, now: u64) -> (out: Vec<ScrapeTarget>)
    ensures
        out@ == targets(snapshot::backend_views(backends@), now),
{
    let ghost all = snapshot::backend_views(backends@);
    let mut out: Vec<ScrapeTarget> = Vec::new();
    let mut i: usize = 0;
    assert(all.take(0) =~= Seq::<BackendView>::empty());
    assert(out@ =~= targets(all.take(0), now));
    while i < backends.len()
        invariant
            i <= backends@.len(),
            all == snapshot::backend_views(backends@),
            out@ == targets(all.take(i as int), now),
        decreases backends@.len() - i,
    {
        let b = &backends[i];
        proof {
            assert(all.take(i + 1).last() == b@);
            assert(all.take(i + 1).drop_last() =~= all.take(i as int));
        }
        let live: bool = match &b.lease {
            Some(l) => !l.is_expired_at(now),
            None => false,
        };
        if live {
            match b.slot {
                Some(slot) => {
                    let ipvs_active: u32 = match b.ipvs {
                        Some(v) => v.active_connections,
                        None => 0,
                    };
                    out.push(ScrapeTarget { slot, ip: b.ip, ipvs_active });
                },
                None => {},
            }
        }
        i = i + 1;
    }
    assert(all.take(i as int) =~= all);
    out
}

/// The comparison of scraped sessions with IPVS.
#[derive(Debug, Clone, Copy, PartialEq, Eq, Structural)]
pub enum CrossCheck {
    /// The standby has no IPVS entries, and a failed scrape has no sessions.
    Skipped,
    /// The counts agree.
    Equal,
    /// They differ by `difference`, of which `larger` is the larger one.
    Differ { difference: u64, larger: u64 },
}

/// Compares the sessions of a backend with its IPVS connections: a session
/// holds two of them. Only the active load balancer compares.
pub fn cross_check(
    scraped_ok: bool,
    is_master: bool,
    ftp_sessions: u32,
    ipvs_active: u32,
) -> (c: CrossCheck)
    ensures
        c == (if !scraped_ok || !is_master {
            CrossCheck::Skipped
        } else if ftp_sessions * 2 == ipvs_active {
            CrossCheck::Equal
        } else if ftp_sessions * 2 > ipvs_active {
            CrossCheck::Differ {
                difference: (ftp_sessions * 2 - ipvs_active) as u64,
                larger: (ftp_sessions * 2) as u64,
            }
        } else {
            CrossCheck::Differ {
                difference: (ipvs_active - ftp_sessions * 2) as u64,
                larger: ipvs_active as u64,
            }
        }),
{
    if !scraped_ok || !is_master {
        return CrossCheck::Skipped;
    }
    let expected: u64 = ftp_sessions as u64 * 2;
    let active: u64 = ipvs_active as u64;
    if expected == active {
        CrossCheck::Equal
    } else if expected > active {
        CrossCheck::Differ { difference: expected - active, larger: expected }
    } else {
        CrossCheck::Differ { difference: active - expected, larger: active }
    }
}

/// Slots as sort keys.
pub open spec fn slot_keys(slots: Seq<u32>) -> Seq<u64> {
    Seq::new(slots.len(), |i: int| slots[i] as u64)
}

/// The order in which scrape results are shown: by slot, results of one slot
/// in the order in which they came.
pub fn result_order(slots: &Vec<u32>) -> (p: Vec<usize>)
    ensures
        order::is_stable_order(slot_keys(slots@), p@),
{
    let mut keys: Vec<u64> = Vec::new();
    let mut i: usize = 0;
    while i < slots.len()
        invariant
            i <= slots@.len(),
            keys@.len() == i,
            forall|k: int| 0 <= k < i ==> #[trigger] keys@[k] == slots@[k] as u64,
        decreases slots@.len() - i,
    {
        keys.push(slots[i] as u64);
        i = i + 1;
    }
    assert(keys@ =~= slot_keys(slots@));
    order::stable_order(&keys)
}

/// All scraped data of one backend at one point in time.
#[derive(Debug)]
pub struct BackendMetrics {
    pub slot: u32,
    pub ip: Ipv4,
    /// Samples without histograms and summaries.
    pub samples: Vec<RawSample>,
    /// Help texts by metric name.
    pub docs: Vec<(String, String)>,
    /// The failure of the scrape; `None` where it succeeded.
    pub error: Option<String>,
}

/// What the scrape hands to the server of the metrics.
#[derive(Debug)]
pub struct MetricsState {
    pub backends: Vec<BackendMetrics>,
}

/// What a scrape brings: samples and help texts, or a message of what failed.
pub type ScrapeAnswer = Result<(Vec<RawSample>, Vec<(String, String)>), String>;

/// Whether this is the result of the scrape of a backend: what was scraped, or
/// the failure and nothing else.
pub open spec fn is_result(m: BackendMetrics, target: ScrapeTarget, answer: ScrapeAnswer) -> bool {
    &&& m.slot == target.slot
    &&& m.ip == target.ip
    &&& match answer {
        Ok((samples, docs)) => m.samples == samples && m.docs == docs && m.error is None,
        Err(message) => m.samples@.len() == 0 && m.docs@.len() == 0 && m.error == Some(message),
    }
}

/// The slots of the backends that are scraped.
pub open spec fn target_slots(targets: Seq<ScrapeTarget>) -> Seq<u32> {
    Seq::new(targets.len(), |i: int| targets[i].slot)
}

/// Whether these are the results of all scrapes, read in the order `p`.
pub open spec fn are_results_in(
    out: Seq<BackendMetrics>,
    targets: Seq<ScrapeTarget>,
    answers: Seq<ScrapeAnswer>,
    p: Seq<usize>,
) -> bool {
    &&& out.len() == p.len()
    &&& forall|i: int|
        0 <= i < out.len() ==> is_result(
            #[trigger] out[i],
            targets[p[i] as int],
            answers[p[i] as int],
        )
}

/// Whether these are the results of all scrapes, one for each backend, by slot,
/// with results of one slot in the order of the backends.
pub open spec fn are_results(
    out: Seq<BackendMetrics>,
    targets: Seq<ScrapeTarget>,
    answers: Seq<ScrapeAnswer>,
) -> bool {
    exists|p: Seq<usize>|
        order::is_stable_order(slot_keys(target_slots(targets)), p) && #[trigger] are_results_in(
            out,
            targets,
            answers,
            p,
        )
}

/// The results of all scrapes in the order in which they are kept, and whether
/// they are pushed to CloudWatch, which only the active load balancer does.
///
/// A backend whose scrape failed stays in the list, with the failure.
pub fn scrape_results(
    targets: &Vec<ScrapeTarget>,
    answers: Vec<ScrapeAnswer>,
    is_master: bool,
) -> (r: (Vec<BackendMetrics>, bool))
    requires
        targets@.len() == answers@.len(),
    ensures
        are_results(r.0@, targets@, answers@),
        r.1 == is_master,
{
    let ghost list = answers@;
    let mut slots: Vec<u32> = Vec::new();
    let mut results: Vec<Option<BackendMetrics>> = Vec::new();
    for answer in it: answers
        invariant
            it.seq() == list,
            list.len() == targets@.len(),
            slots@ == target_slots(targets@).take(it.index()),
            results@.len() == it.index(),
            forall|k: int|
                0 <= k < results@.len() ==> (#[trigger] results@[k]) is Some && is_result(
                    results@[k]->0,
                    targets@[k],
                    list[k],
                ),
    {
        let t: ScrapeTarget = targets[results.len()];
        slots.push(t.slot);
        assert(slots@ =~= target_slots(targets@).take(it.index() + 1));
        let m = match answer {
            Ok((samples, docs)) => BackendMetrics {
                slot: t.slot,
                ip: t.ip,
                samples,
                docs,
                error: None,
            },
            Err(message) => BackendMetrics {
                slot: t.slot,
                ip: t.ip,
                samples: Vec::new(),
                docs: Vec::new(),
                error: Some(message),
            },
        };
        results.push(Some(m));
    }
    assert(slots@ =~= target_slots(targets@));
    let p = result_order(&slots);
    let mut out: Vec<BackendMetrics> = Vec::new();
    let ghost keys = slot_keys(slots@);
    let mut i: usize = 0;
    while i < p.len()
        invariant
            i <= p@.len(),
            i == out@.len(),
            order::is_stable_order(keys, p@),
            keys.len() == results@.len(),
            forall|k: int|
                0 <= k < out@.len() ==> is_result(
                    #[trigger] out@[k],
                    targets@[p@[k] as int],
                    list[p@[k] as int],
                ),
            forall|k: int|
                i <= k < p@.len() ==> results@[#[trigger] p@[k] as int] is Some && is_result(
                    results@[p@[k] as int]->0,
                    targets@[p@[k] as int],
                    list[p@[k] as int],
                ),
        decreases p@.len() - i,
    {
        let at: usize = p[i];
        let mut taken: Option<BackendMetrics> = None;
        std::mem::swap(&mut taken, &mut results[at]);
        proof {
            order::law_stable_order_is_permutation(keys, p@, at as int);
        }
        match taken {
            Some(m) => {
                out.push(m);
            },
            None => {},
        }
        i = i + 1;
    }
    assert(are_results_in(out@, targets@, list, p@));
    (out, is_master)
}

/// The session counts of the results of a scrape, given their texts, which are
/// floating-point numbers with four decimals.
pub fn slot_sessions(results: &Vec<BackendMetrics>, texts: Vec<(String, String)>) -> (out: Vec<
    SlotSessions,
>)
    requires
        results@.len() == texts@.len(),
    ensures
        out@.len() == results@.len(),
        forall|i: int|
            0 <= i < out@.len() ==> {
                &&& (#[trigger] out@[i]).slot == results@[i].slot
                &&& out@[i].scraped == (results@[i].error is None)
                &&& out@[i].active == texts@[i].0
                &&& out@[i].cumulative == texts@[i].1
            },
{
    let ghost list = texts@;
    let mut out: Vec<SlotSessions> = Vec::new();
    for pair in it: texts
        invariant
            it.seq() == list,
            list.len() == results@.len(),
            out@.len() == it.index(),
            forall|i: int|
                0 <= i < out@.len() ==> {
                    &&& (#[trigger] out@[i]).slot == results@[i].slot
                    &&& out@[i].scraped == (results@[i].error is None)
                    &&& out@[i].active == list[i].0
                    &&& out@[i].cumulative == list[i].1
                },
    {
        let m = &results[out.len()];
        let (active, cumulative) = pair;
        out.push(SlotSessions { slot: m.slot, scraped: m.error.is_none(), active, cumulative });
    }
    out
}

// ── CloudWatch ────────────────────────────────────────────────────────────

/// The session counts of a slot, each written with four decimals.
#[derive(Debug)]
pub struct SlotSessions {
    pub slot: u32,
    /// Whether the scrape succeeded.
    pub scraped: bool,
    pub active: String,
    pub cumulative: String,
}

/// The parameters of data point `n`.
pub open spec fn data_point(
    n: nat,
    name: Seq<char>,
    value: Seq<char>,
    unit: Seq<char>,
    slot: Seq<char>,
    timestamp: Seq<char>,
) -> Seq<(Seq<char>, Seq<char>)> {
    let p = "MetricData.member."@ + text::decimal(n);
    seq![
        (p + ".MetricName"@, name),
        (p + ".Value"@, value),
        (p + ".Unit"@, unit),
        (p + ".Timestamp"@, timestamp),
        (p + ".Dimensions.member.1.Name"@, "Slot"@),
        (p + ".Dimensions.member.1.Value"@, slot),
    ]
}

/// The parameters of the first `k` slots: two data points each, numbered from
/// one.
pub open spec fn data_points(list: Seq<SlotSessions>, timestamp: Seq<char>, k: nat) -> Seq<
    (Seq<char>, Seq<char>),
>
    decreases k,
{
    if k == 0 {
        Seq::empty()
    } else {
        let b = list[k - 1];
        let slot = text::decimal(b.slot as nat);
        data_points(list, timestamp, (k - 1) as nat) + data_point(
            (2 * k - 1) as nat,
            "ActiveSessions"@,
            b.active@,
            "Count"@,
            slot,
            timestamp,
        ) + data_point(
            2 * k,
            "CumulativeSessions"@,
            b.cumulative@,
            "Count"@,
            slot,
            timestamp,
        )
    }
}

fn push_numbered(
    params: &mut Vec<(String, String)>,
    prefix: &str,
    suffix: &str,
    value: &str,
)
    ensures
        asg::pairs(final(params)@) == asg::pairs(old(params)@).push((prefix@ + suffix@, value@)),
{
    let mut key = text::copy_str(prefix);
    key.push_str(suffix);
    asg::push_param(params, key.as_str(), value);
}

fn add_data_point(
    params: &mut Vec<(String, String)>,
    n: u64,
    name: &str,
    value: &str,
    unit: &str,
    slot: &str,
    timestamp: &str,
)
    ensures
        asg::pairs(final(params)@) == asg::pairs(old(params)@) + data_point(
            n as nat,
            name@,
            value@,
            unit@,
            slot@,
            timestamp@,
        ),
{
    let mut p = text::copy_str("MetricData.member.");
    p.push_str(text::decimal_of(n).as_str());
    push_numbered(params, p.as_str(), ".MetricName", name);
    push_numbered(params, p.as_str(), ".Value", value);
    push_numbered(params, p.as_str(), ".Unit", unit);
    push_numbered(params, p.as_str(), ".Timestamp", timestamp);
    push_numbered(params, p.as_str(), ".Dimensions.member.1.Name", "Slot");
    push_numbered(params, p.as_str(), ".Dimensions.member.1.Value", slot);
    assert(asg::pairs(params@) =~= asg::pairs(old(params)@) + data_point(
        n as nat,
        name@,
        value@,
        unit@,
        slot@,
        timestamp@,
    ));
}

/// The slots that were scraped successfully.
pub open spec fn scraped_ones(list: Seq<SlotSessions>) -> Seq<SlotSessions>
    decreases list.len(),
{
    if list.len() == 0 {
        Seq::empty()
    } else if list.last().scraped {
        scraped_ones(list.drop_last()).push(list.last())
    } else {
        scraped_ones(list.drop_last())
    }
}

/// A later slot does not change the data points of the slots before it.
proof fn lemma_data_points_of_prefix(
    list: Seq<SlotSessions>,
    last: SlotSessions,
    timestamp: Seq<char>,
    k: nat,
)
    requires
        k <= list.len(),
    ensures
        data_points(list.push(last), timestamp, k) == data_points(list, timestamp, k),
    decreases k,
{
    if k > 0 {
        lemma_data_points_of_prefix(list, last, timestamp, (k - 1) as nat);
        assert(list.push(last)[k - 1] == list[k - 1]);
    }
}

/// The parameters of a push of these slots.
pub open spec fn push_params_of(
    namespace: Seq<char>,
    timestamp: Seq<char>,
    list: Seq<SlotSessions>,
) -> Seq<(Seq<char>, Seq<char>)> {
    seq![
        ("Action"@, "PutMetricData"@),
        ("Version"@, "2010-08-01"@),
        ("Namespace"@, namespace),
    ] + data_points(list, timestamp, list.len())
}

/// The parameters that push the sessions of all slots that were scraped
/// successfully; `None` where there are none.
pub fn push(namespace: &str, timestamp: &str, list: &Vec<SlotSessions>) -> (r: Option<
    Vec<(String, String)>,
>)
    requires
        list@.len() <= u32::MAX,
    ensures
        match r {
            Some(params) => scraped_ones(list@).len() > 0 && asg::pairs(params@) == push_params_of(
                namespace@,
                timestamp@,
                scraped_ones(list@),
            ),
            None => scraped_ones(list@).len() == 0,
        },
{
    let mut params: Vec<(String, String)> = Vec::new();
    asg::push_param(&mut params, "Action", "PutMetricData");
    asg::push_param(&mut params, "Version", "2010-08-01");
    asg::push_param(&mut params, "Namespace", namespace);
    let ghost head = seq![
        ("Action"@, "PutMetricData"@),
        ("Version"@, "2010-08-01"@),
        ("Namespace"@, namespace@),
    ];
    assert(asg::pairs(params@) =~= head);
    let mut done: usize = 0;
    let mut i: usize = 0;
    assert(list@.take(0) =~= Seq::<SlotSessions>::empty());
    assert(asg::pairs(params@) =~= head + data_points(scraped_ones(list@.take(0)), timestamp@, 0));
    while i < list.len()
        invariant
            i <= list@.len() <= u32::MAX,
            done <= i,
            done == scraped_ones(list@.take(i as int)).len(),
            asg::pairs(params@) == head + data_points(
                scraped_ones(list@.take(i as int)),
                timestamp@,
                done as nat,
            ),
        decreases list@.len() - i,
    {
        let ghost front = scraped_ones(list@.take(i as int));
        let ghost next = list@.take(i + 1);
        proof {
            assert(next.drop_last() =~= list@.take(i as int));
            assert(next.last() == list@[i as int]);
        }
        if list[i].scraped {
            let slot = text::decimal_of(list[i].slot as u64);
            let n: u64 = done as u64 * 2 + 1;
            add_data_point(
                &mut params,
                n,
                "ActiveSessions",
                list[i].active.as_str(),
                "Count",
                slot.as_str(),
                timestamp,
            );
            add_data_point(
                &mut params,
                n + 1,
                "CumulativeSessions",
                list[i].cumulative.as_str(),
                "Count",
                slot.as_str(),
                timestamp,
            );
            proof {
                lemma_data_points_of_prefix(front, list@[i as int], timestamp@, done as nat);
                assert(scraped_ones(next)[done as int] == list@[i as int]);
                assert(asg::pairs(params@) =~= head + data_points(
                    scraped_ones(next),
                    timestamp@,
                    (done + 1) as nat,
                ));
            }
            done = done + 1;
        }
        i = i + 1;
    }
    assert(list@.take(list@.len() as int) =~= list@);
    if done == 0 {
        return None;
    }
    Some(params)
}

/// Whether the API confirmed the push.
pub fn push_confirmed(xml: &str) -> (yes: bool)
    ensures
        yes == (text::contains(xml@, "PutMetricDataResponse"@) || text::contains(
            xml@,
            "<RequestId>"@,
        )),
{
    text::has(xml, "PutMetricDataResponse") || text::has(xml, "<RequestId>")
}

// ── Laws ──────────────────────────────────────────────────────────────────

/// A label stands in a list of pairs with the value of its last pair, and with none
/// where no pair has it.
pub proof fn law_labels_by_name(v: Seq<(String, String)>, key: Seq<char>)
    ensures
        pair_map(v).contains_key(key) ==> exists|i: int|
            0 <= i < v.len() && (#[trigger] v[i]).0@ == key && v[i].1@ == pair_map(v)[key]
                && forall|k: int| i < k < v.len() ==> (#[trigger] v[k]).0@ != key,
        !pair_map(v).contains_key(key) ==> forall|k: int|
            0 <= k < v.len() ==> (#[trigger] v[k]).0@ != key,
    decreases v.len(),
{
    if v.len() > 0 {
        let d = v.drop_last();
        law_labels_by_name(d, key);
        if v.last().0@ == key {
            assert(v[v.len() - 1].0@ == key);
        } else if pair_map(d).contains_key(key) {
            let i = choose|i: int|
                0 <= i < d.len() && (#[trigger] d[i]).0@ == key && d[i].1@ == pair_map(d)[key]
                    && forall|k: int| i < k < d.len() ==> (#[trigger] d[k]).0@ != key;
            assert(v[i] == d[i]);
            assert forall|k: int| i < k < v.len() implies (#[trigger] v[k]).0@ != key by {
                if k < d.len() {
                    assert(d[k] == v[k]);
                }
            }
        } else {
            assert forall|k: int| 0 <= k < v.len() implies (#[trigger] v[k]).0@ != key by {
                if k < d.len() {
                    assert(d[k] == v[k]);
                }
            }
        }
    }
}

/// Each sample is either a scalar or one of the others, and both keep the order of
/// the samples. A scalar keeps its name, labels, kind and value.
pub proof fn law_scalars_and_others(a: Seq<ParsedView>, b: Seq<ParsedView>, x: ParsedView)
    ensures
        scalars(a + b) == scalars(a) + scalars(b),
        others(a + b) == others(a) + others(b),
        match x.value {
            ValueView::Histogram(_) => scalars(seq![x]).len() == 0 && others(seq![x]) == seq![x],
            ValueView::Summary => scalars(seq![x]).len() == 0 && others(seq![x]) == seq![x],
            ValueView::Counter(v) => others(seq![x]).len() == 0 && scalars(seq![x]) == seq![
                SampleView {
                    metric: x.metric,
                    value: v,
                    kind: SampleKind::Counter,
                    labels: x.labels,
                },
            ],
            ValueView::Gauge(v) => others(seq![x]).len() == 0 && scalars(seq![x]) == seq![
                SampleView {
                    metric: x.metric,
                    value: v,
                    kind: SampleKind::Gauge,
                    labels: x.labels,
                },
            ],
            ValueView::Untyped(v) => others(seq![x]).len() == 0 && scalars(seq![x]) == seq![
                SampleView {
                    metric: x.metric,
                    value: v,
                    kind: SampleKind::Untyped,
                    labels: x.labels,
                },
            ],
        },
    decreases b.len(),
{
    reveal_with_fuel(scalars, 2);
    reveal_with_fuel(others, 2);
    assert(seq![x].drop_last() =~= Seq::<ParsedView>::empty());
    if b.len() == 0 {
        assert(a + b =~= a);
        assert(scalars(a) + scalars(b) =~= scalars(a));
        assert(others(a) + others(b) =~= others(a));
    } else {
        law_scalars_and_others(a, b.drop_last(), x);
        assert((a + b).drop_last() =~= a + b.drop_last());
        assert(scalars(a + b) =~= scalars(a) + scalars(b));
        assert(others(a + b) =~= others(a) + others(b));
    }
}

/// The value of a metric without labels is that of its first such sample, and there
/// is none only where there is no such sample.
pub proof fn law_plain_value_is_first(list: Seq<SampleView>, metric: Seq<char>)
    ensures
        match plain_value(list, metric) {
            Some(v) => exists|i: int|
                0 <= i < list.len() && (#[trigger] list[i]).metric == metric
                    && list[i].labels.dom() == Set::<Seq<char>>::empty() && list[i].value == v
                    && forall|k: int|
                    0 <= k < i ==> (#[trigger] list[k]).metric != metric || list[k].labels.dom()
                        != Set::<Seq<char>>::empty(),
            None => forall|k: int|
                0 <= k < list.len() ==> (#[trigger] list[k]).metric != metric
                    || list[k].labels.dom() != Set::<Seq<char>>::empty(),
        },
    decreases list.len(),
{
    if list.len() > 0 {
        let none = Map::<Seq<char>, Seq<char>>::empty();
        assert(none.dom() =~= Set::<Seq<char>>::empty());
        if list[0].labels.dom() == Set::<Seq<char>>::empty() {
            assert(list[0].labels =~= none);
        }
        if list[0].metric == metric && list[0].labels == none {
            assert(list[0].metric == metric);
        } else {
            let r = list.skip(1);
            law_plain_value_is_first(r, metric);
            match plain_value(list, metric) {
                Some(v) => {
                    let i = choose|i: int|
                        0 <= i < r.len() && (#[trigger] r[i]).metric == metric
                            && r[i].labels.dom() == Set::<Seq<char>>::empty() && r[i].value == v
                            && forall|k: int|
                            0 <= k < i ==> (#[trigger] r[k]).metric != metric
                                || r[k].labels.dom() != Set::<Seq<char>>::empty();
                    assert(list[i + 1] == r[i]);
                    assert forall|k: int| 0 <= k < i + 1 implies (#[trigger] list[k]).metric
                        != metric || list[k].labels.dom() != Set::<Seq<char>>::empty() by {
                        if k > 0 {
                            assert(r[k - 1] == list[k]);
                        }
                    }
                },
                None => {
                    assert forall|k: int| 0 <= k < list.len() implies (#[trigger] list[k]).metric
                        != metric || list[k].labels.dom() != Set::<Seq<char>>::empty() by {
                        if k > 0 {
                            assert(r[k - 1] == list[k]);
                        }
                    }
                },
            }
        }
    }
}

/// A backend is scraped where it has a slot and a lease that has not run out; it is
/// scraped at its own address, and its IPVS connections, 0 where there are none, go
/// with it. The targets keep the order of the backends.
pub proof fn law_targets_by_backend(
    a: Seq<BackendView>,
    b: Seq<BackendView>,
    x: BackendView,
    now: u64,
)
    ensures
        targets(a + b, now) == targets(a, now) + targets(b, now),
        match (x.lease, x.slot) {
            (Some(l), Some(slot)) => if l.expires_ms > now {
                targets(seq![x], now) == seq![
                    ScrapeTarget {
                        slot,
                        ip: x.ip,
                        ipvs_active: if x.ipvs is Some {
                            x.ipvs->0.active_connections
                        } else {
                            0
                        },
                    },
                ]
            } else {
                targets(seq![x], now).len() == 0
            },
            _ => targets(seq![x], now).len() == 0,
        },
    decreases b.len(),
{
    reveal_with_fuel(targets, 2);
    assert(seq![x].drop_last() =~= Seq::<BackendView>::empty());
    if b.len() == 0 {
        assert(a + b =~= a);
        assert(targets(a, now) + targets(b, now) =~= targets(a, now));
    } else {
        law_targets_by_backend(a, b.drop_last(), x, now);
        assert((a + b).drop_last() =~= a + b.drop_last());
        assert(targets(a + b, now) =~= targets(a, now) + targets(b, now));
    }
}

/// There is one result for each target, by slot: every target has its answer in the
/// list, and no slot stands before a smaller one.
pub proof fn law_results_by_slot(
    out: Seq<BackendMetrics>,
    targets: Seq<ScrapeTarget>,
    answers: Seq<ScrapeAnswer>,
    k: int,
)
    requires
        are_results(out, targets, answers),
        0 <= k < targets.len(),
    ensures
        out.len() == targets.len(),
        forall|i: int, j: int|
            0 <= i < j < out.len() ==> (#[trigger] out[i]).slot <= (#[trigger] out[j]).slot,
        answers[k] matches Ok((samples, docs)) ==> exists|i: int|
            0 <= i < out.len() && (#[trigger] out[i]).slot == targets[k].slot && out[i].ip
                == targets[k].ip && out[i].error is None && out[i].samples == samples
                && out[i].docs == docs,
        answers[k] matches Err(message) ==> exists|i: int|
            0 <= i < out.len() && (#[trigger] out[i]).slot == targets[k].slot && out[i].ip
                == targets[k].ip && out[i].error == Some(message) && out[i].samples@.len() == 0
                && out[i].docs@.len() == 0,
{
    let keys = slot_keys(target_slots(targets));
    let p = choose|p: Seq<usize>|
        order::is_stable_order(keys, p) && #[trigger] are_results_in(out, targets, answers, p);
    order::law_stable_order_sorts(targets, keys, p);
    assert forall|i: int, j: int| 0 <= i < j < out.len() implies (#[trigger] out[i]).slot <= (
    #[trigger] out[j]).slot by {
        assert(p[i] < keys.len() && p[j] < keys.len());
        assert(keys[p[i] as int] <= keys[p[j] as int]);
        assert(is_result(out[i], targets[p[i] as int], answers[p[i] as int]));
        assert(is_result(out[j], targets[p[j] as int], answers[p[j] as int]));
    }
    order::law_stable_order_is_permutation(keys, p, k);
    let i = choose|i: int| 0 <= i < p.len() && p[i] == k;
    assert(is_result(out[i], targets[p[i] as int], answers[p[i] as int]));
}

/// What is pushed are the slots that were scraped, in order.
pub proof fn law_only_scraped_slots_are_pushed(
    a: Seq<SlotSessions>,
    b: Seq<SlotSessions>,
    x: SlotSessions,
)
    ensures
        scraped_ones(a + b) == scraped_ones(a) + scraped_ones(b),
        x.scraped ==> scraped_ones(seq![x]) == seq![x],
        !x.scraped ==> scraped_ones(seq![x]).len() == 0,
    decreases b.len(),
{
    reveal_with_fuel(scraped_ones, 2);
    assert(seq![x].drop_last() =~= Seq::<SlotSessions>::empty());
    if b.len() == 0 {
        assert(a + b =~= a);
        assert(scraped_ones(a) + scraped_ones(b) =~= scraped_ones(a));
    } else {
        law_only_scraped_slots_are_pushed(a, b.drop_last(), x);
        assert((a + b).drop_last() =~= a + b.drop_last());
        assert(scraped_ones(a + b) =~= scraped_ones(a) + scraped_ones(b));
    }
}

/// Slot number `i` of a push has data points `2 i + 1` and `2 i + 2`: its active and
/// its cumulative sessions, each with its unit, the time and the slot.
pub proof fn law_data_points_of_a_slot(
    list: Seq<SlotSessions>,
    timestamp: Seq<char>,
    k: nat,
    i: int,
)
    requires
        0 <= i < k <= list.len(),
    ensures
        ({
            let d = data_points(list, timestamp, k);
            let first = "MetricData.member."@ + text::decimal((2 * i + 1) as nat);
            let second = "MetricData.member."@ + text::decimal((2 * i + 2) as nat);
            let slot = text::decimal(list[i].slot as nat);
            &&& d.len() == 12 * k
            &&& d.subrange(12 * i, 12 * i + 12) == seq![
                (first + ".MetricName"@, "ActiveSessions"@),
                (first + ".Value"@, list[i].active@),
                (first + ".Unit"@, "Count"@),
                (first + ".Timestamp"@, timestamp),
                (first + ".Dimensions.member.1.Name"@, "Slot"@),
                (first + ".Dimensions.member.1.Value"@, slot),
                (second + ".MetricName"@, "CumulativeSessions"@),
                (second + ".Value"@, list[i].cumulative@),
                (second + ".Unit"@, "Count"@),
                (second + ".Timestamp"@, timestamp),
                (second + ".Dimensions.member.1.Name"@, "Slot"@),
                (second + ".Dimensions.member.1.Value"@, slot),
            ]
        }),
    decreases k,
{
    let d = data_points(list, timestamp, k);
    let r = data_points(list, timestamp, (k - 1) as nat);
    lemma_data_points_len(list, timestamp, (k - 1) as nat);
    let first = "MetricData.member."@ + text::decimal((2 * i + 1) as nat);
    let second = "MetricData.member."@ + text::decimal((2 * i + 2) as nat);
    let slot = text::decimal(list[i].slot as nat);
    if i < k - 1 {
        law_data_points_of_a_slot(list, timestamp, (k - 1) as nat, i);
        assert(d.subrange(12 * i, 12 * i + 12) =~= r.subrange(12 * i, 12 * i + 12));
    } else {
        assert(2 * k - 1 == 2 * i + 1 && 2 * k == 2 * i + 2);
        assert(d.subrange(12 * i, 12 * i + 12) =~= seq![
            (first + ".MetricName"@, "ActiveSessions"@),
            (first + ".Value"@, list[i].active@),
            (first + ".Unit"@, "Count"@),
            (first + ".Timestamp"@, timestamp),
            (first + ".Dimensions.member.1.Name"@, "Slot"@),
            (first + ".Dimensions.member.1.Value"@, slot),
            (second + ".MetricName"@, "CumulativeSessions"@),
            (second + ".Value"@, list[i].cumulative@),
            (second + ".Unit"@, "Count"@),
            (second + ".Timestamp"@, timestamp),
            (second + ".Dimensions.member.1.Name"@, "Slot"@),
            (second + ".Dimensions.member.1.Value"@, slot),
        ]);
    }
}

proof fn lemma_data_points_len(list: Seq<SlotSessions>, timestamp: Seq<char>, k: nat)
    ensures
        data_points(list, timestamp, k).len() == 12 * k,
    decreases k,
{
    if k > 0 {
        lemma_data_points_len(list, timestamp, (k - 1) as nat);
    }
}

} // verus!
