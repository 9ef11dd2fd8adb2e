//! The FTP server's own rules: who is logged in, what an upload came to, and
//! what is traced.

use vstd::prelude::*;

use crate::infra::asg;
use crate::scrape;
use crate::scrape::find_attribute;
use crate::text;

verus! {

// ── Users ─────────────────────────────────────────────────────────────────

/// A logged-in user.
#[derive(Debug)]
pub struct AeroUser {
    pub username: String,
    /// Address of the control connection.
    pub client_ip: String,
    /// What is known of the device; nothing where it is unknown. No name occurs
    /// twice.
    pub system_meta: Vec<(String, String)>,
    /// The device is unknown. It is let in, but kept apart.
    pub quarantined: bool,
}

impl AeroUser {
    /// A field of what is known of the device.
    pub open spec fn field(self, key: Seq<char>) -> Option<Seq<char>> {
        scrape::attribute(asg::pairs(self.system_meta@), key, 0)
    }

    /// A field of what is known of the device, or an error where it is missing.
    pub fn require(&self, key: &str) -> (r: Result<&str, String>)
        ensures
            match r {
                Ok(v) => self.field(key@) == Some(v@),
                Err(e) => self.field(key@) is None && e@
                    == "system metadata missing required field '"@ + key@ + "'"@,
            },
    {
        match find_attribute(&self.system_meta, key) {
            Some(v) => Ok(v),
            None => {
                let mut e = text::copy_str("system metadata missing required field '");
                e.push_str(key);
                e.push_str("'");
                Err(e)
            },
        }
    }

    /// A field of what is known of the device, or `?`.
    pub fn field_or_unknown(&self, key: &str) -> (v: &str)
        ensures
            v@ == (match self.field(key@) {
                Some(v) => v,
                None => "?"@,
            }),
    {
        match find_attribute(&self.system_meta, key) {
            Some(v) => v,
            None => "?",
        }
    }

    /// Whether the account may be used: every account may.
    pub fn account_enabled(&self) -> (yes: bool)
        ensures
            yes,
    {
        true
    }

    /// The user and where they come from.
    pub fn to_string(&self) -> (out: String)
        ensures
            out@ == self.username@ + "@"@ + self.client_ip@,
    {
        let mut out = text::copy_str(self.username.as_str());
        out.push_str("@");
        out.push_str(self.client_ip.as_str());
        out
    }
}

/// The key under which a device is looked up, by the address that it comes from.
pub fn lookup_key(source_ip: &Option<String>) -> (r: Result<String, String>)
    ensures
        match (*source_ip, r) {
            (Some(ip), Ok(key)) => key@ == "systems:by-ip:"@ + ip@,
            (None, Err(e)) => e@
                == "Principal is missing source_ip — AeroAuthenticator must be used"@,
            _ => false,
        },
{
    match source_ip {
        Some(ip) => {
            let mut key = text::copy_str("systems:by-ip:");
            key.push_str(ip.as_str());
            Ok(key)
        },
        None => Err(
            text::copy_str("Principal is missing source_ip — AeroAuthenticator must be used"),
        ),
    }
}

/// The error of a lookup that failed.
pub fn lookup_error(key: &str, cause: &str) -> (out: String)
    ensures
        out@ == "Redis error looking up '"@ + key@ + "': "@ + cause@,
{
    let mut out = text::copy_str("Redis error looking up '");
    out.push_str(key);
    out.push_str("': ");
    out.push_str(cause);
    out
}

/// The user of a session, given what the lookup found of the device. A device of
/// which nothing is known is let in as quarantined.
pub fn user_detail(username: &str, client_ip: &str, system_meta: Vec<(String, String)>) -> (u: AeroUser)
    ensures
        u.username@ == username@,
        u.client_ip@ == client_ip@,
        u.system_meta == system_meta,
        u.quarantined == (system_meta@.len() == 0),
{
    let quarantined: bool = system_meta.len() == 0;
    AeroUser {
        username: text::copy_str(username),
        client_ip: text::copy_str(client_ip),
        system_meta,
        quarantined,
    }
}

// ── Uploads ───────────────────────────────────────────────────────────────

/// What an upload came to, from the copying of the data and the closing of the
/// object: both must have worked.
pub fn put_result(copied: Result<u64, String>, closed: Result<(), String>) -> (r: Result<u64, String>)
    ensures
        match (copied, closed) {
            (Ok(n), Ok(_)) => r == Ok::<u64, String>(n),
            (Err(c), Ok(_)) => r matches Err(e) && e@ == "copy failed: "@ + c@,
            (Ok(_), Err(s)) => r matches Err(e) && e@ == "shutdown failed: "@ + s@,
            (Err(c), Err(s)) => r matches Err(e) && e@ == "copy failed: "@ + c@
                + "; shutdown failed: "@ + s@,
        },
{
    match (copied, closed) {
        (Ok(n), Ok(_)) => Ok(n),
        (Err(c), Ok(_)) => {
            let mut e = text::copy_str("copy failed: ");
            e.push_str(c.as_str());
            Err(e)
        },
        (Ok(_), Err(s)) => {
            let mut e = text::copy_str("shutdown failed: ");
            e.push_str(s.as_str());
            Err(e)
        },
        (Err(c), Err(s)) => {
            let mut e = text::copy_str("copy failed: ");
            e.push_str(c.as_str());
            e.push_str("; shutdown failed: ");
            e.push_str(s.as_str());
            Err(e)
        },
    }
}

// ── Tracing ───────────────────────────────────────────────────────────────

/// What happened to data.
#[derive(Debug)]
pub enum DataEvent {
    Put { path: String, bytes: u64 },
    Got { path: String, bytes: u64 },
    Deleted { path: String },
    Renamed { from: String, to: String },
    MadeDir { path: String },
    RemovedDir { path: String },
}

/// Who did it.
#[derive(Debug)]
pub struct EventMeta {
    pub username: String,
    /// The session.
    pub trace_id: String,
    /// Counts the events of a session.
    pub sequence_number: u64,
}

/// A span that records an event.
#[derive(Debug)]
pub struct SpanRecord {
    pub name: String,
    pub path: String,
    pub path_from: Option<String>,
    pub bytes: Option<u64>,
    pub username: String,
    pub session_id: String,
    pub sequence: Option<u64>,
}

/// A span with its texts.
pub struct SpanView {
    pub name: Seq<char>,
    pub path: Seq<char>,
    pub path_from: Option<Seq<char>>,
    pub bytes: Option<u64>,
    pub username: Seq<char>,
    pub session_id: Seq<char>,
    pub sequence: Option<u64>,
}

impl View for SpanRecord {
    type V = SpanView;

    open spec fn view(&self) -> SpanView {
        SpanView {
            name: self.name@,
            path: self.path@,
            path_from: text::opt_text(self.path_from),
            bytes: self.bytes,
            username: self.username@,
            session_id: self.session_id@,
            sequence: self.sequence,
        }
    }
}

/// The span of an event. Only transfers have a size, only a rename has a source,
/// and what happens to directories has no number.
pub open spec fn span_of(event: DataEvent, meta: EventMeta) -> SpanView {
    let base = SpanView {
        name: ""@,
        path: ""@,
        path_from: None,
        bytes: None,
        username: meta.username@,
        session_id: meta.trace_id@,
        sequence: Some(meta.sequence_number),
    };
    match event {
        DataEvent::Put { path, bytes } => SpanView {
            name: "ftp.stor"@,
            path: path@,
            bytes: Some(bytes),
            ..base
        },
        DataEvent::Got { path, bytes } => SpanView {
            name: "ftp.retr"@,
            path: path@,
            bytes: Some(bytes),
            ..base
        },
        DataEvent::Deleted { path } => SpanView { name: "ftp.dele"@, path: path@, ..base },
        DataEvent::Renamed { from, to } => SpanView {
            name: "ftp.rename"@,
            path: to@,
            path_from: Some(from@),
            ..base
        },
        DataEvent::MadeDir { path } => SpanView {
            name: "ftp.mkd"@,
            path: path@,
            sequence: None,
            ..base
        },
        DataEvent::RemovedDir { path } => SpanView {
            name: "ftp.rmd"@,
            path: path@,
            sequence: None,
            ..base
        },
    }
}

/// Records what happens to data.
#[derive(Debug)]
pub struct FtpDataTracer;

impl FtpDataTracer {
    /// The span that records an event.
    pub fn receive_data_event(&self, event: DataEvent, meta: EventMeta) -> (r: SpanRecord)
        ensures
            r@ == span_of(event, meta),
    {
        let seq: Option<u64> = Some(meta.sequence_number);
        let (name, path, path_from, bytes, sequence) = match event {
            DataEvent::Put { path, bytes } => ("ftp.stor", path, None, Some(bytes), seq),
            DataEvent::Got { path, bytes } => ("ftp.retr", path, None, Some(bytes), seq),
            DataEvent::Deleted { path } => ("ftp.dele", path, None, None, seq),
            DataEvent::Renamed { from, to } => ("ftp.rename", to, Some(from), None, seq),
            DataEvent::MadeDir { path } => ("ftp.mkd", path, None, None, None),
            DataEvent::RemovedDir { path } => ("ftp.rmd", path, None, None, None),
        };
        SpanRecord {
            name: text::copy_str(name),
            path,
            path_from,
            bytes,
            username: meta.username,
            session_id: meta.trace_id,
            sequence,
        }
    }
}

/// Where spans are exported to.
#[derive(Debug)]
pub struct OtelSettings {
    pub endpoint: String,
    pub service_name: String,
}

/// An ASCII letter in lower case; every other character as it is.
pub open spec fn lower(c: char) -> char {
    if 'A' <= c && c <= 'Z' {
        ((c as u32 + 32) as u32) as char
    } else {
        c
    }
}

/// Whether a text says `true`, in whatever case.
pub open spec fn says_true(s: Seq<char>) -> bool {
    s.len() == 4 && lower(s[0]) == 't' && lower(s[1]) == 'r' && lower(s[2]) == 'u' && lower(s[3])
        == 'e'
}

fn is_letter(c: char, small: char, large: char) -> (yes: bool)
    requires
        'a' <= small && small <= 'z',
        large as u32 + 32 == small as u32,
    ensures
        yes == (lower(c) == small),
{
    c == small || c == large
}

/// Where spans are exported to, from `OTEL_SDK_DISABLED`,
/// `OTEL_EXPORTER_OTLP_ENDPOINT` and `OTEL_SERVICE_NAME`; `None` where the export
/// is switched off.
pub fn otel_settings(
    disabled: &Option<String>,
    endpoint: &Option<String>,
    service_name: &Option<String>,
) -> (r: Option<OtelSettings>)
    ensures
        match r {
            None => *disabled matches Some(s) && says_true(s@),
            Some(o) => {
                &&& !(*disabled matches Some(s) && says_true(s@))
                &&& o.endpoint@ == (match *endpoint {
                    Some(e) => e@,
                    None => "http://aeromon.aerosuite:4317"@,
                })
                &&& o.service_name@ == (match *service_name {
                    Some(n) => n@,
                    None => "aeroftp"@,
                })
            },
        },
{
    match disabled {
        Some(s) => {
            let cs = text::chars_of(s.as_str());
            if cs.len() == 4 && is_letter(cs[0], 't', 'T') && is_letter(cs[1], 'r', 'R')
                && is_letter(cs[2], 'u', 'U') && is_letter(cs[3], 'e', 'E') {
                return None;
            }
        },
        None => {},
    }
    Some(
        OtelSettings {
            endpoint: match endpoint {
                Some(e) => text::copy_str(e.as_str()),
                None => text::copy_str("http://aeromon.aerosuite:4317"),
            },
            service_name: match service_name {
                Some(n) => text::copy_str(n.as_str()),
                None => text::copy_str("aeroftp"),
            },
        },
    )
}

/// What a span tells of an event: who did it in which session, what was done, to
/// which path and with how many bytes. Only the events on files are counted.
pub proof fn law_span_tells_the_event(event: DataEvent, meta: EventMeta)
    ensures
        ({
            let s = span_of(event, meta);
            &&& s.username == meta.username@ && s.session_id == meta.trace_id@
            &&& (s.bytes is Some <==> event is Put || event is Got)
            &&& (s.path_from is Some <==> event is Renamed)
            &&& (s.sequence is None <==> event is MadeDir || event is RemovedDir)
            &&& s.sequence is Some ==> s.sequence == Some(meta.sequence_number)
            &&& match event {
                DataEvent::Put { path, bytes } => s.name == "ftp.stor"@ && s.path == path@
                    && s.bytes == Some(bytes),
                DataEvent::Got { path, bytes } => s.name == "ftp.retr"@ && s.path == path@
                    && s.bytes == Some(bytes),
                DataEvent::Deleted { path } => s.name == "ftp.dele"@ && s.path == path@,
                DataEvent::Renamed { from, to } => s.name == "ftp.rename"@ && s.path == to@
                    && s.path_from == Some(from@),
                DataEvent::MadeDir { path } => s.name == "ftp.mkd"@ && s.path == path@,
                DataEvent::RemovedDir { path } => s.name == "ftp.rmd"@ && s.path == path@,
            }
        }),
{
}

/// Only the word itself says true, in letters of either case.
pub proof fn law_says_true(s: Seq<char>)
    ensures
        says_true(s) <==> s.len() == 4 && (s[0] == 't' || s[0] == 'T') && (s[1] == 'r' || s[1]
            == 'R') && (s[2] == 'u' || s[2] == 'U') && (s[3] == 'e' || s[3] == 'E'),
{
    if s.len() == 4 {
        lemma_lower(s[0], 't', 'T');
        lemma_lower(s[1], 'r', 'R');
        lemma_lower(s[2], 'u', 'U');
        lemma_lower(s[3], 'e', 'E');
    }
}

proof fn lemma_lower(c: char, small: char, large: char)
    requires
        'a' <= small <= 'z',
        large as u32 + 32 == small as u32,
    ensures
        lower(c) == small <==> c == small || c == large,
{
}

} // verus!
