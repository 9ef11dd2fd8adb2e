//! The configuration of a pair of load balancers that watch each other over
//! VRRP.
//!
//! From the tags and interfaces of an instance come the file of VRRP instances,
//! the scripts that run on a change of role, and the scripts of the health
//! checks. All files are always written; a check that is not enabled is left out
//! of the file of VRRP instances with a note on how to enable it.

use vstd::prelude::*;

use crate::order;
use crate::order::stable_order;
use crate::template;
use crate::template::{fill, put};
use crate::text;

pub mod texts;

verus! {

// ── Options ───────────────────────────────────────────────────────────────

/// What the operator can choose.
#[derive(Debug)]
pub struct Options {
    pub auth_pass: String,
    pub out: String,
    pub notify_master_out: String,
    pub notify_backup_out: String,
    pub chk_backends_out: String,
    pub chk_forward_out: String,
    pub vip_outside: String,
    pub vip_inside: String,
    pub iface_outside: String,
    pub iface_inside: String,
    pub vrid_outside: u8,
    pub vrid_inside: u8,
    pub advert_int: u8,
    /// How many advertisements in a row may be missed before a backup takes
    /// over.
    pub down_timer_adverts: u32,
    pub priority_master: u8,
    pub priority_backup: u8,
    pub enable_track_interface: bool,
    pub enable_track_backends: bool,
    pub track_min_backends: u32,
    pub enable_track_forward: bool,
    pub track_probe_host: Option<String>,
    pub track_probe_port: u16,
    pub track_probe_timeout: u8,
    /// What a failed check adds to the priority; it is negative.
    pub track_weight: i32,
    pub track_interval: u32,
    pub track_fall: u32,
    pub track_rise: u32,
    /// Path of the program that assigns addresses.
    pub assign_bin: String,
    pub region: String,
}

/// What is wrong with the options.
#[derive(Debug, Clone, Copy, PartialEq, Eq, Structural)]
pub enum OptionsError {
    ProbeHostMissing,
}

impl OptionsError {
    /// The error in words.
    pub fn to_string(&self) -> (out: String)
        ensures
            out@
                == "--track-probe-host <IP> is required when --enable-track-forward is set"@,
    {
        text::copy_str("--track-probe-host <IP> is required when --enable-track-forward is set")
    }
}

impl Options {
    /// Checks the options: the forward-path check needs a host to probe.
    pub fn validate(&self) -> (r: Result<(), OptionsError>)
        ensures
            match r {
                Ok(_) => !self.enable_track_forward || self.track_probe_host is Some,
                Err(OptionsError::ProbeHostMissing) => self.enable_track_forward
                    && self.track_probe_host is None,
            },
    {
        if self.enable_track_forward && self.track_probe_host.is_none() {
            Err(OptionsError::ProbeHostMissing)
        } else {
            Ok(())
        }
    }
}

// ── Instance ──────────────────────────────────────────────────────────────

/// The role that the tags give to an instance.
#[derive(Debug, Clone, Copy, PartialEq, Eq, Structural)]
pub enum Role {
    Master,
    Backup,
}

impl Role {
    /// The name of the role.
    pub open spec fn name(self) -> Seq<char> {
        match self {
            Role::Master => "master"@,
            Role::Backup => "backup"@,
        }
    }

    /// The name of the role.
    pub fn as_str(self) -> (s: &'static str)
        ensures
            s@ == self.name(),
    {
        match self {
            Role::Master => "master",
            Role::Backup => "backup",
        }
    }

    /// The state that an instance starts in: always backup. The first election is
    /// decided by priority; an instance that comes back after a failover finds a
    /// master and leaves it in place.
    pub fn vrrp_state(self) -> (s: &'static str)
        ensures
            s@ == "BACKUP"@,
    {
        "BACKUP"
    }

    /// The role that a tag names.
    pub fn from_tag(tag: &str) -> (r: Result<Role, String>)
        ensures
            match r {
                Ok(role) => role.name() == tag@,
                Err(e) => tag@ != "master"@ && tag@ != "backup"@ && e@
                    == "Tag 'keepalived-role' has unexpected value '"@ + tag@
                    + "'. Expected 'master' or 'backup'."@,
            },
    {
        if text::str_eq(tag, "master") {
            Ok(Role::Master)
        } else if text::str_eq(tag, "backup") {
            Ok(Role::Backup)
        } else {
            let mut e = text::copy_str("Tag 'keepalived-role' has unexpected value '");
            e.push_str(tag);
            e.push_str("'. Expected 'master' or 'backup'.");
            Err(e)
        }
    }
}

/// One interface of an instance.
#[derive(Debug)]
pub struct IfaceInfo {
    pub device_number: u32,
    pub eni_id: String,
    pub primary_ip: String,
}

/// An interface with its texts.
pub struct IfaceView {
    pub device_number: u32,
    pub eni_id: Seq<char>,
    pub primary_ip: Seq<char>,
}

impl View for IfaceInfo {
    type V = IfaceView;

    open spec fn view(&self) -> IfaceView {
        IfaceView {
            device_number: self.device_number,
            eni_id: self.eni_id@,
            primary_ip: self.primary_ip@,
        }
    }
}

impl Clone for IfaceInfo {
    fn clone(&self) -> (out: IfaceInfo)
        ensures
            out@ == self@,
    {
        IfaceInfo {
            device_number: self.device_number,
            eni_id: text::copy_str(self.eni_id.as_str()),
            primary_ip: text::copy_str(self.primary_ip.as_str()),
        }
    }
}

/// What is known of an instance.
#[derive(Debug)]
pub struct InstanceData {
    pub instance_id: String,
    pub role: Role,
    pub outside: IfaceInfo,
    pub inside: IfaceInfo,
    /// The inside address of the other instance.
    pub peer_inside_ip: String,
}

/// Reads what the metadata service says of an interface: device number, id and
/// addresses, of which the first is the primary one.
pub fn parse_interface(mac: &str, device_number: &str, eni_id: &str, local_ipv4s: &str) -> (r: Result<
    IfaceInfo,
    String,
>)
    ensures
        match r {
            Ok(i) => {
                &&& text::parse_max(device_number@, u32::MAX as nat) == Some(i.device_number as nat)
                &&& i.eni_id@ == eni_id@
                &&& text::lines(local_ipv4s@).len() > 0
                &&& i.primary_ip@ == text::trim(text::lines(local_ipv4s@)[0])
            },
            Err(e) => if text::parse_max(device_number@, u32::MAX as nat) is None {
                e@ == "device-number for MAC "@ + mac@ + " is not a valid integer"@
            } else {
                text::lines(local_ipv4s@).len() == 0 && e@
                    == "local-ipv4s returned an empty response"@
            },
        },
{
    let number: u32 = match text::parse_up_to(device_number, u32::MAX as u64) {
        Some(n) => n as u32,
        None => {
            let mut e = text::copy_str("device-number for MAC ");
            e.push_str(mac);
            e.push_str(" is not a valid integer");
            return Err(e);
        },
    };
    let lines = text::lines_of(local_ipv4s);
    assert(text::texts(lines@).len() == lines@.len());
    if lines.len() == 0 {
        return Err(text::copy_str("local-ipv4s returned an empty response"));
    }
    assert(text::texts(lines@)[0] == lines@[0]@);
    Ok(
        IfaceInfo {
            device_number: number,
            eni_id: text::copy_str(eni_id),
            primary_ip: text::trimmed(lines[0].as_str()),
        },
    )
}

/// The views of a list of interfaces.
pub open spec fn iface_views(v: Seq<IfaceInfo>) -> Seq<IfaceView> {
    Seq::new(v.len(), |i: int| v[i]@)
}

/// The device numbers of interfaces.
pub open spec fn device_numbers(v: Seq<IfaceView>) -> Seq<u64> {
    Seq::new(v.len(), |i: int| v[i].device_number as u64)
}

/// The outside and the inside interface: the first two by device number.
pub fn pick_interfaces(ifaces: &Vec<IfaceInfo>) -> (r: Result<(IfaceInfo, IfaceInfo), String>)
    ensures
        match r {
            Ok(pair) => ifaces@.len() >= 2 && exists|p: Seq<usize>|
                #[trigger] order::is_stable_order(device_numbers(iface_views(ifaces@)), p)
                    && pair.0@ == ifaces@[p[0] as int]@ && pair.1@ == ifaces@[p[1] as int]@,
            Err(e) => ifaces@.len() < 2 && e@
                == "Expected at least 2 network interfaces (eth0 + eth1), found "@
                + text::decimal(ifaces@.len()) + ". Is the inside ENI attached?"@,
        },
{
    let n: usize = ifaces.len();
    if n < 2 {
        let mut e = text::copy_str(
            "Expected at least 2 network interfaces (eth0 + eth1), found ",
        );
        e.push_str(text::decimal_of(n as u64).as_str());
        e.push_str(". Is the inside ENI attached?");
        return Err(e);
    }
    let ghost want = device_numbers(iface_views(ifaces@));
    let mut keys: Vec<u64> = Vec::new();
    let mut i: usize = 0;
    while i < n
        invariant
            i <= n,
            n == ifaces@.len(),
            want == device_numbers(iface_views(ifaces@)),
            keys@ == want.take(i as int),
        decreases n - i,
    {
        keys.push(ifaces[i].device_number as u64);
        assert(keys@ =~= want.take(i + 1));
        i = i + 1;
    }
    assert(keys@ =~= want);
    let p = stable_order(&keys);
    assert(p@.len() == n);
    let first: usize = p[0];
    let second: usize = p[1];
    Ok((ifaces[first].clone(), ifaces[second].clone()))
}

// ── Rendering ─────────────────────────────────────────────────────────────

/// The current time in the form `%Y-%m-%dT%H:%M:%SZ`, from `chrono::Utc::now`.
///
/// Nothing is promised of the text: it is whatever the system clock says.
#[verifier::external_body]
fn utc_iso_now() -> String {
    chrono::Utc::now().format("%Y-%m-%dT%H:%M:%SZ").to_string()
}

/// The fields of the definition of the backend check.
pub open spec fn backends_script_fields(o: Options) -> Seq<(Seq<char>, Seq<char>)> {
    seq![
        ("script"@, o.chk_backends_out@),
        ("interval"@, text::decimal(o.track_interval as nat)),
        ("weight"@, text::signed_decimal(o.track_weight as int)),
        ("fall"@, text::decimal(o.track_fall as nat)),
        ("rise"@, text::decimal(o.track_rise as nat)),
        ("min"@, text::decimal(o.track_min_backends as nat)),
    ]
}

/// The fields of the definition of the forward-path check.
pub open spec fn forward_script_fields(o: Options) -> Seq<(Seq<char>, Seq<char>)> {
    seq![
        ("script"@, o.chk_forward_out@),
        ("interval"@, text::decimal(o.track_interval as nat)),
        ("weight"@, text::signed_decimal(o.track_weight as int)),
        ("fall"@, text::decimal(o.track_fall as nat)),
        ("rise"@, text::decimal(o.track_rise as nat)),
    ]
}

/// The fields of the tracking of interfaces.
pub open spec fn interface_fields(o: Options) -> Seq<(Seq<char>, Seq<char>)> {
    seq![("iface_outside"@, o.iface_outside@), ("iface_inside"@, o.iface_inside@)]
}

/// The fields of the references to the checks.
pub open spec fn reference_fields(o: Options) -> Seq<(Seq<char>, Seq<char>)> {
    seq![
        ("backends_line"@, if o.enable_track_backends {
            "        chk_backends\n"@
        } else {
            "        # chk_backends    (enable with --enable-track-backends)\n"@
        }),
        ("forward_line"@, if o.enable_track_forward {
            "        chk_forward_path\n"@
        } else {
            "        # chk_forward_path    (enable with --enable-track-forward --track-probe-host <IP>)\n"@
        }),
    ]
}

/// The fields of the file of VRRP instances.
pub open spec fn vrrp_fields(o: Options, d: InstanceData, ts: Seq<char>) -> Seq<(Seq<char>, Seq<char>)> {
    seq![
        ("instance_id"@, d.instance_id@),
        ("role"@, d.role.name()),
        ("ts"@, ts),
        ("out"@, o.out@),
        ("notify_master"@, o.notify_master_out@),
        ("notify_backup"@, o.notify_backup_out@),
        ("vip_outside"@, o.vip_outside@),
        ("vip_inside"@, o.vip_inside@),
        ("iface_outside"@, o.iface_outside@),
        ("iface_inside"@, o.iface_inside@),
        ("vrid_outside"@, text::decimal(o.vrid_outside as nat)),
        ("vrid_inside"@, text::decimal(o.vrid_inside as nat)),
        ("priority"@, text::decimal(priority(o, d.role) as nat)),
        ("advert_int"@, text::decimal(o.advert_int as nat)),
        ("down_timer_adverts"@, text::decimal(o.down_timer_adverts as nat)),
        ("nopreempt"@, match d.role {
            Role::Master => "    nopreempt\n"@,
            Role::Backup => ""@,
        }),
        ("src_inside"@, d.inside.primary_ip@),
        ("peer_inside"@, d.peer_inside_ip@),
        ("auth_pass"@, o.auth_pass@),
        ("state"@, "BACKUP"@),
        ("vrrp_scripts_block"@, scripts_definitions(o)),
        ("track_iface_block"@, track_interface_block(o)),
        ("track_scripts_block"@, track_scripts_block(o)),
    ]
}

/// The fields of the script that claims both virtual addresses.
pub open spec fn master_fields(o: Options, d: InstanceData, ts: Seq<char>) -> Seq<(Seq<char>, Seq<char>)> {
    seq![
        ("instance_id"@, d.instance_id@),
        ("ts"@, ts),
        ("assign"@, o.assign_bin@),
        ("vip_outside"@, o.vip_outside@),
        ("vip_inside"@, o.vip_inside@),
        ("eni_inside"@, d.inside.eni_id@),
        ("region"@, o.region@),
    ]
}

/// The fields of the script for the transition to backup.
pub open spec fn backup_fields(ts: Seq<char>) -> Seq<(Seq<char>, Seq<char>)> {
    seq![("ts"@, ts)]
}

/// The fields of the script of the backend check.
pub open spec fn chk_backends_fields(o: Options, ts: Seq<char>) -> Seq<(Seq<char>, Seq<char>)> {
    seq![
        ("ts"@, ts),
        ("enabled_note"@, if o.enable_track_backends {
            "# Status: ACTIVE — referenced in vrrp.conf track_script block."@
        } else {
            "# Status: NOT YET ACTIVE — re-run keepalived-config with --enable-track-backends."@
        }),
        ("script"@, o.chk_backends_out@),
        ("min_active"@, text::decimal(o.track_min_backends as nat)),
    ]
}

/// The fields of the script of the forward-path check.
pub open spec fn chk_forward_fields(o: Options, d: InstanceData, ts: Seq<char>) -> Seq<(Seq<char>, Seq<char>)> {
    seq![
        ("ts"@, ts),
        ("enabled_note"@, if o.enable_track_forward {
            "# Status: ACTIVE — referenced in vrrp.conf track_script block."@
        } else {
            "# Status: NOT YET ACTIVE — re-run keepalived-config with --enable-track-forward --track-probe-host <IP>."@
        }),
        ("script"@, o.chk_forward_out@),
        ("probe_host"@, match o.track_probe_host {
            Some(h) => h@,
            None => "<not configured — set --track-probe-host>"@,
        }),
        ("probe_port"@, text::decimal(o.track_probe_port as nat)),
        ("probe_timeout"@, text::decimal(o.track_probe_timeout as nat)),
        ("src_ip"@, d.inside.primary_ip@),
    ]
}

/// The definitions of the checks that are enabled.
pub open spec fn scripts_definitions(o: Options) -> Seq<char> {
    let backends = template::filled(
        texts::SCRIPT_BACKENDS@,
        backends_script_fields(o),
    );
    let forward = template::filled(
        texts::SCRIPT_FORWARD@,
        forward_script_fields(o),
    );
    if o.enable_track_backends && o.enable_track_forward {
        backends + forward
    } else if o.enable_track_backends {
        backends
    } else if o.enable_track_forward {
        forward
    } else {
        texts::SCRIPTS_DISABLED@
    }
}

/// Writes the definitions of the checks that are enabled, or a note where none
/// is.
pub fn render_vrrp_scripts_definitions(o: &Options) -> (out: String)
    ensures
        out@ == scripts_definitions(*o),
{
    let mut out: String = String::new();
    assert(out@ =~= Seq::empty());
    let mut any: bool = false;
    if o.enable_track_backends {
        any = true;
        let mut f: Vec<(String, String)> = Vec::new();
        assert(template::field_views(f@) =~= Seq::empty());
        put(&mut f, "script", o.chk_backends_out.as_str());
        put(&mut f, "interval", text::decimal_of(o.track_interval as u64).as_str());
        put(&mut f, "weight", text::signed_decimal_of(o.track_weight as i64).as_str());
        put(&mut f, "fall", text::decimal_of(o.track_fall as u64).as_str());
        put(&mut f, "rise", text::decimal_of(o.track_rise as u64).as_str());
        put(&mut f, "min", text::decimal_of(o.track_min_backends as u64).as_str());
        assert(template::field_views(f@) =~= backends_script_fields(*o));
        let filled = fill(texts::SCRIPT_BACKENDS, &f);
        out.push_str(filled.as_str());
        assert(out@ =~= filled@);
    }
    if o.enable_track_forward {
        any = true;
        let mut f: Vec<(String, String)> = Vec::new();
        assert(template::field_views(f@) =~= Seq::empty());
        put(&mut f, "script", o.chk_forward_out.as_str());
        put(&mut f, "interval", text::decimal_of(o.track_interval as u64).as_str());
        put(&mut f, "weight", text::signed_decimal_of(o.track_weight as i64).as_str());
        put(&mut f, "fall", text::decimal_of(o.track_fall as u64).as_str());
        put(&mut f, "rise", text::decimal_of(o.track_rise as u64).as_str());
        assert(template::field_views(f@) =~= forward_script_fields(*o));
        let filled = fill(texts::SCRIPT_FORWARD, &f);
        out.push_str(filled.as_str());
        assert(!o.enable_track_backends ==> out@ =~= filled@);
    }
    if !any {
        out.push_str(texts::SCRIPTS_DISABLED);
        assert(out@ =~= texts::SCRIPTS_DISABLED@);
    }
    out
}

/// The tracking of interfaces.
pub open spec fn track_interface_block(o: Options) -> Seq<char> {
    template::filled(
        if o.enable_track_interface {
            texts::TRACK_INTERFACE@
        } else {
            texts::TRACK_INTERFACE_DISABLED@
        },
        interface_fields(o),
    )
}

/// Writes the tracking of both interfaces, as a comment where it is not enabled.
pub fn render_track_interface_block(o: &Options) -> (out: String)
    ensures
        out@ == track_interface_block(*o),
{
    let mut f: Vec<(String, String)> = Vec::new();
    assert(template::field_views(f@) =~= Seq::empty());
    put(&mut f, "iface_outside", o.iface_outside.as_str());
    put(&mut f, "iface_inside", o.iface_inside.as_str());
    assert(template::field_views(f@) =~= interface_fields(*o));
    if o.enable_track_interface {
        fill(texts::TRACK_INTERFACE, &f)
    } else {
        fill(texts::TRACK_INTERFACE_DISABLED, &f)
    }
}

/// The references to the checks.
pub open spec fn track_scripts_block(o: Options) -> Seq<char> {
    template::filled(
        texts::TRACK_SCRIPTS@,
        reference_fields(o),
    )
}

/// Writes the references to the checks, as comments where they are not enabled.
pub fn render_track_scripts_references(o: &Options) -> (out: String)
    ensures
        out@ == track_scripts_block(*o),
{
    let mut f: Vec<(String, String)> = Vec::new();
    assert(template::field_views(f@) =~= Seq::empty());
    if o.enable_track_backends {
        put(&mut f, "backends_line", "        chk_backends\n");
    } else {
        put(
            &mut f,
            "backends_line",
            "        # chk_backends    (enable with --enable-track-backends)\n",
        );
    }
    if o.enable_track_forward {
        put(&mut f, "forward_line", "        chk_forward_path\n");
    } else {
        put(
            &mut f,
            "forward_line",
            "        # chk_forward_path    (enable with --enable-track-forward --track-probe-host <IP>)\n",
        );
    }
    assert(template::field_views(f@) =~= reference_fields(*o));
    fill(texts::TRACK_SCRIPTS, &f)
}

/// The priority of a role.
pub open spec fn priority(o: Options, role: Role) -> u8 {
    match role {
        Role::Master => o.priority_master,
        Role::Backup => o.priority_backup,
    }
}

/// The file of VRRP instances. The master does not take its role back once it
/// has lost it.
pub open spec fn vrrp_conf(o: Options, d: InstanceData, ts: Seq<char>) -> Seq<char> {
    template::filled(
        texts::VRRP_CONF@,
        vrrp_fields(o, d, ts),
    )
}

/// Writes the file of VRRP instances at the time `ts`.
pub fn render_vrrp_conf(o: &Options, d: &InstanceData, ts: &str) -> (out: String)
    ensures
        out@ == vrrp_conf(*o, *d, ts@),
{
    let prio: u8 = match d.role {
        Role::Master => o.priority_master,
        Role::Backup => o.priority_backup,
    };
    let mut f: Vec<(String, String)> = Vec::new();
    assert(template::field_views(f@) =~= Seq::empty());
    put(&mut f, "instance_id", d.instance_id.as_str());
    put(&mut f, "role", d.role.as_str());
    put(&mut f, "ts", ts);
    put(&mut f, "out", o.out.as_str());
    put(&mut f, "notify_master", o.notify_master_out.as_str());
    put(&mut f, "notify_backup", o.notify_backup_out.as_str());
    put(&mut f, "vip_outside", o.vip_outside.as_str());
    put(&mut f, "vip_inside", o.vip_inside.as_str());
    put(&mut f, "iface_outside", o.iface_outside.as_str());
    put(&mut f, "iface_inside", o.iface_inside.as_str());
    put(&mut f, "vrid_outside", text::decimal_of(o.vrid_outside as u64).as_str());
    put(&mut f, "vrid_inside", text::decimal_of(o.vrid_inside as u64).as_str());
    put(&mut f, "priority", text::decimal_of(prio as u64).as_str());
    put(&mut f, "advert_int", text::decimal_of(o.advert_int as u64).as_str());
    put(&mut f, "down_timer_adverts", text::decimal_of(o.down_timer_adverts as u64).as_str());
    match d.role {
        Role::Master => {
            put(&mut f, "nopreempt", "    nopreempt\n");
        },
        Role::Backup => {
            put(&mut f, "nopreempt", "");
        },
    }
    put(&mut f, "src_inside", d.inside.primary_ip.as_str());
    put(&mut f, "peer_inside", d.peer_inside_ip.as_str());
    put(&mut f, "auth_pass", o.auth_pass.as_str());
    put(&mut f, "state", d.role.vrrp_state());
    put(&mut f, "vrrp_scripts_block", render_vrrp_scripts_definitions(o).as_str());
    put(&mut f, "track_iface_block", render_track_interface_block(o).as_str());
    put(&mut f, "track_scripts_block", render_track_scripts_references(o).as_str());
    assert(template::field_views(f@) =~= vrrp_fields(*o, *d, ts@));
    fill(texts::VRRP_CONF, &f)
}

/// The script that claims both virtual addresses.
pub open spec fn notify_master(o: Options, d: InstanceData, ts: Seq<char>) -> Seq<char> {
    template::filled(
        texts::NOTIFY_MASTER@,
        master_fields(o, d, ts),
    )
}

/// Writes the script that claims both virtual addresses, at the time `ts`.
pub fn render_notify_master(o: &Options, d: &InstanceData, ts: &str) -> (out: String)
    ensures
        out@ == notify_master(*o, *d, ts@),
{
    let mut f: Vec<(String, String)> = Vec::new();
    assert(template::field_views(f@) =~= Seq::empty());
    put(&mut f, "instance_id", d.instance_id.as_str());
    put(&mut f, "ts", ts);
    put(&mut f, "assign", o.assign_bin.as_str());
    put(&mut f, "vip_outside", o.vip_outside.as_str());
    put(&mut f, "vip_inside", o.vip_inside.as_str());
    put(&mut f, "eni_inside", d.inside.eni_id.as_str());
    put(&mut f, "region", o.region.as_str());
    assert(template::field_views(f@) =~= master_fields(*o, *d, ts@));
    fill(texts::NOTIFY_MASTER, &f)
}

/// The script for the transition to backup.
pub open spec fn notify_backup(ts: Seq<char>) -> Seq<char> {
    template::filled(texts::NOTIFY_BACKUP@, backup_fields(ts))
}

/// Writes the script for the transition to backup, at the time `ts`.
pub fn render_notify_backup(ts: &str) -> (out: String)
    ensures
        out@ == notify_backup(ts@),
{
    let mut f: Vec<(String, String)> = Vec::new();
    assert(template::field_views(f@) =~= Seq::empty());
    put(&mut f, "ts", ts);
    assert(template::field_views(f@) =~= backup_fields(ts@));
    fill(texts::NOTIFY_BACKUP, &f)
}

/// The script of the backend check.
pub open spec fn chk_backends(o: Options, ts: Seq<char>) -> Seq<char> {
    template::filled(
        texts::CHK_BACKENDS@,
        chk_backends_fields(o, ts),
    )
}

/// Writes the script of the backend check, at the time `ts`.
pub fn render_chk_backends(o: &Options, ts: &str) -> (out: String)
    ensures
        out@ == chk_backends(*o, ts@),
{
    let mut f: Vec<(String, String)> = Vec::new();
    assert(template::field_views(f@) =~= Seq::empty());
    put(&mut f, "ts", ts);
    if o.enable_track_backends {
        put(
            &mut f,
            "enabled_note",
            "# Status: ACTIVE — referenced in vrrp.conf track_script block.",
        );
    } else {
        put(
            &mut f,
            "enabled_note",
            "# Status: NOT YET ACTIVE — re-run keepalived-config with --enable-track-backends.",
        );
    }
    put(&mut f, "script", o.chk_backends_out.as_str());
    put(&mut f, "min_active", text::decimal_of(o.track_min_backends as u64).as_str());
    assert(template::field_views(f@) =~= chk_backends_fields(*o, ts@));
    fill(texts::CHK_BACKENDS, &f)
}

/// The script of the forward-path check.
pub open spec fn chk_forward_path(o: Options, d: InstanceData, ts: Seq<char>) -> Seq<char> {
    template::filled(
        texts::CHK_FORWARD@,
        chk_forward_fields(o, d, ts),
    )
}

/// Writes the script of the forward-path check, at the time `ts`.
pub fn render_chk_forward_path(o: &Options, d: &InstanceData, ts: &str) -> (out: String)
    ensures
        out@ == chk_forward_path(*o, *d, ts@),
{
    let mut f: Vec<(String, String)> = Vec::new();
    assert(template::field_views(f@) =~= Seq::empty());
    put(&mut f, "ts", ts);
    if o.enable_track_forward {
        put(
            &mut f,
            "enabled_note",
            "# Status: ACTIVE — referenced in vrrp.conf track_script block.",
        );
    } else {
        put(
            &mut f,
            "enabled_note",
            "# Status: NOT YET ACTIVE — re-run keepalived-config with --enable-track-forward --track-probe-host <IP>.",
        );
    }
    put(&mut f, "script", o.chk_forward_out.as_str());
    match &o.track_probe_host {
        Some(h) => {
            put(&mut f, "probe_host", h.as_str());
        },
        None => {
            put(&mut f, "probe_host", "<not configured — set --track-probe-host>");
        },
    }
    put(&mut f, "probe_port", text::decimal_of(o.track_probe_port as u64).as_str());
    put(&mut f, "probe_timeout", text::decimal_of(o.track_probe_timeout as u64).as_str());
    put(&mut f, "src_ip", d.inside.primary_ip.as_str());
    assert(template::field_views(f@) =~= chk_forward_fields(*o, *d, ts@));
    fill(texts::CHK_FORWARD, &f)
}

/// One file to write.
#[derive(Debug)]
pub struct OutFile {
    pub path: String,
    pub content: String,
    /// Permission bits.
    pub mode: u32,
}

/// Whether a file is to be written there, with these permissions and a content
/// that `text` gives for some time.
pub open spec fn is_file(
    f: OutFile,
    path: Seq<char>,
    mode: u32,
    text: spec_fn(Seq<char>) -> Seq<char>,
) -> bool {
    &&& f.path@ == path
    &&& f.mode == mode
    &&& exists|ts: Seq<char>| f.content@ == #[trigger] text(ts)
}

/// Permission bits of the file of VRRP instances: it holds a password.
pub const CONF_MODE: u32 = 0o640;

/// Permission bits of the scripts.
pub const SCRIPT_MODE: u32 = 0o750;

/// All files, in the order in which they are written. The time in them is read
/// from the system clock.
pub fn render_all(o: &Options, d: &InstanceData) -> (out: Vec<OutFile>)
    ensures
        out@.len() == 5,
        is_file(out@[0], o.out@, CONF_MODE, |ts: Seq<char>| vrrp_conf(*o, *d, ts)),
        is_file(
            out@[1],
            o.notify_master_out@,
            SCRIPT_MODE,
            |ts: Seq<char>| notify_master(*o, *d, ts),
        ),
        is_file(out@[2], o.notify_backup_out@, SCRIPT_MODE, |ts: Seq<char>| notify_backup(ts)),
        is_file(out@[3], o.chk_backends_out@, SCRIPT_MODE, |ts: Seq<char>| chk_backends(*o, ts)),
        is_file(
            out@[4],
            o.chk_forward_out@,
            SCRIPT_MODE,
            |ts: Seq<char>| chk_forward_path(*o, *d, ts),
        ),
{
    let ts = utc_iso_now();
    let t = ts.as_str();
    let mut out: Vec<OutFile> = Vec::new();
    out.push(
        OutFile {
            path: text::copy_str(o.out.as_str()),
            content: render_vrrp_conf(o, d, t),
            mode: CONF_MODE,
        },
    );
    out.push(
        OutFile {
            path: text::copy_str(o.notify_master_out.as_str()),
            content: render_notify_master(o, d, t),
            mode: SCRIPT_MODE,
        },
    );
    out.push(
        OutFile {
            path: text::copy_str(o.notify_backup_out.as_str()),
            content: render_notify_backup(t),
            mode: SCRIPT_MODE,
        },
    );
    out.push(
        OutFile {
            path: text::copy_str(o.chk_backends_out.as_str()),
            content: render_chk_backends(o, t),
            mode: SCRIPT_MODE,
        },
    );
    out.push(
        OutFile {
            path: text::copy_str(o.chk_forward_out.as_str()),
            content: render_chk_forward_path(o, d, t),
            mode: SCRIPT_MODE,
        },
    );
    proof {
        let f0 = |x: Seq<char>| vrrp_conf(*o, *d, x);
        let f1 = |x: Seq<char>| notify_master(*o, *d, x);
        let f2 = |x: Seq<char>| notify_backup(x);
        let f3 = |x: Seq<char>| chk_backends(*o, x);
        let f4 = |x: Seq<char>| chk_forward_path(*o, *d, x);
        assert(f0(t@) == out@[0].content@);
        assert(f1(t@) == out@[1].content@);
        assert(f2(t@) == out@[2].content@);
        assert(f3(t@) == out@[3].content@);
        assert(f4(t@) == out@[4].content@);
    }
    out
}

proof fn lemma_field_at(f: Seq<(Seq<char>, Seq<char>)>, i: int)
    requires
        0 <= i < f.len(),
        forall|j: int| 0 <= j < i ==> (#[trigger] f[j]).0 != f[i].0,
    ensures
        template::value_of(f, f[i].0, 0) == f[i].1,
{
    template::law_field_value(f, f[i].0, i);
}

/// What tells the two load balancers apart in the configuration: each gets the
/// priority of its role, only the master must not preempt, and both start as
/// backups. It speaks from its own inside address to that of the other one.
pub proof fn law_configuration_by_role(o: Options, d: InstanceData, ts: Seq<char>)
    ensures
        ({
            let f = vrrp_fields(o, d, ts);
            &&& d.role is Master ==> template::value_of(f, "priority"@, 0) == text::decimal(
                o.priority_master as nat,
            )
            &&& d.role is Backup ==> template::value_of(f, "priority"@, 0) == text::decimal(
                o.priority_backup as nat,
            )
            &&& d.role is Master ==> template::value_of(f, "nopreempt"@, 0) == "    nopreempt\n"@
            &&& d.role is Backup ==> template::value_of(f, "nopreempt"@, 0) == ""@
            &&& template::value_of(f, "state"@, 0) == "BACKUP"@
            &&& template::value_of(f, "src_inside"@, 0) == d.inside.primary_ip@
            &&& template::value_of(f, "peer_inside"@, 0) == d.peer_inside_ip@
            &&& template::value_of(f, "auth_pass"@, 0) == o.auth_pass@
            &&& template::value_of(f, "down_timer_adverts"@, 0) == text::decimal(
                o.down_timer_adverts as nat,
            )
        }),
{
    let f = vrrp_fields(o, d, ts);
    reveal_strlit("instance_id");
    reveal_strlit("role");
    reveal_strlit("ts");
    reveal_strlit("out");
    reveal_strlit("notify_master");
    reveal_strlit("notify_backup");
    reveal_strlit("vip_outside");
    reveal_strlit("vip_inside");
    reveal_strlit("iface_outside");
    reveal_strlit("iface_inside");
    reveal_strlit("vrid_outside");
    reveal_strlit("vrid_inside");
    reveal_strlit("priority");
    reveal_strlit("advert_int");
    reveal_strlit("down_timer_adverts");
    reveal_strlit("nopreempt");
    reveal_strlit("src_inside");
    reveal_strlit("peer_inside");
    reveal_strlit("auth_pass");
    reveal_strlit("state");
    assert("instance_id"@.len() == 11 && "instance_id"@[0] == 'i');
    assert("role"@.len() == 4 && "ts"@.len() == 2 && "out"@.len() == 3);
    assert("notify_master"@.len() == 13 && "notify_backup"@.len() == 13);
    assert("vip_outside"@.len() == 11 && "vip_outside"@[0] == 'v');
    assert("vip_inside"@.len() == 10 && "vip_inside"@[0] == 'v');
    assert("iface_outside"@.len() == 13 && "iface_inside"@.len() == 12);
    assert("vrid_outside"@.len() == 12);
    assert("vrid_inside"@.len() == 11 && "vrid_inside"@[0] == 'v');
    assert("priority"@.len() == 8);
    assert("advert_int"@.len() == 10 && "advert_int"@[0] == 'a');
    assert("down_timer_adverts"@.len() == 18);
    assert("nopreempt"@.len() == 9 && "nopreempt"@[0] == 'n');
    assert("src_inside"@.len() == 10 && "src_inside"@[0] == 's');
    assert("peer_inside"@.len() == 11 && "peer_inside"@[0] == 'p');
    assert("auth_pass"@.len() == 9 && "auth_pass"@[0] == 'a');
    assert("state"@.len() == 5);
    lemma_field_at(f, 12);
    lemma_field_at(f, 14);
    lemma_field_at(f, 15);
    lemma_field_at(f, 16);
    lemma_field_at(f, 17);
    lemma_field_at(f, 18);
    lemma_field_at(f, 19);
}

/// The checks that are switched on are defined, and no others.
pub proof fn law_enabled_checks_are_defined(o: Options)
    ensures
        ({
            let backends = template::filled(texts::SCRIPT_BACKENDS@, backends_script_fields(o));
            let forward = template::filled(texts::SCRIPT_FORWARD@, forward_script_fields(o));
            &&& o.enable_track_backends && o.enable_track_forward ==> scripts_definitions(o)
                == backends + forward
            &&& o.enable_track_backends && !o.enable_track_forward ==> scripts_definitions(o)
                == backends
            &&& !o.enable_track_backends && o.enable_track_forward ==> scripts_definitions(o)
                == forward
            &&& !o.enable_track_backends && !o.enable_track_forward ==> scripts_definitions(o)
                == texts::SCRIPTS_DISABLED@
        }),
{
}

} // verus!
