//! The texts of the files, with fields to fill in.

use vstd::prelude::*;

verus! {

/// The file of VRRP instances.
pub const VRRP_CONF: &'static str = r#"# ── VRRP — generated by keepalived-config ────────────────────────────────────
# Instance  : %{instance_id}
# Role      : %{role}
# Generated : %{ts}
#
# DO NOT EDIT MANUALLY — re-run keepalived-config to regenerate.
#
# Add to /etc/keepalived/keepalived.conf:
#   include "%{out}"
%{vrrp_scripts_block}
vrrp_sync_group VG_LB {
    group {
        VI_OUTSIDE
        VI_INSIDE
    }
    # The sync group ensures both VIPs always move together — you will never
    # end up with the outside VIP on one node and the inside VIP on the other.
    # notify_master fires once per group transition, not once per instance.
    notify_master "%{notify_master}"
    notify_backup "%{notify_backup}"
}

# ── Outside (public-facing) VIP: %{vip_outside} ───────────────────────────────

vrrp_instance VI_OUTSIDE {
    state             %{state}
    # interface must be the inside interface (eth1) so the VRRP socket's
    # SO_BINDTODEVICE forces heartbeat packets through the stable inside
    # network.  Without this, VI_OUTSIDE heartbeats are sent via eth0 and
    # can be dropped by AWS routing before reaching the peer, causing the
    # sync group to force a spurious MASTER election even when VI_INSIDE
    # heartbeats are arriving correctly.
    # The outside VIP is still placed on eth0 via 'dev' in virtual_ipaddress.
    interface         %{iface_inside}
    virtual_router_id %{vrid_outside}
    priority          %{priority}
    advert_int        %{advert_int}
    down_timer_adverts %{down_timer_adverts}
%{nopreempt}
    # AWS VPC drops VRRP multicast (224.0.0.18); unicast is required.
    # Both vrrp_instances use the inside (eth1) network for heartbeats —
    # the inside IPs are fixed and stable, making this the most reliable
    # unicast link regardless of which VIP is being managed.
    unicast_src_ip  %{src_inside}
    unicast_peer {
        %{peer_inside}
    }

    authentication {
        auth_type PASS
        auth_pass %{auth_pass}
    }
%{track_iface_block}%{track_scripts_block}
    # /32 avoids injecting an unwanted subnet route into the local routing table.
    virtual_ipaddress {
        %{vip_outside}/32 dev %{iface_outside}
    }
}

# ── Inside (server-facing) VIP: %{vip_inside} ─────────────────────────────────

vrrp_instance VI_INSIDE {
    state             %{state}
    interface         %{iface_inside}
    virtual_router_id %{vrid_inside}
    priority          %{priority}
    advert_int        %{advert_int}
    down_timer_adverts %{down_timer_adverts}
%{nopreempt}
    unicast_src_ip  %{src_inside}
    unicast_peer {
        %{peer_inside}
    }

    authentication {
        auth_type PASS
        auth_pass %{auth_pass}
    }
%{track_iface_block}%{track_scripts_block}
    virtual_ipaddress {
        %{vip_inside}/32 dev %{iface_inside}
    }
}
"#;

/// The definition of the backend check.
pub const SCRIPT_BACKENDS: &'static str = r#"
vrrp_script chk_backends {
    script   "%{script}"
    interval %{interval}
    weight   %{weight}
    fall     %{fall}
    rise     %{rise}
    # Queries IPVS via ipvsadm.  Fails if fewer than %{min} real server(s) are
    # active.  Both nodes failing simultaneously does not cause a failover
    # because both priorities drop equally and the master retains its lead.
}
"#;

/// The definition of the forward-path check.
pub const SCRIPT_FORWARD: &'static str = r#"
vrrp_script chk_forward_path {
    script   "%{script}"
    interval %{interval}
    weight   %{weight}
    fall     %{fall}
    rise     %{rise}
    # TCP-probes a real server through eth1.  Source-bound to eth1's own IP
    # so a broken eth1 cannot silently pass the check via eth0.
}
"#;

/// What stands in place of the definitions where no check is enabled.
pub const SCRIPTS_DISABLED: &'static str = r#"
# ── track_script definitions (currently disabled) ────────────────────────────
# Re-run keepalived-config with one or more of the flags below to activate:
#
#   --enable-track-backends          query IPVS; fail if < N real servers active
#   --enable-track-forward           TCP-probe a real server through eth1
#
# Both script files have been written and can be tested manually:
#   /etc/keepalived/chk-backends.sh
#   /etc/keepalived/chk-forward-path.sh
"#;

/// The tracking of interfaces.
pub const TRACK_INTERFACE: &'static str = r#"
    track_interface {
        %{iface_outside}
        %{iface_inside}
    }
"#;

/// The tracking of interfaces where it is not enabled.
pub const TRACK_INTERFACE_DISABLED: &'static str = r#"
    # track_interface disabled — enable with --enable-track-interface and regenerate.
    # track_interface {
    #     %{iface_outside}
    #     %{iface_inside}
    # }
"#;

/// The references to the checks.
pub const TRACK_SCRIPTS: &'static str = r#"
    track_script {
%{backends_line}%{forward_line}    }
"#;

/// The script that claims the virtual addresses.
pub const NOTIFY_MASTER: &'static str = r#"#!/bin/sh
# notify-master.sh — generated by aeropulse for %{instance_id}
# Generated : %{ts}
# DO NOT EDIT MANUALLY — re-run aeropulse to regenerate.
#
# Called by keepalived when this node's sync group (VG_LB) transitions to
# MASTER.  Claims both virtual IPs at the AWS EC2 control plane using
# AllowReassignment=true so they are stolen from the previous holder
# atomically, without requiring a prior unassign step.

set -eu

log() { logger -t keepalived-notify "notify-master[${TYPE:-?}/${NAME:-?}]: $*"; }

TYPE="${1:-}"
NAME="${2:-}"
STATE="${3:-}"

log "Transitioning to MASTER on %{instance_id} — claiming VIPs …"

# Outside VIP — defaults to primary ENI (eth0), no --eni flag needed.
%{assign} assign-ip \
    --ip %{vip_outside} \
    --region %{region} \
    --allow-reassignment \
    --assign \
    && log "Outside VIP %{vip_outside} assigned." \
    || { log "ERROR: failed to assign outside VIP %{vip_outside}"; exit 1; }

# Inside VIP — must specify eth1's ENI ID explicitly.
%{assign} assign-ip \
    --ip %{vip_inside} \
    --eni %{eni_inside} \
    --region %{region} \
    --allow-reassignment \
    --assign \
    && log "Inside VIP %{vip_inside} assigned." \
    || { log "ERROR: failed to assign inside VIP %{vip_inside}"; exit 1; }

log "Both VIPs claimed successfully."
"#;

/// The script for the transition to backup.
pub const NOTIFY_BACKUP: &'static str = r#"#!/bin/sh
# notify-backup.sh — generated by aeropulse
# Generated : %{ts}
# DO NOT EDIT MANUALLY — re-run aeropulse to regenerate.
#
# Called by keepalived when this node's sync group (VG_LB) transitions to
# BACKUP.  No AWS API action is needed: the new MASTER will call
# aeroplug assign-ip --allow-reassignment to atomically claim both VIPs.
# keepalived removes the virtual_ipaddress entries from the OS interfaces
# automatically as part of the BACKUP transition.

set -eu

logger -t keepalived-notify \
    "notify-backup[${1:-?}/${2:-?}]: transitioned to BACKUP — no AWS action needed."

exit 0
"#;

/// The script of the backend check.
pub const CHK_BACKENDS: &'static str = r#"#!/bin/sh
# chk-backends.sh — generated by keepalived-config
# Generated : %{ts}
# %{enabled_note}
#
# Checks that at least MIN_ACTIVE real servers are currently active in IPVS.
# "Active" means weight > 0, i.e. keepalived's own health checks consider the
# server reachable.
#
# Returns 0 (healthy) or 1 (failed — triggers weight penalty in VRRP election).
#
# Requires: ipvsadm
# Test:     %{script} && echo OK || echo FAIL

MIN_ACTIVE=%{min_active}

# ipvsadm -l -n lists real servers as lines starting with "  ->".
# Column 4 is the weight; 0 means the server has been marked down.
ACTIVE=$(ipvsadm -l -n 2>/dev/null \
    | awk '/^[[:space:]]*->/ { if ($4 > 0) count++ } END { print count+0 }')

if [ "${ACTIVE}" -ge "${MIN_ACTIVE}" ]; then
    exit 0
else
    logger -t keepalived-track \
        "chk-backends: ${ACTIVE} active backend(s), minimum is ${MIN_ACTIVE}"
    exit 1
fi
"#;

/// The script of the forward-path check.
pub const CHK_FORWARD: &'static str = r#"#!/bin/sh
# chk-forward-path.sh — generated by keepalived-config
# Generated : %{ts}
# %{enabled_note}
#
# Verifies the actual forwarding path through eth1 to a real server by
# attempting a TCP connection.  The probe is source-bound to eth1's own
# private IP (%{src_ip}) so a broken or mis-routed eth1 cannot silently pass
# via eth0, which would give a false positive.
#
# Returns 0 (healthy) or 1 (failed — triggers weight penalty in VRRP election).
#
# Requires: nc (netcat — available via busybox on Alpine)
# Test:     %{script} && echo OK || echo FAIL

PROBE_HOST="%{probe_host}"
PROBE_PORT=%{probe_port}
PROBE_TIMEOUT=%{probe_timeout}
SRC_IP="%{src_ip}"

nc -z -s "${SRC_IP}" -w "${PROBE_TIMEOUT}" "${PROBE_HOST}" "${PROBE_PORT}" \
    >/dev/null 2>&1

if [ $? -ne 0 ]; then
    logger -t keepalived-track \
        "chk-forward-path: cannot reach ${PROBE_HOST}:${PROBE_PORT} via ${SRC_IP} (eth1)"
    exit 1
fi

exit 0
"#;

} // verus!
