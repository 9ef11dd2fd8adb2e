//! Configuration of an agent, from environment variables.

use vstd::prelude::*;

use crate::text;

verus! {

/// Configuration of one agent.
#[derive(Debug)]
pub struct Config {
    /// Unique among the agents.
    pub agent_id: String,
    /// Where the coach listens.
    pub aerocoach_url: String,
    /// Host and port of the FTP server.
    pub ftp_target: String,
    pub ftp_user: String,
    pub ftp_pass: String,
    /// Directory of the files to upload.
    pub work_dir: String,
    pub private_ip: String,
    pub instance_id: String,
    /// The fraction of a slice within which a finished transfer is replaced, as
    /// the bit pattern of a double-precision number.
    pub refill_threshold_bits: u64,
}

/// The value of `AEROGYM_REFILL_THRESHOLD`.
#[derive(Debug, Clone, Copy, PartialEq, Eq, Structural)]
pub enum Threshold {
    Unset,
    NotANumber,
    /// The bit pattern of a double-precision number.
    Number { bits: u64 },
}

/// The values of the variables; `None` where one is not set.
#[derive(Debug)]
pub struct Variables {
    /// `AEROGYM_AGENT_ID`
    pub agent_id: Option<String>,
    /// `AEROCOACH_URL`
    pub aerocoach_url: Option<String>,
    /// `AEROSTRESS_TARGET`
    pub ftp_target: Option<String>,
    /// `AEROSTRESS_USER`
    pub ftp_user: Option<String>,
    /// `AEROSTRESS_PASS`
    pub ftp_pass: Option<String>,
    /// `AEROGYM_WORK_DIR`
    pub work_dir: Option<String>,
    /// `AEROGYM_PRIVATE_IP`
    pub private_ip: Option<String>,
    /// `AEROGYM_INSTANCE_ID`
    pub instance_id: Option<String>,
    /// `AEROGYM_REFILL_THRESHOLD`
    pub refill_threshold: Threshold,
}

/// What is wrong with the variables.
#[derive(Debug, Clone, Copy, PartialEq, Eq, Structural)]
pub enum ConfigError {
    AgentIdMissing,
    AgentIdEmpty,
    CoachUrlMissing,
    TargetMissing,
    ThresholdNotANumber,
    ThresholdOutOfRange,
}

/// The bit pattern of 0.8.
pub const DEFAULT_THRESHOLD_BITS: u64 = 0x3fe9_9999_9999_999a;

/// Whether a number is between 0 and 1, both included: the bit patterns of the
/// numbers from +0 on are ordered like the numbers, and −0 counts as 0.
pub open spec fn in_unit(bits: u64) -> bool {
    bits <= 0x3ff0_0000_0000_0000 || bits == 0x8000_0000_0000_0000
}

/// The text of a variable, or a default.
pub open spec fn value_or(o: Option<String>, default: Seq<char>) -> Seq<char> {
    match o {
        Some(s) => s@,
        None => default,
    }
}

/// The first thing that is wrong with the variables.
pub open spec fn first_error(v: Variables) -> Option<ConfigError> {
    if v.agent_id is None {
        Some(ConfigError::AgentIdMissing)
    } else if text::trim((v.agent_id->0)@).len() == 0 {
        Some(ConfigError::AgentIdEmpty)
    } else if v.aerocoach_url is None {
        Some(ConfigError::CoachUrlMissing)
    } else if v.ftp_target is None {
        Some(ConfigError::TargetMissing)
    } else {
        match v.refill_threshold {
            Threshold::Unset => None,
            Threshold::NotANumber => Some(ConfigError::ThresholdNotANumber),
            Threshold::Number { bits } => if in_unit(bits) {
                None
            } else {
                Some(ConfigError::ThresholdOutOfRange)
            },
        }
    }
}

/// The text of an error; see [`ConfigError::message`].
pub open spec fn error_text(e: ConfigError, number: Seq<char>) -> Seq<char> {
    match e {
        ConfigError::AgentIdMissing => "AEROGYM_AGENT_ID is required"@,
        ConfigError::AgentIdEmpty => "AEROGYM_AGENT_ID must not be empty"@,
        ConfigError::CoachUrlMissing =>
            "AEROCOACH_URL is required (e.g. http://10.0.1.5:50051)"@,
        ConfigError::TargetMissing => "AEROSTRESS_TARGET is required (e.g. 10.0.2.10:21)"@,
        ConfigError::ThresholdNotANumber => "AEROGYM_REFILL_THRESHOLD must be a number"@,
        ConfigError::ThresholdOutOfRange =>
            "AEROGYM_REFILL_THRESHOLD must be in the range 0.0–1.0, got "@ + number,
    }
}

impl ConfigError {
    /// The error in words. `number` is how the caller writes the threshold; the
    /// other errors do not use it.
    pub fn message(&self, number: &str) -> (out: String)
        ensures
            out@ == error_text(*self, number@),
    {
        match self {
            ConfigError::AgentIdMissing => text::copy_str("AEROGYM_AGENT_ID is required"),
            ConfigError::AgentIdEmpty => text::copy_str("AEROGYM_AGENT_ID must not be empty"),
            ConfigError::CoachUrlMissing => text::copy_str(
                "AEROCOACH_URL is required (e.g. http://10.0.1.5:50051)",
            ),
            ConfigError::TargetMissing => text::copy_str(
                "AEROSTRESS_TARGET is required (e.g. 10.0.2.10:21)",
            ),
            ConfigError::ThresholdNotANumber => text::copy_str(
                "AEROGYM_REFILL_THRESHOLD must be a number",
            ),
            ConfigError::ThresholdOutOfRange => {
                let mut out = text::copy_str(
                    "AEROGYM_REFILL_THRESHOLD must be in the range 0.0–1.0, got ",
                );
                out.push_str(number);
                out
            },
        }
    }
}

fn text_or(o: &Option<String>, default: &str) -> (out: String)
    ensures
        out@ == value_or(*o, default@),
{
    match o {
        Some(s) => text::copy_str(s.as_str()),
        None => text::copy_str(default),
    }
}

impl Config {
    /// The configuration that the variables give: id, coach and target are
    /// required, everything else has a default.
    pub fn from_source(v: &Variables) -> (r: Result<Config, ConfigError>)
        ensures
            match r {
                Err(e) => first_error(*v) == Some(e),
                Ok(c) => {
                    &&& first_error(*v) is None
                    &&& c.agent_id@ == (v.agent_id->0)@
                    &&& c.aerocoach_url@ == (v.aerocoach_url->0)@
                    &&& c.ftp_target@ == (v.ftp_target->0)@
                    &&& c.ftp_user@ == value_or(v.ftp_user, "test"@)
                    &&& c.ftp_pass@ == value_or(v.ftp_pass, "secret"@)
                    &&& c.work_dir@ == value_or(v.work_dir, "/tmp/aerogym"@)
                    &&& c.private_ip@ == value_or(v.private_ip, ""@)
                    &&& c.instance_id@ == value_or(v.instance_id, ""@)
                    &&& c.refill_threshold_bits == (match v.refill_threshold {
                        Threshold::Number { bits } => bits,
                        _ => DEFAULT_THRESHOLD_BITS,
                    })
                },
            },
    {
        let agent_id = match &v.agent_id {
            Some(s) => text::copy_str(s.as_str()),
            None => {
                return Err(ConfigError::AgentIdMissing);
            },
        };
        if text::is_blank(agent_id.as_str()) {
            return Err(ConfigError::AgentIdEmpty);
        }
        let aerocoach_url = match &v.aerocoach_url {
            Some(s) => text::copy_str(s.as_str()),
            None => {
                return Err(ConfigError::CoachUrlMissing);
            },
        };
        let ftp_target = match &v.ftp_target {
            Some(s) => text::copy_str(s.as_str()),
            None => {
                return Err(ConfigError::TargetMissing);
            },
        };
        let refill_threshold_bits: u64 = match v.refill_threshold {
            Threshold::Unset => DEFAULT_THRESHOLD_BITS,
            Threshold::NotANumber => {
                return Err(ConfigError::ThresholdNotANumber);
            },
            Threshold::Number { bits } => {
                if bits <= 0x3ff0_0000_0000_0000 || bits == 0x8000_0000_0000_0000 {
                    bits
                } else {
                    return Err(ConfigError::ThresholdOutOfRange);
                }
            },
        };
        Ok(
            Config {
                agent_id,
                aerocoach_url,
                ftp_target,
                ftp_user: text_or(&v.ftp_user, "test"),
                ftp_pass: text_or(&v.ftp_pass, "secret"),
                work_dir: text_or(&v.work_dir, "/tmp/aerogym"),
                private_ip: text_or(&v.private_ip, ""),
                instance_id: text_or(&v.instance_id, ""),
                refill_threshold_bits,
            },
        )
    }
}

/// The variables are accepted exactly where id, coach and target are set, the id is
/// not blank, and the threshold is not set or a number from 0 to 1. Every error
/// names something that is wrong.
pub proof fn law_accepted_variables(v: Variables)
    ensures
        first_error(v) is None <==> {
            &&& v.agent_id is Some && text::trim((v.agent_id->0)@).len() > 0
            &&& v.aerocoach_url is Some
            &&& v.ftp_target is Some
            &&& match v.refill_threshold {
                Threshold::Unset => true,
                Threshold::NotANumber => false,
                Threshold::Number { bits } => bits <= 0x3ff0_0000_0000_0000 || bits
                    == 0x8000_0000_0000_0000,
            }
        },
        match first_error(v) {
            None => true,
            Some(ConfigError::AgentIdMissing) => v.agent_id is None,
            Some(ConfigError::AgentIdEmpty) => v.agent_id is Some && text::trim(
                (v.agent_id->0)@,
            ).len() == 0,
            Some(ConfigError::CoachUrlMissing) => v.aerocoach_url is None,
            Some(ConfigError::TargetMissing) => v.ftp_target is None,
            Some(ConfigError::ThresholdNotANumber) => v.refill_threshold is NotANumber,
            Some(ConfigError::ThresholdOutOfRange) => v.refill_threshold is Number,
        },
{
}

} // verus!
