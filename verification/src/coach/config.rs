//! Configuration of a coach, from environment variables.

use vstd::prelude::*;

use crate::text;

verus! {

/// Configuration of one coach.
#[derive(Debug)]
pub struct Config {
    /// Port for agents.
    pub grpc_port: u16,
    /// Port for dashboards and operators.
    pub http_port: u16,
    /// A plan file to start with.
    pub plan_file: Option<String>,
    /// A directory of plan files; goes before `plan_file`.
    pub plan_dir: Option<String>,
    /// Directory of the record files.
    pub record_dir: String,
}

/// The values of the variables; `None` where one is not set.
#[derive(Debug)]
pub struct Variables {
    /// `AEROCOACH_GRPC_PORT`
    pub grpc_port: Option<String>,
    /// `AEROCOACH_HTTP_PORT`
    pub http_port: Option<String>,
    /// `AEROCOACH_PLAN_FILE`
    pub plan_file: Option<String>,
    /// `AEROCOACH_PLAN_DIR`
    pub plan_dir: Option<String>,
    /// `AEROCOACH_RECORD_DIR`
    pub record_dir: Option<String>,
}

/// A variable that cannot be read.
#[derive(Debug, Clone, Copy, PartialEq, Eq, Structural)]
pub enum ConfigError {
    GrpcPort,
    HttpPort,
}

impl ConfigError {
    /// The error in words.
    pub open spec fn text(self) -> Seq<char> {
        match self {
            ConfigError::GrpcPort =>
                "AEROCOACH_GRPC_PORT must be a valid port number (0–65535)"@,
            ConfigError::HttpPort =>
                "AEROCOACH_HTTP_PORT must be a valid port number (0–65535)"@,
        }
    }

    /// The error in words; it names the variable.
    pub fn to_string(&self) -> (out: String)
        ensures
            out@ == self.text(),
    {
        match self {
            ConfigError::GrpcPort => text::copy_str(
                "AEROCOACH_GRPC_PORT must be a valid port number (0–65535)",
            ),
            ConfigError::HttpPort => text::copy_str(
                "AEROCOACH_HTTP_PORT must be a valid port number (0–65535)",
            ),
        }
    }
}

/// The port that a variable gives; `None` where it is no port.
pub open spec fn port_of(value: Option<Seq<char>>, default: u16) -> Option<nat> {
    match value {
        Some(s) => text::parse_max(s, u16::MAX as nat),
        None => Some(default as nat),
    }
}

/// The port that a variable gives, or the default where it is not set.
pub fn parse_opt(value: &Option<String>, default: u16) -> (r: Option<u16>)
    ensures
        match r {
            Some(p) => port_of(text::opt_text(*value), default) == Some(p as nat),
            None => port_of(text::opt_text(*value), default) is None,
        },
{
    match value {
        Some(s) => match text::parse_up_to(s.as_str(), u16::MAX as u64) {
            Some(p) => Some(p as u16),
            None => None,
        },
        None => Some(default),
    }
}

impl Config {
    /// The configuration that the variables give. Ports must be numbers up to
    /// 65535; everything that is not set has a default.
    pub fn from_source(vars: &Variables) -> (r: Result<Config, ConfigError>)
        ensures
            match r {
                Ok(c) => {
                    &&& port_of(text::opt_text(vars.grpc_port), 50051) == Some(c.grpc_port as nat)
                    &&& port_of(text::opt_text(vars.http_port), 8080) == Some(c.http_port as nat)
                    &&& text::opt_text(c.plan_file) == text::opt_text(vars.plan_file)
                    &&& text::opt_text(c.plan_dir) == text::opt_text(vars.plan_dir)
                    &&& c.record_dir@ == (match vars.record_dir {
                        Some(d) => d@,
                        None => "/data/records"@,
                    })
                },
                Err(ConfigError::GrpcPort) => port_of(
                    text::opt_text(vars.grpc_port),
                    50051,
                ) is None,
                Err(ConfigError::HttpPort) => port_of(text::opt_text(vars.grpc_port), 50051) is Some
                    && port_of(text::opt_text(vars.http_port), 8080) is None,
            },
    {
        let grpc_port: u16 = match parse_opt(&vars.grpc_port, 50051) {
            Some(p) => p,
            None => {
                return Err(ConfigError::GrpcPort);
            },
        };
        let http_port: u16 = match parse_opt(&vars.http_port, 8080) {
            Some(p) => p,
            None => {
                return Err(ConfigError::HttpPort);
            },
        };
        Ok(
            Config {
                grpc_port,
                http_port,
                plan_file: text::copy_opt(&vars.plan_file),
                plan_dir: text::copy_opt(&vars.plan_dir),
                record_dir: match &vars.record_dir {
                    Some(d) => text::copy_str(d.as_str()),
                    None => text::copy_str("/data/records"),
                },
            },
        )
    }
}

/// A port is the number that its variable holds where that is at most 65535, and the
/// default where there is no variable.
pub proof fn law_ports(n: nat, default: u16)
    ensures
        port_of(None, default) == Some(default as nat),
        n <= 65535 ==> port_of(Some(text::decimal(n)), default) == Some(n),
        n > 65535 ==> port_of(Some(text::decimal(n)), default) is None,
{
    text::law_decimal_round_trip(n);
}

} // verus!
