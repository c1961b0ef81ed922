//! Configuration of the aggregator, read from environment variables:
//! `BEEMON_GRPC_ENDPOINT` (the daemon to dial) and `BEEMON_HTTP_PORT`.

use vstd::prelude::*;

use crate::config::{lookup, lookup_ok, looks_up, num_setting};
use crate::text::{parse_u16, parse_u16_spec};

verus! {

/// Aggregator settings.
pub struct Config {
    pub grpc_endpoint: String,
    pub http_port: u16,
}

/// `c` is the configuration that the answers of `var` give: the endpoint
/// when set, else `127.0.0.1:50051`; the port when set and valid, else 8080.
pub open spec fn config_from<F: Fn(&str) -> Option<String>>(var: F, c: Config) -> bool {
    &&& exists|o: Option<String>|
        looks_up(var, "BEEMON_GRPC_ENDPOINT"@, o) && c.grpc_endpoint@ == match o {
            Some(e) => e@,
            None => "127.0.0.1:50051"@,
        }
    &&& exists|o: Option<String>|
        looks_up(var, "BEEMON_HTTP_PORT"@, o) && c.http_port == num_setting(
            o,
            |s: Seq<char>| parse_u16_spec(s),
            8080u16,
        )
}

impl Config {
    /// Reads the configuration from the variables that `var` answers.
    pub fn from_vars<F: Fn(&str) -> Option<String>>(var: &F) -> (c: Config)
        requires
            lookup_ok(*var),
        ensures
            config_from(*var, c),
    {
        let endpoint = lookup(var, "BEEMON_GRPC_ENDPOINT");
        let grpc_endpoint = match &endpoint {
            Some(e) => e.clone(),
            None => "127.0.0.1:50051".to_string(),
        };
        let port = lookup(var, "BEEMON_HTTP_PORT");
        let http_port = match &port {
            Some(p) => match parse_u16(p.as_str()) {
                Some(n) => n,
                None => 8080,
            },
            None => 8080,
        };
        assert(looks_up(*var, "BEEMON_GRPC_ENDPOINT"@, endpoint));
        assert(looks_up(*var, "BEEMON_HTTP_PORT"@, port) && http_port == num_setting(
            port,
            |s: Seq<char>| parse_u16_spec(s),
            8080u16,
        ));
        Config { grpc_endpoint, http_port }
    }
}

} // verus!
