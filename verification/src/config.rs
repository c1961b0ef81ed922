//! Configuration of the monitoring daemon, read from environment variables:
//! `BEEMON_GRPC_ADDR` and `BEEMON_GRPC_PORT` (where the API listens),
//! `BEEMON_LOG_LEVEL`, `BEEMON_EVENT_LIMIT` and `BEEMON_RATES_POLL_MILLIS`.
//! A variable that is unset or does not parse leaves the default in place.

use vstd::prelude::*;

use crate::text::{dec_chars, parse_u16, parse_u16_spec, parse_u64, parse_u64_spec, parse_usize, parse_usize_spec, push_dec, push_str};

verus! {

/// The lookup `var`, asked for the variable named `name`, may answer `out`.
pub open spec fn looks_up<F: Fn(&str) -> Option<String>>(var: F, name: Seq<char>, out: Option<String>) -> bool {
    exists|p: &str| p@ == name && call_ensures(var, (p,), out)
}

/// The lookup accepts every name.
pub open spec fn lookup_ok<F: Fn(&str) -> Option<String>>(var: F) -> bool {
    forall|p: &str| call_requires(var, (p,))
}

/// Asks `var` for the variable `name`.
pub fn lookup<F: Fn(&str) -> Option<String>>(var: &F, name: &str) -> (out: Option<String>)
    requires
        lookup_ok(*var),
    ensures
        looks_up(*var, name@, out),
{
    var(name)
}

/// A numeric setting: the value of the variable when it parses, else `dflt`.
pub open spec fn num_setting<T>(out: Option<String>, parse: spec_fn(Seq<char>) -> Option<T>, dflt: T) -> T {
    match out {
        Some(s) => match parse(s@) {
            Some(n) => n,
            None => dflt,
        },
        None => dflt,
    }
}

/// Daemon settings.
#[derive(Clone, Debug)]
pub struct Config {
    pub grpc_addr: String,
    pub grpc_port: u16,
    pub log_directive: String,
    pub event_limit: usize,
    pub rates_poll_millis: u64,
}

impl Default for Config {
    fn default() -> (c: Self)
        ensures
            c.grpc_addr@ == "0.0.0.0"@,
            c.grpc_port == 50051,
            c.log_directive@ == "warn"@,
            c.event_limit == 150,
            c.rates_poll_millis == 1000,
    {
        Config {
            grpc_addr: "0.0.0.0".to_string(),
            grpc_port: 50051,
            log_directive: "warn".to_string(),
            event_limit: 150,
            rates_poll_millis: 1000,
        }
    }
}

/// `c` is the configuration that the answers of `var` give: each setting
/// from its variable when that is set and valid (a non-empty log level; a
/// poll period of at least 10 ms, smaller ones raised to 10), else its
/// default.
pub open spec fn config_from<F: Fn(&str) -> Option<String>>(var: F, c: Config) -> bool {
    &&& exists|o: Option<String>|
        looks_up(var, "BEEMON_GRPC_PORT"@, o) && c.grpc_port == num_setting(
            o,
            |s: Seq<char>| parse_u16_spec(s),
            50051u16,
        )
    &&& exists|o: Option<String>|
        looks_up(var, "BEEMON_GRPC_ADDR"@, o) && c.grpc_addr@ == match o {
            Some(a) => a@,
            None => "0.0.0.0"@,
        }
    &&& exists|o: Option<String>|
        looks_up(var, "BEEMON_LOG_LEVEL"@, o) && c.log_directive@ == match o {
            Some(l) => if l@.len() > 0 {
                l@
            } else {
                "warn"@
            },
            None => "warn"@,
        }
    &&& exists|o: Option<String>|
        looks_up(var, "BEEMON_EVENT_LIMIT"@, o) && c.event_limit == num_setting(
            o,
            |s: Seq<char>| parse_usize_spec(s),
            150usize,
        )
    &&& exists|o: Option<String>|
        looks_up(var, "BEEMON_RATES_POLL_MILLIS"@, o) && c.rates_poll_millis == match o {
            Some(s) => match parse_u64_spec(s@) {
                Some(n) => if n < 10 {
                    10
                } else {
                    n
                },
                None => 1000,
            },
            None => 1000,
        }
}

impl Config {
    /// Reads the configuration from the variables that `var` answers.
    pub fn from_vars<F: Fn(&str) -> Option<String>>(var: &F) -> (c: Config)
        requires
            lookup_ok(*var),
        ensures
            config_from(*var, c),
    {
        let mut c = Config::default();
        let port = lookup(var, "BEEMON_GRPC_PORT");
        if let Some(p) = &port {
            if let Some(n) = parse_u16(p.as_str()) {
                c.grpc_port = n;
            }
        }
        let addr = lookup(var, "BEEMON_GRPC_ADDR");
        if let Some(a) = &addr {
            c.grpc_addr = a.clone();
        }
        let level = lookup(var, "BEEMON_LOG_LEVEL");
        if let Some(l) = &level {
            if !l.as_str().is_empty() {
                c.log_directive = l.clone();
            }
        }
        let limit = lookup(var, "BEEMON_EVENT_LIMIT");
        if let Some(el) = &limit {
            if let Some(n) = parse_usize(el.as_str()) {
                c.event_limit = n;
            }
        }
        let poll = lookup(var, "BEEMON_RATES_POLL_MILLIS");
        if let Some(s) = &poll {
            if let Some(n) = parse_u64(s.as_str()) {
                c.rates_poll_millis = if n < 10 {
                    10
                } else {
                    n
                };
            }
        }
        assert(looks_up(*var, "BEEMON_GRPC_PORT"@, port) && c.grpc_port == num_setting(
            port,
            |s: Seq<char>| parse_u16_spec(s),
            50051u16,
        ));
        assert(looks_up(*var, "BEEMON_GRPC_ADDR"@, addr));
        assert(looks_up(*var, "BEEMON_LOG_LEVEL"@, level));
        assert(looks_up(*var, "BEEMON_EVENT_LIMIT"@, limit) && c.event_limit == num_setting(
            limit,
            |s: Seq<char>| parse_usize_spec(s),
            150usize,
        ));
        assert(looks_up(*var, "BEEMON_RATES_POLL_MILLIS"@, poll));
        c
    }

    /// The `addr:port` the API listens on.
    pub fn bind_addr(&self) -> (s: String)
        ensures
            s@ == self.grpc_addr@ + ":"@ + dec_chars(self.grpc_port as nat),
    {
        let mut s = String::new();
        push_str(&mut s, self.grpc_addr.as_str());
        push_str(&mut s, ":");
        push_dec(&mut s, self.grpc_port as u64);
        s
    }
}

/// The port in the address `bind_addr` gives reads back as the configured
/// port.
pub proof fn lemma_port_text_roundtrip(port: u16)
    ensures
        parse_u16_spec(dec_chars(port as nat)) == Some(port),
{
    crate::text::lemma_parse_dec_roundtrip(port as nat);
}

} // verus!
