//! Configuration of the web server, read from environment variables:
//! `BEEMON_WEBUI_PORT`, `BEEMON_LOG_LEVEL`, `BEEMON_EVENT_LIMIT`,
//! `BEEMON_RATES_POLL_MILLIS` and `BEEMON_SCANNER_PERIOD_SECS`. A variable
//! that is unset or does not parse leaves the default in place.

use vstd::prelude::*;

use crate::config::{lookup, lookup_ok, looks_up, num_setting};
use crate::text::{parse_u16, parse_u16_spec, parse_u64, parse_u64_spec, parse_usize, parse_usize_spec};

verus! {

/// Web server settings.
#[derive(Clone, Debug)]
pub struct Config {
    pub http_port: u16,
    pub log_directive: String,
    pub event_limit: usize,
    pub rates_poll_millis: u64,
    pub scanner_period_secs: u64,
}

impl Default for Config {
    fn default() -> (c: Self)
        ensures
            c.http_port == 5055,
            c.log_directive@ == "info"@,
            c.event_limit == 5000,
            c.rates_poll_millis == 2000,
            c.scanner_period_secs == 1,
    {
        Config {
            http_port: 5055,
            log_directive: "info".to_string(),
            event_limit: 5000,
            rates_poll_millis: 2000,
            scanner_period_secs: 1,
        }
    }
}

/// A setting with a floor: the variable's value when it parses, raised to
/// `floor` when smaller, else `dflt`.
pub open spec fn floored_setting(out: Option<String>, floor: u64, dflt: u64) -> u64 {
    match out {
        Some(s) => match parse_u64_spec(s@) {
            Some(n) => if n < floor {
                floor
            } else {
                n
            },
            None => dflt,
        },
        None => dflt,
    }
}

/// `c` is the configuration that the answers of `var` give.
pub open spec fn config_from<F: Fn(&str) -> Option<String>>(var: F, c: Config) -> bool {
    &&& exists|o: Option<String>|
        looks_up(var, "BEEMON_WEBUI_PORT"@, o) && c.http_port == num_setting(
            o,
            |s: Seq<char>| parse_u16_spec(s),
            5055u16,
        )
    &&& exists|o: Option<String>|
        looks_up(var, "BEEMON_LOG_LEVEL"@, o) && c.log_directive@ == match o {
            Some(l) => if l@.len() > 0 {
                l@
            } else {
                "warn"@
            },
            None => "warn"@,
        }
    &&& exists|o: Option<String>|
        looks_up(var, "BEEMON_EVENT_LIMIT"@, o) && c.event_limit == num_setting(
            o,
            |s: Seq<char>| parse_usize_spec(s),
            5000usize,
        )
    &&& exists|o: Option<String>|
        looks_up(var, "BEEMON_RATES_POLL_MILLIS"@, o) && c.rates_poll_millis == floored_setting(o, 10, 2000)
    &&& exists|o: Option<String>|
        looks_up(var, "BEEMON_SCANNER_PERIOD_SECS"@, o) && c.scanner_period_secs == floored_setting(o, 1, 1)
}

fn floored(out: &Option<String>, floor: u64, dflt: u64) -> (n: u64)
    ensures
        n == floored_setting(*out, floor, dflt),
{
    match out {
        Some(s) => match parse_u64(s.as_str()) {
            Some(n) => if n < floor {
                floor
            } else {
                n
            },
            None => dflt,
        },
        None => dflt,
    }
}

impl Config {
    /// Reads the configuration from the variables that `var` answers.
    pub fn from_vars<F: Fn(&str) -> Option<String>>(var: &F) -> (c: Config)
        requires
            lookup_ok(*var),
        ensures
            config_from(*var, c),
    {
        let mut c = Config::default();
        let port = lookup(var, "BEEMON_WEBUI_PORT");
        if let Some(p) = &port {
            if let Some(n) = parse_u16(p.as_str()) {
                c.http_port = n;
            }
        }
        // With the variable unset or empty the log filter is `warn`, not the
        // `info` of `Config::default()`.
        let level = lookup(var, "BEEMON_LOG_LEVEL");
        c.log_directive = match &level {
            Some(l) => if !l.as_str().is_empty() {
                l.clone()
            } else {
                "warn".to_string()
            },
            None => "warn".to_string(),
        };
        let limit = lookup(var, "BEEMON_EVENT_LIMIT");
        if let Some(el) = &limit {
            if let Some(n) = parse_usize(el.as_str()) {
                c.event_limit = n;
            }
        }
        let poll = lookup(var, "BEEMON_RATES_POLL_MILLIS");
        c.rates_poll_millis = floored(&poll, 10, 2000);
        let period = lookup(var, "BEEMON_SCANNER_PERIOD_SECS");
        c.scanner_period_secs = floored(&period, 1, 1);
        assert(looks_up(*var, "BEEMON_WEBUI_PORT"@, port) && c.http_port == num_setting(
            port,
            |s: Seq<char>| parse_u16_spec(s),
            5055u16,
        ));
        assert(looks_up(*var, "BEEMON_LOG_LEVEL"@, level));
        assert(looks_up(*var, "BEEMON_EVENT_LIMIT"@, limit) && c.event_limit == num_setting(
            limit,
            |s: Seq<char>| parse_usize_spec(s),
            5000usize,
        ));
        assert(looks_up(*var, "BEEMON_RATES_POLL_MILLIS"@, poll));
        assert(looks_up(*var, "BEEMON_SCANNER_PERIOD_SECS"@, period));
        c
    }
}

} // verus!
