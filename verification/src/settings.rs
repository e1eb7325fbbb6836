//! The service's settings as the environment gives them: what each value
//! means, and what is used where none is given.
use vstd::prelude::*;

use crate::text::{ascii_lowercase, ascii_lowercase_exec, chars_of, parse_u32, parse_u32_exec, str_equal};
use crate::urls::{parse_url, url_parse};

verus! {

/// The bridge URL used where none is configured.
pub const DEFAULT_BRIDGE_URL: &'static str = "http://fmhy_bridge:3000/";

/// The port the web UI listens on where none is configured.
pub const DEFAULT_WEBUI_PORT: u16 = 8080;

/// How much is logged, from most to least.
#[derive(Debug, Clone, Copy, PartialEq, Eq, Structural)]
pub enum LogLevel {
    Trace,
    Info,
    Warning,
    Error,
}

/// The log level a name stands for, ignoring ASCII case: `trace` or
/// `debug`, `info`, `warning` or `warn`, `error`; any other name, and no
/// name, stand for `info`.
pub open spec fn log_level_of(name: Option<Seq<char>>) -> LogLevel {
    match name {
        None => LogLevel::Info,
        Some(n) => {
            let l = ascii_lowercase(n);
            if l == seq!['t', 'r', 'a', 'c', 'e'] || l == seq!['d', 'e', 'b', 'u', 'g'] {
                LogLevel::Trace
            } else if l == seq!['w', 'a', 'r', 'n', 'i', 'n', 'g'] || l == seq!['w', 'a', 'r', 'n'] {
                LogLevel::Warning
            } else if l == seq!['e', 'r', 'r', 'o', 'r'] {
                LogLevel::Error
            } else {
                LogLevel::Info
            }
        },
    }
}

/// The log level the setting `value` (if given) names.
pub fn log_level_setting(value: Option<&str>) -> (r: LogLevel)
    ensures
        match value {
            Some(v) => r == log_level_of(Some(v@)),
            None => r == log_level_of(None),
        },
{
    match value {
        None => LogLevel::Info,
        Some(v) => {
            let lower = ascii_lowercase_exec(v);
            let l = lower.as_str();
            proof {
                reveal_strlit("trace");
                reveal_strlit("debug");
                reveal_strlit("warning");
                reveal_strlit("warn");
                reveal_strlit("error");
                assert("trace"@ =~= seq!['t', 'r', 'a', 'c', 'e']);
                assert("debug"@ =~= seq!['d', 'e', 'b', 'u', 'g']);
                assert("warning"@ =~= seq!['w', 'a', 'r', 'n', 'i', 'n', 'g']);
                assert("warn"@ =~= seq!['w', 'a', 'r', 'n']);
                assert("error"@ =~= seq!['e', 'r', 'r', 'o', 'r']);
            }
            if str_equal(l, "trace") || str_equal(l, "debug") {
                LogLevel::Trace
            } else if str_equal(l, "warning") || str_equal(l, "warn") {
                LogLevel::Warning
            } else if str_equal(l, "error") {
                LogLevel::Error
            } else {
                LogLevel::Info
            }
        },
    }
}

/// The bridge URL of the setting `value`, or of the default where none is
/// given, in the form `url::Url::parse` gives it; `None` where it does not
/// parse.
pub fn bridge_url_setting(value: Option<&str>) -> (r: Option<String>)
    ensures
        ({
            let text = match value {
                Some(v) => v@,
                None => DEFAULT_BRIDGE_URL@,
            };
            match r {
                Some(u) => url_parse(text) == Some(u@),
                None => url_parse(text) is None,
            }
        }),
{
    match value {
        Some(v) => parse_url(v),
        None => parse_url(DEFAULT_BRIDGE_URL),
    }
}

/// The FlareSolverr URL of the setting `value`: none where the setting is
/// missing or empty; else the URL in the form `url::Url::parse` gives it, or
/// an error where it does not parse.
pub fn optional_url_setting(value: Option<&str>) -> (r: Result<Option<String>, ()>)
    ensures
        match value {
            None => r == Ok::<Option<String>, ()>(None),
            Some(v) => if v@.len() == 0 {
                r == Ok::<Option<String>, ()>(None)
            } else {
                match url_parse(v@) {
                    Some(u) => r matches Ok(Some(s)) && s@ == u,
                    None => r is Err,
                }
            },
        },
{
    match value {
        None => Ok(None),
        Some(v) => {
            if v.unicode_len() == 0 {
                Ok(None)
            } else {
                match parse_url(v) {
                    Some(u) => Ok(Some(u)),
                    None => Err(()),
                }
            }
        },
    }
}

/// The port of the setting `value`: the default where none is given, else
/// the number as `str::parse::<u16>` reads it; `None` where it reads none.
pub fn port_setting(value: Option<&str>) -> (r: Option<u16>)
    ensures
        match value {
            None => r == Some(DEFAULT_WEBUI_PORT),
            Some(v) => match parse_u32(v@) {
                Some(n) => if n <= 65535 {
                    r == Some(n as u16)
                } else {
                    r is None
                },
                None => r is None,
            },
        },
{
    match value {
        None => Some(DEFAULT_WEBUI_PORT),
        Some(v) => {
            let chars = chars_of(v);
            match parse_u32_exec(&chars) {
                Some(n) => if n <= 65535 {
                    Some(n as u16)
                } else {
                    None
                },
                None => None,
            }
        },
    }
}

} // verus!
