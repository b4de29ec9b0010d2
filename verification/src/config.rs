//! Artifacts and functions related to configuring the tool.

use vstd::prelude::*;
use crate::error::{IntErrorKind, MyError};
use crate::text::{parse_usize, parse_usize_chars, to_chars};
use crate::time::{lookup_zone, zone_named};

verus! {

/// Largest offset allowed when `MAX_OFFSET` is not set.
pub const DEFAULT_MAX_OFFSET: usize = 10;

/// Largest DNF history frame index searched when `MAX_DNF_DEJA_VU` is not set.
pub const DEFAULT_MAX_DNF_DEJA_VU: usize = 2;

/// Log filter used when `RUST_LOG` is not set.
pub const DEFAULT_RUST_LOG: &'static str = "info";

/// Time zone used when no other can be had.
pub const UTC_TZ_NAME: &'static str = "utc";

/// Structure providing configuration parameters loaded at startup from
/// environment variables.
#[derive(Debug)]
pub struct MyConfig {
    /// Largest offset (`last-N`) of a scan section that may be asked for.
    pub max_offset: usize,
    /// Largest index of a DNF history frame searched for a package.
    pub max_dnf_deja_vu: usize,
    /// Name of the time zone in which times are shown.
    pub timezone: String,
    /// Log filter.
    pub rust_log: String,
}

/// The value of a numeric setting: the number it is set to, or `default`
/// when it is not set; an error when it is set to other than a number.
pub open spec fn uint_setting_of(value: Option<Seq<char>>, default: usize) -> Result<usize, IntErrorKind> {
    match value {
        Some(v) => parse_usize(v),
        None => Ok(default),
    }
}

/// The characters of an optional string.
pub open spec fn opt_view(value: Option<String>) -> Option<Seq<char>> {
    match value {
        Some(v) => Some(v@),
        None => None,
    }
}

/// The value of a numeric setting, `value` being what the environment holds
/// for it, if anything.
pub fn uint_setting(value: &Option<String>, default: usize) -> (r: Result<usize, IntErrorKind>)
    ensures
        r == uint_setting_of(opt_view(*value), default),
{
    match value {
        Some(v) => parse_usize_chars(&to_chars(v.as_str())),
        None => Ok(default),
    }
}

/// `lookup` is what looking the zone `name` up in the time zone database
/// may give: a failure, or the zone named (see `zone_named`).
pub open spec fn looked_up(lookup: Result<Option<String>, jiff::Error>, name: Seq<char>) -> bool {
    lookup matches Ok(found) ==> zone_named(opt_view(found), name)
}

/// The lookups handed in are those of the zones named: `system_lookup` of
/// the system's zone when there is one, `fallback_lookup`, when there is
/// one, of the zone the environment names.
pub open spec fn lookups_of(
    system_tz: Option<String>,
    system_lookup: Result<Option<String>, jiff::Error>,
    fallback_tz: Option<String>,
    fallback_lookup: Option<Result<Option<String>, jiff::Error>>,
) -> bool {
    &&& system_tz matches Some(x) ==> looked_up(system_lookup, x@)
    &&& fallback_lookup matches Some(l) ==> (fallback_tz matches Some(f) && looked_up(l, f@))
}

/// The time zone to use: the system's when it has one (its lookup in the
/// time zone database failing is an error); else the one the environment
/// names when that one is found in the database; else UTC.
pub fn pick_timezone(
    system_tz: Option<String>,
    system_lookup: Result<Option<String>, jiff::Error>,
    fallback_tz: Option<String>,
    fallback_lookup: Option<Result<Option<String>, jiff::Error>>,
) -> (r: Result<String, MyError>)
    requires
        lookups_of(system_tz, system_lookup, fallback_tz, fallback_lookup),
    ensures
        match system_tz {
            Some(x) => match system_lookup {
                Ok(found) => r matches Ok(t) && t@ == x@ && zone_named(opt_view(found), t@),
                Err(e) => r == Err::<String, MyError>(MyError::DateTime(e)),
            },
            None => match (fallback_tz, fallback_lookup) {
                (Some(f), Some(Ok(found))) => r matches Ok(t) && t@ == f@ && zone_named(
                    opt_view(found),
                    t@,
                ),
                _ => r matches Ok(t) && t@ == UTC_TZ_NAME@,
            },
        },
{
    match system_tz {
        Some(x) => match system_lookup {
            Ok(_) => Ok(x),
            Err(e) => Err(MyError::DateTime(e)),
        },
        None => match (fallback_tz, fallback_lookup) {
            (Some(f), Some(Ok(_))) => Ok(f),
            _ => Ok(UTC_TZ_NAME.to_owned()),
        },
    }
}

/// The settings other than the time zone hold the values that the
/// environment gives them.
pub open spec fn settings_hold(
    c: MyConfig,
    max_offset_var: Option<String>,
    max_dnf_deja_vu_var: Option<String>,
    rust_log_var: Option<String>,
) -> bool {
    &&& Ok::<usize, IntErrorKind>(c.max_offset) == uint_setting_of(
        opt_view(max_offset_var),
        DEFAULT_MAX_OFFSET,
    )
    &&& Ok::<usize, IntErrorKind>(c.max_dnf_deja_vu) == uint_setting_of(
        opt_view(max_dnf_deja_vu_var),
        DEFAULT_MAX_DNF_DEJA_VU,
    )
    &&& c.rust_log@ == match rust_log_var {
        Some(v) => v@,
        None => DEFAULT_RUST_LOG@,
    }
}

impl MyConfig {
    /// Builds the configuration from what the environment holds:
    /// `MAX_OFFSET`, `MAX_DNF_DEJA_VU`, the system's time zone name,
    /// `DEFAULT_SYSTEM_TZ` and `RUST_LOG`, given what looking up the system's
    /// zone (`system_lookup`) and, when it was looked up, `DEFAULT_SYSTEM_TZ`
    /// (`default_lookup`) in the time zone database gave. The numeric
    /// settings, when set, must be numbers.
    pub fn new(
        max_offset_var: Option<String>,
        max_dnf_deja_vu_var: Option<String>,
        system_tz: Option<String>,
        system_lookup: Result<Option<String>, jiff::Error>,
        default_tz_var: Option<String>,
        default_lookup: Option<Result<Option<String>, jiff::Error>>,
        rust_log_var: Option<String>,
    ) -> (r: Result<MyConfig, MyError>)
        requires
            uint_setting_of(opt_view(max_offset_var), DEFAULT_MAX_OFFSET) is Ok,
            uint_setting_of(opt_view(max_dnf_deja_vu_var), DEFAULT_MAX_DNF_DEJA_VU) is Ok,
            lookups_of(system_tz, system_lookup, default_tz_var, default_lookup),
        ensures
            match system_tz {
                Some(x) => match system_lookup {
                    Err(e) => r == Err::<MyConfig, MyError>(MyError::DateTime(e)),
                    Ok(found) => r matches Ok(c) && settings_hold(
                        c,
                        max_offset_var,
                        max_dnf_deja_vu_var,
                        rust_log_var,
                    ) && c.timezone@ == x@ && zone_named(opt_view(found), c.timezone@),
                },
                None => r matches Ok(c) && settings_hold(
                    c,
                    max_offset_var,
                    max_dnf_deja_vu_var,
                    rust_log_var,
                ) && match (default_tz_var, default_lookup) {
                    (Some(f), Some(Ok(found))) => c.timezone@ == f@ && zone_named(
                        opt_view(found),
                        c.timezone@,
                    ),
                    _ => c.timezone@ == UTC_TZ_NAME@,
                },
            },
    {
        let max_offset = match uint_setting(&max_offset_var, DEFAULT_MAX_OFFSET) {
            Ok(v) => v,
            Err(_) => 0,
        };
        let max_dnf_deja_vu = match uint_setting(&max_dnf_deja_vu_var, DEFAULT_MAX_DNF_DEJA_VU) {
            Ok(v) => v,
            Err(_) => 0,
        };
        let timezone = pick_timezone(system_tz, system_lookup, default_tz_var, default_lookup)?;
        let rust_log = match rust_log_var {
            Some(v) => v,
            None => DEFAULT_RUST_LOG.to_owned(),
        };
        Ok(MyConfig { max_offset, max_dnf_deja_vu, timezone, rust_log })
    }

    /// Builds the configuration from what the environment holds, looking up
    /// the system's zone, or when there is none `DEFAULT_SYSTEM_TZ`, in the
    /// time zone database, as `new` describes. The zone chosen is the
    /// system's, found under its name; else `DEFAULT_SYSTEM_TZ`, found under
    /// its name; else UTC.
    pub fn load(
        max_offset_var: Option<String>,
        max_dnf_deja_vu_var: Option<String>,
        system_tz: Option<String>,
        default_tz_var: Option<String>,
        rust_log_var: Option<String>,
    ) -> (r: Result<MyConfig, MyError>)
        requires
            uint_setting_of(opt_view(max_offset_var), DEFAULT_MAX_OFFSET) is Ok,
            uint_setting_of(opt_view(max_dnf_deja_vu_var), DEFAULT_MAX_DNF_DEJA_VU) is Ok,
        ensures
            match r {
                Ok(c) => {
                    &&& settings_hold(c, max_offset_var, max_dnf_deja_vu_var, rust_log_var)
                    &&& match system_tz {
                        Some(x) => c.timezone@ == x@,
                        None => c.timezone@ == UTC_TZ_NAME@ || (default_tz_var matches Some(f)
                            && c.timezone@ == f@),
                    }
                },
                Err(e) => system_tz is Some && e is DateTime,
            },
    {
        let system_lookup = match &system_tz {
            Some(x) => lookup_zone(x.as_str()),
            None => Ok(None),
        };
        let default_lookup = match (&system_tz, &default_tz_var) {
            (None, Some(f)) => Some(lookup_zone(f.as_str())),
            _ => None,
        };
        MyConfig::new(
            max_offset_var,
            max_dnf_deja_vu_var,
            system_tz,
            system_lookup,
            default_tz_var,
            default_lookup,
            rust_log_var,
        )
    }
}

} // verus!
