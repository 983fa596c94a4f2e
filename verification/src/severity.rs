//! The eight standardized syslog urgency levels and their numeric codes.

use vstd::prelude::*;

verus! {

/// One of the eight standardized urgency levels of a log message.
/// The numeric code of a severity is the low three bits of a PRI value.
#[allow(non_camel_case_types)]
#[derive(Clone, Copy, Debug, PartialEq, Eq, Structural)]
pub enum SyslogSeverity {
    SEV_EMERG,
    SEV_ALERT,
    SEV_CRIT,
    SEV_ERR,
    SEV_WARNING,
    SEV_NOTICE,
    SEV_INFO,
    SEV_DEBUG,
}

/// The severity whose numeric code is `i`, for codes 0 through 7.
pub open spec fn sev_from_code(i: int) -> Option<SyslogSeverity> {
    if i == 0 {
        Some(SyslogSeverity::SEV_EMERG)
    } else if i == 1 {
        Some(SyslogSeverity::SEV_ALERT)
    } else if i == 2 {
        Some(SyslogSeverity::SEV_CRIT)
    } else if i == 3 {
        Some(SyslogSeverity::SEV_ERR)
    } else if i == 4 {
        Some(SyslogSeverity::SEV_WARNING)
    } else if i == 5 {
        Some(SyslogSeverity::SEV_NOTICE)
    } else if i == 6 {
        Some(SyslogSeverity::SEV_INFO)
    } else if i == 7 {
        Some(SyslogSeverity::SEV_DEBUG)
    } else {
        None
    }
}

impl SyslogSeverity {
    /// The numeric code of this severity.
    pub open spec fn code(self) -> int {
        match self {
            SyslogSeverity::SEV_EMERG => 0,
            SyslogSeverity::SEV_ALERT => 1,
            SyslogSeverity::SEV_CRIT => 2,
            SyslogSeverity::SEV_ERR => 3,
            SyslogSeverity::SEV_WARNING => 4,
            SyslogSeverity::SEV_NOTICE => 5,
            SyslogSeverity::SEV_INFO => 6,
            SyslogSeverity::SEV_DEBUG => 7,
        }
    }

    /// The short lowercase name of this severity, as used in serialized records.
    pub open spec fn spec_name(self) -> Seq<char> {
        match self {
            SyslogSeverity::SEV_EMERG => "emerg"@,
            SyslogSeverity::SEV_ALERT => "alert"@,
            SyslogSeverity::SEV_CRIT => "crit"@,
            SyslogSeverity::SEV_ERR => "err"@,
            SyslogSeverity::SEV_WARNING => "warning"@,
            SyslogSeverity::SEV_NOTICE => "notice"@,
            SyslogSeverity::SEV_INFO => "info"@,
            SyslogSeverity::SEV_DEBUG => "debug"@,
        }
    }

    /// Looks the severity up for a numeric code; codes outside 0..=7 have none.
    pub fn from_int(i: i32) -> (r: Option<SyslogSeverity>)
        ensures
            r == sev_from_code(i as int),
    {
        if i == 0 {
            Some(SyslogSeverity::SEV_EMERG)
        } else if i == 1 {
            Some(SyslogSeverity::SEV_ALERT)
        } else if i == 2 {
            Some(SyslogSeverity::SEV_CRIT)
        } else if i == 3 {
            Some(SyslogSeverity::SEV_ERR)
        } else if i == 4 {
            Some(SyslogSeverity::SEV_WARNING)
        } else if i == 5 {
            Some(SyslogSeverity::SEV_NOTICE)
        } else if i == 6 {
            Some(SyslogSeverity::SEV_INFO)
        } else if i == 7 {
            Some(SyslogSeverity::SEV_DEBUG)
        } else {
            None
        }
    }

    /// The numeric code of this severity, for recombining a PRI value.
    pub fn to_int(&self) -> (r: i32)
        ensures
            r as int == self.code(),
    {
        match self {
            SyslogSeverity::SEV_EMERG => 0,
            SyslogSeverity::SEV_ALERT => 1,
            SyslogSeverity::SEV_CRIT => 2,
            SyslogSeverity::SEV_ERR => 3,
            SyslogSeverity::SEV_WARNING => 4,
            SyslogSeverity::SEV_NOTICE => 5,
            SyslogSeverity::SEV_INFO => 6,
            SyslogSeverity::SEV_DEBUG => 7,
        }
    }

    /// The short lowercase display name, e.g. `"info"`.
    pub fn name(&self) -> (r: &'static str)
        ensures
            r@ == self.spec_name(),
    {
        match self {
            SyslogSeverity::SEV_EMERG => "emerg",
            SyslogSeverity::SEV_ALERT => "alert",
            SyslogSeverity::SEV_CRIT => "crit",
            SyslogSeverity::SEV_ERR => "err",
            SyslogSeverity::SEV_WARNING => "warning",
            SyslogSeverity::SEV_NOTICE => "notice",
            SyslogSeverity::SEV_INFO => "info",
            SyslogSeverity::SEV_DEBUG => "debug",
        }
    }
}

} // verus!
