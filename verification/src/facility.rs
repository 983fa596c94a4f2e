//! The twenty-four standardized syslog subsystem categories and their codes.

use vstd::prelude::*;

verus! {

/// One of the twenty-four standardized subsystem categories of a log message.
/// The numeric code of a facility is the PRI value shifted right by three.
#[allow(non_camel_case_types)]
#[derive(Clone, Copy, Debug, PartialEq, Eq, Structural)]
pub enum SyslogFacility {
    LOG_KERN,
    LOG_USER,
    LOG_MAIL,
    LOG_DAEMON,
    LOG_AUTH,
    LOG_SYSLOG,
    LOG_LPR,
    LOG_NEWS,
    LOG_UUCP,
    LOG_CRON,
    LOG_AUTHPRIV,
    LOG_FTP,
    LOG_NTP,
    LOG_AUDIT,
    LOG_ALERT,
    LOG_CLOCKD,
    LOG_LOCAL0,
    LOG_LOCAL1,
    LOG_LOCAL2,
    LOG_LOCAL3,
    LOG_LOCAL4,
    LOG_LOCAL5,
    LOG_LOCAL6,
    LOG_LOCAL7,
}

/// The facility whose numeric code is `i`, for codes 0 through 23.
pub open spec fn fac_from_code(i: int) -> Option<SyslogFacility> {
    if i == 0 {
        Some(SyslogFacility::LOG_KERN)
    } else if i == 1 {
        Some(SyslogFacility::LOG_USER)
    } else if i == 2 {
        Some(SyslogFacility::LOG_MAIL)
    } else if i == 3 {
        Some(SyslogFacility::LOG_DAEMON)
    } else if i == 4 {
        Some(SyslogFacility::LOG_AUTH)
    } else if i == 5 {
        Some(SyslogFacility::LOG_SYSLOG)
    } else if i == 6 {
        Some(SyslogFacility::LOG_LPR)
    } else if i == 7 {
        Some(SyslogFacility::LOG_NEWS)
    } else if i == 8 {
        Some(SyslogFacility::LOG_UUCP)
    } else if i == 9 {
        Some(SyslogFacility::LOG_CRON)
    } else if i == 10 {
        Some(SyslogFacility::LOG_AUTHPRIV)
    } else if i == 11 {
        Some(SyslogFacility::LOG_FTP)
    } else if i == 12 {
        Some(SyslogFacility::LOG_NTP)
    } else if i == 13 {
        Some(SyslogFacility::LOG_AUDIT)
    } else if i == 14 {
        Some(SyslogFacility::LOG_ALERT)
    } else if i == 15 {
        Some(SyslogFacility::LOG_CLOCKD)
    } else if i == 16 {
        Some(SyslogFacility::LOG_LOCAL0)
    } else if i == 17 {
        Some(SyslogFacility::LOG_LOCAL1)
    } else if i == 18 {
        Some(SyslogFacility::LOG_LOCAL2)
    } else if i == 19 {
        Some(SyslogFacility::LOG_LOCAL3)
    } else if i == 20 {
        Some(SyslogFacility::LOG_LOCAL4)
    } else if i == 21 {
        Some(SyslogFacility::LOG_LOCAL5)
    } else if i == 22 {
        Some(SyslogFacility::LOG_LOCAL6)
    } else if i == 23 {
        Some(SyslogFacility::LOG_LOCAL7)
    } else {
        None
    }
}

impl SyslogFacility {
    /// The numeric code of this facility.
    pub open spec fn code(self) -> int {
        match self {
            SyslogFacility::LOG_KERN => 0,
            SyslogFacility::LOG_USER => 1,
            SyslogFacility::LOG_MAIL => 2,
            SyslogFacility::LOG_DAEMON => 3,
            SyslogFacility::LOG_AUTH => 4,
            SyslogFacility::LOG_SYSLOG => 5,
            SyslogFacility::LOG_LPR => 6,
            SyslogFacility::LOG_NEWS => 7,
            SyslogFacility::LOG_UUCP => 8,
            SyslogFacility::LOG_CRON => 9,
            SyslogFacility::LOG_AUTHPRIV => 10,
            SyslogFacility::LOG_FTP => 11,
            SyslogFacility::LOG_NTP => 12,
            SyslogFacility::LOG_AUDIT => 13,
            SyslogFacility::LOG_ALERT => 14,
            SyslogFacility::LOG_CLOCKD => 15,
            SyslogFacility::LOG_LOCAL0 => 16,
            SyslogFacility::LOG_LOCAL1 => 17,
            SyslogFacility::LOG_LOCAL2 => 18,
            SyslogFacility::LOG_LOCAL3 => 19,
            SyslogFacility::LOG_LOCAL4 => 20,
            SyslogFacility::LOG_LOCAL5 => 21,
            SyslogFacility::LOG_LOCAL6 => 22,
            SyslogFacility::LOG_LOCAL7 => 23,
        }
    }

    /// The short lowercase name of this facility, as used in serialized records.
    pub open spec fn spec_name(self) -> Seq<char> {
        match self {
            SyslogFacility::LOG_KERN => "kern"@,
            SyslogFacility::LOG_USER => "user"@,
            SyslogFacility::LOG_MAIL => "mail"@,
            SyslogFacility::LOG_DAEMON => "daemon"@,
            SyslogFacility::LOG_AUTH => "auth"@,
            SyslogFacility::LOG_SYSLOG => "syslog"@,
            SyslogFacility::LOG_LPR => "lpr"@,
            SyslogFacility::LOG_NEWS => "news"@,
            SyslogFacility::LOG_UUCP => "uucp"@,
            SyslogFacility::LOG_CRON => "cron"@,
            SyslogFacility::LOG_AUTHPRIV => "authpriv"@,
            SyslogFacility::LOG_FTP => "ftp"@,
            SyslogFacility::LOG_NTP => "ntp"@,
            SyslogFacility::LOG_AUDIT => "audit"@,
            SyslogFacility::LOG_ALERT => "alert"@,
            SyslogFacility::LOG_CLOCKD => "clockd"@,
            SyslogFacility::LOG_LOCAL0 => "local0"@,
            SyslogFacility::LOG_LOCAL1 => "local1"@,
            SyslogFacility::LOG_LOCAL2 => "local2"@,
            SyslogFacility::LOG_LOCAL3 => "local3"@,
            SyslogFacility::LOG_LOCAL4 => "local4"@,
            SyslogFacility::LOG_LOCAL5 => "local5"@,
            SyslogFacility::LOG_LOCAL6 => "local6"@,
            SyslogFacility::LOG_LOCAL7 => "local7"@,
        }
    }

    /// Looks the facility up for a numeric code; codes outside 0..=23 have none.
    pub fn from_int(i: i32) -> (r: Option<SyslogFacility>)
        ensures
            r == fac_from_code(i as int),
    {
        if i == 0 {
            Some(SyslogFacility::LOG_KERN)
        } else if i == 1 {
            Some(SyslogFacility::LOG_USER)
        } else if i == 2 {
            Some(SyslogFacility::LOG_MAIL)
        } else if i == 3 {
            Some(SyslogFacility::LOG_DAEMON)
        } else if i == 4 {
            Some(SyslogFacility::LOG_AUTH)
        } else if i == 5 {
            Some(SyslogFacility::LOG_SYSLOG)
        } else if i == 6 {
            Some(SyslogFacility::LOG_LPR)
        } else if i == 7 {
            Some(SyslogFacility::LOG_NEWS)
        } else if i == 8 {
            Some(SyslogFacility::LOG_UUCP)
        } else if i == 9 {
            Some(SyslogFacility::LOG_CRON)
        } else if i == 10 {
            Some(SyslogFacility::LOG_AUTHPRIV)
        } else if i == 11 {
            Some(SyslogFacility::LOG_FTP)
        } else if i == 12 {
            Some(SyslogFacility::LOG_NTP)
        } else if i == 13 {
            Some(SyslogFacility::LOG_AUDIT)
        } else if i == 14 {
            Some(SyslogFacility::LOG_ALERT)
        } else if i == 15 {
            Some(SyslogFacility::LOG_CLOCKD)
        } else if i == 16 {
            Some(SyslogFacility::LOG_LOCAL0)
        } else if i == 17 {
            Some(SyslogFacility::LOG_LOCAL1)
        } else if i == 18 {
            Some(SyslogFacility::LOG_LOCAL2)
        } else if i == 19 {
            Some(SyslogFacility::LOG_LOCAL3)
        } else if i == 20 {
            Some(SyslogFacility::LOG_LOCAL4)
        } else if i == 21 {
            Some(SyslogFacility::LOG_LOCAL5)
        } else if i == 22 {
            Some(SyslogFacility::LOG_LOCAL6)
        } else if i == 23 {
            Some(SyslogFacility::LOG_LOCAL7)
        } else {
            None
        }
    }

    /// The numeric code of this facility, for recombining a PRI value.
    pub fn to_int(&self) -> (r: i32)
        ensures
            r as int == self.code(),
    {
        match self {
            SyslogFacility::LOG_KERN => 0,
            SyslogFacility::LOG_USER => 1,
            SyslogFacility::LOG_MAIL => 2,
            SyslogFacility::LOG_DAEMON => 3,
            SyslogFacility::LOG_AUTH => 4,
            SyslogFacility::LOG_SYSLOG => 5,
            SyslogFacility::LOG_LPR => 6,
            SyslogFacility::LOG_NEWS => 7,
            SyslogFacility::LOG_UUCP => 8,
            SyslogFacility::LOG_CRON => 9,
            SyslogFacility::LOG_AUTHPRIV => 10,
            SyslogFacility::LOG_FTP => 11,
            SyslogFacility::LOG_NTP => 12,
            SyslogFacility::LOG_AUDIT => 13,
            SyslogFacility::LOG_ALERT => 14,
            SyslogFacility::LOG_CLOCKD => 15,
            SyslogFacility::LOG_LOCAL0 => 16,
            SyslogFacility::LOG_LOCAL1 => 17,
            SyslogFacility::LOG_LOCAL2 => 18,
            SyslogFacility::LOG_LOCAL3 => 19,
            SyslogFacility::LOG_LOCAL4 => 20,
            SyslogFacility::LOG_LOCAL5 => 21,
            SyslogFacility::LOG_LOCAL6 => 22,
            SyslogFacility::LOG_LOCAL7 => 23,
        }
    }

    /// The short lowercase display name, e.g. `"kern"`.
    pub fn name(&self) -> (r: &'static str)
        ensures
            r@ == self.spec_name(),
    {
        match self {
            SyslogFacility::LOG_KERN => "kern",
            SyslogFacility::LOG_USER => "user",
            SyslogFacility::LOG_MAIL => "mail",
            SyslogFacility::LOG_DAEMON => "daemon",
            SyslogFacility::LOG_AUTH => "auth",
            SyslogFacility::LOG_SYSLOG => "syslog",
            SyslogFacility::LOG_LPR => "lpr",
            SyslogFacility::LOG_NEWS => "news",
            SyslogFacility::LOG_UUCP => "uucp",
            SyslogFacility::LOG_CRON => "cron",
            SyslogFacility::LOG_AUTHPRIV => "authpriv",
            SyslogFacility::LOG_FTP => "ftp",
            SyslogFacility::LOG_NTP => "ntp",
            SyslogFacility::LOG_AUDIT => "audit",
            SyslogFacility::LOG_ALERT => "alert",
            SyslogFacility::LOG_CLOCKD => "clockd",
            SyslogFacility::LOG_LOCAL0 => "local0",
            SyslogFacility::LOG_LOCAL1 => "local1",
            SyslogFacility::LOG_LOCAL2 => "local2",
            SyslogFacility::LOG_LOCAL3 => "local3",
            SyslogFacility::LOG_LOCAL4 => "local4",
            SyslogFacility::LOG_LOCAL5 => "local5",
            SyslogFacility::LOG_LOCAL6 => "local6",
            SyslogFacility::LOG_LOCAL7 => "local7",
        }
    }
}

} // verus!
