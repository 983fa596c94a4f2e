//! In-memory representation of a single decoded syslog message.

use vstd::prelude::*;

use crate::facility::SyslogFacility;
use crate::severity::SyslogSeverity;

verus! {

/// Seconds since the Unix epoch, UTC.
#[allow(non_camel_case_types)]
pub type time_t = i64;

/// A numeric process id.
#[allow(non_camel_case_types)]
pub type pid_t = i32;

/// Process identifiers are usually numeric PIDs; on some systems they may be
/// an opaque name instead. The numeric variant is chosen whenever the
/// captured token parses as a signed 32-bit integer.
#[derive(Clone, Debug, PartialEq, Eq)]
pub enum ProcIdType {
    PID(pid_t),
    Name(String),
}

/// One decoded syslog message. Severity and facility are always present and
/// valid; timestamp, hostname, process identifier and tag are each
/// independently optional; the message body is always present, possibly
/// empty. The version field is always 0 for this wire format.
#[derive(Clone, Debug)]
pub struct SyslogMessage {
    pub severity: SyslogSeverity,
    pub facility: SyslogFacility,
    pub version: i32,
    pub timestamp: Option<time_t>,
    pub hostname: Option<String>,
    pub proc_id: Option<ProcIdType>,
    pub tag: Option<String>,
    pub msg: String,
}

} // verus!
