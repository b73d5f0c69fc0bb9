//! How a panic is reported in the log, so that it reaches the log file and the
//! in-app viewer.

use vstd::prelude::*;
use crate::text::{concat, concat3, decimal, decimal_string, owned};

verus! {

/// Where a panic happened: `file:line:column`, or `unknown location`.
pub open spec fn location_text(location: Option<(Seq<char>, u32, u32)>) -> Seq<char> {
    match location {
        Some((file, line, column)) => file + ":"@ + decimal(line as nat) + ":"@ + decimal(column as nat),
        None => "unknown location"@,
    }
}

/// The log message for a panic at `location` with the given message, if the
/// panic carried a string: `Panic at LOCATION: MESSAGE`.
pub fn panic_report(location: Option<(&str, u32, u32)>, payload: Option<&str>) -> (res: String)
    ensures
        res@ == "Panic at "@ + location_text(
            match location {
                Some((f, l, c)) => Some((f@, l, c)),
                None => None,
            },
        ) + ": "@ + match payload {
            Some(p) => p@,
            None => "<non-string payload>"@,
        },
{
    let loc = match location {
        Some((file, line, column)) => {
            let l = decimal_string(line as u64);
            let c = decimal_string(column as u64);
            let head = concat3(file, ":", l.as_str());
            concat3(head.as_str(), ":", c.as_str())
        },
        None => owned("unknown location"),
    };
    let msg = match payload {
        Some(p) => owned(p),
        None => owned("<non-string payload>"),
    };
    let head = concat3("Panic at ", loc.as_str(), ": ");
    concat(head.as_str(), msg.as_str())
}

} // verus!
