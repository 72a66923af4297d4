//! What the log says about a panic.

use crate::text::{decimal, show_decimal};
use vstd::prelude::*;
use vstd::string::*;

verus! {

/// Where a panic happened.
#[derive(Debug)]
pub struct PanicPlace {
    pub file: String,
    pub line: u32,
    pub column: u32,
}

/// A panic as the log shows it.
#[derive(Debug)]
pub struct PanicReport {
    pub location: String,
    pub payload: String,
}

/// The place as `file:line:column`.
pub open spec fn place_text(place: Option<PanicPlace>) -> Seq<char> {
    match place {
        Some(at) => at.file@ + ":"@ + decimal(at.line as nat) + ":"@ + decimal(at.column as nat),
        None => "<unknown>"@,
    }
}

/// The payload in words: a string slice first, then a string.
pub open spec fn payload_text(slice: Option<String>, string: Option<String>) -> Seq<char> {
    match (slice, string) {
        (Some(text), _) => text@,
        (None, Some(text)) => text@,
        (None, None) => "<non-string payload>"@,
    }
}

/// Describes a panic. `slice` and `string` are the payload where it is of that
/// type.
pub fn panic_report(place: Option<PanicPlace>, slice: Option<String>, string: Option<String>) -> (report: PanicReport)
    ensures
        report.location@ == place_text(place),
        report.payload@ == payload_text(slice, string),
{
    let location = match place {
        Some(at) => at.file.concat(":").concat(show_decimal(at.line as u64).as_str()).concat(":").concat(
            show_decimal(at.column as u64).as_str(),
        ),
        None => "<unknown>".to_owned(),
    };
    let payload = match (slice, string) {
        (Some(text), _) => text,
        (None, Some(text)) => text,
        (None, None) => "<non-string payload>".to_owned(),
    };
    PanicReport { location, payload }
}

/// A panic is logged where it happened, as file, line and column with colons
/// between them, and with its own words where it has any.
pub proof fn law_panic_is_described(
    place: Option<PanicPlace>,
    slice: Option<String>,
    string: Option<String>,
    report: PanicReport,
)
    requires
        call_ensures(panic_report, (place, slice, string), report),
    ensures
        place matches Some(at) ==> report.location@ == at.file@ + ":"@ + decimal(at.line as nat) + ":"@ + decimal(
            at.column as nat,
        ),
        place is None ==> report.location@ == "<unknown>"@,
        slice matches Some(text) ==> report.payload@ == text@,
        slice is None ==> (string matches Some(text) ==> report.payload@ == text@),
        slice is None && string is None ==> report.payload@ == "<non-string payload>"@,
{
}

} // verus!
