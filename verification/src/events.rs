//! The period of a query for events.
use vstd::prelude::*;
use vstd::string::*;

use crate::text;
use crate::time;
use crate::time::Timestamp;
use crate::util;

verus! {

/// The message for a bound that is no timestamp.
pub open spec fn bound_message(name: Seq<char>) -> Seq<char> {
    "invalid --"@ + name + " timestamp, expected ISO 8601 (e.g., 2025-01-29T12:00:00Z)"@
}

/// Reads an optional bound of the query; the error is the message to show.
pub fn parse_timestamp(s: Option<&str>, name: &str) -> (r: Result<Option<Timestamp>, String>)
    ensures
        match s {
            None => r == Ok::<Option<Timestamp>, String>(None),
            Some(s) => match time::rfc3339_instant(s@) {
                Some(parts) => r matches Ok(Some(t)) && t@ == util::instant_of(parts),
                None => r matches Err(message) && message@ == bound_message(name@),
            },
        },
{
    match s {
        None => Ok(None),
        Some(s) => match Timestamp::parse(s) {
            Some(at) => Ok(Some(at)),
            None => {
                let mut message = "invalid --".to_owned();
                message.append(name);
                message.append(" timestamp, expected ISO 8601 (e.g., 2025-01-29T12:00:00Z)");
                Err(message)
            },
        },
    }
}

/// The message for a bound names the option that gave it.
pub proof fn bounds_are_named_by_their_option(name: Seq<char>)
    ensures
        text::stands_in("invalid --"@ + name + " timestamp"@, bound_message(name)),
{
    reveal_strlit(" timestamp, expected ISO 8601 (e.g., 2025-01-29T12:00:00Z)");
    reveal_strlit(" timestamp");
    let end = " timestamp, expected ISO 8601 (e.g., 2025-01-29T12:00:00Z)"@;
    assert(end =~= " timestamp"@ + end.skip(10));
    assert(bound_message(name) =~= Seq::empty() + ("invalid --"@ + name + " timestamp"@)
        + end.skip(10));
}

} // verus!
