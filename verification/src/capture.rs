//! The message capture tool's rule for what it keeps of the game's
//! messages: the payload of event 6 is saved to a file named after the
//! time it arrived.
use vstd::prelude::*;
use crate::numfmt::{decimal_spec, u64_to_string};
use crate::text::{owned, push_str};

verus! {

broadcast use vstd::string::group_string_axioms;

/// The file in which a captured message is saved: for event 6,
/// `event6_working_<seconds since the epoch>.bin`; other events are only
/// shown.
pub fn capture_file_name(event_id: u32, now_secs: u64) -> (r: Option<String>)
    ensures
        event_id == 6 ==> (r matches Some(n) && n@ == "event6_working_"@ + decimal_spec(now_secs as nat) + ".bin"@),
        event_id != 6 ==> r is None,
{
    if event_id == 6 {
        let mut n = owned("event6_working_");
        let t = u64_to_string(now_secs);
        push_str(&mut n, t.as_str());
        push_str(&mut n, ".bin");
        Some(n)
    } else {
        None
    }
}

} // verus!
