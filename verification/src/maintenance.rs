//! The server's maintenance notice.
use vstd::prelude::*;
use crate::text::{owned, push_str};

verus! {

broadcast use vstd::string::group_string_axioms;

/// The answer of the maintenance status action.
pub struct MaintenanceResponse {
    pub return_value: bool,
    pub return_code: i32,
    pub msg: String,
    pub start_time: Option<u64>,
    pub end_time: Option<u64>,
}

/// An answer that reports failure is an error carrying its message.
pub fn check_maintenance_response(r: MaintenanceResponse) -> (o: Result<MaintenanceResponse, String>)
    ensures
        r.return_value ==> o == Ok::<MaintenanceResponse, String>(r),
        !r.return_value ==> (o matches Err(e) && e@ == "Maintenance check API error: "@ + r.msg@),
{
    if r.return_value {
        Ok(r)
    } else {
        let mut e = owned("Maintenance check API error: ");
        push_str(&mut e, r.msg.as_str());
        Err(e)
    }
}

/// Maintenance is under way when the answer gives a start or an end time.
pub fn is_maintenance_active(r: &MaintenanceResponse) -> (b: bool)
    ensures
        b == (r.start_time is Some || r.end_time is Some),
{
    r.start_time.is_some() || r.end_time.is_some()
}

/// The error the front end gets when the status cannot be had, so that it
/// treats it as a network problem.
pub fn network_check_error(e: &str) -> (m: String)
    ensures
        m@ == "ERROR_NETWORK_CHECK: "@ + e@,
{
    let mut m = owned("ERROR_NETWORK_CHECK: ");
    push_str(&mut m, e);
    m
}

} // verus!
