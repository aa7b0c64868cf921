//! Building the full service listing from per-service status reports.
//!
//! Enumerating the configured services directory and running the status
//! command for each entry happen outside the library; each launched
//! command yields one report, and the listing is decided here, one typed
//! state per report.

use crate::service_info::{status_model, ServiceInfo};
use vstd::prelude::*;

verus! {

/// What one status-command run for one service produced.
#[derive(Clone, Debug)]
pub struct StatusReport {
    pub name: String,
    pub exit_ok: bool,
    pub output: String,
}

/// The typed state each report stands for, in report order.
pub fn build_service_list(reports: &Vec<StatusReport>) -> (r: Vec<ServiceInfo>)
    ensures
        r@.len() == reports@.len(),
        forall|i: int|
            0 <= i < reports@.len() ==> (#[trigger] r@[i])@ == status_model(
                reports@[i].name@,
                reports@[i].exit_ok,
                reports@[i].output@,
            ),
{
    let mut r: Vec<ServiceInfo> = Vec::new();
    let mut i: usize = 0;
    while i < reports.len()
        invariant
            i <= reports@.len(),
            r@.len() == i,
            forall|j: int|
                0 <= j < i ==> (#[trigger] r@[j])@ == status_model(
                    reports@[j].name@,
                    reports@[j].exit_ok,
                    reports@[j].output@,
                ),
        decreases reports@.len() - i,
    {
        let rep = &reports[i];
        let info = ServiceInfo::from_status_output(rep.name.as_str(), rep.exit_ok, rep.output.as_str());
        r.push(info);
        i = i + 1;
    }
    r
}

} // verus!
