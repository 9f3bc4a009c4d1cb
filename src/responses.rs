//! What a handler's result becomes on the wire.
use crate::taxonomy::{envelope_text, ErrorTaxonomy};
use vstd::prelude::*;

verus! {

/// A response: its status and its JSON body (empty for no content).
pub struct FrameworkJsonResponse {
    pub status: u16,
    pub body: String,
}

impl FrameworkJsonResponse {
    /// A success: 204 with no content when the operation returns nothing,
    /// else 200 with the value's JSON text.
    pub fn success(expects_unit: bool, json: String) -> (r: FrameworkJsonResponse)
        ensures
            expects_unit ==> r.status == 204 && r.body@.len() == 0,
            !expects_unit ==> r.status == 200 && r.body == json,
    {
        if expects_unit {
            FrameworkJsonResponse { status: 204, body: String::new() }
        } else {
            FrameworkJsonResponse { status: 200, body: json }
        }
    }

    /// The answer for error entry `k`: its status, and the envelope with its
    /// key and message. The communication entry is never sent.
    pub fn error(tax: &ErrorTaxonomy, k: usize) -> (r: FrameworkJsonResponse)
        requires
            1 <= k < tax.entries@.len(),
        ensures
            r.status == tax.views()[k as int].status,
            r.body@ == envelope_text(tax.views()[k as int]),
    {
        FrameworkJsonResponse { status: tax.entries[k].status, body: tax.envelope(k) }
    }
}

} // verus!
