//! olx.uz client: listing response and offer ids.
use vstd::prelude::*;
use crate::json::JsonValue;

verus! {

/// Response wrapper of the offers listing.
#[derive(Debug)]
pub struct ApiResponse {
    pub data: Option<Vec<JsonValue>>,
}

/// Extract the numeric ID from an offer.
pub fn extract_id(offer: &JsonValue) -> (r: Option<u64>)
    ensures
        r == offer.spec_u64_at("id"@),
{
    offer.u64_at("id")
}

} // verus!
