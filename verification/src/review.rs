//! The normalized review record and the resolution input.
use vstd::prelude::*;

use crate::num::{Rating, rating_wf};

verus! {

/// A normalized editorial review extracted from one source page.
///
/// At least one of `rating` and `excerpt` is present: extraction fails
/// rather than construct an empty record.
pub struct SiteReview {
    pub source_url: String,
    pub excerpt: Option<String>,
    pub rating: Option<Rating>,
    pub rating_count: Option<u32>,
    pub reviewer: Option<String>,
    pub review_date: Option<String>,
}

/// A review record carries a rating or an excerpt, and any rating is a
/// well-formed fraction on the 0-10 scale.
pub open spec fn review_wf(r: SiteReview) -> bool {
    &&& (r.rating is Some || r.excerpt is Some)
    &&& (r.rating matches Some(rt) ==> rating_wf(rt))
}

/// The input of one resolution call.
pub struct AlbumReviewInput {
    pub title: String,
    pub artist: String,
    pub year: Option<i32>,
}

/// The liveness answer.
pub fn health_check() -> (r: String)
    ensures
        r@ == "ok"@,
{
    "ok".to_owned()
}

} // verus!
