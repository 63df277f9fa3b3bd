use std::sync::Arc;

use vstd::prelude::*;

use crate::stat::Nanos;
use crate::trend::Trend;

verus! {

/// The instrumentation state of the request layer: after each completed
/// request attempt its elapsed wall-clock time is recorded into this
/// default trend, whatever the outcome of the request itself was.
pub struct Http {
    pub request_duration: Trend<Nanos>,
}

impl Http {
    /// Create a new http client state with an empty default trend.
    pub fn new() -> (h: Http)
        ensures
            h.request_duration.spec_name() == "http-request-duration"@,
            h.request_duration.spec_samples() == Seq::<Nanos>::empty(),
            h.request_duration.spec_also() == Seq::<usize>::empty(),
    {
        Http { request_duration: Trend::new("http-request-duration".to_string()) }
    }

    /// Convenience method to make a new client state wrapped in an
    /// [`Arc`](std::sync::Arc).
    pub fn arcd() -> (a: Arc<Http>)
        ensures
            (*a).request_duration.spec_name() == "http-request-duration"@,
            (*a).request_duration.spec_samples() == Seq::<Nanos>::empty(),
            (*a).request_duration.spec_also() == Seq::<usize>::empty(),
    {
        Arc::new(Self::new())
    }
}

impl Default for Http {
    fn default() -> (h: Self)
        ensures
            h.request_duration.spec_name() == "http-request-duration"@,
            h.request_duration.spec_samples() == Seq::<Nanos>::empty(),
            h.request_duration.spec_also() == Seq::<usize>::empty(),
    {
        Self::new()
    }
}

} // verus!
