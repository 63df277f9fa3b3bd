mod dataset;
mod error;
mod http;
mod stat;
mod trend;

pub use dataset::Dataset;
pub use error::Error;
pub use http::Http;
pub use stat::Nanos;
pub use stat::Stat;
pub use trend::Trend;
