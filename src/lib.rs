pub mod classify;
pub mod context;
pub mod date;
pub mod etag;
pub mod headers;
pub mod key;
pub mod query;
pub mod range;
pub mod text;

pub use classify::{classify, classify_lowered, ContentCategory, ContentClassification, QualityInfo};
pub use context::HttpContext;
pub use date::{format_http_date, parse_http_date, parse_if_range, HttpDate, IfRangeHeader};
pub use etag::parse_etag_list;
pub use headers::HeaderField;
pub use key::{derive_key, key_from_parts};
pub use range::{parse_range_header, RangeHeader, RangeSpec};
pub use text::parse_u64;
