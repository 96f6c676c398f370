use vstd::prelude::*;

use crate::date::{at_or_before, http_date_of, if_range_is, parse_http_date, parse_if_range};
use crate::date::{HttpDate, IfRangeHeader};
use crate::etag::{etag_list_of, parse_etag_list, string_views};
use crate::headers::{
    header_str, header_text, keys_unique, lower_of, lowercase, lowered_names, others_of,
    other_headers_of, same_text, table_get, table_map, HeaderField,
};
use crate::range::{parse_range_header, range_header_of, RangeHeader, RangeSpec};
use crate::text::{parse_u64, parse_u64_spec};

verus! {

/// What a request says of itself that bears on caching: the headers it
/// carries, each parsed into a field of its own, and the others by name.
#[derive(Clone)]
pub struct HttpContext {
    pub client_addr: String,
    pub host: Option<String>,
    pub user_agent: Option<String>,
    pub accept: Option<String>,
    pub accept_encoding: Option<String>,
    pub accept_language: Option<String>,
    pub connection: Option<String>,
    pub cache_control: Option<String>,
    pub cookie: Option<String>,
    pub authorization: Option<String>,
    pub content_type: Option<String>,
    pub content_length: Option<u64>,
    pub referer: Option<String>,
    pub origin: Option<String>,
    pub range: Option<RangeHeader>,
    pub if_range: Option<IfRangeHeader>,
    pub if_modified_since: Option<HttpDate>,
    pub if_unmodified_since: Option<HttpDate>,
    pub if_none_match: Option<Vec<String>>,
    pub if_match: Option<Vec<String>>,
    pub other_headers: Vec<(String, String)>,
}

/// The text of an optional string.
pub open spec fn opt_text(o: Option<String>) -> Option<Seq<char>> {
    match o {
        Some(s) => Some(s@),
        None => None,
    }
}

/// The instant of an optional date.
pub open spec fn opt_date(o: Option<HttpDate>) -> Option<(i64, u32)> {
    match o {
        Some(d) => Some(d@),
        None => None,
    }
}

/// The texts of an optional list of strings.
pub open spec fn opt_list(o: Option<Vec<String>>) -> Option<Seq<Seq<char>>> {
    match o {
        Some(v) => Some(string_views(v@)),
        None => None,
    }
}

/// The unit and ranges of an optional `Range` header.
pub open spec fn opt_range(o: Option<RangeHeader>) -> Option<(Seq<char>, Seq<RangeSpec>)> {
    match o {
        Some(h) => Some(h@),
        None => None,
    }
}

/// The number that a header's text gives, where it is one.
pub open spec fn number_of(o: Option<Seq<char>>) -> Option<u64> {
    match o {
        Some(t) => parse_u64_spec(t),
        None => None,
    }
}

/// The instant that a header's text names, where it names one.
pub open spec fn date_of(o: Option<Seq<char>>) -> Option<(i64, u32)> {
    match o {
        Some(t) => http_date_of(t),
        None => None,
    }
}

/// The entity tags that a header's text lists, where it lists any.
pub open spec fn tags_of(o: Option<Seq<char>>) -> Option<Seq<Seq<char>>> {
    match o {
        Some(t) => if etag_list_of(t).len() > 0 {
            Some(etag_list_of(t))
        } else {
            None
        },
        None => None,
    }
}

/// The ranges that a header's text asks for, where it asks for any.
pub open spec fn ranges_of(o: Option<Seq<char>>) -> Option<(Seq<char>, Seq<RangeSpec>)> {
    match o {
        Some(t) => range_header_of(t),
        None => None,
    }
}

/// Whether a list of entity tags admits `e`: it holds `*` or `e` itself.
pub open spec fn list_admits(l: Seq<Seq<char>>, e: Seq<char>) -> bool {
    exists|i: int| 0 <= i < l.len() && (l[i] == seq!['*'] || l[i] == e)
}

/// Whether the cached copy may be answered with 304 Not Modified.
pub open spec fn not_modified(
    if_modified_since: Option<(i64, u32)>,
    if_none_match: Option<Seq<Seq<char>>>,
    last_modified: Option<(i64, u32)>,
    etag: Option<Seq<char>>,
) -> bool {
    ||| (if_modified_since is Some && last_modified is Some && at_or_before(
        last_modified->0,
        if_modified_since->0,
    ))
    ||| (if_none_match is Some && etag is Some && list_admits(if_none_match->0, etag->0))
}

/// Whether the request's preconditions fail (412 Precondition Failed).
pub open spec fn precondition_failed(
    if_unmodified_since: Option<(i64, u32)>,
    if_match: Option<Seq<Seq<char>>>,
    last_modified: Option<(i64, u32)>,
    etag: Option<Seq<char>>,
) -> bool {
    ||| (if_unmodified_since is Some && last_modified is Some && !at_or_before(
        last_modified->0,
        if_unmodified_since->0,
    ))
    ||| (if_match is Some && ((etag is Some && !list_admits(if_match->0, etag->0)) || (etag is None
        && if_match->0.len() > 0)))
}

/// Whether a range may be served, given the request's `If-Range`.
pub open spec fn range_usable(
    if_range: Option<IfRangeHeader>,
    last_modified: Option<(i64, u32)>,
    etag: Option<Seq<char>>,
) -> bool {
    match if_range {
        None => true,
        Some(IfRangeHeader::ETag(t)) => etag is Some && etag->0 == t@,
        Some(IfRangeHeader::Date(d)) => last_modified is Some && at_or_before(last_modified->0, d@),
    }
}

/// The instant of an optional borrowed date.
pub open spec fn opt_date_ref(o: Option<&HttpDate>) -> Option<(i64, u32)> {
    match o {
        Some(d) => Some(d@),
        None => None,
    }
}

/// The text of an optional string slice.
pub open spec fn opt_str(o: Option<&str>) -> Option<Seq<char>> {
    match o {
        Some(s) => Some(s@),
        None => None,
    }
}

fn admits(l: &Vec<String>, e: &str) -> (r: bool)
    ensures
        r == list_admits(string_views(l@), e@),
{
    let ghost views = string_views(l@);
    let mut i: usize = 0;
    while i < l.len()
        invariant
            i <= l.len(),
            views == string_views(l@),
            forall|k: int| 0 <= k < i ==> !(views[k] == seq!['*'] || views[k] == e@),
        decreases l.len() - i,
    {
        assert(views[i as int] == l[i as int]@);
        proof {
            reveal_strlit("*");
        }
        assert("*"@ =~= seq!['*']);
        if same_text(l[i].as_str(), "*") || same_text(l[i].as_str(), e) {
            return true;
        }
        i = i + 1;
    }
    false
}

/// What the context built from `headers` and `client_addr` holds: each
/// recognized header parsed into its field, the others by name.
pub open spec fn built_from(r: HttpContext, headers: Seq<HeaderField>, client_addr: String) -> bool {
    &&& r.client_addr == client_addr
    &&& opt_text(r.host) == header_text(headers, "host"@)
    &&& opt_text(r.user_agent) == header_text(headers, "user-agent"@)
    &&& opt_text(r.accept) == header_text(headers, "accept"@)
    &&& opt_text(r.accept_encoding) == header_text(headers, "accept-encoding"@)
    &&& opt_text(r.accept_language) == header_text(headers, "accept-language"@)
    &&& opt_text(r.connection) == header_text(headers, "connection"@)
    &&& opt_text(r.cache_control) == header_text(headers, "cache-control"@)
    &&& opt_text(r.cookie) == header_text(headers, "cookie"@)
    &&& opt_text(r.authorization) == header_text(headers, "authorization"@)
    &&& opt_text(r.content_type) == header_text(headers, "content-type"@)
    &&& r.content_length == number_of(header_text(headers, "content-length"@))
    &&& opt_text(r.referer) == header_text(headers, "referer"@)
    &&& opt_text(r.origin) == header_text(headers, "origin"@)
    &&& opt_range(r.range) == ranges_of(header_text(headers, "range"@))
    &&& match header_text(headers, "if-range"@) {
        Some(t) => r.if_range matches Some(h) && if_range_is(h, t),
        None => r.if_range is None,
    }
    &&& opt_date(r.if_modified_since) == date_of(header_text(headers, "if-modified-since"@))
    &&& opt_date(r.if_unmodified_since) == date_of(header_text(headers, "if-unmodified-since"@))
    &&& opt_list(r.if_none_match) == tags_of(header_text(headers, "if-none-match"@))
    &&& opt_list(r.if_match) == tags_of(header_text(headers, "if-match"@))
    &&& keys_unique(r.other_headers@)
    &&& table_map(r.other_headers@) == others_of(headers)
}

impl HttpContext {
    /// Builds the context of a request from its headers and its client's address.
    pub fn from_headers(headers: &Vec<HeaderField>, client_addr: String) -> (r: HttpContext)
        ensures
            built_from(r, headers@, client_addr),
    {
        let names = lowered_names(headers);
        let content_length = match header_str(headers, &names, "content-length") {
            Some(t) => parse_u64(t.as_str()),
            None => None,
        };
        let range = match header_str(headers, &names, "range") {
            Some(t) => parse_range_header(t.as_str()),
            None => None,
        };
        let if_range = match header_str(headers, &names, "if-range") {
            Some(t) => Some(parse_if_range(t.as_str())),
            None => None,
        };
        let if_modified_since = match header_str(headers, &names, "if-modified-since") {
            Some(t) => parse_http_date(t.as_str()),
            None => None,
        };
        let if_unmodified_since = match header_str(headers, &names, "if-unmodified-since") {
            Some(t) => parse_http_date(t.as_str()),
            None => None,
        };
        let if_none_match = match header_str(headers, &names, "if-none-match") {
            Some(t) => parse_etag_list(t.as_str()),
            None => None,
        };
        let if_match = match header_str(headers, &names, "if-match") {
            Some(t) => parse_etag_list(t.as_str()),
            None => None,
        };
        HttpContext {
            client_addr,
            host: header_str(headers, &names, "host"),
            user_agent: header_str(headers, &names, "user-agent"),
            accept: header_str(headers, &names, "accept"),
            accept_encoding: header_str(headers, &names, "accept-encoding"),
            accept_language: header_str(headers, &names, "accept-language"),
            connection: header_str(headers, &names, "connection"),
            cache_control: header_str(headers, &names, "cache-control"),
            cookie: header_str(headers, &names, "cookie"),
            authorization: header_str(headers, &names, "authorization"),
            content_type: header_str(headers, &names, "content-type"),
            content_length,
            referer: header_str(headers, &names, "referer"),
            origin: header_str(headers, &names, "origin"),
            range,
            if_range,
            if_modified_since,
            if_unmodified_since,
            if_none_match,
            if_match,
            other_headers: other_headers_of(headers, &names),
        }
    }

    /// The value of a header that has no field of its own, by name in any case.
    pub fn get_header(&self, name: &str) -> (r: Option<&String>)
        requires
            keys_unique(self.other_headers@),
        ensures
            match r {
                Some(v) => table_map(self.other_headers@).contains_key(lower_of(name@))
                    && table_map(self.other_headers@)[lower_of(name@)] == v@,
                None => !table_map(self.other_headers@).contains_key(lower_of(name@)),
            },
    {
        let key = lowercase(name);
        table_get(&self.other_headers, key.as_str())
    }

    /// Whether the request may be answered with 304 Not Modified, given the
    /// resource's current validators.
    pub fn should_return_304(&self, last_modified: Option<&HttpDate>, etag: Option<&str>) -> (r:
        bool)
        ensures
            r == not_modified(
                opt_date(self.if_modified_since),
                opt_list(self.if_none_match),
                opt_date_ref(last_modified),
                opt_str(etag),
            ),
    {
        if let Some(since) = &self.if_modified_since {
            if let Some(lm) = last_modified {
                if lm.is_at_or_before(since) {
                    return true;
                }
            }
        }
        if let Some(if_none_match) = &self.if_none_match {
            if let Some(current_etag) = etag {
                if admits(if_none_match, current_etag) {
                    return true;
                }
            }
        }
        false
    }

    /// Whether the request's preconditions fail (412), given the resource's
    /// current validators.
    pub fn should_return_412(&self, last_modified: Option<&HttpDate>, etag: Option<&str>) -> (r:
        bool)
        ensures
            r == precondition_failed(
                opt_date(self.if_unmodified_since),
                opt_list(self.if_match),
                opt_date_ref(last_modified),
                opt_str(etag),
            ),
    {
        if let Some(since) = &self.if_unmodified_since {
            if let Some(lm) = last_modified {
                if !lm.is_at_or_before(since) {
                    return true;
                }
            }
        }
        if let Some(if_match) = &self.if_match {
            if let Some(current_etag) = etag {
                if !admits(if_match, current_etag) {
                    return true;
                }
            } else if if_match.len() > 0 {
                return true;
            }
        }
        false
    }

    /// Whether a `Range` request may be served as a range, given the
    /// resource's current validators and the request's `If-Range`.
    pub fn can_use_range(&self, last_modified: Option<&HttpDate>, etag: Option<&str>) -> (r: bool)
        ensures
            r == range_usable(self.if_range, opt_date_ref(last_modified), opt_str(etag)),
    {
        match &self.if_range {
            Some(IfRangeHeader::ETag(if_range_etag)) => match etag {
                Some(e) => same_text(e, if_range_etag.as_str()),
                None => false,
            },
            Some(IfRangeHeader::Date(if_range_date)) => match last_modified {
                Some(lm) => lm.is_at_or_before(if_range_date),
                None => false,
            },
            None => true,
        }
    }
}

} // verus!
