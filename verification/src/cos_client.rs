//! The client's side of the object store: the addresses of objects, and what
//! a response of the store means.
//!
//! Requests are sent elsewhere. What comes back is handed in as plain values
//! (the status code, the header fields, the body), and the functions here
//! turn it into metadata, content or an error.

use vstd::prelude::*;
use vstd::string::StringExecFns;
use std::time::SystemTime;
use crate::text::chars_of;

verus! {

/// `std::time::SystemTime`, a point in time. Nothing is said of it but that
/// a copy is the same point.
#[verifier::external_type_specification]
#[verifier::external_body]
pub struct ExSystemTime(SystemTime);

/// `SystemTime` is `Copy`: its `clone` gives back the same point in time.
pub assume_specification[ <SystemTime as Clone>::clone ](t: &SystemTime) -> (r: SystemTime)
    ensures
        r == *t,
;

/// `SystemTime::now`: the clock's reading. Nothing is known of it in advance.
#[verifier::external_body]
pub(crate) fn current_time() -> (now: SystemTime) {
    SystemTime::now()
}

/// What the store tells about one object.
#[derive(Debug, Clone)]
pub struct ObjectMeta {
    pub key: String,
    pub size: u64,
    pub last_modified: SystemTime,
    pub etag: String,
    pub content_type: Option<String>,
}

/// The metadata of an object as plain values.
pub struct ObjectMetaView {
    pub key: Seq<char>,
    pub size: u64,
    pub last_modified: SystemTime,
    pub etag: Seq<char>,
    pub content_type: Option<Seq<char>>,
}

/// The characters of an optional string.
pub open spec fn option_view(s: Option<String>) -> Option<Seq<char>> {
    match s {
        Some(s) => Some(s@),
        None => None,
    }
}

impl View for ObjectMeta {
    type V = ObjectMetaView;

    open spec fn view(&self) -> ObjectMetaView {
        ObjectMetaView {
            key: self.key@,
            size: self.size,
            last_modified: self.last_modified,
            etag: self.etag@,
            content_type: option_view(self.content_type),
        }
    }
}

/// Why the store did not deliver.
#[derive(Debug, Clone, Copy, PartialEq, Eq, Structural)]
pub enum ClientError {
    /// The store holds no object under the key (status 404).
    NotFound,
    /// The store answered with another status outside 200 to 299.
    Status(u16),
}

/// The response to a request for an object's metadata, as far as it is read.
#[derive(Debug, Clone)]
pub struct HeadResponse {
    pub status: u16,
    pub content_length: Option<String>,
    pub last_modified: Option<String>,
    pub etag: Option<String>,
    pub content_type: Option<String>,
}

/// A status code of the 200 range.
pub open spec fn is_success(status: u16) -> bool {
    200 <= status < 300
}

/// What a status code means for a request: not found, failed, or served.
pub open spec fn status_error(status: u16) -> Option<ClientError> {
    if status == 404 {
        Some(ClientError::NotFound)
    } else if !is_success(status) {
        Some(ClientError::Status(status))
    } else {
        None
    }
}

/// A decimal digit.
pub open spec fn is_digit(c: char) -> bool {
    '0' <= c <= '9'
}

/// The number that a sequence of digits writes.
pub open spec fn digits_value(s: Seq<char>) -> nat
    decreases s.len(),
{
    if s.len() == 0 {
        0
    } else {
        (digits_value(s.drop_last()) * 10 + (s.last() as u32 - '0' as u32)) as nat
    }
}

/// Every character of `s` is a digit.
pub open spec fn all_digits(s: Seq<char>) -> bool {
    forall|i: int| 0 <= i < s.len() ==> is_digit(#[trigger] s[i])
}

/// `s` without the `+` that may stand at its start.
pub open spec fn unsigned_part(s: Seq<char>) -> Seq<char> {
    if s.len() > 0 && s[0] == '+' {
        s.drop_first()
    } else {
        s
    }
}

/// The number that `s` writes in decimal: an optional `+`, then one digit or
/// more and nothing else, the whole no greater than `u64::MAX`.
pub open spec fn decimal_u64(s: Seq<char>) -> Option<u64> {
    let digits = unsigned_part(s);
    if digits.len() > 0 && all_digits(digits) && digits_value(digits) <= u64::MAX {
        Some(digits_value(digits) as u64)
    } else {
        None
    }
}

/// The size that a `content-length` field gives: its number, or 0 where the
/// field is missing or is no number.
pub open spec fn size_from(content_length: Option<Seq<char>>) -> u64 {
    match content_length {
        Some(s) => match decimal_u64(s) {
            Some(n) => n,
            None => 0,
        },
        None => 0,
    }
}

/// The entity tag that an `etag` field gives: the field, or the empty string
/// where it is missing.
pub open spec fn etag_from(etag: Option<Seq<char>>) -> Seq<char> {
    match etag {
        Some(s) => s,
        None => Seq::empty(),
    }
}

proof fn lemma_digits_value_grows(s: Seq<char>, k: int)
    requires
        0 <= k <= s.len(),
        all_digits(s),
    ensures
        digits_value(s.take(k)) <= digits_value(s),
    decreases s.len() - k,
{
    if k == s.len() {
        assert(s.take(k) =~= s);
    } else {
        lemma_digits_value_grows(s, k + 1);
        let t = s.take(k + 1);
        assert(t.drop_last() =~= s.take(k));
    }
}

/// Reads a number in decimal, as `str::parse::<u64>` does.
pub fn parse_decimal(s: &str) -> (r: Option<u64>)
    ensures
        r == decimal_u64(s@),
{
    let chars = chars_of(s);
    let start: usize = if chars.len() > 0 && chars[0] == '+' {
        1
    } else {
        0
    };
    let ghost digits = unsigned_part(s@);
    if chars.len() == start {
        return None;
    }
    let mut value: u64 = 0;
    let mut i: usize = start;
    while i < chars.len()
        invariant
            start <= i <= chars.len(),
            start < chars.len(),
            chars@ == s@,
            digits == chars@.skip(start as int),
            digits == unsigned_part(s@),
            all_digits(digits.take(i - start)),
            value == digits_value(digits.take(i - start)),
        decreases chars.len() - i,
    {
        let c = chars[i];
        assert(digits[i - start] == c);
        if c < '0' || c > '9' {
            return None;
        }
        let d: u64 = (c as u32 - '0' as u32) as u64;
        proof {
            let t = digits.take(i - start + 1);
            assert(t.drop_last() =~= digits.take(i - start));
            if value * 10 + d > u64::MAX && all_digits(digits) {
                lemma_digits_value_grows(digits, i - start + 1);
            }
        }
        if value > (u64::MAX - d) / 10 {
            return None;
        }
        value = value * 10 + d;
        i = i + 1;
    }
    assert(digits.take(digits.len() as int) =~= digits);
    Some(value)
}

/// The metadata of the object `key` that the fields of `response` give, with
/// `last_modified` for the time of modification.
pub open spec fn meta_of(key: Seq<char>, response: HeadResponse, last_modified: SystemTime)
    -> ObjectMetaView {
    ObjectMetaView {
        key,
        size: size_from(option_view(response.content_length)),
        last_modified,
        etag: etag_from(option_view(response.etag)),
        content_type: option_view(response.content_type),
    }
}

/// The metadata of the object `key` that the fields of `response` give: the
/// size is the number in `content-length` (0 where that is missing or no
/// number), the entity tag is `etag` (empty where missing), the content type
/// is kept as it came. The time of modification is `last_modified`.
pub fn object_meta(key: &str, response: &HeadResponse, last_modified: SystemTime) -> (meta:
    ObjectMeta)
    ensures
        meta@ == meta_of(key@, *response, last_modified),
{
    let size: u64 = match &response.content_length {
        Some(v) => match parse_decimal(v.as_str()) {
            Some(n) => n,
            None => 0,
        },
        None => 0,
    };
    let etag = match &response.etag {
        Some(v) => v.clone(),
        None => String::new(),
    };
    let content_type = match &response.content_type {
        Some(v) => Some(v.clone()),
        None => None,
    };
    ObjectMeta { key: key.to_owned(), size, last_modified, etag, content_type }
}

/// Reads a date of a `last-modified` field. Whatever the field holds, the
/// answer is the time of the call.
pub fn parse_http_date(_date_str: &str) -> (r: Option<SystemTime>)
    ensures
        r is Some,
{
    Some(current_time())
}

/// The address of the store of `bucket` in `region`.
pub open spec fn base_url_of(bucket: Seq<char>, region: Seq<char>) -> Seq<char> {
    "https://"@ + bucket + ".cos."@ + region + ".myqcloud.com"@
}

/// The keys that `list_objects` reports.
pub open spec fn listed_keys() -> Seq<Seq<char>> {
    seq!["data/file1.txt"@, "data/file2.jpg"@, "data/subdir/file3.txt"@, "README.md"@]
}

/// A client of one bucket of the store.
#[derive(Debug)]
pub struct CosClient {
    bucket: String,
    region: String,
    base_url: String,
}

impl CosClient {
    /// The bucket's name.
    pub closed spec fn bucket_view(&self) -> Seq<char> {
        self.bucket@
    }

    /// The region's name.
    pub closed spec fn region_view(&self) -> Seq<char> {
        self.region@
    }

    /// The address of the store.
    pub closed spec fn base_url_view(&self) -> Seq<char> {
        self.base_url@
    }

    /// The address under which the object with key `key` is found.
    pub open spec fn url_of(&self, key: Seq<char>) -> Seq<char> {
        self.base_url_view() + seq!['/'] + key
    }

    /// A client for `bucket` in `region`.
    pub fn new(bucket: String, region: String) -> (client: CosClient)
        ensures
            client.bucket_view() == bucket@,
            client.region_view() == region@,
            client.base_url_view() == base_url_of(bucket@, region@),
    {
        let mut base_url = "https://".to_owned();
        base_url.append(bucket.as_str());
        base_url.append(".cos.");
        base_url.append(region.as_str());
        base_url.append(".myqcloud.com");
        CosClient { bucket, region, base_url }
    }

    /// The bucket's name.
    pub fn bucket(&self) -> (s: &String)
        ensures
            s@ == self.bucket_view(),
    {
        &self.bucket
    }

    /// The region's name.
    pub fn region(&self) -> (s: &String)
        ensures
            s@ == self.region_view(),
    {
        &self.region
    }

    /// The address of the store.
    pub fn base_url(&self) -> (s: &String)
        ensures
            s@ == self.base_url_view(),
    {
        &self.base_url
    }

    /// The address under which the object with key `key` is found.
    pub fn object_url(&self, key: &str) -> (url: String)
        ensures
            url@ == self.url_of(key@),
    {
        let mut url = self.base_url.clone();
        url.push('/');
        url.append(key);
        url
    }

    /// The metadata that a response of the store gives for the object `key`.
    /// Status 404 means that there is no such object, any other status
    /// outside 200 to 299 that the request failed. Otherwise the size is the
    /// number in `content-length` (0 where that is missing or no number), the
    /// entity tag is `etag` (empty where missing), the content type is kept
    /// as it came, and the time of modification is read off the clock.
    pub fn head_object(&self, key: &str, response: &HeadResponse) -> (r: Result<
        ObjectMeta,
        ClientError,
    >)
        ensures
            match r {
                Ok(meta) => {
                    &&& status_error(response.status) is None
                    &&& meta@ == meta_of(key@, *response, meta.last_modified)
                },
                Err(e) => status_error(response.status) == Some(e),
            },
    {
        if response.status == 404 {
            return Err(ClientError::NotFound);
        }
        if !(response.status >= 200 && response.status < 300) {
            return Err(ClientError::Status(response.status));
        }
        let last_modified = match &response.last_modified {
            Some(v) => match parse_http_date(v.as_str()) {
                Some(t) => t,
                None => current_time(),
            },
            None => current_time(),
        };
        Ok(object_meta(key, response, last_modified))
    }

    /// The content that a response of the store gives for the object `key`:
    /// the body, unless the status says that the object is missing or that
    /// the request failed.
    pub fn get_object(&self, key: &str, status: u16, body: Vec<u8>) -> (r: Result<
        Vec<u8>,
        ClientError,
    >)
        ensures
            match r {
                Ok(content) => status_error(status) is None && content@ == body@,
                Err(e) => status_error(status) == Some(e),
            },
    {
        if status == 404 {
            return Err(ClientError::NotFound);
        }
        if !(status >= 200 && status < 300) {
            return Err(ClientError::Status(status));
        }
        Ok(body)
    }

    /// The keys of the bucket's objects: a fixed list of four.
    pub fn list_objects(&self) -> (r: Result<Vec<String>, ClientError>)
        ensures
            r is Ok,
            crate::namespace::views(r->Ok_0@) == listed_keys(),
    {
        let mut keys: Vec<String> = Vec::new();
        keys.push("data/file1.txt".to_owned());
        keys.push("data/file2.jpg".to_owned());
        keys.push("data/subdir/file3.txt".to_owned());
        keys.push("README.md".to_owned());
        Ok(keys)
    }
}

} // verus!
