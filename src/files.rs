use vstd::prelude::*;
use crate::text::{decimal_of, push_char, push_unsigned, str_equals};

verus! {

/// Whether a character is alphabetic or numeric in Unicode's sense.
pub uninterp spec fn alphanumeric(c: char) -> bool;

/// The extension that a path's file name carries, if any.
pub uninterp spec fn path_extension(path: Seq<char>) -> Option<Seq<char>>;

/// The lowercase mapping of a string.
pub uninterp spec fn lower_of(s: Seq<char>) -> Seq<char>;

/// Relies on `char::is_alphanumeric`: Unicode's Alphabetic or Numeric
/// property, which among ASCII characters only the letters and digits have.
#[verifier::external_body]
fn is_alphanumeric(c: char) -> (r: bool)
    ensures
        r == alphanumeric(c),
        c <= '\u{7f}' ==> (r == ('a' <= c <= 'z' || 'A' <= c <= 'Z' || '0' <= c <= '9')),
{
    c.is_alphanumeric()
}

/// Relies on `Path::extension`: the part of the final file name after its
/// last dot, when that is not the name's leading dot.
#[verifier::external_body]
fn extension(path: &str) -> (r: Option<String>)
    ensures
        match r {
            Some(e) => path_extension(path@) == Some(e@),
            None => path_extension(path@) is None,
        },
{
    std::path::Path::new(path).extension().and_then(|e| e.to_str()).map(|e| e.to_string())
}

/// Relies on `str::to_lowercase`; an empty string stays empty.
#[verifier::external_body]
fn to_lowercase(s: &str) -> (r: String)
    ensures
        r@ == lower_of(s@),
        s@.len() == 0 ==> r@.len() == 0,
{
    s.to_lowercase()
}

/// Whether a character may stay in a stored file name.
pub open spec fn safe_in_filename(c: char) -> bool {
    alphanumeric(c) || c == '.' || c == '-' || c == '_'
}

/// A file name with each unsafe character replaced by `_`.
pub open spec fn sanitized(name: Seq<char>) -> Seq<char> {
    name.map_values(|c: char| if safe_in_filename(c) { c } else { '_' })
}

/// Replaces each character that is not a letter, a digit, `.`, `-` or `_`
/// with `_`.
pub fn sanitize_filename(filename: &str) -> (r: String)
    ensures
        r@ == sanitized(filename@),
{
    let n = filename.unicode_len();
    let mut out = String::new();
    let mut i: usize = 0;
    while i < n
        invariant
            n == filename@.len(),
            i <= n,
            out@ == sanitized(filename@.subrange(0, i as int)),
        decreases n - i,
    {
        let c = filename.get_char(i);
        let keep = is_alphanumeric(c) || c == '.' || c == '-' || c == '_';
        push_char(&mut out, if keep { c } else { '_' });
        assert(sanitized(filename@.subrange(0, i + 1)) =~= sanitized(filename@.subrange(0, i as int)).push(
            if keep { c } else { '_' },
        ));
        i = i + 1;
    }
    assert(filename@.subrange(0, n as int) == filename@);
    out
}

/// The MIME type of a lowercase file extension.
pub open spec fn content_type_of(ext: Seq<char>) -> Seq<char> {
    if ext == "jpg"@ || ext == "jpeg"@ { "image/jpeg"@ }
    else if ext == "png"@ { "image/png"@ }
    else if ext == "gif"@ { "image/gif"@ }
    else if ext == "webp"@ { "image/webp"@ }
    else if ext == "svg"@ { "image/svg+xml"@ }
    else if ext == "bmp"@ { "image/bmp"@ }
    else if ext == "pdf"@ { "application/pdf"@ }
    else if ext == "doc"@ { "application/msword"@ }
    else if ext == "docx"@ { "application/vnd.openxmlformats-officedocument.wordprocessingml.document"@ }
    else if ext == "xls"@ { "application/vnd.ms-excel"@ }
    else if ext == "xlsx"@ { "application/vnd.openxmlformats-officedocument.spreadsheetml.sheet"@ }
    else if ext == "ppt"@ { "application/vnd.ms-powerpoint"@ }
    else if ext == "pptx"@ { "application/vnd.openxmlformats-officedocument.presentationml.presentation"@ }
    else if ext == "txt"@ { "text/plain"@ }
    else if ext == "md"@ { "text/markdown"@ }
    else if ext == "html"@ || ext == "htm"@ { "text/html"@ }
    else if ext == "json"@ { "application/json"@ }
    else if ext == "xml"@ { "application/xml"@ }
    else if ext == "mp3"@ { "audio/mpeg"@ }
    else if ext == "mp4"@ { "video/mp4"@ }
    else if ext == "wav"@ { "audio/wav"@ }
    else { "application/octet-stream"@ }
}

/// The MIME type of a lowercase file extension.
pub fn content_type_for_extension(ext: &str) -> (r: String)
    ensures
        r@ == content_type_of(ext@),
{
    let t = if str_equals(ext, "jpg") || str_equals(ext, "jpeg") { "image/jpeg" }
    else if str_equals(ext, "png") { "image/png" }
    else if str_equals(ext, "gif") { "image/gif" }
    else if str_equals(ext, "webp") { "image/webp" }
    else if str_equals(ext, "svg") { "image/svg+xml" }
    else if str_equals(ext, "bmp") { "image/bmp" }
    else if str_equals(ext, "pdf") { "application/pdf" }
    else if str_equals(ext, "doc") { "application/msword" }
    else if str_equals(ext, "docx") { "application/vnd.openxmlformats-officedocument.wordprocessingml.document" }
    else if str_equals(ext, "xls") { "application/vnd.ms-excel" }
    else if str_equals(ext, "xlsx") { "application/vnd.openxmlformats-officedocument.spreadsheetml.sheet" }
    else if str_equals(ext, "ppt") { "application/vnd.ms-powerpoint" }
    else if str_equals(ext, "pptx") { "application/vnd.openxmlformats-officedocument.presentationml.presentation" }
    else if str_equals(ext, "txt") { "text/plain" }
    else if str_equals(ext, "md") { "text/markdown" }
    else if str_equals(ext, "html") || str_equals(ext, "htm") { "text/html" }
    else if str_equals(ext, "json") { "application/json" }
    else if str_equals(ext, "xml") { "application/xml" }
    else if str_equals(ext, "mp3") { "audio/mpeg" }
    else if str_equals(ext, "mp4") { "video/mp4" }
    else if str_equals(ext, "wav") { "audio/wav" }
    else { "application/octet-stream" };
    t.to_owned()
}

/// The extension of a path, lowercased; empty when there is none.
pub open spec fn lowercase_extension(path: Seq<char>) -> Seq<char> {
    match path_extension(path) {
        Some(e) => lower_of(e),
        None => Seq::empty(),
    }
}

/// The MIME type that a file name's extension suggests, whatever its case;
/// `application/octet-stream` when it suggests none.
pub fn infer_content_type(filename: &str) -> (r: String)
    ensures
        r@ == content_type_of(lowercase_extension(filename@)),
{
    let lower = match extension(filename) {
        Some(e) => to_lowercase(e.as_str()),
        None => String::new(),
    };
    content_type_for_extension(lower.as_str())
}

/// Where the object store is and how its objects are addressed.
#[derive(Debug, Clone)]
pub struct QiniuClientConfig {
    pub access_key: String,
    pub secret_key: String,
    pub bucket: String,
    pub region: String,
    pub s3_endpoint: String,
    pub domain: String,
    pub private_bucket: bool,
    pub url_expire_seconds: u64,
    pub use_https: bool,
}

/// Why an object URL could not be made.
#[derive(Debug, Clone, Copy, PartialEq, Eq, Structural)]
pub enum UrlError {
    /// Objects of a private bucket need signed URLs, which are not made here.
    PrivateBucket,
}

/// A string with every trailing `/` removed.
pub open spec fn without_trailing_slashes(s: Seq<char>) -> Seq<char>
    decreases s.len(),
{
    if s.len() > 0 && s.last() == '/' {
        without_trailing_slashes(s.drop_last())
    } else {
        s
    }
}

/// The host that serves a bucket's objects: the configured domain without
/// trailing slashes, or the bucket's default host when none is configured.
pub open spec fn object_host(bucket: Seq<char>, region: Seq<char>, domain: Seq<char>) -> Seq<char> {
    if domain.len() > 0 {
        without_trailing_slashes(domain)
    } else {
        bucket + ".s3-"@ + region + ".qiniucs.com"@
    }
}

/// The public URL of an object.
pub open spec fn object_url_of(https: bool, bucket: Seq<char>, region: Seq<char>, domain: Seq<char>, key: Seq<char>) -> Seq<char> {
    (if https { "https"@ } else { "http"@ }) + "://"@ + object_host(bucket, region, domain) + "/"@ + key
}

fn trim_trailing_slashes(s: &str) -> (r: &str)
    ensures
        r@ == without_trailing_slashes(s@),
{
    let mut n = s.unicode_len();
    assert(s@.subrange(0, n as int) =~= s@);
    while n > 0
        invariant
            n <= s@.len(),
            without_trailing_slashes(s@) == without_trailing_slashes(s@.subrange(0, n as int)),
        ensures
            without_trailing_slashes(s@) == without_trailing_slashes(s@.subrange(0, n as int)),
            n == 0 || s@[n - 1] != '/',
        decreases n,
    {
        if s.get_char(n - 1) != '/' {
            break;
        }
        assert(s@.subrange(0, n as int).drop_last() =~= s@.subrange(0, n - 1));
        n = n - 1;
    }
    let r = s.substring_char(0, n);
    assert(without_trailing_slashes(r@) == r@) by {
        if r@.len() > 0 {
            assert(r@.last() == s@[n - 1]);
        }
    }
    r
}

/// The public URL of an object of a public bucket.
pub fn object_url(config: &QiniuClientConfig, object_key: &str) -> (r: Result<String, UrlError>)
    ensures
        match r {
            Ok(u) => !config.private_bucket && u@ == object_url_of(config.use_https, config.bucket@, config.region@, config.domain@, object_key@),
            Err(e) => config.private_bucket && e == UrlError::PrivateBucket,
        },
{
    if config.private_bucket {
        return Err(UrlError::PrivateBucket);
    }
    let mut url = String::from_str(if config.use_https { "https" } else { "http" });
    url.append("://");
    if config.domain.unicode_len() > 0 {
        url.append(trim_trailing_slashes(config.domain.as_str()));
    } else {
        url.append(config.bucket.as_str());
        url.append(".s3-");
        url.append(config.region.as_str());
        url.append(".qiniucs.com");
    }
    url.append("/");
    url.append(object_key);
    Ok(url)
}

/// `ai-chat/{workspace}/{user}/{timestamp}_{tag}_{sanitized file name}`.
pub open spec fn ai_file_key_of(workspace_id: Seq<char>, user_id: Seq<char>, timestamp: u64, tag: Seq<char>, filename: Seq<char>) -> Seq<char> {
    "ai-chat/"@ + workspace_id + "/"@ + user_id + "/"@ + decimal_of(timestamp as int) + "_"@ + tag + "_"@ + sanitized(filename)
}

/// The storage key of a file uploaded to an AI chat, from its upload time
/// and a random tag.
pub fn ai_file_key(workspace_id: &str, user_id: &str, timestamp: u64, tag: &str, filename: &str) -> (r: String)
    ensures
        r@ == ai_file_key_of(workspace_id@, user_id@, timestamp, tag@, filename@),
{
    let mut key = String::from_str("ai-chat/");
    key.append(workspace_id);
    key.append("/");
    key.append(user_id);
    key.append("/");
    push_unsigned(&mut key, timestamp);
    key.append("_");
    key.append(tag);
    key.append("_");
    let clean = sanitize_filename(filename);
    key.append(clean.as_str());
    key
}

/// Relies on `SystemTime::now` and `SystemTime::duration_since`: the
/// seconds since the Unix epoch, `None` when the clock is set before it.
#[verifier::external_body]
fn unix_seconds_now() -> (r: Option<u64>)
{
    std::time::SystemTime::now().duration_since(std::time::UNIX_EPOCH).ok().map(|d| d.as_secs())
}

pub open spec fn is_lower_hex(c: char) -> bool {
    ('0' <= c <= '9') || ('a' <= c <= 'f')
}

/// Whether a position of a hyphenated UUID holds a `-`.
pub open spec fn uuid_hyphen_at(i: int) -> bool {
    i == 8 || i == 13 || i == 18 || i == 23
}

/// Relies on `uuid::Uuid::new_v4` and its `Display` text, which is the
/// lowercase hyphenated form: 36 characters, `-` at positions 8, 13, 18
/// and 23, lowercase hexadecimal digits elsewhere.
#[verifier::external_body]
fn random_uuid_text() -> (r: String)
    ensures
        r@.len() == 36,
        forall|i: int| 0 <= i < 36 ==> if uuid_hyphen_at(i) { #[trigger] r@[i] == '-' } else { is_lower_hex(r@[i]) },
{
    uuid::Uuid::new_v4().to_string()
}

/// The storage key of a file uploaded to an AI chat now, tagged with the
/// first eight hexadecimal digits of a random UUID. A clock set before the
/// Unix epoch counts as time zero.
pub fn generate_ai_file_key(workspace_id: &str, user_id: &str, filename: &str) -> (r: String)
    ensures
        exists|timestamp: u64, tag: Seq<char>|
            tag.len() == 8 && (forall|i: int| 0 <= i < 8 ==> is_lower_hex(#[trigger] tag[i])) && #[trigger] ai_file_key_of(workspace_id@, user_id@, timestamp, tag, filename@) == r@,
{
    let now = match unix_seconds_now() {
        Some(t) => t,
        None => 0,
    };
    let text = random_uuid_text();
    let tag = text.as_str().substring_char(0, 8);
    ai_file_key(workspace_id, user_id, now, tag, filename)
}

} // verus!
