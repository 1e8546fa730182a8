//! S3 object locations written as URIs: `s3://bucket/key`.

use vstd::prelude::*;

verus! {

/// The parts of a parsed URL that an S3 location is made of.
#[derive(Debug, Clone)]
pub struct UrlParts {
    pub scheme: String,
    pub host: Option<String>,
    pub path: String,
}

pub struct UrlPartsView {
    pub scheme: Seq<char>,
    pub host: Option<Seq<char>>,
    pub path: Seq<char>,
}

impl View for UrlParts {
    type V = UrlPartsView;

    open spec fn view(&self) -> UrlPartsView {
        UrlPartsView {
            scheme: self.scheme@,
            host: match self.host {
                Some(h) => Some(h@),
                None => None,
            },
            path: self.path@,
        }
    }
}

/// What the `url` crate parses a text to: the URL's scheme, host and path,
/// or the message of its parse error.
pub uninterp spec fn url_parsed(text: Seq<char>) -> Result<UrlPartsView, Seq<char>>;

/// `url::Url::parse`, with the URL read out by `scheme`, `host_str` and
/// `path`; the parse error is carried as its message.  The result is a
/// function of the text alone.
#[verifier::external_body]
fn parse_url(uri: &str) -> (r: Result<UrlParts, String>)
    ensures
        match r {
            Ok(p) => url_parsed(uri@) == Ok::<UrlPartsView, Seq<char>>(p@),
            Err(m) => url_parsed(uri@) == Err::<UrlPartsView, Seq<char>>(m@),
        },
{
    url::Url::parse(uri).map(|u| UrlParts {
        scheme: u.scheme().to_string(),
        host: u.host_str().map(|h| h.to_string()),
        path: u.path().to_string(),
    }).map_err(|e| e.to_string())
}

/// Why a text is no S3 location.
#[derive(Debug, Clone)]
pub enum S3UriError {
    /// The text is no URL; the parser's message.
    Parse(String),
    /// The scheme is not `s3`.
    NotS3,
    /// The URL names no host, which is the bucket.
    NoBucket,
    /// The path, without its leading slashes, is empty.
    NoKey,
}

impl S3UriError {
    /// The message of this error.
    pub open spec fn message_text(&self) -> Seq<char> {
        match self {
            S3UriError::Parse(_) => "Failed to parse S3 URI"@,
            S3UriError::NotS3 => "URI must start with s3://"@,
            S3UriError::NoBucket => "No bucket specified in S3 URI"@,
            S3UriError::NoKey => "No key specified in S3 URI"@,
        }
    }

    /// The message of this error; a parse error's cause is kept apart.
    pub fn message(&self) -> (s: String)
        ensures
            s@ == self.message_text(),
    {
        match self {
            S3UriError::Parse(_) => "Failed to parse S3 URI".to_string(),
            S3UriError::NotS3 => "URI must start with s3://".to_string(),
            S3UriError::NoBucket => "No bucket specified in S3 URI".to_string(),
            S3UriError::NoKey => "No key specified in S3 URI".to_string(),
        }
    }
}

/// A path without its leading slashes.
pub open spec fn trim_leading_slashes(path: Seq<char>) -> Seq<char>
    decreases path.len(),
{
    if path.len() > 0 && path[0] == '/' {
        trim_leading_slashes(path.drop_first())
    } else {
        path
    }
}

/// What an S3 URI names, or why it names nothing.
pub enum S3Location {
    /// The bucket is the URL's host, the key its path without leading
    /// slashes.
    Named { bucket: Seq<char>, key: Seq<char> },
    /// The text is no URL; the parser's message.
    Unparsed(Seq<char>),
    NotS3,
    NoBucket,
    NoKey,
}

/// What an S3 URI names.
pub open spec fn s3_location(uri: Seq<char>) -> S3Location {
    location_of(url_parsed(uri))
}

/// What the parse of a URL names as an S3 location.
pub open spec fn location_of(parsed: Result<UrlPartsView, Seq<char>>) -> S3Location {
    match parsed {
        Err(m) => S3Location::Unparsed(m),
        Ok(parts) => if parts.scheme != "s3"@ {
            S3Location::NotS3
        } else {
            match parts.host {
                None => S3Location::NoBucket,
                Some(bucket) => {
                    let key = trim_leading_slashes(parts.path);
                    if key.len() == 0 {
                        S3Location::NoKey
                    } else {
                        S3Location::Named { bucket, key }
                    }
                },
            }
        },
    }
}

/// Drops the leading slashes of a path.
fn trim_slashes(path: &str) -> (t: String)
    ensures
        t@ == trim_leading_slashes(path@),
{
    let n = path.unicode_len();
    let mut i: usize = 0;
    assert(path@.skip(0) =~= path@);
    while i < n && path.get_char(i) == '/'
        invariant
            i <= n == path@.len(),
            trim_leading_slashes(path@.skip(i as int)) == trim_leading_slashes(path@),
        decreases n - i,
    {
        proof {
            assert(path@.skip(i as int).drop_first() =~= path@.skip(i + 1));
        }
        i = i + 1;
    }
    let rest = path.substring_char(i, n);
    proof {
        assert(rest@ =~= path@.skip(i as int));
    }
    rest.to_string()
}

/// Whether `r` is what an S3 location calls for.
pub open spec fn location_gives(r: Result<(String, String), S3UriError>, loc: S3Location) -> bool {
    match loc {
        S3Location::Named { bucket, key } => r matches Ok((b, k)) && b@ == bucket && k@ == key,
        S3Location::Unparsed(m) => r matches Err(S3UriError::Parse(x)) && x@ == m,
        S3Location::NotS3 => r matches Err(S3UriError::NotS3),
        S3Location::NoBucket => r matches Err(S3UriError::NoBucket),
        S3Location::NoKey => r matches Err(S3UriError::NoKey),
    }
}

/// The bucket and key that a parsed URL names: the host and the path
/// without leading slashes of an `s3` URL.
pub fn s3_location_from_parts(parsed: Result<UrlParts, String>) -> (r: Result<(String, String), S3UriError>)
    ensures
        location_gives(
            r,
            location_of(
                match parsed {
                    Ok(p) => Ok(p@),
                    Err(m) => Err(m@),
                },
            ),
        ),
{
    let parts = match parsed {
        Ok(p) => p,
        Err(m) => return Err(S3UriError::Parse(m)),
    };
    let s3 = "s3".to_string();
    if parts.scheme != s3 {
        return Err(S3UriError::NotS3);
    }
    let bucket = match parts.host {
        Some(h) => h,
        None => return Err(S3UriError::NoBucket),
    };
    let key = trim_slashes(parts.path.as_str());
    if key.unicode_len() == 0 {
        return Err(S3UriError::NoKey);
    }
    Ok((bucket, key))
}

/// Splits an S3 URI into its bucket and its key.
pub fn parse_s3_uri(uri: &str) -> (r: Result<(String, String), S3UriError>)
    ensures
        location_gives(r, s3_location(uri@)),
{
    let parsed = parse_url(uri);
    s3_location_from_parts(parsed)
}

} // verus!
