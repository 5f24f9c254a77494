//! Bucket and key-prefix targets.

use vstd::prelude::*;

use crate::error::{UriFault, UriParseError};
use crate::text;
use crate::text::{
    chars_of, contains_control, find_char, is_control, is_white_space, matches_at, text_between,
    text_eq,
};

verus! {

/// A bucket plus an optional exact object-key prefix.
///
/// Percent escapes are deliberately not decoded: S3 keys are opaque strings,
/// and `%20` may be part of the actual key.
#[derive(Clone, Debug, PartialEq, Eq, PartialOrd, Ord, Hash)]
pub struct S3Uri {
    pub bucket: String,
    pub prefix: String,
}

/// What an [`S3Uri`] names.
pub struct UriView {
    pub bucket: Seq<char>,
    pub prefix: Seq<char>,
}

impl View for S3Uri {
    type V = UriView;

    open spec fn view(&self) -> UriView {
        UriView { bucket: self.bucket@, prefix: self.prefix@ }
    }
}

/// A character that no bucket name may hold.
pub open spec fn unsafe_in_bucket(c: char) -> bool {
    text::white_space(c) || text::control(c) || c == '/' || c == '\\' || c == '?' || c == '#'
}

/// Whether a bucket name holds an unsafe character.
pub open spec fn has_unsafe(bucket: Seq<char>) -> bool {
    exists|i: int| 0 <= i < bucket.len() && unsafe_in_bucket(#[trigger] bucket[i])
}

/// What is wrong with a bucket and a key prefix, if anything.
pub open spec fn uri_fault(bucket: Seq<char>, prefix: Seq<char>) -> Option<UriFault> {
    if bucket.len() == 0 {
        Some(UriFault::MissingBucket)
    } else if vstd::utf8::encode_utf8(bucket).len() > 255 || bucket == "."@ || bucket == ".."@
        || has_unsafe(bucket) {
        Some(UriFault::InvalidBucket(bucket))
    } else if text::has_control(prefix) {
        Some(UriFault::InvalidKey)
    } else {
        None
    }
}

/// The bucket and prefix that a text behind `s3://` names.
pub open spec fn split_target(remainder: Seq<char>) -> UriView {
    let slash = text::position(remainder, '/') as int;
    if slash < remainder.len() {
        UriView { bucket: remainder.take(slash), prefix: remainder.skip(slash + 1) }
    } else {
        UriView { bucket: remainder, prefix: Seq::empty() }
    }
}

/// How a text reads as an S3 URI.
pub open spec fn read_uri(value: Seq<char>) -> Result<UriView, UriFault> {
    if !text::begins_with(value, "s3://"@) {
        Err(UriFault::InvalidScheme)
    } else {
        let target = split_target(value.skip(5));
        match uri_fault(target.bucket, target.prefix) {
            Some(fault) => Err(fault),
            None => Ok(target),
        }
    }
}

/// A URI as text.
pub open spec fn uri_text(uri: UriView) -> Seq<char> {
    if uri.prefix.len() == 0 {
        "s3://"@ + uri.bucket
    } else {
        "s3://"@ + uri.bucket + "/"@ + uri.prefix
    }
}

/// The URIs of several prefixes in one bucket.
pub open spec fn in_bucket(bucket: Seq<char>, prefixes: Seq<Seq<char>>) -> Seq<UriView> {
    prefixes.map_values(|prefix: Seq<char>| UriView { bucket, prefix })
}

fn bucket_has_unsafe(bucket: &str) -> (result: bool)
    ensures
        result == has_unsafe(bucket@),
{
    let characters = chars_of(bucket);
    let mut i: usize = 0;
    while i < characters.len()
        invariant
            characters@ == bucket@,
            i <= characters@.len(),
            forall|j: int| 0 <= j < i ==> !unsafe_in_bucket(#[trigger] bucket@[j]),
        decreases characters@.len() - i,
    {
        let c = characters[i];
        if is_white_space(c) || is_control(c) || c == '/' || c == '\\' || c == '?' || c == '#' {
            assert(unsafe_in_bucket(bucket@[i as int]));
            return true;
        }
        i += 1;
    }
    false
}

impl S3Uri {
    /// The URI of a bucket and a prefix, if both are acceptable.
    pub fn new(bucket: String, prefix: String) -> (result: Result<Self, UriParseError>)
        ensures
            match result {
                Ok(uri) => {
                    &&& uri_fault(bucket@, prefix@) is None
                    &&& uri@ == UriView { bucket: bucket@, prefix: prefix@ }
                },
                Err(error) => uri_fault(bucket@, prefix@) == Some(error@),
            },
    {
        let value = S3Uri { bucket, prefix };
        match value.validate() {
            Ok(()) => Ok(value),
            Err(error) => Err(error),
        }
    }

    /// Reads a URI of the form `s3://bucket/prefix`.
    pub fn parse(value: &str) -> (result: Result<Self, UriParseError>)
        ensures
            match result {
                Ok(uri) => read_uri(value@) == Ok::<UriView, UriFault>(uri@),
                Err(error) => read_uri(value@) == Err::<UriView, UriFault>(error@),
            },
    {
        let characters = chars_of(value);
        let scheme = chars_of("s3://");
        if !matches_at(&characters, &scheme, 0) {
            return Err(UriParseError::InvalidScheme);
        }
        proof {
            reveal_strlit("s3://");
        }
        let slash: usize = find_char(&characters, '/', 5);
        let ghost remainder = value@.skip(5);
        let ghost target = split_target(remainder);
        let bucket = text_between(&characters, 5, slash);
        assert(bucket@ =~= target.bucket);
        let prefix = if slash < characters.len() {
            text_between(&characters, slash + 1, characters.len())
        } else {
            String::new()
        };
        assert(prefix@ =~= target.prefix);
        S3Uri::new(bucket, prefix)
    }

    /// Whether the URI names a whole bucket.
    pub fn is_bucket_root(&self) -> (result: bool)
        ensures
            result == (self.prefix@.len() == 0),
    {
        self.prefix.as_str().is_empty()
    }

    /// Returns the key/prefix, or `None` for a bucket-root URI.
    pub fn object_key(&self) -> (result: Option<&str>)
        ensures
            result is None <==> self.prefix@.len() == 0,
            result matches Some(key) ==> key@ == self.prefix@,
    {
        if self.prefix.as_str().is_empty() {
            None
        } else {
            Some(self.prefix.as_str())
        }
    }

    /// Creates an object URI in the same bucket. `key` is a full bucket key,
    /// not a path relative to this URI's current prefix.
    pub fn for_object(&self, key: String) -> (result: Result<Self, UriParseError>)
        ensures
            match result {
                Ok(uri) => {
                    &&& uri_fault(self.bucket@, key@) is None
                    &&& uri@ == UriView { bucket: self.bucket@, prefix: key@ }
                },
                Err(error) => uri_fault(self.bucket@, key@) == Some(error@),
            },
    {
        S3Uri::new(self.bucket.clone(), key)
    }

    fn validate(&self) -> (result: Result<(), UriParseError>)
        ensures
            match result {
                Ok(()) => uri_fault(self.bucket@, self.prefix@) is None,
                Err(error) => uri_fault(self.bucket@, self.prefix@) == Some(error@),
            },
    {
        if self.bucket.as_str().is_empty() {
            return Err(UriParseError::MissingBucket);
        }
        if self.bucket.as_str().as_bytes().len() > 255 || text_eq(self.bucket.as_str(), ".")
            || text_eq(self.bucket.as_str(), "..") || bucket_has_unsafe(self.bucket.as_str()) {
            return Err(UriParseError::InvalidBucket(self.bucket.clone()));
        }
        if contains_control(self.prefix.as_str()) {
            return Err(UriParseError::InvalidKey);
        }
        Ok(())
    }

    /// The URI as text.
    pub fn to_text(&self) -> (value: String)
        ensures
            value@ == uri_text(self@),
    {
        let root = "s3://".to_owned().concat(self.bucket.as_str());
        if self.prefix.as_str().is_empty() {
            root
        } else {
            root.concat("/").concat(self.prefix.as_str())
        }
    }

    /// The URIs of other prefixes in the same bucket.
    pub(crate) fn with_prefixes(&self, prefixes: &Vec<String>) -> (uris: Vec<Self>)
        ensures
            uris@.map_values(|uri: S3Uri| uri@) == in_bucket(
                self@.bucket,
                prefixes@.map_values(|prefix: String| prefix@),
            ),
    {
        let mut uris: Vec<S3Uri> = Vec::new();
        let mut i: usize = 0;
        while i < prefixes.len()
            invariant
                i <= prefixes@.len(),
                uris@.len() == i,
                forall|j: int|
                    0 <= j < i ==> (#[trigger] uris@[j])@ == (UriView {
                        bucket: self@.bucket,
                        prefix: prefixes@[j]@,
                    }),
            decreases prefixes@.len() - i,
        {
            uris.push(S3Uri { bucket: self.bucket.clone(), prefix: prefixes[i].clone() });
            i += 1;
        }
        assert(uris@.map_values(|uri: S3Uri| uri@) =~= in_bucket(
            self@.bucket,
            prefixes@.map_values(|prefix: String| prefix@),
        ));
        uris
    }

    /// A copy of the URI.
    pub fn copy(&self) -> (copy: Self)
        ensures
            copy@ == self@,
    {
        S3Uri { bucket: self.bucket.clone(), prefix: self.prefix.clone() }
    }
}

impl std::str::FromStr for S3Uri {
    type Err = UriParseError;

    fn from_str(value: &str) -> (result: Result<Self, UriParseError>)
        ensures
            match result {
                Ok(uri) => read_uri(value@) == Ok::<UriView, UriFault>(uri@),
                Err(error) => read_uri(value@) == Err::<UriView, UriFault>(error@),
            },
    {
        S3Uri::parse(value)
    }
}

/// What a valid URI is written as reads back as the same URI.
pub proof fn written_uri_reads_back(uri: UriView)
    requires
        uri_fault(uri.bucket, uri.prefix) is None,
    ensures
        read_uri(uri_text(uri)) == Ok::<UriView, UriFault>(uri),
{
    reveal_strlit("s3://");
    reveal_strlit("/");
    let value = uri_text(uri);
    assert(value.subrange(0, 5) =~= "s3://"@);
    let remainder = value.skip(5);
    assert forall|i: int| 0 <= i < uri.bucket.len() implies remainder[i] != '/' by {
        assert(remainder[i] == uri.bucket[i]);
        assert(!unsafe_in_bucket(uri.bucket[i]));
    }
    text::position_found(remainder, '/', uri.bucket.len() as int);
    assert(split_target(remainder).bucket =~= uri.bucket);
    assert(split_target(remainder).prefix =~= uri.prefix);
}

/// A text that reads as a URI is exactly how that URI is written, but for one
/// slash that may follow a bare bucket; nothing else is decoded or dropped. What
/// is written reads alike.
pub proof fn read_uri_is_written_alike(value: Seq<char>, uri: UriView)
    requires
        read_uri(value) == Ok::<UriView, UriFault>(uri),
    ensures
        read_uri(uri_text(uri)) == read_uri(value),
        uri.prefix.len() > 0 ==> uri_text(uri) == value,
        uri.prefix.len() == 0 ==> {
            &&& uri_text(uri) == "s3://"@ + uri.bucket
            &&& value == "s3://"@ + uri.bucket || value == "s3://"@ + uri.bucket + "/"@
        },
{
    reveal_strlit("s3://");
    reveal_strlit("/");
    let remainder = value.skip(5);
    text::position_is_first(remainder, '/');
    assert(value.subrange(0, 5) == "s3://"@);
    assert(value =~= value.subrange(0, 5) + remainder);
    let slash = text::position(remainder, '/') as int;
    if slash < remainder.len() {
        assert(remainder =~= remainder.take(slash) + seq!['/'] + remainder.skip(slash + 1));
        assert(value =~= "s3://"@ + uri.bucket + "/"@ + uri.prefix);
        if uri.prefix.len() == 0 {
            assert(value =~= "s3://"@ + uri.bucket + "/"@);
        }
    } else {
        assert(value =~= "s3://"@ + uri.bucket);
    }
    written_uri_reads_back(uri);
}

/// A bare bucket reads alike with a slash behind it.
pub proof fn buckets_read_with_or_without_slash(bucket: Seq<char>)
    requires
        uri_fault(bucket, Seq::empty()) is None,
    ensures
        read_uri("s3://"@ + bucket) == Ok::<UriView, UriFault>(
            UriView { bucket, prefix: Seq::empty() },
        ),
        read_uri("s3://"@ + bucket + "/"@) == read_uri("s3://"@ + bucket),
{
    reveal_strlit("s3://");
    reveal_strlit("/");
    let root = UriView { bucket, prefix: Seq::empty() };
    written_uri_reads_back(root);
    let value = "s3://"@ + bucket + "/"@;
    assert(value.subrange(0, 5) =~= "s3://"@);
    let remainder = value.skip(5);
    assert forall|i: int| 0 <= i < bucket.len() implies remainder[i] != '/' by {
        assert(remainder[i] == bucket[i]);
        assert(!unsafe_in_bucket(bucket[i]));
    }
    text::position_found(remainder, '/', bucket.len() as int);
    assert(split_target(remainder).bucket =~= bucket);
    assert(split_target(remainder).prefix =~= Seq::<char>::empty());
}

} // verus!
