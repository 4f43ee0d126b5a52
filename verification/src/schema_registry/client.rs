//! Schemas and how to authenticate against the registry that holds them.

use vstd::prelude::*;
use crate::error::ValidationError;
use crate::text::{chars_of, decimal_text, format_integer, string_of, text_eq};

verus! {

/// How to authenticate against the registry.
#[derive(Clone, Debug)]
pub enum SchemaRegistryAuth {
    Basic { username: String, password: String },
    Bearer { token: String },
}

/// The language a schema is written in.
#[derive(Debug, Clone, Copy, PartialEq, Eq, Structural)]
pub enum SchemaType {
    AVRO,
    PROTOBUF,
    JSON,
}

impl SchemaType {
    /// The name of the language, in upper case.
    pub open spec fn name(self) -> Seq<char> {
        match self {
            SchemaType::AVRO => "AVRO"@,
            SchemaType::PROTOBUF => "PROTOBUF"@,
            SchemaType::JSON => "JSON"@,
        }
    }

    /// The language that a name stands for, if it stands for one.
    pub open spec fn named(s: Seq<char>) -> Option<Self> {
        if s == "AVRO"@ {
            Some(SchemaType::AVRO)
        } else if s == "PROTOBUF"@ {
            Some(SchemaType::PROTOBUF)
        } else if s == "JSON"@ {
            Some(SchemaType::JSON)
        } else {
            None
        }
    }

    /// Reads a language from its name in upper case. Any other text is
    /// refused.
    pub fn from_str(s: &str) -> (r: Result<Self, ValidationError>)
        ensures
            match Self::named(s@) {
                Some(language) => r == Ok::<Self, ValidationError>(language),
                None => r == Err::<Self, ValidationError>(ValidationError::InvalidSchemaType),
            },
    {
        if text_eq(s, "AVRO") {
            Ok(SchemaType::AVRO)
        } else if text_eq(s, "PROTOBUF") {
            Ok(SchemaType::PROTOBUF)
        } else if text_eq(s, "JSON") {
            Ok(SchemaType::JSON)
        } else {
            Err(ValidationError::InvalidSchemaType)
        }
    }

    /// The name of the language, in upper case.
    pub fn as_str(&self) -> (r: &'static str)
        ensures
            r@ == self.name(),
    {
        match self {
            SchemaType::AVRO => "AVRO",
            SchemaType::PROTOBUF => "PROTOBUF",
            SchemaType::JSON => "JSON",
        }
    }
}

/// A schema as the registry holds it.
#[derive(Debug, Clone)]
pub struct SchemaInfo {
    pub subject: String,
    pub version: i32,
    pub id: i32,
    pub schema: String,
    pub schema_type: SchemaType,
}

/// The number of characters of a text before the slashes at its end.
pub open spec fn trimmed_len(text: Seq<char>) -> int
    decreases text.len(),
{
    if text.len() > 0 && text.last() == '/' {
        trimmed_len(text.drop_last())
    } else {
        text.len() as int
    }
}

/// A text without the slashes at its end.
pub open spec fn without_trailing_slashes(text: Seq<char>) -> Seq<char> {
    text.take(trimmed_len(text))
}

/// The address of a registry without the slashes at its end, so that paths
/// can be put behind it.
pub fn trim_base_url(url: &str) -> (r: String)
    ensures
        r@ == without_trailing_slashes(url@),
{
    let chars = chars_of(url);
    let mut end: usize = chars.len();
    assert(chars@.take(end as int) =~= chars@);
    while end > 0 && chars[end - 1] == '/'
        invariant
            end <= chars@.len(),
            trimmed_len(chars@) == trimmed_len(chars@.take(end as int)),
        decreases end,
    {
        assert(chars@.take(end as int).drop_last() =~= chars@.take(end - 1));
        end -= 1;
    }
    let mut kept: Vec<char> = Vec::with_capacity(end);
    let mut i: usize = 0;
    while i < end
        invariant
            i <= end <= chars@.len(),
            kept@ == chars@.take(i as int),
        decreases end - i,
    {
        kept.push(chars[i]);
        assert(kept@ =~= chars@.take(i + 1));
        i += 1;
    }
    string_of(kept.as_slice())
}

/// The key under which a version of a subject is cached.
pub fn version_cache_key(subject: &str, version: i32) -> (r: String)
    ensures
        r@ == subject@ + ":v"@ + decimal_text(version as int),
{
    let mut r = subject.to_owned();
    r.append(":v");
    r.append(format_integer(version as i64).as_str());
    r
}

/// The key under which a schema is cached by its id.
pub fn id_cache_key(id: i32) -> (r: String)
    ensures
        r@ == "id:"@ + decimal_text(id as int),
{
    let mut r = "id:".to_owned();
    r.append(format_integer(id as i64).as_str());
    r
}

/// The address under which the registry lists its subjects.
pub fn subjects_url(base_url: &str) -> (r: String)
    ensures
        r@ == base_url@ + "/subjects"@,
{
    let mut r = base_url.to_owned();
    r.append("/subjects");
    r
}

/// The address of a subject, under which a schema is registered.
pub fn subject_url(base_url: &str, subject: &str) -> (r: String)
    ensures
        r@ == base_url@ + "/subjects/"@ + subject@,
{
    let mut r = base_url.to_owned();
    r.append("/subjects/");
    r.append(subject);
    r
}

/// The address under which the registry lists the versions of a subject.
pub fn versions_url(base_url: &str, subject: &str) -> (r: String)
    ensures
        r@ == base_url@ + "/subjects/"@ + subject@ + "/versions"@,
{
    let mut r = subject_url(base_url, subject);
    r.append("/versions");
    r
}

/// The address of one version of a subject.
pub fn schema_url(base_url: &str, subject: &str, version: i32) -> (r: String)
    ensures
        r@ == base_url@ + "/subjects/"@ + subject@ + "/versions/"@ + decimal_text(version as int),
{
    let mut r = subject_url(base_url, subject);
    r.append("/versions/");
    r.append(format_integer(version as i64).as_str());
    r
}

/// The address under which a schema is checked against a subject.
pub fn compatibility_url(base_url: &str, subject: &str) -> (r: String)
    ensures
        r@ == base_url@ + "/compatibility/subjects/"@ + subject@,
{
    let mut r = base_url.to_owned();
    r.append("/compatibility/subjects/");
    r.append(subject);
    r
}

/// The address of a schema by its id.
pub fn schema_by_id_url(base_url: &str, id: i32) -> (r: String)
    ensures
        r@ == base_url@ + "/schemas/ids/"@ + decimal_text(id as int),
{
    let mut r = base_url.to_owned();
    r.append("/schemas/ids/");
    r.append(format_integer(id as i64).as_str());
    r
}

/// The highest of the versions, or `None` where there is none.
pub fn latest_version(versions: &[i32]) -> (r: Option<i32>)
    ensures
        match r {
            Some(latest) => versions@.contains(latest) && forall|i: int|
                0 <= i < versions@.len() ==> versions@[i] <= latest,
            None => versions@.len() == 0,
        },
{
    if versions.len() == 0 {
        return None;
    }
    let mut latest = versions[0];
    let mut i: usize = 1;
    while i < versions.len()
        invariant
            1 <= i <= versions@.len(),
            versions@.contains(latest),
            forall|j: int| 0 <= j < i ==> versions@[j] <= latest,
        decreases versions@.len() - i,
    {
        if versions[i] > latest {
            latest = versions[i];
        }
        i += 1;
    }
    Some(latest)
}

/// Whether a cached schema may still be used: for less than an hour.
pub fn cache_is_fresh(age_hours: i64) -> (r: bool)
    ensures
        r == (age_hours < 1),
{
    age_hours < 1
}

} // verus!
