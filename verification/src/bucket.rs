//! Object keys and URLs for uploads to an S3 bucket.

use vstd::prelude::*;
use crate::text::{chars_of, string_of, trim_end_chars, trim_end_set, TrimSet};

verus! {

/// The local files to upload.
pub struct UploadManifest {
    pub items: Vec<String>,
}

/// The URLs of the uploaded objects.
pub struct UploadedManifest {
    pub files: Vec<String>,
}

/// Where one file goes: its object key and the object's URL.
pub struct UploadTarget {
    pub key: String,
    pub url: String,
}

/// Why a file cannot be uploaded.
#[derive(Clone, Copy, PartialEq, Eq, Debug)]
pub enum UploadError {
    /// The local path has no file name (or one that is not valid UTF-8).
    MissingFileName,
}

/// The object key of a file: the prefix without trailing `/`, a `/`, and
/// the file name.
pub open spec fn object_key(prefix: Seq<char>, file_name: Seq<char>) -> Seq<char> {
    trim_end_set(prefix, TrimSet::Slash) + "/"@ + file_name
}

/// The URL of an object: `https://{bucket}.s3.{region}.amazonaws.com/{key}`.
pub open spec fn object_url(bucket: Seq<char>, region: Seq<char>, key: Seq<char>) -> Seq<char> {
    "https://"@ + bucket + ".s3."@ + region + ".amazonaws.com/"@ + key
}

/// Where a file with the given name goes; refused when it has no name.
pub open spec fn upload_target_spec(
    bucket: Seq<char>,
    region: Seq<char>,
    prefix: Seq<char>,
    file_name: Option<Seq<char>>,
) -> Result<(Seq<char>, Seq<char>), UploadError> {
    match file_name {
        None => Err(UploadError::MissingFileName),
        Some(n) => Ok((object_key(prefix, n), object_url(bucket, region, object_key(prefix, n)))),
    }
}

/// The object key of a file under `prefix`.
pub fn object_key_of(prefix: &str, file_name: &str) -> (r: String)
    ensures
        r@ == object_key(prefix@, file_name@),
{
    let p = chars_of(prefix);
    let t = trim_end_chars(p.as_slice(), TrimSet::Slash);
    let mut key = string_of(t.as_slice());
    key.append("/");
    key.append(file_name);
    key
}

/// Where a file goes (see `upload_target_spec`).
pub fn upload_target(bucket: &str, region: &str, prefix: &str, file_name: Option<&str>) -> (r: Result<UploadTarget, UploadError>)
    ensures
        match r {
            Ok(t) => upload_target_spec(bucket@, region@, prefix@, match file_name { Some(n) => Some(n@), None => None }) == Ok::<(Seq<char>, Seq<char>), UploadError>((t.key@, t.url@)),
            Err(e) => upload_target_spec(bucket@, region@, prefix@, match file_name { Some(n) => Some(n@), None => None }) == Err::<(Seq<char>, Seq<char>), UploadError>(e),
        },
{
    match file_name {
        None => Err(UploadError::MissingFileName),
        Some(n) => {
            let key = object_key_of(prefix, n);
            let mut url = String::from_str("https://");
            url.append(bucket);
            url.append(".s3.");
            url.append(region);
            url.append(".amazonaws.com/");
            url.append(key.as_str());
            Ok(UploadTarget { key, url })
        },
    }
}

/// The key of an uploaded object always ends with `/` and the file name.
pub proof fn lemma_key_ends_with_name(prefix: Seq<char>, file_name: Seq<char>)
    ensures
        object_key(prefix, file_name).len() >= file_name.len() + 1,
        object_key(prefix, file_name).skip(object_key(prefix, file_name).len() - file_name.len()) == file_name,
        object_key(prefix, file_name)[object_key(prefix, file_name).len() - file_name.len() - 1] == '/',
{
    let t = trim_end_set(prefix, TrimSet::Slash);
    let k = object_key(prefix, file_name);
    assert(k =~= t + seq!['/'] + file_name) by {
        reveal_strlit("/");
    }
    assert(k.skip(k.len() - file_name.len()) =~= file_name);
}

} // verus!
