use vstd::prelude::*;
use vstd::string::{StrSliceExecFns, StringExecFns};

use crate::models::str_eq;

verus! {

/// Why an image could not be stored.
#[derive(Debug, PartialEq, Eq)]
pub enum ImageError {
    IoError(String),
    HttpError(String),
    InvalidPath(String),
}

/// The text that describes an image error.
pub open spec fn image_error_text(e: ImageError) -> Seq<char> {
    match e {
        ImageError::IoError(m) => "IO error: "@ + m@,
        ImageError::HttpError(m) => "HTTP error: "@ + m@,
        ImageError::InvalidPath(m) => "Invalid path: "@ + m@,
    }
}

impl ImageError {
    /// Describes the error in words.
    pub fn message(&self) -> (r: String)
        ensures
            r@ == image_error_text(*self),
    {
        proof {
            reveal_strlit("IO error: ");
            reveal_strlit("HTTP error: ");
            reveal_strlit("Invalid path: ");
        }
        match self {
            ImageError::IoError(m) => String::from_str("IO error: ").concat(m.as_str()),
            ImageError::HttpError(m) => String::from_str("HTTP error: ").concat(m.as_str()),
            ImageError::InvalidPath(m) => String::from_str("Invalid path: ").concat(m.as_str()),
        }
    }
}

/// `s` begins with `p`.
pub open spec fn has_prefix(s: Seq<char>, p: Seq<char>) -> bool {
    p.len() <= s.len() && s.take(p.len() as int) == p
}

/// An input names a remote image when it begins with `http://` or `https://`.
pub open spec fn is_remote(s: Seq<char>) -> bool {
    has_prefix(s, "http://"@) || has_prefix(s, "https://"@)
}

/// The part of `s` before its first `?`, or all of it where there is none.
pub open spec fn before_query(s: Seq<char>) -> Seq<char>
    decreases s.len(),
{
    if s.len() == 0 {
        s
    } else if s[0] == '?' {
        Seq::empty()
    } else {
        seq![s[0]] + before_query(s.drop_first())
    }
}

/// What `std::path::Path::extension` gives for a path, as text.
pub uninterp spec fn extension_of(path: Seq<char>) -> Option<Seq<char>>;

/// What `str::to_lowercase` gives for a text.
pub uninterp spec fn lower_of(s: Seq<char>) -> Seq<char>;

/// The lower-cased extension of an image input, ignoring any query part.
pub open spec fn extension_for(input: Seq<char>) -> Option<Seq<char>> {
    match extension_of(before_query(input)) {
        Some(e) => Some(lower_of(e)),
        None => None,
    }
}

/// Relies on `std::path::Path::extension`: the extension of the last component
/// of a path, which depends on the path's text alone (with the separators of
/// the platform the library is built for). An extension taken from a `str` is
/// valid text, so `to_str` does not fail on it.
#[verifier::external_body]
fn path_extension(path: &str) -> (r: Option<String>)
    ensures
        match r {
            Some(e) => extension_of(path@) == Some(e@),
            None => extension_of(path@) is None,
        },
{
    match std::path::Path::new(path).extension() {
        Some(e) => match e.to_str() {
            Some(t) => Some(t.to_string()),
            None => None,
        },
        None => None,
    }
}

/// Relies on `str::to_lowercase`: the lowercase mapping of each character,
/// which depends on the text alone.
#[verifier::external_body]
fn lowercase(s: &str) -> (r: String)
    ensures
        r@ == lower_of(s@),
{
    s.to_lowercase()
}

/// Relies on `uuid::Uuid::new_v4` and its `Display`, which writes the hyphenated
/// lower-case form: a fresh random identifier as text of 36 characters. Nothing
/// else is stated of the value, which is random.
#[verifier::external_body]
fn random_identifier() -> (r: String)
    ensures
        r@.len() == 36,
{
    uuid::Uuid::new_v4().to_string()
}

/// Whether `s` begins with `p`.
fn starts_with(s: &str, p: &str) -> (r: bool)
    ensures
        r == has_prefix(s@, p@),
{
    let m = p.unicode_len();
    if m > s.unicode_len() {
        return false;
    }
    str_eq(s.substring_char(0, m), p)
}

/// Whether an input names a remote image rather than a local file.
pub fn is_remote_url(input: &str) -> (r: bool)
    ensures
        r == is_remote(input@),
{
    starts_with(input, "http://") || starts_with(input, "https://")
}

/// The part of an input before its first `?`.
fn strip_query(input: &str) -> (r: &str)
    ensures
        r@ == before_query(input@),
{
    let n = input.unicode_len();
    let mut i: usize = 0;
    proof {
        assert(input@.take(0) + before_query(input@.skip(0)) =~= before_query(input@)) by {
            assert(input@.skip(0) =~= input@);
        }
    }
    while i < n && input.get_char(i) != '?'
        invariant
            n == input@.len(),
            0 <= i <= n,
            input@.take(i as int) + before_query(input@.skip(i as int)) == before_query(input@),
        decreases n - i,
    {
        proof {
            let rest = input@.skip(i as int);
            assert(rest.drop_first() =~= input@.skip(i + 1));
            assert(input@.take(i + 1) =~= input@.take(i as int) + seq![rest[0]]);
            assert(input@.take(i + 1) + before_query(input@.skip(i + 1)) =~= input@.take(i as int) + (
            seq![rest[0]] + before_query(rest.drop_first())));
        }
        i = i + 1;
    }
    proof {
        assert(before_query(input@.skip(i as int)) =~= Seq::<char>::empty());
        assert(input@.take(i as int) + Seq::<char>::empty() =~= input@.take(i as int));
    }
    input.substring_char(0, i)
}

/// The lower-cased extension of an image path or URL, ignoring any query part.
pub fn get_extension(input: &str) -> (r: Option<String>)
    ensures
        match r {
            Some(e) => extension_for(input@) == Some(e@),
            None => extension_for(input@) is None,
        },
{
    match path_extension(strip_query(input)) {
        Some(e) => Some(lowercase(e.as_str())),
        None => None,
    }
}

/// The name under which an image is stored: `stem`, a dot, and the input's
/// extension, or `jpg` where it has none.
pub open spec fn stored_name(stem: Seq<char>, input: Seq<char>) -> Seq<char> {
    stem + "."@ + match extension_for(input) {
        Some(e) => e,
        None => "jpg"@,
    }
}

/// The name for an image stored under `stem`.
pub fn filename_with_stem(stem: &str, source: &str) -> (r: String)
    ensures
        r@ == stored_name(stem@, source@),
{
    proof {
        reveal_strlit(".");
        reveal_strlit("jpg");
    }
    let ext = match get_extension(source) {
        Some(e) => e,
        None => String::from_str("jpg"),
    };
    String::from_str(stem).concat(".").concat(ext.as_str())
}

/// A fresh, unique name for an image, keeping the input's extension.
pub fn generate_filename(source: &str) -> (r: String)
    ensures
        exists|stem: Seq<char>| stem.len() == 36 && r@ == stored_name(stem, source@),
{
    let stem = random_identifier();
    filename_with_stem(stem.as_str(), source)
}

} // verus!
