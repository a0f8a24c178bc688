//! EPUB -> KEPUB: which files need converting, what the converted file and
//! its temporary file are called, and the conversion itself (kepub-rs, on
//! the bytes of the book).

use vstd::prelude::*;
use crate::pages::{file_name, path_file_name};
use crate::text::{chars_of, copy_range, ends_with, has_suffix, lowercase, push_all, string_of, to_lowercase};

verus! {

pub open spec fn kepub_path(p: Seq<char>) -> bool {
    has_suffix(lowercase(p), ".kepub.epub"@)
}

/// Whether the path names a KEPUB already.
pub fn is_kepub(p: &str) -> (b: bool)
    ensures
        b == kepub_path(p@),
{
    ends_with(&to_lowercase(&chars_of(p)), &chars_of(".kepub.epub"))
}

/// The name the converted twin of the EPUB called `name` gets, or why
/// there is none.
pub open spec fn kepub_name_of(name: Seq<char>) -> Result<Seq<char>, Seq<char>> {
    if has_suffix(name, ".epub"@) {
        Ok(name.take(name.len() - ".epub"@.len()) + ".kepub.epub"@)
    } else if has_suffix(name, ".EPUB"@) {
        Ok(name.take(name.len() - ".EPUB"@.len()) + ".kepub.epub"@)
    } else {
        Err("not an .epub file"@)
    }
}

pub fn kepub_name(name: &str) -> (r: Result<String, String>)
    ensures
        match (r, kepub_name_of(name@)) {
            (Ok(a), Ok(b)) => a@ == b,
            (Err(a), Err(b)) => a@ == b,
            _ => false,
        },
{
    let n = chars_of(name);
    let lower = chars_of(".epub");
    let upper = chars_of(".EPUB");
    let stem_len = if ends_with(&n, &lower) {
        n.len() - lower.len()
    } else if ends_with(&n, &upper) {
        n.len() - upper.len()
    } else {
        return Err(string_of(&chars_of("not an .epub file")));
    };
    let mut out = copy_range(&n, 0, stem_len);
    push_all(&mut out, &chars_of(".kepub.epub"));
    Ok(string_of(&out))
}

/// What `std::path::Path::with_file_name` gives for `p` and `name`: `p`
/// with its last component replaced by `name`.
pub uninterp spec fn path_with_file_name(p: Seq<char>, name: Seq<char>) -> Seq<char>;

/// Calls `std::path::Path::with_file_name`; the result is named by
/// `path_with_file_name`.
#[verifier::external_body]
fn with_file_name(p: &str, name: &str) -> (r: String)
    ensures
        r@ == path_with_file_name(p@, name@),
{
    std::path::Path::new(p).with_file_name(name).to_string_lossy().into_owned()
}

/// Where the KEPUB twin of the book at `src` goes and the temporary file it
/// is written to first, both beside `src`; nothing to do for a KEPUB; or
/// why there is no twin.
pub open spec fn kepubify_plan_of(src: Seq<char>) -> Result<Option<(Seq<char>, Seq<char>)>, Seq<char>> {
    if kepub_path(src) {
        Ok(None)
    } else {
        match path_file_name(src) {
            None => Err("no file name"@),
            Some(n) => match kepub_name_of(n) {
                Err(e) => Err(e),
                Ok(o) => Ok(
                    Some((path_with_file_name(src, o), path_with_file_name(src, o + ".part"@))),
                ),
            },
        }
    }
}

pub fn kepubify_plan(src: &str) -> (r: Result<Option<(String, String)>, String>)
    ensures
        match (r, kepubify_plan_of(src@)) {
            (Ok(None), Ok(None)) => true,
            (Ok(Some((a, b))), Ok(Some((c, d)))) => a@ == c && b@ == d,
            (Err(a), Err(b)) => a@ == b,
            _ => false,
        },
{
    if is_kepub(src) {
        return Ok(None);
    }
    let name = match file_name(src) {
        Some(n) => n,
        None => return Err(String::from_str("no file name")),
    };
    match kepub_name(name.as_str()) {
        Err(e) => Err(e),
        Ok(o) => {
            let mut part = o.clone();
            part.append(".part");
            Ok(Some((with_file_name(src, o.as_str()), with_file_name(src, part.as_str()))))
        },
    }
}

/// Calls `kepub_rs::Converter::convert` with the default converter on the
/// bytes of an EPUB and gives the bytes of the KEPUB, or the converter's
/// error as text. Nothing is stated of the bytes: the archive's timestamps
/// and the parallel transform make them more than a function of the input.
#[verifier::external_body]
pub fn convert_epub(epub: &[u8]) -> (r: Result<Vec<u8>, String>) {
    let mut out = std::io::Cursor::new(Vec::new());
    kepub_rs::Converter::default()
        .convert(std::io::Cursor::new(epub), &mut out)
        .map(|_| out.into_inner())
        .map_err(|e| e.to_string())
}

/// The outcome of a conversion as the download reports it: the bytes, or
/// the converter's error behind "kepub conversion failed: ".
pub fn conversion_result(r: Result<Vec<u8>, String>) -> (o: Result<Vec<u8>, String>)
    ensures
        match r {
            Ok(b) => o == Ok::<Vec<u8>, String>(b),
            Err(e) => (o matches Err(m) && m@ == "kepub conversion failed: "@ + e@),
        },
{
    match r {
        Ok(b) => Ok(b),
        Err(e) => {
            let mut m = String::from_str("kepub conversion failed: ");
            m.append(e.as_str());
            Err(m)
        },
    }
}

} // verus!
