//! The category of a file, from its MIME type and the end of its name.

use vstd::prelude::*;

verus! {

/// `s` with its letters in lower case, as Unicode defines it.
pub uninterp spec fn lower_of(s: Seq<char>) -> Seq<char>;

/// Relies on `str::to_lowercase`: the result depends on the characters alone.
#[verifier::external_body]
pub(crate) fn lowercase(s: &str) -> (r: String)
    ensures
        r@ == lower_of(s@),
{
    s.to_lowercase()
}

/// `p` occurs in `s` at position `i`.
pub open spec fn occurs_at(s: Seq<char>, p: Seq<char>, i: int) -> bool {
    0 <= i && i + p.len() <= s.len() && s.subrange(i, i + p.len()) == p
}

pub open spec fn contains_seq(s: Seq<char>, p: Seq<char>) -> bool {
    exists|i: int| #[trigger] occurs_at(s, p, i)
}

pub open spec fn ends_with_seq(s: Seq<char>, p: Seq<char>) -> bool {
    p.len() <= s.len() && occurs_at(s, p, s.len() - p.len())
}

/// Whether `p` occurs in `s` at position `i`.
fn matches_at(s: &str, s_len: usize, p: &str, p_len: usize, i: usize) -> (r: bool)
    requires
        s_len == s@.len(),
        p_len == p@.len(),
        i + p_len <= s_len,
    ensures
        r == occurs_at(s@, p@, i as int),
{
    let part = s.substring_char(i, i + p_len).to_owned();
    let whole = p.to_owned();
    part == whole
}

/// Whether `p` occurs anywhere in `s`.
pub fn contains(s: &str, p: &str) -> (r: bool)
    ensures
        r == contains_seq(s@, p@),
{
    let s_len = s.unicode_len();
    let p_len = p.unicode_len();
    if p_len > s_len {
        assert forall|i: int| !#[trigger] occurs_at(s@, p@, i) by {}
        return false;
    }
    let last = s_len - p_len;
    let mut i: usize = 0;
    while i < last
        invariant
            s_len == s@.len(),
            p_len == p@.len(),
            last == s_len - p_len,
            i <= last,
            forall|k: int| 0 <= k < i ==> !#[trigger] occurs_at(s@, p@, k),
        decreases last - i,
    {
        if matches_at(s, s_len, p, p_len, i) {
            return true;
        }
        i = i + 1;
    }
    if matches_at(s, s_len, p, p_len, last) {
        return true;
    }
    assert forall|k: int| !#[trigger] occurs_at(s@, p@, k) by {
        if 0 <= k < i {
        }
    }
    false
}

/// Whether `s` ends with `p`.
pub fn ends_with(s: &str, p: &str) -> (r: bool)
    ensures
        r == ends_with_seq(s@, p@),
{
    let s_len = s.unicode_len();
    let p_len = p.unicode_len();
    if p_len > s_len {
        return false;
    }
    matches_at(s, s_len, p, p_len, s_len - p_len)
}

/// The category of a file whose lower-cased name is `lower_name`.
pub open spec fn category_of(lower_name: Seq<char>, mime: Seq<char>) -> Seq<char> {
    if contains_seq(mime, "image"@) || ends_with_seq(lower_name, ".jpg"@) || ends_with_seq(
        lower_name,
        ".png"@,
    ) {
        "Image"@
    } else if contains_seq(mime, "video"@) || ends_with_seq(lower_name, ".mp4"@) {
        "Video"@
    } else if contains_seq(mime, "pdf"@) || ends_with_seq(lower_name, ".pdf"@) {
        "PDF Document"@
    } else if contains_seq(mime, "word"@) || ends_with_seq(lower_name, ".docx"@) {
        "Word Document"@
    } else {
        "Binary File"@
    }
}

/// The category of a file from its lower-cased name and its MIME type.
pub fn categorize_lowered(lower_name: &str, mime_type: &str) -> (r: &'static str)
    ensures
        r@ == category_of(lower_name@, mime_type@),
{
    if contains(mime_type, "image") || ends_with(lower_name, ".jpg") || ends_with(
        lower_name,
        ".png",
    ) {
        return "Image";
    }
    if contains(mime_type, "video") || ends_with(lower_name, ".mp4") {
        return "Video";
    }
    if contains(mime_type, "pdf") || ends_with(lower_name, ".pdf") {
        return "PDF Document";
    }
    if contains(mime_type, "word") || ends_with(lower_name, ".docx") {
        return "Word Document";
    }
    "Binary File"
}

/// The category of a file: image, video, PDF or Word document by its MIME
/// type or its extension in any case, else a binary file.
pub fn categorize_file(file_name: &str, mime_type: &str) -> (r: &'static str)
    ensures
        r@ == category_of(lower_of(file_name@), mime_type@),
{
    let lower_name = lowercase(file_name);
    categorize_lowered(lower_name.as_str(), mime_type)
}

/// A MIME type whose content is text.
pub open spec fn is_text_mime(mime: Seq<char>) -> bool {
    contains_seq(mime, "text"@) || contains_seq(mime, "json"@) || contains_seq(mime, "xml"@)
        || contains_seq(mime, "javascript"@) || contains_seq(mime, "typescript"@)
}

/// The largest size, exclusive, of a file whose text is analysed.
pub const TEXT_SIZE_LIMIT: u64 = 5000000;

/// Whether a file is read and analysed as text: its MIME type is known and
/// textual, and it is smaller than the text size limit.
pub fn reads_as_text(mime_type: Option<&str>, file_size: u64) -> (r: bool)
    ensures
        r == (mime_type matches Some(m) && is_text_mime(m@) && file_size < TEXT_SIZE_LIMIT),
{
    match mime_type {
        Some(m) => {
            let textual = contains(m, "text") || contains(m, "json") || contains(m, "xml")
                || contains(m, "javascript") || contains(m, "typescript");
            textual && file_size < TEXT_SIZE_LIMIT
        },
        None => false,
    }
}

} // verus!
