//! The enumerated content types a response can carry, their wire strings,
//! and the filename-extension lookup used when serving static files.

use vstd::prelude::*;
use vstd::string::*;
use crate::strutil::find_last_char;
use crate::strutil::lemma_find_last_char_from_witness;
use crate::strutil::lemma_find_last_char_none;
use crate::strutil::str_eq;

verus! {

/// The fixed set of content types the server can label a response with.
#[derive(Clone, Copy, Debug, PartialEq, Eq, Structural)]
pub enum ContentType {
    TextHtml,
    TextCss,
    TextJs,
    TextSvgXml,
    MultipartForm,
    ImagePng,
    ImageJpg,
    ImageBmp,
    ImageGif,
    ApplicationJson,
    ApplicationXml,
}

/// The wire string of each content type, as it appears in a
/// `Content-Type` header.
pub open spec fn ct_chars(ct: ContentType) -> Seq<char> {
    match ct {
        ContentType::TextHtml => "text/html"@,
        ContentType::TextCss => "text/css"@,
        ContentType::TextJs => "text/javascript"@,
        ContentType::TextSvgXml => "text/svg+xml"@,
        ContentType::MultipartForm => "multipart/form"@,
        ContentType::ImagePng => "image/png"@,
        ContentType::ImageJpg => "image/jpg"@,
        ContentType::ImageBmp => "image/bmp"@,
        ContentType::ImageGif => "image/gif"@,
        ContentType::ApplicationJson => "application/json"@,
        ContentType::ApplicationXml => "application/xml"@,
    }
}

impl ContentType {
    /// The string that represents this content type in an HTTP response.
    pub fn stringify(&self) -> (r: String)
        ensures
            r@ == ct_chars(*self),
    {
        match self {
            ContentType::TextHtml => String::from_str("text/html"),
            ContentType::TextCss => String::from_str("text/css"),
            ContentType::TextJs => String::from_str("text/javascript"),
            ContentType::TextSvgXml => String::from_str("text/svg+xml"),
            ContentType::MultipartForm => String::from_str("multipart/form"),
            ContentType::ImagePng => String::from_str("image/png"),
            ContentType::ImageJpg => String::from_str("image/jpg"),
            ContentType::ImageBmp => String::from_str("image/bmp"),
            ContentType::ImageGif => String::from_str("image/gif"),
            ContentType::ApplicationJson => String::from_str("application/json"),
            ContentType::ApplicationXml => String::from_str("application/xml"),
        }
    }
}

/// The final path component of a filename: what follows the last `'/'`.
pub open spec fn last_component(filename: Seq<char>) -> Seq<char> {
    match find_last_char(filename, '/') {
        Some(i) => filename.skip(i + 1),
        None => filename,
    }
}

/// The filename extension: what follows the last `'.'` of the final path
/// component, unless the component starts with that `'.'` or has none.
pub open spec fn ext_of(filename: Seq<char>) -> Option<Seq<char>> {
    let comp = last_component(filename);
    match find_last_char(comp, '.') {
        Some(i) => if i > 0 {
            Some(comp.skip(i + 1))
        } else {
            None
        },
        None => None,
    }
}

/// The content type registered for an extension; `text/html` for an
/// unknown one.
pub open spec fn type_from_ext_chars(e: Seq<char>) -> ContentType {
    if e == "jpg"@ || e == "jpeg"@ {
        ContentType::ImageJpg
    } else if e == "png"@ {
        ContentType::ImagePng
    } else if e == "gif"@ {
        ContentType::ImageGif
    } else if e == "bmp"@ {
        ContentType::ImageBmp
    } else if e == "css"@ {
        ContentType::TextCss
    } else if e == "js"@ {
        ContentType::TextJs
    } else if e == "svg"@ {
        ContentType::TextSvgXml
    } else if e == "json"@ {
        ContentType::ApplicationJson
    } else if e == "xml"@ {
        ContentType::ApplicationXml
    } else {
        ContentType::TextHtml
    }
}

/// The content type a filename resolves to, from its extension; `text/html`
/// when there is no extension.
pub open spec fn content_type_of(filename: Seq<char>) -> ContentType {
    match ext_of(filename) {
        Some(e) => type_from_ext_chars(e),
        None => ContentType::TextHtml,
    }
}

// The mappings from extensions to the supported content types.  New content
// types must be added here as well to be supported.
fn get_file_type_from_extension(ext: &str) -> (r: ContentType)
    ensures
        r == type_from_ext_chars(ext@),
{
    if str_eq(ext, "jpg") || str_eq(ext, "jpeg") {
        ContentType::ImageJpg
    } else if str_eq(ext, "png") {
        ContentType::ImagePng
    } else if str_eq(ext, "gif") {
        ContentType::ImageGif
    } else if str_eq(ext, "bmp") {
        ContentType::ImageBmp
    } else if str_eq(ext, "css") {
        ContentType::TextCss
    } else if str_eq(ext, "js") {
        ContentType::TextJs
    } else if str_eq(ext, "svg") {
        ContentType::TextSvgXml
    } else if str_eq(ext, "json") {
        ContentType::ApplicationJson
    } else if str_eq(ext, "xml") {
        ContentType::ApplicationXml
    } else {
        ContentType::TextHtml
    }
}

/// The last occurrence of `c` in `s`, if any.
fn rfind_in(s: &str, c: char) -> (r: Option<usize>)
    ensures
        match r {
            Some(i) => i < s@.len() && find_last_char(s@, c) == Some(i as int),
            None => find_last_char(s@, c) is None,
        },
{
    let len = s.unicode_len();
    let mut i = len;
    while i > 0
        invariant
            0 <= i <= len,
            len == s@.len(),
            forall|j: int| i <= j < len ==> s@[j] != c,
        decreases i,
    {
        i = i - 1;
        if s.get_char(i) == c {
            proof {
                lemma_find_last_char_from_witness(s@, c, i as int);
            }
            return Some(i);
        }
    }
    proof {
        lemma_find_last_char_none(s@, c);
    }
    None
}

/// Returns the content type that is associated with a certain filename by
/// parsing out the extension.
pub fn get_content_type(filename: &String) -> (r: ContentType)
    ensures
        r == content_type_of(filename@),
{
    let s = filename.as_str();
    let len = s.unicode_len();
    let comp: &str = match rfind_in(s, '/') {
        Some(i) => s.substring_char(i + 1, len),
        None => s,
    };
    proof {
        assert(comp@ == last_component(filename@));
    }
    let comp_len = comp.unicode_len();
    match rfind_in(comp, '.') {
        Some(i) => {
            if i > 0 {
                let ext = comp.substring_char(i + 1, comp_len);
                get_file_type_from_extension(ext)
            } else {
                ContentType::TextHtml
            }
        },
        None => ContentType::TextHtml,
    }
}

} // verus!
