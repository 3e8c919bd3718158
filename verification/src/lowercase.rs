//! Texts in small letters.

use vstd::prelude::*;

use crate::text;

verus! {

/// What `str::to_lowercase` gives for a text: each character replaced by its small letters, as
/// Unicode maps them.
pub uninterp spec fn unicode_lowercase(s: Seq<char>) -> Seq<char>;

/// `str::to_lowercase` gives a text that depends on the given text alone. Of a text of ASCII
/// characters it replaces the capital letters and nothing else.
pub assume_specification[ str::to_lowercase ](s: &str) -> (r: String)
    ensures
        r@ == unicode_lowercase(s@),
        vstd::utf8::is_ascii_chars(s@) ==> r@ == text::ascii_lowercase(s@),
;

/// An extension in small letters; empty where there is none.
pub open spec fn lower_extension(ext: Option<Seq<char>>) -> Seq<char> {
    match ext {
        Some(ext) => unicode_lowercase(ext),
        None => Seq::empty(),
    }
}

/// An extension in small letters; empty where there is none.
pub fn small_extension(ext: &Option<String>) -> (r: String)
    ensures
        r@ == lower_extension(text::option_view(*ext)),
        *ext matches Some(ext) ==> vstd::utf8::is_ascii_chars(ext@) ==> r@ == text::ascii_lowercase(
            ext@,
        ),
{
    match ext {
        Some(ext) => ext.as_str().to_lowercase(),
        None => String::new(),
    }
}

} // verus!
