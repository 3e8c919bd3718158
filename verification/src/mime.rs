//! Media types by file name.

use vstd::prelude::*;

use crate::text;
use crate::text::{chars_of, is_text, to_ascii_lowercase};

verus! {

broadcast use vstd::string::group_string_axioms;

/// What stands in `s` after the last `c`, or all of `s` where there is no `c`.
pub open spec fn after_last(s: Seq<char>, c: char) -> Seq<char>
    decreases s.len(),
{
    if s.len() == 0 || s.last() == c {
        seq![]
    } else {
        after_last(s.drop_last(), c).push(s.last())
    }
}

/// The media type of a file with the extension `ext`, in small letters.
pub open spec fn mime_of_extension(ext: Seq<char>) -> Seq<char> {
    if ext == "jpg"@ || ext == "jpeg"@ {
        "image/jpeg"@
    } else if ext == "png"@ {
        "image/png"@
    } else if ext == "gif"@ {
        "image/gif"@
    } else if ext == "webp"@ {
        "image/webp"@
    } else if ext == "mov"@ {
        "video/quicktime"@
    } else if ext == "mp4"@ || ext == "m4v"@ {
        "video/mp4"@
    } else if ext == "webm"@ {
        "video/webm"@
    } else {
        "application/octet-stream"@
    }
}

/// The media type of the file at `path`.
pub open spec fn mime_type(path: Seq<char>) -> Seq<char> {
    mime_of_extension(text::ascii_lowercase(after_last(path, '.')))
}

proof fn lemma_after_last_step(s: Seq<char>, c: char, from: int)
    requires
        0 <= from <= s.len(),
        forall|i: int| from <= i < s.len() ==> s[i] != c,
        from == 0 || s[from - 1] == c,
    ensures
        after_last(s, c) == s.skip(from),
    decreases s.len() - from,
{
    if from < s.len() {
        lemma_after_last_step(s.drop_last(), c, from);
        assert(s.skip(from) == s.drop_last().skip(from).push(s.last()));
    }
}

/// The media type of the file at `path`, by what follows the last dot, in any letter case.
pub fn mime_for(path: &str) -> (r: &'static str)
    ensures
        r@ == mime_type(path@),
{
    let cs = chars_of(path);
    let mut from: usize = cs.len();
    while from > 0 && cs[from - 1] != '.'
        invariant
            from <= cs.len(),
            forall|i: int| from <= i < cs.len() ==> cs@[i] != '.',
        decreases from,
    {
        from -= 1;
    }
    let ext = vstd::slice::slice_subrange(cs.as_slice(), from, cs.len());
    proof {
        lemma_after_last_step(cs@, '.', from as int);
        assert(ext@ == cs@.skip(from as int));
    }
    let ext = to_ascii_lowercase(ext);
    let ext = ext.as_slice();
    if is_text(ext, "jpg") || is_text(ext, "jpeg") {
        "image/jpeg"
    } else if is_text(ext, "png") {
        "image/png"
    } else if is_text(ext, "gif") {
        "image/gif"
    } else if is_text(ext, "webp") {
        "image/webp"
    } else if is_text(ext, "mov") {
        "video/quicktime"
    } else if is_text(ext, "mp4") || is_text(ext, "m4v") {
        "video/mp4"
    } else if is_text(ext, "webm") {
        "video/webm"
    } else {
        "application/octet-stream"
    }
}

/// The media type depends on nothing but what follows the last dot, whatever its letter case.
pub proof fn law_mime_by_extension(a: Seq<char>, b: Seq<char>)
    requires
        text::ascii_lowercase(after_last(a, '.')) == text::ascii_lowercase(after_last(b, '.')),
    ensures
        mime_type(a) == mime_type(b),
{
}

/// What follows the last dot, in any letter case, is the extension that decides: these have these
/// types, and every other is a stream of bytes. A path without a dot is its own extension.
pub proof fn law_media_types(stem: Seq<char>, ext: Seq<char>, dotted: bool)
    requires
        !ext.contains('.'),
        dotted || stem.len() == 0,
    ensures
        ({
            let path = if dotted {
                stem + seq!['.'] + ext
            } else {
                ext
            };
            let small = text::ascii_lowercase(ext);
            mime_type(path) == (if small == "jpg"@ {
                "image/jpeg"@
            } else if small == "jpeg"@ {
                "image/jpeg"@
            } else if small == "png"@ {
                "image/png"@
            } else if small == "gif"@ {
                "image/gif"@
            } else if small == "webp"@ {
                "image/webp"@
            } else if small == "mov"@ {
                "video/quicktime"@
            } else if small == "mp4"@ {
                "video/mp4"@
            } else if small == "m4v"@ {
                "video/mp4"@
            } else if small == "webm"@ {
                "video/webm"@
            } else {
                "application/octet-stream"@
            })
        }),
{
    let path = if dotted {
        stem + seq!['.'] + ext
    } else {
        ext
    };
    let from = path.len() - ext.len();
    assert forall|i: int| from <= i < path.len() implies path[i] != '.' by {
        assert(ext.contains(ext[i - from]));
    }
    lemma_after_last_step(path, '.', from);
    assert(path.skip(from) =~= ext);
}

} // verus!
