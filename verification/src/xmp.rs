//! Motion photo markers in XMP metadata.
//!
//! A motion photo carries its video behind the image data. Its XMP packet says so and says how far
//! from the end of the file the video begins:
//!
//! - `MicroVideo="1"` with `MicroVideoOffset="N"`: the video is the last `N` bytes;
//! - `MotionPhoto="1"` with a container item of type `video/mp4`, `Item:Length="N"` and
//!   `Item:Padding="P"`: the video begins `N + P` bytes before the end;
//! - `MotionPhoto="1"` with `MotionPhotoOffset="N"`: the video is the last `N` bytes.

use vstd::prelude::*;
use vstd::slice::slice_subrange;

use crate::number;
use crate::number::parse_unsigned;
use crate::text;
use crate::text::{
    chars_of,
    contains,
    find,
    is_white_space,
    leading_word,
    skip_space,
    stands_at,
    trim,
};

verus! {

broadcast use vstd::string::group_string_axioms;

/// What stands between the quotes of the first attribute `attr` that is quoted with `quote`.
pub open spec fn quoted_text(xmp: Seq<char>, attr: Seq<char>, quote: char) -> Option<Seq<char>> {
    let opening = attr + seq!['=', quote];
    match text::index_of(xmp, opening) {
        None => None,
        Some(i) => {
            let after = xmp.skip(i + opening.len());
            match text::index_of(after, seq![quote]) {
                None => None,
                Some(end) => Some(after.take(end)),
            }
        },
    }
}

/// The number in the first attribute `attr` that is quoted with `quote`.
pub open spec fn quoted_number(xmp: Seq<char>, attr: Seq<char>, quote: char) -> Option<u64> {
    match quoted_text(xmp, attr, quote) {
        None => None,
        Some(text) => number::unsigned_value(text::trimmed(text)),
    }
}

/// The number in the attribute `attr`: in double quotes, or else in single quotes.
pub open spec fn attribute_number(xmp: Seq<char>, attr: Seq<char>) -> Option<u64> {
    match quoted_number(xmp, attr, '"') {
        Some(n) => Some(n),
        None => quoted_number(xmp, attr, '\''),
    }
}

/// `c` is one of the two characters that values are quoted with.
pub open spec fn quote_mark(c: char) -> bool {
    c == '"' || c == '\''
}

/// The quote that is open behind `c`, where `quote` is open in front of it.
pub open spec fn next_quote(quote: Option<char>, c: char) -> Option<char> {
    match quote {
        Some(q) => if c == q {
            None
        } else {
            quote
        },
        None => if quote_mark(c) {
            Some(c)
        } else {
            None
        },
    }
}

/// The quote that is open in `s` behind its first `n` characters.
pub open spec fn open_quote(s: Seq<char>, n: int) -> Option<char>
    decreases n,
{
    if n <= 0 {
        None
    } else {
        next_quote(open_quote(s, n - 1), s[n - 1])
    }
}

/// The position behind the first `>` that stands outside quotes in `body`, from position `i` on.
/// `quote` is the quote that is open at `i`, if one is.
pub open spec fn tag_end(body: Seq<char>, i: int, quote: Option<char>) -> Option<int>
    decreases body.len() - i,
{
    if i < 0 || i >= body.len() {
        None
    } else if quote is None && body[i] == '>' {
        Some(i + 1)
    } else {
        tag_end(body, i + 1, next_quote(quote, body[i]))
    }
}

/// The length of the tag that `body` begins with: through the first `>` that stands outside quotes.
/// Where there is none, as in a tag with a quote that is not closed, it is through the first `/>`,
/// or else through the first `>`.
pub open spec fn tag_len(body: Seq<char>) -> Option<int> {
    match tag_end(body, 0, None) {
        Some(n) => Some(n),
        None => match text::index_of(body, "/>"@) {
            Some(i) => Some(i + 2),
            None => match text::index_of(body, ">"@) {
                Some(i) => Some(i + 1),
                None => None,
            },
        },
    }
}

/// What a value is that `s` begins with: what stands between quotes, or the first word. A quote that
/// is not closed reaches to the end.
pub open spec fn leading_value(s: Seq<char>) -> Seq<char> {
    if s.len() > 0 && quote_mark(s[0]) {
        let inside = s.drop_first();
        match text::index_of(inside, seq![s[0]]) {
            Some(end) => inside.take(end),
            None => inside,
        }
    } else {
        s.take(text::word_len(s) as int)
    }
}

/// The value of the attribute behind whose name `s` stands: an equals sign and a value, with white
/// space in front of either.
pub open spec fn value_behind(s: Seq<char>) -> Option<Seq<char>> {
    let t = text::trim_start(s);
    if t.len() > 0 && t[0] == '=' {
        Some(leading_value(text::trim_start(t.drop_first())))
    } else {
        None
    }
}

/// `c` can stand in front of the local name of an attribute.
pub open spec fn before_name(c: char) -> bool {
    c == ':' || text::white_space(c) || quote_mark(c)
}

/// At `i` stands the local name `Mime` of an attribute: outside quotes, or anywhere in a tag whose
/// quotes are not all closed.
pub open spec fn mime_name_at(tag: Seq<char>, i: int) -> bool {
    &&& 0 < i
    &&& text::occurs_at(tag, "Mime"@, i)
    &&& before_name(tag[i - 1])
    &&& open_quote(tag, i) is None || open_quote(tag, tag.len() as int) is Some
}

/// At `i` stands the name of an attribute `Mime` whose value contains `video/mp4`.
pub open spec fn video_type_at(tag: Seq<char>, i: int) -> bool {
    &&& mime_name_at(tag, i)
    &&& value_behind(tag.skip(i + "Mime"@.len())) matches Some(value) && text::occurs(
        value,
        "video/mp4"@,
    )
}

/// An attribute `Mime` of a container item's tag, whatever its prefix, contains `video/mp4`.
pub open spec fn names_video(tag: Seq<char>) -> bool {
    exists|i: int| video_type_at(tag, i)
}

/// The length and the padding that a container item's tag gives; no padding counts as zero.
pub open spec fn item_extent(tag: Seq<char>) -> Option<(u64, u64)> {
    match attribute_number(tag, "Item:Length"@) {
        None => None,
        Some(length) => Some(
            (
                length,
                match attribute_number(tag, "Item:Padding"@) {
                    Some(padding) => padding,
                    None => 0,
                },
            ),
        ),
    }
}

/// The length and the padding of the first container item in `xmp` whose type is `video/mp4`.
pub open spec fn container_video_item(xmp: Seq<char>) -> Option<(u64, u64)>
    decreases xmp.len(),
{
    match text::index_of(xmp, "<Container:Item"@) {
        None => None,
        Some(i) => {
            let body = xmp.skip(i);
            match tag_len(body) {
                None => None,
                Some(n) => {
                    if names_video(body.take(n)) {
                        item_extent(body.take(n))
                    } else {
                        proof {
                            lemma_tag_len(xmp, i);
                        }
                        container_video_item(body.skip(n))
                    }
                },
            }
        },
    }
}

/// A tag is not empty and ends inside the packet.
pub proof fn lemma_tag_len(xmp: Seq<char>, i: int)
    ensures
        text::index_of(xmp, "<Container:Item"@) == Some(i) ==> 0 <= i <= xmp.len(),
        tag_len(xmp.skip(i)) matches Some(n) ==> 0 < n && (0 <= i <= xmp.len() ==> n <= xmp.len()
            - i),
{
    reveal_strlit("/>");
    reveal_strlit(">");
    text::lemma_index_of(xmp, "<Container:Item"@);
    text::lemma_index_of(xmp.skip(i), "/>"@);
    text::lemma_index_of(xmp.skip(i), ">"@);
    lemma_tag_end(xmp.skip(i), 0, None);
}

/// A tag ends behind the position from which its end is looked for, and inside the text.
pub proof fn lemma_tag_end(body: Seq<char>, i: int, quote: Option<char>)
    ensures
        tag_end(body, i, quote) matches Some(n) ==> i < n <= body.len(),
    decreases body.len() - i,
{
    if 0 <= i < body.len() {
        lemma_tag_end(body, i + 1, next_quote(quote, body[i]));
    }
}

/// The packet marks a photo of the older kind, with `MicroVideo` set to one.
pub open spec fn marks_micro_video(xmp: Seq<char>) -> bool {
    text::occurs(xmp, "MicroVideo=\"1\""@) || text::occurs(xmp, "MicroVideo='1'"@)
}

/// The packet marks a photo of the newer kind, with `MotionPhoto` set to one.
pub open spec fn marks_motion_photo(xmp: Seq<char>) -> bool {
    text::occurs(xmp, "MotionPhoto=\"1\""@) || text::occurs(xmp, "MotionPhoto='1'"@)
}

/// The photo type of an older photo: by the vendor that the packet names.
pub open spec fn micro_video_source(xmp: Seq<char>) -> Seq<char> {
    if text::occurs(xmp, "xiaomi.com"@) {
        "xiaomi"@
    } else {
        "google"@
    }
}

/// The photo type of a newer photo: by the vendor that the packet names.
pub open spec fn motion_photo_source(xmp: Seq<char>) -> Seq<char> {
    if text::occurs(xmp, "oplus.com"@) {
        "oppo"@
    } else if text::occurs(xmp, "samsung.com"@) {
        "samsung"@
    } else if text::occurs(xmp, "xiaomi.com"@) {
        "xiaomi"@
    } else {
        "google"@
    }
}

/// The position that lies `back` bytes before the end of a file, or its start.
pub open spec fn before_end(file_size: u64, back: int) -> u64 {
    if back <= file_size {
        (file_size - back) as u64
    } else {
        0
    }
}

/// The offset in an older photo, where the packet marks one and gives it.
pub open spec fn micro_video_offset(xmp: Seq<char>) -> Option<u64> {
    if marks_micro_video(xmp) {
        attribute_number(xmp, "MicroVideoOffset"@)
    } else {
        None
    }
}

/// Where the video begins in a file of `file_size` bytes whose XMP packet is `xmp`, and the type
/// of the photo.
pub open spec fn xmp_motion(xmp: Seq<char>, file_size: u64) -> Option<(u64, Seq<char>)> {
    match micro_video_offset(xmp) {
        Some(back) => Some((before_end(file_size, back as int), micro_video_source(xmp))),
        None => if !marks_motion_photo(xmp) {
            None
        } else {
            match container_video_item(xmp) {
                Some((length, padding)) => Some(
                    (before_end(file_size, length + padding), motion_photo_source(xmp)),
                ),
                None => match attribute_number(xmp, "MotionPhotoOffset"@) {
                    Some(back) => Some(
                        (before_end(file_size, back as int), motion_photo_source(xmp)),
                    ),
                    None => None,
                },
            }
        },
    }
}

/// Where the offset is the sum of a container item's length and padding, 64 bits hold the sum.
pub open spec fn xmp_extent_fits(xmp: Seq<char>) -> bool {
    micro_video_offset(xmp) is None && marks_motion_photo(xmp) ==> (container_video_item(
        xmp,
    ) matches Some((length, padding)) ==> length + padding <= u64::MAX)
}

/// An offset with the photo type in characters.
pub open spec fn offset_view(found: Option<(u64, &str)>) -> Option<(u64, Seq<char>)> {
    match found {
        Some((offset, photo_type)) => Some((offset, photo_type@)),
        None => None,
    }
}

fn number_in_quotes(xmp: &[char], attr: &[char], quote: char) -> (r: Option<u64>)
    ensures
        r == quoted_number(xmp@, attr@, quote),
{
    let mut opening: Vec<char> = Vec::new();
    opening.extend_from_slice(attr);
    opening.push('=');
    opening.push(quote);
    assert(opening@ == attr@ + seq!['=', quote]);
    match find(xmp, opening.as_slice()) {
        None => None,
        Some(at) => {
            let after = slice_subrange(xmp, at + opening.len(), xmp.len());
            assert(after@ == xmp@.skip(at + opening@.len()));
            let closing: Vec<char> = vec![quote];
            assert(closing@ == seq![quote]);
            match find(after, closing.as_slice()) {
                None => None,
                Some(end) => {
                    let text = slice_subrange(after, 0, end);
                    assert(text@ == after@.take(end as int));
                    parse_unsigned(trim(text))
                },
            }
        },
    }
}

fn quote_behind(quote: Option<char>, c: char) -> (r: Option<char>)
    ensures
        r == next_quote(quote, c),
{
    match quote {
        Some(q) => if c == q {
            None
        } else {
            quote
        },
        None => if c == '"' || c == '\'' {
            Some(c)
        } else {
            None
        },
    }
}

fn value_at_start<'a>(s: &'a [char]) -> (r: &'a [char])
    ensures
        r@ == leading_value(s@),
{
    if s.len() > 0 && (s[0] == '"' || s[0] == '\'') {
        let inside = slice_subrange(s, 1, s.len());
        assert(inside@ == s@.drop_first());
        let closing: Vec<char> = vec![s[0]];
        assert(closing@ == seq![s@[0]]);
        match find(inside, closing.as_slice()) {
            Some(end) => {
                let value = slice_subrange(inside, 0, end);
                assert(value@ == inside@.take(end as int));
                value
            },
            None => inside,
        }
    } else {
        let n = leading_word(s);
        let value = slice_subrange(s, 0, n);
        assert(value@ == s@.take(n as int));
        value
    }
}

fn attribute_value<'a>(s: &'a [char]) -> (r: Option<&'a [char]>)
    ensures
        r is Some <==> value_behind(s@) is Some,
        r matches Some(value) ==> value_behind(s@) == Some(value@),
{
    let t = skip_space(s);
    if t.len() > 0 && t[0] == '=' {
        let rest = slice_subrange(t, 1, t.len());
        assert(rest@ == t@.drop_first());
        Some(value_at_start(skip_space(rest)))
    } else {
        None
    }
}

fn quotes_close(tag: &[char]) -> (r: bool)
    ensures
        r == (open_quote(tag@, tag@.len() as int) is None),
{
    let mut quote: Option<char> = None;
    let mut i: usize = 0;
    while i < tag.len()
        invariant
            i <= tag.len(),
            quote == open_quote(tag@, i as int),
        decreases tag.len() - i,
    {
        quote = quote_behind(quote, tag[i]);
        i += 1;
    }
    quote.is_none()
}

fn is_video_tag(tag: &[char]) -> (r: bool)
    ensures
        r == names_video(tag@),
{
    let name = chars_of("Mime");
    let closed = quotes_close(tag);
    let mut quote: Option<char> = None;
    let mut i: usize = 0;
    while i < tag.len()
        invariant
            i <= tag.len(),
            name@ == "Mime"@,
            closed == (open_quote(tag@, tag@.len() as int) is None),
            quote == open_quote(tag@, i as int),
            forall|j: int| 0 <= j < i ==> !video_type_at(tag@, j),
        decreases tag.len() - i,
    {
        if i > 0 && (quote.is_none() || !closed) && stands_at(tag, name.as_slice(), i) {
            let c = tag[i - 1];
            if c == ':' || is_white_space(c) || c == '"' || c == '\'' {
                let rest = slice_subrange(tag, i + name.len(), tag.len());
                assert(rest@ == tag@.skip(i + "Mime"@.len()));
                if let Some(value) = attribute_value(rest) {
                    if contains(value, "video/mp4") {
                        assert(video_type_at(tag@, i as int));
                        return true;
                    }
                }
            }
        }
        assert(!video_type_at(tag@, i as int));
        quote = quote_behind(quote, tag[i]);
        i += 1;
    }
    assert forall|j: int| !video_type_at(tag@, j) by {
        reveal_strlit("Mime");
    }
    false
}

fn attribute(xmp: &[char], attr: &str) -> (r: Option<u64>)
    ensures
        r == attribute_number(xmp@, attr@),
{
    let attr = chars_of(attr);
    match number_in_quotes(xmp, attr.as_slice(), '"') {
        Some(n) => Some(n),
        None => number_in_quotes(xmp, attr.as_slice(), '\''),
    }
}

/// The number in the attribute `attr` of `xmp`, written `attr="12345"` or `attr='12345'`.
pub fn extract_xmp_u64(xmp: &str, attr: &str) -> (r: Option<u64>)
    ensures
        r == attribute_number(xmp@, attr@),
{
    attribute(chars_of(xmp).as_slice(), attr)
}

fn end_of_tag(body: &[char]) -> (r: Option<usize>)
    ensures
        r is Some <==> tag_len(body@) is Some,
        r matches Some(n) ==> tag_len(body@) == Some(n as int) && 0 < n <= body.len(),
{
    proof {
        reveal_strlit("/>");
        reveal_strlit(">");
    }
    let mut i: usize = 0;
    let mut quote: Option<char> = None;
    while i < body.len()
        invariant
            i <= body.len(),
            tag_end(body@, 0, None) == tag_end(body@, i as int, quote),
        decreases body.len() - i,
    {
        if quote.is_none() && body[i] == '>' {
            return Some(i + 1);
        }
        quote = quote_behind(quote, body[i]);
        i += 1;
    }
    match find(body, chars_of("/>").as_slice()) {
        Some(at) => Some(at + 2),
        None => match find(body, chars_of(">").as_slice()) {
            Some(at) => Some(at + 1),
            None => None,
        },
    }
}

fn video_item(xmp: &[char]) -> (r: Option<(u64, u64)>)
    ensures
        r == container_video_item(xmp@),
{
    let opening = chars_of("<Container:Item");
    let mut rest = xmp;
    loop
        invariant
            opening@ == "<Container:Item"@,
            container_video_item(xmp@) == container_video_item(rest@),
        decreases rest.len(),
    {
        let at = match find(rest, opening.as_slice()) {
            None => {
                return None;
            },
            Some(at) => at,
        };
        let body = slice_subrange(rest, at, rest.len());
        assert(body@ == rest@.skip(at as int));
        let n = match end_of_tag(body) {
            None => {
                return None;
            },
            Some(n) => n,
        };
        let tag = slice_subrange(body, 0, n);
        assert(tag@ == body@.take(n as int));
        if is_video_tag(tag) {
            let length = match attribute(tag, "Item:Length") {
                None => {
                    return None;
                },
                Some(length) => length,
            };
            let padding = match attribute(tag, "Item:Padding") {
                Some(padding) => padding,
                None => 0,
            };
            return Some((length, padding));
        }
        rest = slice_subrange(body, n, body.len());
        assert(rest@ == body@.skip(n as int));
    }
}

/// The length and the padding of the first container item in `xmp` whose attribute `Mime` contains
/// `video/mp4`. There is none where that item's tag gives no length, or where a tag before it does
/// not end.
pub fn find_container_video_item(xmp: &str) -> (r: Option<(u64, u64)>)
    ensures
        r == container_video_item(xmp@),
{
    video_item(chars_of(xmp).as_slice())
}

/// Whether `parse_xmp_motion` can compute the offset that `xmp` gives.
pub fn xmp_extent_in_range(xmp: &str) -> (r: bool)
    ensures
        r == xmp_extent_fits(xmp@),
{
    let cs = chars_of(xmp);
    let cs = cs.as_slice();
    let micro = contains(cs, "MicroVideo=\"1\"") || contains(cs, "MicroVideo='1'");
    if micro && attribute(cs, "MicroVideoOffset").is_some() {
        return true;
    }
    if !contains(cs, "MotionPhoto=\"1\"") && !contains(cs, "MotionPhoto='1'") {
        return true;
    }
    match video_item(cs) {
        Some((length, padding)) => length <= u64::MAX - padding,
        None => true,
    }
}

/// Where the video begins in a file of `file_size` bytes whose XMP packet is `xmp`, and the type
/// of the photo. There is nothing to find where the packet marks no motion photo, or marks one and
/// does not say where its video begins.
pub fn parse_xmp_motion(xmp: &str, file_size: u64) -> (r: Option<(u64, &'static str)>)
    requires
        xmp_extent_fits(xmp@),
    ensures
        offset_view(r) == xmp_motion(xmp@, file_size),
{
    let cs = chars_of(xmp);
    let cs = cs.as_slice();
    if contains(cs, "MicroVideo=\"1\"") || contains(cs, "MicroVideo='1'") {
        if let Some(back) = attribute(cs, "MicroVideoOffset") {
            let source = if contains(cs, "xiaomi.com") {
                "xiaomi"
            } else {
                "google"
            };
            return Some((file_size.saturating_sub(back), source));
        }
    }
    if contains(cs, "MotionPhoto=\"1\"") || contains(cs, "MotionPhoto='1'") {
        let source = if contains(cs, "oplus.com") {
            "oppo"
        } else if contains(cs, "samsung.com") {
            "samsung"
        } else if contains(cs, "xiaomi.com") {
            "xiaomi"
        } else {
            "google"
        };
        if let Some((length, padding)) = video_item(cs) {
            return Some((file_size.saturating_sub(length + padding), source));
        }
        if let Some(back) = attribute(cs, "MotionPhotoOffset") {
            return Some((file_size.saturating_sub(back), source));
        }
    }
    None
}

/// The video of a photo that its XMP packet marks begins inside the file or at its end.
pub proof fn law_xmp_offset_in_file(xmp: Seq<char>, file_size: u64)
    ensures
        xmp_motion(xmp, file_size) matches Some((offset, _)) ==> offset <= file_size,
{
}

proof fn lemma_quoted_digits(xmp: Seq<char>, attr: Seq<char>, quote: char, at: int, n: u64)
    requires
        quote == '"' || quote == '\'',
        text::first_at(xmp, attr + seq!['=', quote], at),
        ({
            let value = number::decimal(n as nat) + seq![quote];
            value.is_prefix_of(xmp.skip(at + attr.len() + 2))
        }),
    ensures
        quoted_number(xmp, attr, quote) == Some(n),
{
    let opening = attr + seq!['=', quote];
    text::lemma_first_at(xmp, opening, at);
    let after = xmp.skip(at + opening.len());
    let digits = number::decimal(n as nat);
    number::lemma_decimal_digits(n as nat);
    let value = digits + seq![quote];
    assert(after.subrange(0, value.len() as int) == value);
    assert(after.take(digits.len() as int) == digits) by {
        assert forall|i: int| 0 <= i < digits.len() implies after[i] == digits[i] by {
            assert(after[i] == value[i]);
        }
    }
    assert(after[digits.len() as int] == value[digits.len() as int]);
    assert(after.subrange(digits.len() as int, digits.len() as int + 1) == seq![quote]);
    assert forall|j: int| 0 <= j < digits.len() implies !text::occurs_at(
        after,
        seq![quote],
        j,
    ) by {
        assert(number::digit(digits[j]));
        assert(after[j] == value[j]);
        assert(after.subrange(j, j + 1)[0] == after[j]);
    }
    text::lemma_first_at(after, seq![quote], digits.len() as int);
    assert(number::digit(digits[0]));
    assert(number::digit(digits.last()));
    assert(text::trimmed(digits) == digits);
    number::law_decimal_reads_back(n);
}

/// A number written in the first attribute of a name is read back: in double quotes, and in single
/// quotes where the name has no value in double quotes.
pub proof fn law_attribute_reads_back(
    xmp: Seq<char>,
    attr: Seq<char>,
    quote: char,
    at: int,
    n: u64,
)
    requires
        quote == '"' || quote == '\'' && !text::occurs(xmp, attr + seq!['=', '"']),
        text::first_at(xmp, attr + seq!['=', quote], at),
        (number::decimal(n as nat) + seq![quote]).is_prefix_of(xmp.skip(at + attr.len() + 2)),
    ensures
        attribute_number(xmp, attr) == Some(n),
{
    lemma_quoted_digits(xmp, attr, quote, at, n);
    if quote == '\'' {
        assert forall|i: int| !text::first_at(xmp, attr + seq!['=', '"'], i) by {
            assert(!text::occurs_at(xmp, attr + seq!['=', '"'], i));
        }
    }
}

/// `attributes` can stand inside a tag: from position `i` on, where `quote` is open if it is one,
/// every quote is closed again, and no `>` stands outside quotes.
pub open spec fn whole_attributes(attributes: Seq<char>, i: int, quote: Option<char>) -> bool
    decreases attributes.len() - i,
{
    if i < 0 || i >= attributes.len() {
        quote is None
    } else {
        &&& !(quote is None && attributes[i] == '>')
        &&& whole_attributes(attributes, i + 1, next_quote(quote, attributes[i]))
    }
}

/// The tag of a container item with these attributes; it closes the item itself where `closed` is
/// set.
pub open spec fn item_tag(attributes: Seq<char>, closed: bool) -> Seq<char> {
    "<Container:Item"@ + attributes + (if closed {
        "/>"@
    } else {
        ">"@
    })
}

/// A container item: a tag that closes itself, or a tag, a content without further tags, and an end
/// tag.
pub open spec fn item(attributes: Seq<char>, content: Option<Seq<char>>) -> Seq<char> {
    match content {
        None => item_tag(attributes, true),
        Some(content) => item_tag(attributes, false) + content + "</Container:Item>"@,
    }
}

proof fn lemma_tag_end_behind(
    body: Seq<char>,
    from: int,
    attributes: Seq<char>,
    i: int,
    quote: Option<char>,
)
    requires
        0 <= from,
        0 <= i <= attributes.len(),
        whole_attributes(attributes, i, quote),
        from + attributes.len() < body.len(),
        body.subrange(from, from + attributes.len()) == attributes,
        body[from + attributes.len()] == '>' || (body[from + attributes.len()] == '/' && from
            + attributes.len() + 1 < body.len() && body[from + attributes.len() + 1] == '>'),
    ensures
        tag_end(body, from + i, quote) == Some(
            if body[from + attributes.len()] == '>' {
                from + attributes.len() + 1
            } else {
                from + attributes.len() + 2
            },
        ),
    decreases attributes.len() - i,
{
    if i < attributes.len() {
        assert(body[from + i] == attributes[i]);
        lemma_tag_end_behind(body, from, attributes, i + 1, next_quote(quote, attributes[i]));
    } else {
        reveal_with_fuel(tag_end, 2);
    }
}

proof fn lemma_plain_opening(body: Seq<char>, i: int)
    requires
        0 <= i <= 15,
        "<Container:Item"@.is_prefix_of(body),
    ensures
        tag_end(body, i, None) == tag_end(body, 15, None),
    decreases 15 - i,
{
    reveal_strlit("<Container:Item");
    if i < 15 {
        assert(body.subrange(0, 15)[i] == body[i]);
        assert(body[i] == "<Container:Item"@[i]);
        lemma_plain_opening(body, i + 1);
    }
}

proof fn lemma_item_tag(attributes: Seq<char>, closed: bool, rest: Seq<char>)
    requires
        whole_attributes(attributes, 0, None),
    ensures
        ({
            let xmp = item_tag(attributes, closed) + rest;
            let n = item_tag(attributes, closed).len() as int;
            &&& text::index_of(xmp, "<Container:Item"@) == Some(0int)
            &&& tag_len(xmp) == Some(n)
            &&& xmp.take(n) == item_tag(attributes, closed)
            &&& xmp.skip(n) == rest
        }),
{
    reveal_strlit("<Container:Item");
    reveal_strlit("/>");
    reveal_strlit(">");
    let tag = item_tag(attributes, closed);
    let xmp = tag + rest;
    assert(xmp.subrange(0, 15) == "<Container:Item"@);
    text::lemma_first_at(xmp, "<Container:Item"@, 0);
    lemma_plain_opening(xmp, 0);
    assert(xmp.subrange(15, 15 + attributes.len() as int) == attributes);
    lemma_tag_end_behind(xmp, 15, attributes, 0, None);
    assert(xmp.take(tag.len() as int) == tag);
    assert(xmp.skip(tag.len() as int) == rest);
}

/// `gap` has no `<` behind which a container item's tag could go on.
spec fn no_item_begins(gap: Seq<char>) -> bool {
    forall|i: int|
        0 <= i < gap.len() && #[trigger] gap[i] == '<' ==> i + 1 < gap.len() && gap[i + 1] != 'C'
}

proof fn lemma_gap_is_passed_over(gap: Seq<char>, rest: Seq<char>)
    requires
        no_item_begins(gap),
    ensures
        container_video_item(gap + rest) == container_video_item(rest),
{
    reveal_strlit("<Container:Item");
    let opening = "<Container:Item"@;
    let xmp = gap + rest;
    let shift = gap.len() as int;
    assert forall|j: int| 0 <= j < shift implies !text::occurs_at(xmp, opening, j) by {
        if text::occurs_at(xmp, opening, j) {
            assert(xmp.subrange(j, j + 15)[0] == xmp[j]);
            assert(xmp.subrange(j, j + 15)[1] == xmp[j + 1]);
            assert(gap[j] == '<');
        }
    }
    assert forall|j: int| 0 <= j implies text::occurs_at(xmp, opening, shift + j)
        == text::occurs_at(rest, opening, j) by {
        if j + 15 <= rest.len() {
            assert(xmp.subrange(shift + j, shift + j + 15) == rest.subrange(j, j + 15));
        }
    }
    text::lemma_index_of(rest, opening);
    match text::index_of(rest, opening) {
        Some(i) => {
            assert forall|j: int| 0 <= j < shift + i implies !text::occurs_at(xmp, opening, j) by {
                if j >= shift {
                    assert(!text::occurs_at(rest, opening, j - shift));
                }
            }
            text::lemma_first_at(xmp, opening, shift + i);
            assert(xmp.skip(shift + i) == rest.skip(i));
        },
        None => {
            if text::occurs(rest, opening) {
                text::lemma_least_occurrence(rest, opening);
            }
            assert forall|j: int| 0 <= j < xmp.len() + 1 - opening.len() implies !text::occurs_at(
                xmp,
                opening,
                j,
            ) by {
                if j >= shift {
                    assert(!text::occurs_at(rest, opening, j - shift));
                }
            }
            text::lemma_no_occurrence(xmp, opening);
        },
    }
}

proof fn lemma_end_of_item(content: Seq<char>)
    requires
        !content.contains('<'),
    ensures
        no_item_begins(content + "</Container:Item>"@),
{
    reveal_strlit("</Container:Item>");
    let gap = content + "</Container:Item>"@;
    assert forall|i: int| 0 <= i < gap.len() && #[trigger] gap[i] == '<' implies i + 1 < gap.len()
        && gap[i + 1] != 'C' by {
        if i < content.len() {
            assert(content.contains(content[i]));
        } else {
            assert(gap[i] == "</Container:Item>"@[i - content.len()]);
        }
    }
}

proof fn lemma_first_tag(xmp: Seq<char>, n: int, tag: Seq<char>, rest: Seq<char>)
    requires
        text::index_of(xmp, "<Container:Item"@) == Some(0int),
        tag_len(xmp) == Some(n),
        xmp.take(n) == tag,
        xmp.skip(n) == rest,
    ensures
        container_video_item(xmp) == if names_video(tag) {
            item_extent(tag)
        } else {
            container_video_item(rest)
        },
{
    assert(xmp.skip(0) == xmp);
}

proof fn lemma_other_tag(attributes: Seq<char>, closed: bool, rest: Seq<char>)
    requires
        whole_attributes(attributes, 0, None),
        !names_video(item_tag(attributes, closed)),
    ensures
        container_video_item(item_tag(attributes, closed) + rest) == container_video_item(rest),
{
    let tag = item_tag(attributes, closed);
    lemma_item_tag(attributes, closed, rest);
    lemma_first_tag(tag + rest, tag.len() as int, tag, rest);
}

/// A container item whose type is not `video/mp4`, such as the one for the image itself, does not
/// change what is read behind it, whether its tag closes itself or an end tag follows.
pub proof fn law_other_items_are_passed_over(
    attributes: Seq<char>,
    content: Option<Seq<char>>,
    rest: Seq<char>,
)
    requires
        whole_attributes(attributes, 0, None),
        !names_video(item_tag(attributes, content is None)),
        content matches Some(content) ==> !content.contains('<'),
    ensures
        container_video_item(item(attributes, content) + rest) == container_video_item(rest),
{
    match content {
        None => {
            lemma_other_tag(attributes, true, rest);
        },
        Some(content) => {
            let tag = item_tag(attributes, false);
            let gap = content + "</Container:Item>"@;
            assert(item(attributes, Some(content)) + rest == tag + (gap + rest));
            lemma_other_tag(attributes, false, gap + rest);
            lemma_end_of_item(content);
            lemma_gap_is_passed_over(gap, rest);
        },
    }
}

/// The length and the padding that are read are those in the tag of the first container item whose
/// type is `video/mp4`, whatever follows the tag.
pub proof fn law_video_item_is_read(attributes: Seq<char>, closed: bool, rest: Seq<char>)
    requires
        whole_attributes(attributes, 0, None),
        names_video(item_tag(attributes, closed)),
    ensures
        container_video_item(item_tag(attributes, closed) + rest) == item_extent(
            item_tag(attributes, closed),
        ),
{
    let tag = item_tag(attributes, closed);
    lemma_item_tag(attributes, closed, rest);
    lemma_first_tag(tag + rest, tag.len() as int, tag, rest);
}

/// Every character of `s` is white space.
pub open spec fn all_space(s: Seq<char>) -> bool {
    forall|i: int| 0 <= i < s.len() ==> text::white_space(#[trigger] s[i])
}

proof fn lemma_space_is_skipped(space: Seq<char>, rest: Seq<char>)
    requires
        all_space(space),
        rest.len() > 0,
        !text::white_space(rest[0]),
    ensures
        text::trim_start(space + rest) == rest,
    decreases space.len(),
{
    if space.len() == 0 {
        assert(space + rest == rest);
    } else {
        assert((space + rest)[0] == space[0]);
        assert((space + rest).drop_first() == space.drop_first() + rest);
        lemma_space_is_skipped(space.drop_first(), rest);
    }
}

proof fn lemma_open_quote_of_prefix(a: Seq<char>, b: Seq<char>, n: int)
    requires
        n <= a.len(),
    ensures
        open_quote(a + b, n) == open_quote(a, n),
    decreases n,
{
    if n > 0 {
        lemma_open_quote_of_prefix(a, b, n - 1);
        assert((a + b)[n - 1] == a[n - 1]);
    }
}

/// The text of an attribute `Mime`: its name without a prefix, an equals sign with white space around
/// it, and a quoted value.
pub open spec fn mime_attribute(
    space_before: Seq<char>,
    space_behind: Seq<char>,
    quote: char,
    value: Seq<char>,
) -> Seq<char> {
    "Mime"@ + space_before + seq!['='] + space_behind + seq![quote] + value + seq![quote]
}

proof fn lemma_mime_value(
    before: Seq<char>,
    space_before: Seq<char>,
    space_behind: Seq<char>,
    quote: char,
    value: Seq<char>,
    behind: Seq<char>,
)
    requires
        all_space(space_before),
        all_space(space_behind),
        quote_mark(quote),
        !value.contains(quote),
    ensures
        ({
            let tag = before + mime_attribute(space_before, space_behind, quote, value) + behind;
            let at = before.len() as int;
            &&& text::occurs_at(tag, "Mime"@, at)
            &&& open_quote(tag, at) == open_quote(before, at)
            &&& value_behind(tag.skip(at + "Mime"@.len())) == Some(value)
        }),
{
    reveal_strlit("Mime");
    let attribute = mime_attribute(space_before, space_behind, quote, value);
    let tag = before + attribute + behind;
    let at = before.len() as int;
    let quoted = seq![quote] + value + seq![quote] + behind;
    let equals = seq!['='] + (space_behind + quoted);
    let rest = space_before + equals;
    assert(tag =~= before + ("Mime"@ + rest));
    assert(tag.subrange(at, at + 4) =~= "Mime"@);
    lemma_open_quote_of_prefix(before, "Mime"@ + rest, at);
    assert(tag.skip(at + 4) =~= rest);
    lemma_space_is_skipped(space_before, equals);
    assert(equals.drop_first() =~= space_behind + quoted);
    lemma_space_is_skipped(space_behind, quoted);
    let inside = quoted.drop_first();
    assert(inside =~= value + (seq![quote] + behind));
    let n = value.len() as int;
    assert(inside.subrange(n, n + 1) =~= seq![quote]);
    assert forall|j: int| 0 <= j < n implies !text::occurs_at(inside, seq![quote], j) by {
        assert(value.contains(value[j]));
        assert(inside.subrange(j, j + 1)[0] == value[j]);
    }
    text::lemma_first_at(inside, seq![quote], n);
    assert(inside.take(n) =~= value);
    assert(leading_value(quoted) == value);
}

/// An attribute `Mime` that contains `video/mp4` names the video wherever it stands in a tag, with
/// any prefix, in either quotes, and with white space around its equals sign or without. In a tag
/// whose quotes are not all closed it does so even where it seems to stand in quotes.
pub proof fn law_mime_attribute_is_read(
    before: Seq<char>,
    space_before: Seq<char>,
    space_behind: Seq<char>,
    quote: char,
    value: Seq<char>,
    behind: Seq<char>,
)
    requires
        before.len() > 0,
        before_name(before.last()),
        open_quote(before, before.len() as int) is None || ({
            let tag = before + mime_attribute(space_before, space_behind, quote, value) + behind;
            open_quote(tag, tag.len() as int) is Some
        }),
        all_space(space_before),
        all_space(space_behind),
        quote_mark(quote),
        !value.contains(quote),
        text::occurs(value, "video/mp4"@),
    ensures
        names_video(
            before + mime_attribute(space_before, space_behind, quote, value) + behind,
        ),
{
    let tag = before + mime_attribute(space_before, space_behind, quote, value) + behind;
    let at = before.len() as int;
    lemma_mime_value(before, space_before, space_behind, quote, value, behind);
    assert(tag[at - 1] == before.last());
    assert(video_type_at(tag, at));
}

/// A tag whose one attribute `Mime` has another value names no video, whatever else the tag holds.
pub proof fn law_other_types_are_no_video(
    before: Seq<char>,
    space_before: Seq<char>,
    space_behind: Seq<char>,
    quote: char,
    value: Seq<char>,
    behind: Seq<char>,
)
    requires
        all_space(space_before),
        all_space(space_behind),
        quote_mark(quote),
        !value.contains(quote),
        !text::occurs(value, "video/mp4"@),
        forall|i: int|
            text::occurs_at(
                before + mime_attribute(space_before, space_behind, quote, value) + behind,
                "Mime"@,
                i,
            ) ==> i == before.len(),
    ensures
        !names_video(
            before + mime_attribute(space_before, space_behind, quote, value) + behind,
        ),
{
    let tag = before + mime_attribute(space_before, space_behind, quote, value) + behind;
    lemma_mime_value(before, space_before, space_behind, quote, value, behind);
    assert forall|i: int| !video_type_at(tag, i) by {
        if video_type_at(tag, i) {
            assert(text::occurs_at(tag, "Mime"@, i));
        }
    }
}

/// A tag that does not hold `video/mp4` behind the name `Mime` and an equals sign names no video.
pub proof fn law_video_type_is_written(tag: Seq<char>)
    requires
        names_video(tag),
    ensures
        exists|i: int, e: int, j: int|
            {
                &&& #[trigger] text::occurs_at(tag, "Mime"@, i)
                &&& i + 4 <= e < j
                &&& all_space(#[trigger] tag.subrange(i + 4, e))
                &&& tag[e] == '='
                &&& #[trigger] text::occurs_at(tag, "video/mp4"@, j)
            },
{
    reveal_strlit("Mime");
    let i = choose|i: int| video_type_at(tag, i);
    let s = tag.skip(i + 4);
    let t = text::trim_start(s);
    lemma_skipped_is_space(s);
    let e = tag.len() - t.len();
    assert(s.take(s.len() - t.len()) =~= tag.subrange(i + 4, e));
    assert(t =~= s.skip(s.len() - t.len()));
    assert(t[0] == tag[e]);
    let u = t.drop_first();
    let v = text::trim_start(u);
    lemma_skipped_is_space(u);
    assert(v =~= tag.skip(tag.len() - v.len()));
    let value = leading_value(v);
    let k = choose|k: int| text::occurs_at(value, "video/mp4"@, k);
    let from = tag.len() - v.len() + (if v.len() > 0 && quote_mark(v[0]) {
        1int
    } else {
        0
    });
    text::law_word_ends_at_white_space(v);
    if v.len() > 0 && quote_mark(v[0]) {
        text::lemma_index_of(v.drop_first(), seq![v[0]]);
    }
    assert(value =~= tag.subrange(from, from + value.len()));
    let n = "video/mp4"@.len() as int;
    assert(value.subrange(k, k + n) =~= tag.subrange(from + k, from + k + n));
    assert(text::occurs_at(tag, "video/mp4"@, from + k));
    assert(text::occurs_at(tag, "Mime"@, i));
    assert(all_space(tag.subrange(i + 4, e)));
}

proof fn lemma_skipped_is_space(s: Seq<char>)
    ensures
        ({
            let t = text::trim_start(s);
            let n = s.len() - t.len();
            &&& 0 <= n
            &&& all_space(s.take(n))
            &&& t == s.skip(n)
        }),
    decreases s.len(),
{
    if s.len() > 0 && text::white_space(s[0]) {
        let rest = s.drop_first();
        lemma_skipped_is_space(rest);
        let n = rest.len() - text::trim_start(rest).len();
        assert(s.skip(n + 1) =~= rest.skip(n));
        assert forall|i: int| 0 <= i < n + 1 implies text::white_space(#[trigger] s.take(n + 1)[i]) by {
            if i > 0 {
                assert(rest.take(n)[i - 1] == s[i]);
            }
        }
    } else {
        assert(s.skip(0) =~= s);
    }
}

/// A quotation mark opens a quote, the same mark closes it, and nothing else does either.
pub proof fn law_quotes_open_and_close(s: Seq<char>, c: char)
    ensures
        open_quote(s, 0) is None,
        open_quote(s.push(c), s.len() as int + 1) == (match open_quote(s, s.len() as int) {
            Some(mark) => if c == mark {
                None
            } else {
                Some(mark)
            },
            None => if c as int == 34 || c as int == 39 {
                Some(c)
            } else {
                None
            },
        }),
{
    lemma_open_quote_of_prefix(s, seq![c], s.len() as int);
    assert(s + seq![c] =~= s.push(c));
}

proof fn lemma_tag_goes_on(body: Seq<char>, i: int, n: int)
    requires
        0 <= i <= n <= body.len(),
        forall|j: int| 0 <= j < n && #[trigger] body[j] == '>' ==> open_quote(body, j) is Some,
    ensures
        tag_end(body, i, open_quote(body, i)) == tag_end(body, n, open_quote(body, n)),
    decreases n - i,
{
    if i < n {
        assert(body[i] == '>' ==> open_quote(body, i) is Some);
        lemma_tag_goes_on(body, i + 1, n);
    }
}

/// A tag ends with the first closing bracket outside quotes.
pub proof fn law_tag_ends_outside_quotes(body: Seq<char>, n: int)
    requires
        0 <= n < body.len(),
        body[n] == '>',
        open_quote(body, n) is None,
        forall|j: int| 0 <= j < n && #[trigger] body[j] == '>' ==> open_quote(body, j) is Some,
    ensures
        tag_len(body) == Some(n + 1),
{
    lemma_tag_goes_on(body, 0, n);
}

/// Where every closing bracket stands in quotes, a tag ends with the first bracket that a slash stands
/// in front of, or else with the first bracket; without a bracket it does not end.
pub proof fn law_tag_with_open_quote_ends(body: Seq<char>)
    requires
        forall|j: int|
            0 <= j < body.len() && #[trigger] body[j] == '>' ==> open_quote(body, j) is Some,
    ensures
        ({
            let slashed = text::index_of(body, seq!['/', '>']);
            let bracket = text::index_of(body, seq!['>']);
            tag_len(body) == (if slashed is Some {
                Some(slashed->0 + 2)
            } else if bracket is Some {
                Some(bracket->0 + 1)
            } else {
                None
            })
        }),
{
    reveal_strlit("/>");
    reveal_strlit(">");
    assert("/>"@ =~= seq!['/', '>']);
    assert(">"@ =~= seq!['>']);
    lemma_tag_goes_on(body, 0, body.len() as int);
}

/// The length and the padding of a video are the numbers in the attributes `Item:Length` and
/// `Item:Padding` of its tag. No padding is a padding of zero; without a length nothing is read.
pub proof fn law_length_and_padding_are_read(attributes: Seq<char>, closed: bool, rest: Seq<char>)
    requires
        whole_attributes(attributes, 0, None),
        names_video(item_tag(attributes, closed)),
    ensures
        ({
            let tag = item_tag(attributes, closed);
            let length = attribute_number(tag, "Item:Length"@);
            let padding = attribute_number(tag, "Item:Padding"@);
            container_video_item(tag + rest) == (if length is None {
                None
            } else if padding is None {
                Some((length->0, 0u64))
            } else {
                Some((length->0, padding->0))
            })
        }),
{
    law_video_item_is_read(attributes, closed, rest);
}

/// A packet without a container item has no video item.
pub proof fn law_no_item_no_video(xmp: Seq<char>)
    requires
        !text::occurs(xmp, "<Container:Item"@),
    ensures
        container_video_item(xmp) is None,
{
    text::lemma_index_of(xmp, "<Container:Item"@);
    if let Some(i) = text::index_of(xmp, "<Container:Item"@) {
        assert(text::occurs_at(xmp, "<Container:Item"@, i));
    }
}

/// A packet of the older kind says how many bytes from its end on a file the video is: the video
/// begins that many bytes before the end, or at the start of a file that is shorter.
pub proof fn law_micro_videos_end_the_file(xmp: Seq<char>, count: u64, file_size: u64)
    requires
        text::occurs(xmp, "MicroVideo=\"1\""@) || text::occurs(xmp, "MicroVideo='1'"@),
        attribute_number(xmp, "MicroVideoOffset"@) == Some(count),
    ensures
        xmp_motion(xmp, file_size) matches Some((start, photo_type)) && {
            &&& count <= file_size ==> start + count == file_size
            &&& count > file_size ==> start == 0
            &&& photo_type == (if text::occurs(xmp, "xiaomi.com"@) {
                "xiaomi"@
            } else {
                "google"@
            })
        },
{
}

/// A packet of the newer kind gives the length of the video and the padding behind it, or else how
/// many bytes the video is; the video begins as many bytes before the end of the file. The vendor
/// that the packet names gives the type. A packet that says neither says nothing.
pub proof fn law_motion_photos_end_the_file(xmp: Seq<char>, file_size: u64)
    requires
        !(text::occurs(xmp, "MicroVideo=\"1\""@) || text::occurs(xmp, "MicroVideo='1'"@))
            || attribute_number(xmp, "MicroVideoOffset"@) is None,
    ensures
        ({
            let marked = text::occurs(xmp, "MotionPhoto=\"1\""@) || text::occurs(
                xmp,
                "MotionPhoto='1'"@,
            );
            let item = container_video_item(xmp);
            let direct = attribute_number(xmp, "MotionPhotoOffset"@);
            let count = if item is Some {
                let (length, padding) = item->0;
                length + padding
            } else {
                direct->0 as int
            };
            let vendor = if text::occurs(xmp, "oplus.com"@) {
                "oppo"@
            } else if text::occurs(xmp, "samsung.com"@) {
                "samsung"@
            } else if text::occurs(xmp, "xiaomi.com"@) {
                "xiaomi"@
            } else {
                "google"@
            };
            &&& !marked || (item is None && direct is None) ==> xmp_motion(xmp, file_size) is None
            &&& marked && (item is Some || direct is Some) ==> (xmp_motion(
                xmp,
                file_size,
            ) matches Some((start, photo_type)) && {
                &&& count <= file_size ==> start + count == file_size
                &&& count > file_size ==> start == 0
                &&& photo_type == vendor
            })
        }),
{
}

/// An offset can be computed unless it is the sum of a length and a padding, of a packet that says
/// nothing else before, and 64 bits do not hold the sum.
pub proof fn law_only_sums_are_out_of_range(xmp: Seq<char>)
    ensures
        ({
            let micro = (text::occurs(xmp, "MicroVideo=\"1\""@) || text::occurs(
                xmp,
                "MicroVideo='1'"@,
            )) && attribute_number(xmp, "MicroVideoOffset"@) is Some;
            let marked = text::occurs(xmp, "MotionPhoto=\"1\""@) || text::occurs(
                xmp,
                "MotionPhoto='1'"@,
            );
            let item = container_video_item(xmp);
            let (length, padding) = item->0;
            xmp_extent_fits(xmp) <==> micro || !marked || item is None || length + padding
                <= 0xFFFF_FFFF_FFFF_FFFF
        }),
{
}

proof fn lemma_quoted_text(xmp: Seq<char>, attr: Seq<char>, quote: char, at: int, value: Seq<char>)
    requires
        text::first_at(xmp, attr + seq!['=', quote], at),
        (value + seq![quote]).is_prefix_of(xmp.skip(at + attr.len() + 2)),
        !value.contains(quote),
    ensures
        quoted_text(xmp, attr, quote) == Some(value),
{
    let opening = attr + seq!['=', quote];
    text::lemma_first_at(xmp, opening, at);
    let after = xmp.skip(at + opening.len());
    let closed = value + seq![quote];
    let n = value.len() as int;
    assert(after.subrange(0, closed.len() as int) == closed);
    assert forall|i: int| 0 <= i <= n implies #[trigger] after[i] == closed[i] by {
        assert(after.subrange(0, closed.len() as int)[i] == after[i]);
    }
    assert(after.take(n) =~= value);
    assert(after[n] == closed[n]);
    assert(after.subrange(n, n + 1) =~= seq![quote]);
    assert forall|j: int| 0 <= j < n implies !text::occurs_at(after, seq![quote], j) by {
        assert(value.contains(value[j]));
        assert(after[j] == closed[j]);
        assert(after.subrange(j, j + 1)[0] == after[j]);
    }
    text::lemma_first_at(after, seq![quote], n);
}

/// What stands between the double quotes of the first attribute of a name decides, where it is a
/// number, with white space around it or without. Otherwise what stands in single quotes does.
pub proof fn law_first_quoted_value_decides(
    xmp: Seq<char>,
    attr: Seq<char>,
    at: int,
    value: Seq<char>,
)
    requires
        text::first_at(xmp, attr + seq!['=', '"'], at),
        (value + seq!['"']).is_prefix_of(xmp.skip(at + attr.len() + 2)),
        !value.contains('"'),
    ensures
        ({
            let number = number::unsigned_value(text::trimmed(value));
            &&& number is Some ==> attribute_number(xmp, attr) == number
            &&& number is None && !text::occurs(xmp, attr + seq!['=', '\'']) ==> attribute_number(
                xmp,
                attr,
            ) is None
        }),
{
    lemma_quoted_text(xmp, attr, '"', at, value);
    if !text::occurs(xmp, attr + seq!['=', '\'']) {
        lemma_no_quoted_text(xmp, attr, '\'');
    }
}

proof fn lemma_no_quoted_text(xmp: Seq<char>, attr: Seq<char>, quote: char)
    requires
        !text::occurs(xmp, attr + seq!['=', quote]),
    ensures
        quoted_text(xmp, attr, quote) is None,
{
    let opening = attr + seq!['=', quote];
    text::lemma_index_of(xmp, opening);
    if let Some(i) = text::index_of(xmp, opening) {
        assert(text::occurs_at(xmp, opening, i));
    }
}

/// Where the attribute has no value in double quotes, the first in single quotes decides; where it has
/// none in either, there is no number.
pub proof fn law_single_quotes_fill_in(
    xmp: Seq<char>,
    attr: Seq<char>,
    at: int,
    value: Seq<char>,
)
    requires
        !text::occurs(xmp, attr + seq!['=', '"']),
    ensures
        text::first_at(xmp, attr + seq!['=', '\''], at) && (value + seq!['\'']).is_prefix_of(
            xmp.skip(at + attr.len() + 2),
        ) && !value.contains('\'') ==> attribute_number(xmp, attr) == number::unsigned_value(
            text::trimmed(value),
        ),
        !text::occurs(xmp, attr + seq!['=', '\'']) ==> attribute_number(xmp, attr) is None,
{
    lemma_no_quoted_text(xmp, attr, '"');
    if text::first_at(xmp, attr + seq!['=', '\''], at) && (value + seq!['\'']).is_prefix_of(
        xmp.skip(at + attr.len() + 2),
    ) && !value.contains('\'') {
        lemma_quoted_text(xmp, attr, '\'', at, value);
    }
    if !text::occurs(xmp, attr + seq!['=', '\'']) {
        lemma_no_quoted_text(xmp, attr, '\'');
    }
}

/// The local name of an attribute follows a colon, white space or a quotation mark, and nothing else.
pub proof fn law_local_names(c: char)
    ensures
        before_name(c) <==> c as int == 58 || c as int == 34 || c as int == 39 || text::white_space(
            c,
        ),
{
}

/// A value without quotes reaches to the next white space; one whose quote is not closed reaches to
/// the end of the tag.
pub proof fn law_unquoted_values(word: Seq<char>, rest: Seq<char>, quote: char, open: Seq<char>)
    requires
        word.len() > 0,
        !quote_mark(word[0]),
        forall|i: int| 0 <= i < word.len() ==> !text::white_space(#[trigger] word[i]),
        rest.len() > 0 ==> text::white_space(rest[0]),
        quote_mark(quote),
        !open.contains(quote),
    ensures
        value_behind(seq!['='] + word + rest) == Some(word),
        value_behind(seq!['='] + seq![quote] + open) == Some(open),
{
    let none = Seq::<char>::empty();
    let s = word + rest;
    assert(seq!['='] + word + rest =~= seq!['='] + s);
    assert((seq!['='] + s).drop_first() =~= s);
    assert(none + (seq!['='] + s) =~= seq!['='] + s);
    lemma_space_is_skipped(none, seq!['='] + s);
    assert(!text::white_space(word[0]));
    assert(none + s =~= s);
    lemma_space_is_skipped(none, s);
    text::law_word_ends_at_white_space(s);
    let n = text::word_len(s) as int;
    if n < word.len() {
        assert(s[n] == word[n]);
    }
    if n > word.len() {
        assert(s[word.len() as int] == rest[0]);
    }
    assert(s.take(n) =~= word);
    let t = seq![quote] + open;
    assert(seq!['='] + seq![quote] + open =~= seq!['='] + t);
    assert((seq!['='] + t).drop_first() =~= t);
    assert(none + (seq!['='] + t) =~= seq!['='] + t);
    lemma_space_is_skipped(none, seq!['='] + t);
    assert(none + t =~= t);
    lemma_space_is_skipped(none, t);
    assert(t.drop_first() =~= open);
    assert forall|j: int| 0 <= j < open.len() + 1 - 1 implies !text::occurs_at(
        open,
        seq![quote],
        j,
    ) by {
        assert(open.contains(open[j]));
        assert(open.subrange(j, j + 1)[0] == open[j]);
    }
    text::lemma_no_occurrence(open, seq![quote]);
}

} // verus!
