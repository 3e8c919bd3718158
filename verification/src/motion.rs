//! Videos embedded in JPEG files.
//!
//! Three places are searched, in this order: the XMP packets in the header of the file, the marker
//! `MotionPhoto_Data` that is followed by an MP4 box, and an `ftyp` box that opens an MP4 file.

use vstd::prelude::*;
use vstd::slice::slice_subrange;
use vstd::utf8::{decode_utf8, encode_utf8, valid_utf8};

use crate::text;
use crate::xmp;
use crate::xmp::{parse_xmp_motion, xmp_extent_in_range};

verus! {

broadcast use vstd::string::group_string_axioms;

/// The failure of `core::str::from_utf8`, of which nothing is used.
#[verifier::external_type_specification]
#[verifier::external_body]
pub struct ExUtf8Error(core::str::Utf8Error);

/// `core::str::from_utf8` succeeds on well-formed UTF-8 and on nothing else, and gives a string of
/// those bytes.
pub assume_specification<'a>[ core::str::from_utf8 ](v: &'a [u8]) -> (r: Result<
    &'a str,
    core::str::Utf8Error,
>)
    ensures
        r is Ok <==> valid_utf8(v@),
        r matches Ok(s) ==> encode_utf8(s@) == v@,
;

/// How many bytes at the start of a file are searched for XMP packets.
pub const HEAD_SCAN: u64 = 65536;

/// How many bytes at the start of a file are searched for an MP4 box.
pub const WIDE_SCAN: u64 = 20 * 1024 * 1024;

/// Whether `pat` stands in `s` from position `i` on.
pub fn bytes_at(s: &[u8], pat: &[u8], i: usize) -> (r: bool)
    ensures
        r == text::occurs_at(s@, pat@, i as int),
{
    if i > s.len() || pat.len() > s.len() - i {
        return false;
    }
    let mut k: usize = 0;
    while k < pat.len()
        invariant
            k <= pat.len(),
            i + pat.len() <= s.len(),
            forall|m: int| 0 <= m < k ==> s@[i + m] == pat@[m],
        decreases pat.len() - k,
    {
        if s[i + k] != pat[k] {
            assert(s@.subrange(i as int, i + pat@.len())[k as int] != pat@[k as int]);
            return false;
        }
        k += 1;
    }
    assert(s@.subrange(i as int, i + pat@.len()) =~= pat@);
    true
}

fn is_bytes(s: &[u8], lit: &str) -> (r: bool)
    ensures
        r == (s@ == encode_utf8(lit@)),
{
    let lit = lit.as_bytes();
    assert(s@.len() == lit@.len() ==> s@.subrange(0, s@.len() as int) == s@);
    s.len() == lit.len() && bytes_at(s, lit, 0)
}

/// A major brand of the ISO base media files that phones write.
pub open spec fn known_mp4_brand(brand: Seq<u8>) -> bool {
    ||| brand == encode_utf8("mp41"@)
    ||| brand == encode_utf8("mp42"@)
    ||| brand == encode_utf8("isom"@)
    ||| brand == encode_utf8("iso2"@)
    ||| brand == encode_utf8("iso4"@)
    ||| brand == encode_utf8("iso5"@)
    ||| brand == encode_utf8("iso6"@)
    ||| brand == encode_utf8("M4V "@)
    ||| brand == encode_utf8("M4A "@)
    ||| brand == encode_utf8("avc1"@)
    ||| brand == encode_utf8("qt  "@)
    ||| brand == encode_utf8("MSNV"@)
    ||| brand == encode_utf8("f4v "@)
    ||| brand == encode_utf8("3gp4"@)
    ||| brand == encode_utf8("3gp5"@)
    ||| brand == encode_utf8("3gp6"@)
    ||| brand == encode_utf8("mmp4"@)
    ||| brand == encode_utf8("hvc1"@)
    ||| brand == encode_utf8("HEVC"@)
    ||| brand == encode_utf8("heic"@)
    ||| brand == encode_utf8("mif1"@)
}

/// Whether `brand` is a known major brand of ISO base media files.
pub fn is_known_mp4_brand(brand: &[u8]) -> (r: bool)
    ensures
        r == known_mp4_brand(brand@),
{
    is_bytes(brand, "mp41") || is_bytes(brand, "mp42") || is_bytes(brand, "isom")
        || is_bytes(brand, "iso2") || is_bytes(brand, "iso4") || is_bytes(brand, "iso5")
        || is_bytes(brand, "iso6") || is_bytes(brand, "M4V ") || is_bytes(brand, "M4A ")
        || is_bytes(brand, "avc1") || is_bytes(brand, "qt  ") || is_bytes(brand, "MSNV")
        || is_bytes(brand, "f4v ") || is_bytes(brand, "3gp4") || is_bytes(brand, "3gp5")
        || is_bytes(brand, "3gp6") || is_bytes(brand, "mmp4") || is_bytes(brand, "hvc1")
        || is_bytes(brand, "HEVC") || is_bytes(brand, "heic") || is_bytes(brand, "mif1")
}

/// The number that two bytes write, most significant byte first.
pub open spec fn be16(s: Seq<u8>, i: int) -> int {
    s[i] * 256 + s[i + 1]
}

/// The number that four bytes write, most significant byte first.
pub open spec fn be32(s: Seq<u8>, i: int) -> int {
    ((s[i] * 256 + s[i + 1]) * 256 + s[i + 2]) * 256 + s[i + 3]
}

/// The bytes that an APP1 segment with an XMP packet begins with.
pub open spec fn xmp_signature() -> Seq<u8> {
    encode_utf8("http://ns.adobe.com/xap/1.0/\0"@)
}

/// The XMP packet in the data of an APP1 segment. A packet that is not UTF-8 counts as empty.
pub open spec fn segment_packet(data: Seq<u8>) -> Option<Seq<char>> {
    if data.len() > xmp_signature().len() && xmp_signature().is_prefix_of(data) {
        let packet = data.skip(xmp_signature().len() as int);
        Some(
            if valid_utf8(packet) {
                decode_utf8(packet)
            } else {
                Seq::empty()
            },
        )
    } else {
        None
    }
}

/// A marker without a segment behind it.
pub open spec fn standalone_marker(marker: u8) -> bool {
    marker == 0xD8 || 0xD0 <= marker <= 0xD7
}

/// The XMP packets in the JPEG segments of `head` from position `pos` on, up to the image data,
/// the end of the image, or the first thing that is no segment.
pub open spec fn packets_from(head: Seq<u8>, pos: int) -> Seq<Seq<char>>
    decreases
            if pos < head.len() {
                head.len() - pos
            } else {
                0
            },
{
    if pos < 0 || pos + 3 >= head.len() || head[pos] != 0xFF {
        seq![]
    } else if head[pos + 1] == 0xD9 || head[pos + 1] == 0xDA {
        seq![]
    } else if standalone_marker(head[pos + 1]) {
        packets_from(head, pos + 2)
    } else if be16(head, pos + 2) < 2 {
        seq![]
    } else {
        let next = pos + 2 + be16(head, pos + 2);
        let end = if next <= head.len() {
            next
        } else {
            head.len() as int
        };
        let rest = packets_from(head, next);
        if head[pos + 1] == 0xE1 && pos + 4 < end {
            match segment_packet(head.subrange(pos + 4, end)) {
                Some(packet) => seq![packet] + rest,
                None => rest,
            }
        } else {
            rest
        }
    }
}

/// What the first packet that says where a video begins says.
pub open spec fn first_motion(packets: Seq<Seq<char>>, file_size: u64) -> Option<
    (u64, Seq<char>),
>
    decreases packets.len(),
{
    if packets.len() == 0 {
        None
    } else {
        match xmp::xmp_motion(packets[0], file_size) {
            Some(found) => Some(found),
            None => first_motion(packets.drop_first(), file_size),
        }
    }
}

/// Of the packets up to the first that says where a video begins, none gives an offset that 64
/// bits do not hold.
pub open spec fn extents_fit(packets: Seq<Seq<char>>, file_size: u64) -> bool
    decreases packets.len(),
{
    packets.len() == 0 || {
        &&& xmp::xmp_extent_fits(packets[0])
        &&& xmp::xmp_motion(packets[0], file_size) is Some || extents_fit(
            packets.drop_first(),
            file_size,
        )
    }
}

/// `head` begins as a JPEG file does.
pub open spec fn jpeg_magic(head: Seq<u8>) -> bool {
    head.len() >= 2 && head[0] == 0xFF && head[1] == 0xD8
}

/// The XMP packets in the header of a JPEG file.
pub open spec fn xmp_packets(head: Seq<u8>) -> Seq<Seq<char>> {
    packets_from(head, 2)
}

fn packet_of<'a>(data: &'a [u8]) -> (r: Option<&'a str>)
    ensures
        r is Some <==> segment_packet(data@) is Some,
        r matches Some(packet) ==> segment_packet(data@) == Some(packet@),
{
    let signature = "http://ns.adobe.com/xap/1.0/\0".as_bytes();
    if data.len() > signature.len() && bytes_at(data, signature, 0) {
        let body = slice_subrange(data, signature.len(), data.len());
        assert(body@ == data@.skip(signature@.len() as int));
        match core::str::from_utf8(body) {
            Ok(packet) => {
                proof {
                    vstd::utf8::encode_utf8_decode_utf8(packet@);
                }
                Some(packet)
            },
            Err(_) => {
                proof {
                    reveal_strlit("");
                    assert(""@ == Seq::<char>::empty());
                }
                Some("")
            },
        }
    } else {
        None
    }
}

/// The XMP packets in the header of a JPEG file.
pub fn find_xmp_packets<'a>(head: &'a [u8]) -> (r: Vec<&'a str>)
    ensures
        text::texts_view(r@) == xmp_packets(head@),
{
    let mut out: Vec<&'a str> = Vec::new();
    let mut pos: usize = 2;
    assert(text::texts_view(out@) == Seq::<Seq<char>>::empty());
    while pos < head.len() && head.len() - pos > 3
        invariant_except_break
            text::texts_view(out@) + packets_from(head@, pos as int) == xmp_packets(head@),
        ensures
            text::texts_view(out@) == xmp_packets(head@),
        decreases head.len() - pos,
    {
        if head[pos] != 0xFF {
            break;
        }
        let marker = head[pos + 1];
        if marker == 0xD9 || marker == 0xDA {
            break;
        }
        if marker == 0xD8 || (0xD0 <= marker && marker <= 0xD7) {
            pos += 2;
            continue;
        }
        let len: usize = head[pos + 2] as usize * 256 + head[pos + 3] as usize;
        if len < 2 {
            break;
        }
        let room: usize = head.len() - pos - 2;
        let end: usize = if len <= room {
            pos + 2 + len
        } else {
            head.len()
        };
        let ghost before = out@;
        if marker == 0xE1 && pos + 4 < end {
            if let Some(packet) = packet_of(slice_subrange(head, pos + 4, end)) {
                out.push(packet);
                assert(text::texts_view(out@) == text::texts_view(before).push(packet@));
            }
        }
        let ghost next = pos + 2 + len;
        assert(text::texts_view(out@) + packets_from(head@, next) == xmp_packets(head@));
        if len > room {
            assert(packets_from(head@, next) == Seq::<Seq<char>>::empty());
            break;
        }
        pos = pos + 2 + len;
    }
    out
}

/// At `i` stands the marker `MotionPhoto_Data`, with an `ftyp` or `mdat` box right behind it.
pub open spec fn marker_hit(buf: Seq<u8>, i: int) -> bool {
    let video = i + encode_utf8("MotionPhoto_Data"@).len();
    &&& text::occurs_at(buf, encode_utf8("MotionPhoto_Data"@), i)
    &&& text::occurs_at(buf, encode_utf8("ftyp"@), video + 4) || text::occurs_at(
        buf,
        encode_utf8("mdat"@),
        video + 4,
    )
}

/// `i` is the first position of a marker with a box behind it.
pub open spec fn first_marker(buf: Seq<u8>, i: int) -> bool {
    marker_hit(buf, i) && forall|j: int| 0 <= j < i ==> !marker_hit(buf, j)
}

/// Where the video behind the first marker begins: right after the marker.
pub open spec fn marked_video(buf: Seq<u8>) -> Option<(u64, Seq<char>)> {
    if exists|i: int| first_marker(buf, i) {
        let i = choose|i: int| first_marker(buf, i);
        Some(((i + encode_utf8("MotionPhoto_Data"@).len()) as u64, "samsung"@))
    } else {
        None
    }
}

/// At `i` begins an `ftyp` box of 12 to 64 bytes with a known major brand, deep enough in the file
/// not to be part of a header or a thumbnail, and not at its very end.
pub open spec fn box_hit(buf: Seq<u8>, i: int) -> bool {
    &&& 32768 <= i
    &&& i + 12 < buf.len()
    &&& 12 <= be32(buf, i) <= 64
    &&& text::occurs_at(buf, encode_utf8("ftyp"@), i + 4)
    &&& known_mp4_brand(buf.subrange(i + 8, i + 12))
}

/// `i` is the first position of such a box.
pub open spec fn first_box(buf: Seq<u8>, i: int) -> bool {
    box_hit(buf, i) && forall|j: int| 0 <= j < i ==> !box_hit(buf, j)
}

/// Where the first such box begins, in a file of at least 64 KiB.
pub open spec fn boxed_video(buf: Seq<u8>, file_size: u64) -> Option<(u64, Seq<char>)> {
    if file_size >= 65536 && exists|i: int| first_box(buf, i) {
        let i = choose|i: int| first_box(buf, i);
        Some((i as u64, "huawei"@))
    } else {
        None
    }
}

proof fn lemma_ascii_len(s: Seq<char>)
    requires
        vstd::utf8::is_ascii_chars(s),
    ensures
        encode_utf8(s).len() == s.len(),
{
    vstd::utf8::is_ascii_chars_encode_utf8(s);
}

proof fn lemma_tag_lengths()
    ensures
        encode_utf8("MotionPhoto_Data"@).len() == 16,
        encode_utf8("ftyp"@).len() == 4,
        encode_utf8("mdat"@).len() == 4,
{
    reveal_strlit("MotionPhoto_Data");
    reveal_strlit("ftyp");
    reveal_strlit("mdat");
    lemma_ascii_len("MotionPhoto_Data"@);
    lemma_ascii_len("ftyp"@);
    lemma_ascii_len("mdat"@);
}

/// Where the video behind the marker `MotionPhoto_Data` begins. `buf` is the start of the file.
pub fn find_samsung_marker(buf: &[u8]) -> (r: Option<(u64, &'static str)>)
    ensures
        xmp::offset_view(r) == marked_video(buf@),
        r matches Some((offset, _)) ==> 16 <= offset && first_marker(buf@, offset - 16),
        r is None ==> forall|i: int| 0 <= i ==> !marker_hit(buf@, i),
{
    let marker = "MotionPhoto_Data".as_bytes();
    let ftyp = "ftyp".as_bytes();
    let mdat = "mdat".as_bytes();
    proof {
        lemma_tag_lengths();
    }
    let mut i: usize = 0;
    while i < buf.len() && buf.len() - i >= 24
        invariant
            i <= buf.len(),
            marker@ == encode_utf8("MotionPhoto_Data"@),
            ftyp@ == encode_utf8("ftyp"@),
            mdat@ == encode_utf8("mdat"@),
            marker@.len() == 16,
            ftyp@.len() == 4,
            mdat@.len() == 4,
            forall|j: int| 0 <= j < i ==> !marker_hit(buf@, j),
        decreases buf.len() - i,
    {
        if bytes_at(buf, marker, i) {
            if bytes_at(buf, ftyp, i + 20) || bytes_at(buf, mdat, i + 20) {
                assert(first_marker(buf@, i as int));
                proof {
                    let k = choose|k: int| first_marker(buf@, k);
                    assert(first_marker(buf@, k));
                    assert(k == i) by {
                        assert(!(k < i)) by {
                            assert(marker_hit(buf@, k));
                        }
                        assert(!(i < k)) by {
                            assert(marker_hit(buf@, i as int));
                        }
                    }
                }
                return Some(((i + 16) as u64, "samsung"));
            }
        }
        i += 1;
    }
    assert forall|j: int| 0 <= j implies !marker_hit(buf@, j) by {
        if j >= i {
            assert(j + 24 > buf@.len());
        }
    }
    assert forall|j: int| !first_marker(buf@, j) by {
        if first_marker(buf@, j) {
            assert(0 <= j);
        }
    }
    None
}

/// Where an `ftyp` box that opens an appended MP4 file begins. `buf` is the start of the file.
pub fn find_ftyp_video_start(buf: &[u8], file_size: u64) -> (r: Option<(u64, &'static str)>)
    ensures
        xmp::offset_view(r) == boxed_video(buf@, file_size),
        r matches Some((offset, _)) ==> first_box(buf@, offset as int),
        r is None ==> file_size < 65536 || forall|i: int| !box_hit(buf@, i),
{
    if file_size < 65536 {
        return None;
    }
    let ftyp = "ftyp".as_bytes();
    let mut i: usize = 32768;
    while i < buf.len() && buf.len() - i > 12
        invariant
            32768 <= i,
            file_size >= 65536,
            ftyp@ == encode_utf8("ftyp"@),
            forall|j: int| 0 <= j < i ==> !box_hit(buf@, j),
        decreases buf.len() - i,
    {
        if bytes_at(buf, ftyp, i + 4) {
            let size: u32 = ((buf[i] as u32 * 256 + buf[i + 1] as u32) * 256 + buf[i + 2] as u32)
                * 256 + buf[i + 3] as u32;
            if 12 <= size && size <= 64 && is_known_mp4_brand(slice_subrange(buf, i + 8, i + 12)) {
                assert(first_box(buf@, i as int));
                proof {
                    let k = choose|k: int| first_box(buf@, k);
                    assert(first_box(buf@, k));
                    assert(k == i) by {
                        assert(!(k < i)) by {
                            assert(box_hit(buf@, k));
                        }
                        assert(!(i < k)) by {
                            assert(box_hit(buf@, i as int));
                        }
                    }
                }
                return Some((i as u64, "huawei"));
            }
        }
        i += 1;
    }
    assert forall|j: int| !box_hit(buf@, j) by {}
    assert forall|j: int| !first_box(buf@, j) by {
        assert(!box_hit(buf@, j));
    }
    None
}

/// What the bytes read so far are to be searched for.
#[derive(Clone, Copy, PartialEq, Eq, Structural, Debug)]
pub enum MotionStage {
    /// Nothing has been read.
    Start,
    /// The start of the file, for XMP packets.
    Head,
    /// The first part of the file, for the marker.
    Marker,
    /// The first part of the file, for an MP4 box.
    Boxes,
}

/// What to do next in the search for an embedded video.
#[derive(Clone, Copy, PartialEq, Eq, Debug)]
pub enum MotionStep {
    /// The video begins at this offset; the photo is of this type.
    Found(u64, &'static str),
    /// There is no video.
    Nothing,
    /// Open the file, read at most this many bytes from its start, and go on in this stage.
    Read(MotionStage, u64),
}

/// A step with the photo type in characters.
pub enum MotionStepView {
    Found(u64, Seq<char>),
    Nothing,
    Read(MotionStage, u64),
}

impl View for MotionStep {
    type V = MotionStepView;

    open spec fn view(&self) -> MotionStepView {
        match *self {
            MotionStep::Found(offset, photo_type) => MotionStepView::Found(offset, photo_type@),
            MotionStep::Nothing => MotionStepView::Nothing,
            MotionStep::Read(stage, count) => MotionStepView::Read(stage, count),
        }
    }
}

/// At most `limit` bytes of a file of `file_size` bytes.
pub open spec fn at_most(file_size: u64, limit: u64) -> u64 {
    if file_size < limit {
        file_size
    } else {
        limit
    }
}

/// The step that ends the search with `found`, or goes on with `otherwise`.
pub open spec fn found_or(
    found: Option<(u64, Seq<char>)>,
    otherwise: MotionStepView,
) -> MotionStepView {
    match found {
        Some((offset, photo_type)) => MotionStepView::Found(offset, photo_type),
        None => otherwise,
    }
}

/// The step that turns to the search for an MP4 box. Small files are not searched for one.
pub open spec fn turn_to_boxes(file_size: u64) -> MotionStepView {
    if file_size < 65536 {
        MotionStepView::Nothing
    } else {
        MotionStepView::Read(MotionStage::Boxes, at_most(file_size, WIDE_SCAN))
    }
}

/// The step that follows when `bytes` have been read for `stage`; `None` where reading failed.
pub open spec fn motion_step(
    file_size: u64,
    stage: MotionStage,
    bytes: Option<Seq<u8>>,
) -> MotionStepView {
    match (stage, bytes) {
        (MotionStage::Start, _) => if file_size < 4 {
            MotionStepView::Nothing
        } else {
            MotionStepView::Read(MotionStage::Head, at_most(file_size, HEAD_SCAN))
        },
        (MotionStage::Head, None) => MotionStepView::Nothing,
        (MotionStage::Head, Some(head)) => if !jpeg_magic(head) {
            MotionStepView::Nothing
        } else {
            found_or(
                first_motion(xmp_packets(head), file_size),
                MotionStepView::Read(MotionStage::Marker, at_most(file_size, WIDE_SCAN)),
            )
        },
        (MotionStage::Marker, None) => turn_to_boxes(file_size),
        (MotionStage::Marker, Some(buf)) => found_or(marked_video(buf), turn_to_boxes(file_size)),
        (MotionStage::Boxes, None) => MotionStepView::Nothing,
        (MotionStage::Boxes, Some(buf)) => found_or(
            boxed_video(buf, file_size),
            MotionStepView::Nothing,
        ),
    }
}

/// No offset that the search for XMP packets comes upon is out of range.
pub open spec fn motion_step_fits(
    file_size: u64,
    stage: MotionStage,
    bytes: Option<Seq<u8>>,
) -> bool {
    (stage, bytes) matches (MotionStage::Head, Some(head)) ==> jpeg_magic(head) ==> extents_fit(
        xmp_packets(head),
        file_size,
    )
}

/// The bytes that have been read, if any.
pub open spec fn bytes_view(bytes: Option<&[u8]>) -> Option<Seq<u8>> {
    match bytes {
        Some(b) => Some(b@),
        None => None,
    }
}

fn motion_of_packets(packets: &Vec<&str>, file_size: u64) -> (r: Option<(u64, &'static str)>)
    requires
        extents_fit(text::texts_view(packets@), file_size),
    ensures
        xmp::offset_view(r) == first_motion(text::texts_view(packets@), file_size),
{
    let mut i: usize = 0;
    let ghost all = text::texts_view(packets@);
    assert(all.skip(0) == all);
    while i < packets.len()
        invariant
            i <= packets.len(),
            all == text::texts_view(packets@),
            extents_fit(all.skip(i as int), file_size),
            first_motion(all, file_size) == first_motion(all.skip(i as int), file_size),
        decreases packets.len() - i,
    {
        assert(all.skip(i as int)[0] == packets@[i as int]@);
        assert(all.skip(i as int).drop_first() == all.skip(i + 1));
        if let Some(found) = parse_xmp_motion(packets[i], file_size) {
            return Some(found);
        }
        i += 1;
    }
    None
}

fn begins_as_jpeg(head: &[u8]) -> (r: bool)
    ensures
        r == jpeg_magic(head@),
{
    head.len() >= 2 && head[0] == 0xFF && head[1] == 0xD8
}

fn packets_in_range(packets: &Vec<&str>, file_size: u64) -> (r: bool)
    ensures
        r == extents_fit(text::texts_view(packets@), file_size),
{
    let ghost all = text::texts_view(packets@);
    assert(all.skip(0) == all);
    let mut i: usize = 0;
    while i < packets.len()
        invariant
            i <= packets.len(),
            all == text::texts_view(packets@),
            extents_fit(all, file_size) == extents_fit(all.skip(i as int), file_size),
        ensures
            extents_fit(all, file_size),
        decreases packets.len() - i,
    {
        assert(all.skip(i as int)[0] == packets@[i as int]@);
        assert(all.skip(i as int).drop_first() == all.skip(i + 1));
        if !xmp_extent_in_range(packets[i]) {
            return false;
        }
        if parse_xmp_motion(packets[i], file_size).is_some() {
            break;
        }
        i += 1;
    }
    true
}

/// Whether `jpeg_motion_photo_offset` can take this step: no offset that it comes upon is out of
/// range.
pub fn motion_step_in_range(file_size: u64, stage: MotionStage, bytes: Option<&[u8]>) -> (r: bool)
    ensures
        r == motion_step_fits(file_size, stage, bytes_view(bytes)),
{
    match (stage, bytes) {
        (MotionStage::Head, Some(head)) => !begins_as_jpeg(head) || packets_in_range(
            &find_xmp_packets(head),
            file_size,
        ),
        _ => true,
    }
}

fn step_of(found: Option<(u64, &'static str)>, otherwise: MotionStep) -> (r: MotionStep)
    ensures
        r@ == found_or(xmp::offset_view(found), otherwise@),
{
    match found {
        Some((offset, photo_type)) => MotionStep::Found(offset, photo_type),
        None => otherwise,
    }
}

fn go_to_boxes(file_size: u64) -> (r: MotionStep)
    ensures
        r@ == turn_to_boxes(file_size),
{
    if file_size < 65536 {
        MotionStep::Nothing
    } else {
        MotionStep::Read(
            MotionStage::Boxes,
            if file_size < WIDE_SCAN {
                file_size
            } else {
                WIDE_SCAN
            },
        )
    }
}

/// One step of the search for a video in a JPEG file of `file_size` bytes: what follows when
/// `bytes` have been read for `stage`, or reading them failed. The search begins in the stage
/// `Start`, for which nothing is read.
pub fn jpeg_motion_photo_offset(
    file_size: u64,
    stage: MotionStage,
    bytes: Option<&[u8]>,
) -> (r: MotionStep)
    requires
        motion_step_fits(file_size, stage, bytes_view(bytes)),
    ensures
        r@ == motion_step(file_size, stage, bytes_view(bytes)),
{
    match stage {
        MotionStage::Start => {
            if file_size < 4 {
                MotionStep::Nothing
            } else {
                MotionStep::Read(
                    MotionStage::Head,
                    if file_size < HEAD_SCAN {
                        file_size
                    } else {
                        HEAD_SCAN
                    },
                )
            }
        },
        MotionStage::Head => match bytes {
            None => MotionStep::Nothing,
            Some(head) => {
                if !begins_as_jpeg(head) {
                    return MotionStep::Nothing;
                }
                let packets = find_xmp_packets(head);
                step_of(
                    motion_of_packets(&packets, file_size),
                    MotionStep::Read(
                        MotionStage::Marker,
                        if file_size < WIDE_SCAN {
                            file_size
                        } else {
                            WIDE_SCAN
                        },
                    ),
                )
            },
        },
        MotionStage::Marker => match bytes {
            None => go_to_boxes(file_size),
            Some(buf) => step_of(find_samsung_marker(buf), go_to_boxes(file_size)),
        },
        MotionStage::Boxes => match bytes {
            None => MotionStep::Nothing,
            Some(buf) => step_of(find_ftyp_video_start(buf, file_size), MotionStep::Nothing),
        },
    }
}

/// Where the video begins in a JPEG file of `file_size` bytes, and the type of the photo, given
/// what reading the file gave for the three places that are searched.
pub open spec fn motion_offset(
    file_size: u64,
    head: Option<Seq<u8>>,
    marked: Option<Seq<u8>>,
    boxed: Option<Seq<u8>>,
) -> Option<(u64, Seq<char>)> {
    if file_size < 4 || head is None || !jpeg_magic(head->0) {
        None
    } else if first_motion(xmp_packets(head->0), file_size) is Some {
        first_motion(xmp_packets(head->0), file_size)
    } else if marked is Some && marked_video(marked->0) is Some {
        marked_video(marked->0)
    } else if boxed is Some {
        boxed_video(boxed->0, file_size)
    } else {
        None
    }
}

/// What was read for a stage.
pub open spec fn read_for(
    stage: MotionStage,
    head: Option<Seq<u8>>,
    marked: Option<Seq<u8>>,
    boxed: Option<Seq<u8>>,
) -> Option<Seq<u8>> {
    match stage {
        MotionStage::Start => None,
        MotionStage::Head => head,
        MotionStage::Marker => marked,
        MotionStage::Boxes => boxed,
    }
}

/// The outcome of the search from `stage` on, taking at most `steps` steps.
pub open spec fn motion_run(
    file_size: u64,
    stage: MotionStage,
    head: Option<Seq<u8>>,
    marked: Option<Seq<u8>>,
    boxed: Option<Seq<u8>>,
    steps: nat,
) -> MotionStepView
    decreases steps,
{
    let step = motion_step(file_size, stage, read_for(stage, head, marked, boxed));
    match step {
        MotionStepView::Read(next, _) => if steps == 0 {
            step
        } else {
            motion_run(file_size, next, head, marked, boxed, (steps - 1) as nat)
        },
        _ => step,
    }
}

/// The search ends after at most four steps, and finds the video where the XMP packets say, or
/// else behind the marker, or else at the first MP4 box.
pub proof fn law_search_order(
    file_size: u64,
    head: Option<Seq<u8>>,
    marked: Option<Seq<u8>>,
    boxed: Option<Seq<u8>>,
)
    ensures
        motion_run(file_size, MotionStage::Start, head, marked, boxed, 3) == found_or(
            motion_offset(file_size, head, marked, boxed),
            MotionStepView::Nothing,
        ),
{
    reveal_with_fuel(motion_run, 4);
}

proof fn lemma_first_motion_in_file(packets: Seq<Seq<char>>, file_size: u64)
    ensures
        first_motion(packets, file_size) matches Some((offset, _)) ==> offset <= file_size,
    decreases packets.len(),
{
    if packets.len() > 0 {
        lemma_first_motion_in_file(packets.drop_first(), file_size);
    }
}

/// A video that the search finds begins inside the file or at its end.
pub proof fn law_offset_in_file(
    file_size: u64,
    head: Option<Seq<u8>>,
    marked: Option<Seq<u8>>,
    boxed: Option<Seq<u8>>,
)
    requires
        marked matches Some(buf) ==> buf.len() <= file_size,
        boxed matches Some(buf) ==> buf.len() <= file_size,
    ensures
        motion_offset(file_size, head, marked, boxed) matches Some((offset, _)) ==> offset
            <= file_size,
{
    lemma_tag_lengths();
    if head is Some {
        lemma_first_motion_in_file(xmp_packets(head->0), file_size);
    }
    if marked is Some && exists|i: int| first_marker(marked->0, i) {
        let i = choose|i: int| first_marker(marked->0, i);
        assert(marker_hit(marked->0, i));
    }
    if boxed is Some && exists|i: int| first_box(boxed->0, i) {
        let i = choose|i: int| first_box(boxed->0, i);
        assert(box_hit(boxed->0, i));
    }
}

/// What the marker search finds is an MP4 box right behind the marker, inside the bytes searched.
pub proof fn law_marked_video_is_a_box(buf: Seq<u8>)
    requires
        buf.len() <= u64::MAX,
    ensures
        marked_video(buf) matches Some((offset, _)) ==> {
            &&& text::occurs_at(buf, encode_utf8("MotionPhoto_Data"@), offset - 16)
            &&& text::occurs_at(buf, encode_utf8("ftyp"@), offset + 4) || text::occurs_at(
                buf,
                encode_utf8("mdat"@),
                offset + 4,
            )
        },
{
    lemma_tag_lengths();
    if exists|i: int| first_marker(buf, i) {
        let i = choose|i: int| first_marker(buf, i);
        assert(marker_hit(buf, i));
    }
}

/// Two bytes give back the number that was written to them, most significant byte first, wherever
/// they stand.
pub proof fn law_two_bytes_read_back(before: Seq<u8>, n: int, rest: Seq<u8>)
    requires
        0 <= n < 65536,
    ensures
        be16(before + seq![(n / 256) as u8, (n % 256) as u8] + rest, before.len() as int) == n,
{
    let s = before + seq![(n / 256) as u8, (n % 256) as u8] + rest;
    let i = before.len() as int;
    assert(s[i] == (n / 256) as u8 && s[i + 1] == (n % 256) as u8);
}

/// Four bytes give back the number that was written to them, most significant byte first, wherever
/// they stand.
pub proof fn law_four_bytes_read_back(before: Seq<u8>, n: int, rest: Seq<u8>)
    requires
        0 <= n < 4294967296,
    ensures
        be32(
            before + seq![
                (n / 16777216) as u8,
                (n / 65536 % 256) as u8,
                (n / 256 % 256) as u8,
                (n % 256) as u8,
            ] + rest,
            before.len() as int,
        ) == n,
{
    let bytes = seq![
        (n / 16777216) as u8,
        (n / 65536 % 256) as u8,
        (n / 256 % 256) as u8,
        (n % 256) as u8,
    ];
    let s = before + bytes + rest;
    let i = before.len() as int;
    assert(s[i] == bytes[0] && s[i + 1] == bytes[1] && s[i + 2] == bytes[2] && s[i + 3] == bytes[3]);
}

/// A segment of a JPEG file: a marker, the number of bytes that follow the marker, and the data.
pub open spec fn segment(marker: u8, data: Seq<u8>) -> Seq<u8> {
    let len = data.len() + 2;
    seq![0xFFu8, marker, (len / 256) as u8, (len % 256) as u8] + data
}

/// The two bytes that a JPEG file begins with, and what follows.
pub open spec fn jpeg(rest: Seq<u8>) -> Seq<u8> {
    seq![0xFFu8, 0xD8u8] + rest
}

proof fn lemma_packets_behind(a: Seq<u8>, i: int, b: Seq<u8>, j: int)
    requires
        0 <= i <= a.len(),
        0 <= j <= b.len(),
        a.skip(i) == b.skip(j),
    ensures
        packets_from(a, i) == packets_from(b, j),
    decreases a.len() - i,
{
    reveal_with_fuel(packets_from, 2);
    assert(a.len() - i == a.skip(i).len() == b.skip(j).len() == b.len() - j);
    if i + 3 < a.len() {
        assert(a.skip(i)[0] == a[i] && b.skip(j)[0] == b[j]);
        assert(a.skip(i)[1] == a[i + 1] && b.skip(j)[1] == b[j + 1]);
        assert(a.skip(i)[2] == a[i + 2] && b.skip(j)[2] == b[j + 2]);
        assert(a.skip(i)[3] == a[i + 3] && b.skip(j)[3] == b[j + 3]);
        let step: int = if standalone_marker(a[i + 1]) {
            2
        } else {
            2 + be16(a, i + 2)
        };
        assert(be16(a, i + 2) == be16(b, j + 2));
        if step > 0 && i + step <= a.len() {
            assert(a.skip(i).skip(step) =~= a.skip(i + step));
            assert(b.skip(j).skip(step) =~= b.skip(j + step));
            lemma_packets_behind(a, i + step, b, j + step);
            if step > 4 {
                assert(a.skip(i).subrange(4, step) =~= a.subrange(i + 4, i + step));
                assert(b.skip(j).subrange(4, step) =~= b.subrange(j + 4, j + step));
            }
        } else if a.len() - i > 4 {
            let n = a.len() - i;
            assert(a.skip(i).subrange(4, n) =~= a.subrange(i + 4, a.len() as int));
            assert(b.skip(j).subrange(4, n) =~= b.subrange(j + 4, b.len() as int));
        }
    }
}

proof fn lemma_segment(marker: u8, data: Seq<u8>, rest: Seq<u8>)
    requires
        !standalone_marker(marker),
        marker != 0xD9,
        marker != 0xDA,
        data.len() <= 65533,
    ensures
        xmp_packets(jpeg(segment(marker, data) + rest)) == (if marker == 0xE1 && data.len() > 0
            && segment_packet(data) is Some {
            seq![segment_packet(data)->0]
        } else {
            seq![]
        }) + xmp_packets(jpeg(rest)),
{
    let head = jpeg(segment(marker, data) + rest);
    let len = data.len() + 2;
    let next = 4 + len as int;
    assert(head[2] == 0xFF && head[3] == marker && head[4] == (len / 256) as u8 && head[5] == (len
        % 256) as u8);
    assert(be16(head, 4) == len);
    assert(head.subrange(6, next) =~= data);
    assert(head.skip(next) =~= jpeg(rest).skip(2));
    lemma_packets_behind(head, next, jpeg(rest), 2);
    assert(Seq::<Seq<char>>::empty() + xmp_packets(jpeg(rest)) =~= xmp_packets(jpeg(rest)));
}

/// A segment without an XMP packet does not change which packets are found behind it, whatever its
/// length: one with another marker, or one whose data does not begin with the name of XMP.
pub proof fn law_other_segments_are_passed_over(marker: u8, data: Seq<u8>, rest: Seq<u8>)
    requires
        !(0xD0 <= marker <= 0xDA),
        data.len() <= 65533,
        marker != 0xE1 || !encode_utf8("http://ns.adobe.com/xap/1.0/\0"@).is_prefix_of(data),
    ensures
        xmp_packets(jpeg(segment(marker, data) + rest)) == xmp_packets(jpeg(rest)),
{
    lemma_segment(marker, data, rest);
    assert(Seq::<Seq<char>>::empty() + xmp_packets(jpeg(rest)) =~= xmp_packets(jpeg(rest)));
}

proof fn lemma_signed_packet(packet: Seq<u8>)
    requires
        packet.len() > 0,
    ensures
        segment_packet(encode_utf8("http://ns.adobe.com/xap/1.0/\0"@) + packet) == Some(
            if valid_utf8(packet) {
                decode_utf8(packet)
            } else {
                Seq::empty()
            },
        ),
{
    let name = encode_utf8("http://ns.adobe.com/xap/1.0/\0"@);
    let data = name + packet;
    assert(data.subrange(0, name.len() as int) =~= name);
    assert(data.skip(name.len() as int) =~= packet);
}

/// A segment with the marker of application data, the name of XMP and a packet adds the packet, as
/// text, in front of those behind it. A packet that is not UTF-8 adds an empty text.
pub proof fn law_packet_is_found(packet: Seq<char>, rest: Seq<u8>)
    requires
        packet.len() > 0,
        encode_utf8("http://ns.adobe.com/xap/1.0/\0"@).len() + encode_utf8(packet).len() <= 65533,
    ensures
        xmp_packets(
            jpeg(
                segment(
                    0xE1,
                    encode_utf8("http://ns.adobe.com/xap/1.0/\0"@) + encode_utf8(packet),
                ) + rest,
            ),
        ) == seq![packet] + xmp_packets(jpeg(rest)),
{
    let bytes = encode_utf8(packet);
    lemma_text_has_bytes(packet);
    vstd::utf8::encode_utf8_valid_utf8(packet);
    vstd::utf8::encode_utf8_decode_utf8(packet);
    lemma_signed_packet(bytes);
    lemma_segment(0xE1, encode_utf8("http://ns.adobe.com/xap/1.0/\0"@) + bytes, rest);
}

proof fn lemma_text_has_bytes(text: Seq<char>)
    requires
        text.len() > 0,
    ensures
        encode_utf8(text).len() > 0,
{
    vstd::utf8::encode_utf8_decode_utf8(text);
    if encode_utf8(text).len() == 0 {
        assert(encode_utf8(text) =~= Seq::<u8>::empty());
        assert(decode_utf8(Seq::<u8>::empty()).len() == 0);
    }
}

/// A packet whose segment reaches beyond the bytes at hand is found as far as they go.
pub proof fn law_cut_packet_is_found(packet: Seq<char>, len: int)
    requires
        packet.len() > 0,
        len < 65536,
        2 + encode_utf8("http://ns.adobe.com/xap/1.0/\0"@).len() + encode_utf8(packet).len() <= len,
    ensures
        xmp_packets(
            jpeg(
                seq![0xFFu8, 0xE1u8, (len / 256) as u8, (len % 256) as u8] + (encode_utf8(
                    "http://ns.adobe.com/xap/1.0/\0"@,
                ) + encode_utf8(packet)),
            ),
        ) == seq![packet],
{
    let data = encode_utf8("http://ns.adobe.com/xap/1.0/\0"@) + encode_utf8(packet);
    let head = jpeg(seq![0xFFu8, 0xE1u8, (len / 256) as u8, (len % 256) as u8] + data);
    lemma_text_has_bytes(packet);
    vstd::utf8::encode_utf8_valid_utf8(packet);
    vstd::utf8::encode_utf8_decode_utf8(packet);
    lemma_signed_packet(encode_utf8(packet));
    assert(head[2] == 0xFF && head[3] == 0xE1 && head[4] == (len / 256) as u8 && head[5] == (len
        % 256) as u8);
    assert(be16(head, 4) == len);
    assert(head.subrange(6, head.len() as int) =~= data);
    assert(packets_from(head, 4 + len) =~= Seq::<Seq<char>>::empty());
    assert(seq![packet] + Seq::<Seq<char>>::empty() =~= seq![packet]);
}

/// The search for packets passes over markers that stand alone, and ends at the image data, at the
/// end of the image, and where no marker stands.
pub proof fn law_packets_end_at_the_image(marker: u8, byte: u8, rest: Seq<u8>)
    ensures
        0xD0 <= marker <= 0xD8 ==> xmp_packets(jpeg(seq![0xFFu8, marker] + rest)) == xmp_packets(
            jpeg(rest),
        ),
        marker == 0xD9 || marker == 0xDA ==> xmp_packets(jpeg(seq![0xFFu8, marker] + rest)).len()
            == 0,
        byte != 0xFF ==> xmp_packets(jpeg(seq![byte] + rest)).len() == 0,
{
    let head = jpeg(seq![0xFFu8, marker] + rest);
    assert(head[2] == 0xFF && head[3] == marker);
    assert(head.skip(4) =~= jpeg(rest).skip(2));
    lemma_packets_behind(head, 4, jpeg(rest), 2);
    if rest.len() < 2 {
        assert(xmp_packets(head) =~= Seq::<Seq<char>>::empty());
        assert(xmp_packets(jpeg(rest)) =~= Seq::<Seq<char>>::empty());
    }
    assert(jpeg(seq![byte] + rest)[2] == byte);
}

/// The first packet that says where a video begins decides; packets in front of it that do not say
/// so change nothing.
pub proof fn law_first_packet_decides(packet: Seq<char>, rest: Seq<Seq<char>>, file_size: u64)
    ensures
        first_motion(seq![], file_size) is None,
        first_motion(seq![packet] + rest, file_size) == (if xmp::xmp_motion(
            packet,
            file_size,
        ) is Some {
            xmp::xmp_motion(packet, file_size)
        } else {
            first_motion(rest, file_size)
        }),
{
    let all = seq![packet] + rest;
    assert(all[0] == packet);
    assert(all.drop_first() =~= rest);
}

proof fn lemma_least_marker(buf: Seq<u8>, i: int)
    requires
        marker_hit(buf, i),
    ensures
        exists|k: int| k <= i && first_marker(buf, k),
    decreases i,
{
    if exists|j: int| 0 <= j < i && marker_hit(buf, j) {
        let j = choose|j: int| 0 <= j < i && marker_hit(buf, j);
        lemma_least_marker(buf, j);
    } else {
        assert(first_marker(buf, i));
    }
}

/// Wherever the marker stands with an `ftyp` or `mdat` box behind it, the search finds a video, right
/// behind that marker or behind one before it.
pub proof fn law_marked_video_is_found(buf: Seq<u8>, i: int)
    requires
        buf.len() <= u64::MAX,
        text::occurs_at(buf, encode_utf8("MotionPhoto_Data"@), i),
        text::occurs_at(buf, encode_utf8("ftyp"@), i + 20) || text::occurs_at(
            buf,
            encode_utf8("mdat"@),
            i + 20,
        ),
    ensures
        marked_video(buf) matches Some((offset, photo_type)) && offset <= i + 16 && photo_type
            == "samsung"@,
{
    lemma_tag_lengths();
    assert(marker_hit(buf, i));
    lemma_least_marker(buf, i);
    let first = choose|k: int| k <= i && first_marker(buf, k);
    let k = choose|k: int| first_marker(buf, k);
    assert(first_marker(buf, k));
    assert(k <= first) by {
        if first < k {
            assert(!marker_hit(buf, first));
        }
    }
}

/// Without the marker no video is found behind it.
pub proof fn law_no_marker_no_video(buf: Seq<u8>)
    requires
        !text::occurs(buf, encode_utf8("MotionPhoto_Data"@)),
    ensures
        marked_video(buf) is None,
{
    if exists|i: int| first_marker(buf, i) {
        let i = choose|i: int| first_marker(buf, i);
        assert(text::occurs_at(buf, encode_utf8("MotionPhoto_Data"@), i));
    }
}

proof fn lemma_least_box(buf: Seq<u8>, i: int)
    requires
        box_hit(buf, i),
    ensures
        exists|k: int| k <= i && first_box(buf, k),
    decreases i,
{
    if exists|j: int| 0 <= j < i && box_hit(buf, j) {
        let j = choose|j: int| 0 <= j < i && box_hit(buf, j);
        lemma_least_box(buf, j);
    } else {
        assert(first_box(buf, i));
    }
}

/// The known brands are these twenty-one, and no others.
pub proof fn law_known_brands(brand: Seq<u8>)
    ensures
        known_mp4_brand(brand) <==> exists|name: Seq<char>|
            brand == #[trigger] encode_utf8(name) && (
                name == "mp41"@ || name == "mp42"@ || name == "isom"@ || name == "iso2"@ ||
                name == "iso4"@ || name == "iso5"@ || name == "iso6"@ || name == "M4V "@ ||
                name == "M4A "@ || name == "avc1"@ || name == "qt  "@ || name == "MSNV"@ ||
                name == "f4v "@ || name == "3gp4"@ || name == "3gp5"@ || name == "3gp6"@ ||
                name == "mmp4"@ || name == "hvc1"@ || name == "HEVC"@ || name == "heic"@ ||
                name == "mif1"@),
{
}

/// What the search for boxes finds is the start of an `ftyp` box of 12 to 64 bytes with a known
/// brand, at least 32 KiB behind the start of a file of at least 64 KiB, and every such box is found
/// unless one before it is.
pub proof fn law_boxed_video_is_found(buf: Seq<u8>, file_size: u64, i: int)
    requires
        buf.len() <= u64::MAX,
    ensures
        ({
            let is_box = |at: int|
                {
                    &&& 32768 <= at
                    &&& at + 12 < buf.len()
                    &&& 12 <= be32(buf, at) <= 64
                    &&& text::occurs_at(buf, encode_utf8("ftyp"@), at + 4)
                    &&& known_mp4_brand(buf.subrange(at + 8, at + 12))
                };
            &&& boxed_video(buf, file_size) matches Some((offset, photo_type)) ==> is_box(
                offset as int,
            ) && file_size >= 65536 && photo_type == "huawei"@
            &&& file_size >= 65536 && is_box(i) ==> boxed_video(buf, file_size) is Some
            &&& boxed_video(buf, file_size) matches Some((offset, _)) ==> is_box(i) ==> offset <= i
        }),
{
    if exists|k: int| first_box(buf, k) {
        let k = choose|k: int| first_box(buf, k);
        assert(box_hit(buf, k));
        if box_hit(buf, i) && i < k {
            assert(!box_hit(buf, i));
        }
    }
    if box_hit(buf, i) {
        lemma_least_box(buf, i);
    }
}

/// The start of a file is read first, up to 64 KiB, and only a JPEG file is searched further: for the
/// marker and then, in a file of at least 64 KiB, for boxes, both in up to 20 MiB. What is found ends
/// the search; a failure to read ends it too, but for the marker.
pub proof fn law_search_steps(file_size: u64, bytes: Seq<u8>)
    ensures
        ({
            let step = |stage: MotionStage, read: Option<Seq<u8>>|
                motion_step(file_size, stage, read);
            let first = (if file_size < 65536 {
                file_size as int
            } else {
                65536
            }) as u64;
            let wide = (if file_size < 20971520 {
                file_size as int
            } else {
                20971520
            }) as u64;
            let boxes = if file_size < 65536 {
                MotionStepView::Nothing
            } else {
                MotionStepView::Read(MotionStage::Boxes, wide)
            };
            let jpeg = bytes.len() >= 2 && bytes[0] == 255 && bytes[1] == 216;
            let told = first_motion(xmp_packets(bytes), file_size);
            let marked = marked_video(bytes);
            let boxed = boxed_video(bytes, file_size);
            &&& step(MotionStage::Start, None) == (if file_size <= 3 {
                MotionStepView::Nothing
            } else {
                MotionStepView::Read(MotionStage::Head, first)
            })
            &&& step(MotionStage::Head, None) == MotionStepView::Nothing
            &&& !jpeg ==> step(MotionStage::Head, Some(bytes)) == MotionStepView::Nothing
            &&& jpeg && told is None ==> step(MotionStage::Head, Some(bytes))
                == MotionStepView::Read(MotionStage::Marker, wide)
            &&& jpeg && told is Some ==> step(MotionStage::Head, Some(bytes)) == ({
                let (offset, photo_type) = told->0;
                MotionStepView::Found(offset, photo_type)
            })
            &&& step(MotionStage::Marker, None) == boxes
            &&& marked is None ==> step(MotionStage::Marker, Some(bytes)) == boxes
            &&& marked is Some ==> step(MotionStage::Marker, Some(bytes)) == ({
                let (offset, photo_type) = marked->0;
                MotionStepView::Found(offset, photo_type)
            })
            &&& step(MotionStage::Boxes, None) == MotionStepView::Nothing
            &&& boxed is None ==> step(MotionStage::Boxes, Some(bytes)) == MotionStepView::Nothing
            &&& boxed is Some ==> step(MotionStage::Boxes, Some(bytes)) == ({
                let (offset, photo_type) = boxed->0;
                MotionStepView::Found(offset, photo_type)
            })
        }),
{
}

/// Every step can be taken but the search of a JPEG file that comes upon a packet whose offset is out
/// of range before one that says where the video begins.
pub proof fn law_what_can_be_searched(
    file_size: u64,
    stage: MotionStage,
    head: Seq<u8>,
    packet: Seq<char>,
    rest: Seq<Seq<char>>,
)
    ensures
        motion_step_fits(file_size, stage, None),
        stage != MotionStage::Head ==> motion_step_fits(file_size, stage, Some(head)),
        !(head.len() >= 2 && head[0] == 255 && head[1] == 216) ==> motion_step_fits(
            file_size,
            stage,
            Some(head),
        ),
        head.len() >= 2 && head[0] == 255 && head[1] == 216 ==> (motion_step_fits(
            file_size,
            MotionStage::Head,
            Some(head),
        ) <==> extents_fit(xmp_packets(head), file_size)),
        extents_fit(seq![], file_size),
        extents_fit(seq![packet] + rest, file_size) <==> xmp::xmp_extent_fits(packet) && (
        xmp::xmp_motion(packet, file_size) is Some || extents_fit(rest, file_size)),
{
    let all = seq![packet] + rest;
    assert(all[0] == packet);
    assert(all.drop_first() =~= rest);
}

} // verus!
