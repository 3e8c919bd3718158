//! What `ffprobe` tells of an image and its video.

use vstd::prelude::*;

use crate::json;
use crate::json::{json_member, parse_document};
use crate::text;
use crate::text::chars_of;
use crate::tools;
use crate::tools::{ffprobe_args, ffprobe_bin, Command};

verus! {

broadcast use vstd::string::group_string_axioms;

/// What is told of an image and its video. The duration is in seconds, as the bits of a 64-bit
/// floating-point number.
#[derive(PartialEq, Eq, Debug)]
pub struct MediaInfo {
    pub vid_width: Option<u32>,
    pub vid_height: Option<u32>,
    pub img_width: Option<u32>,
    pub img_height: Option<u32>,
    pub duration_bits: Option<u64>,
    pub created_at: Option<String>,
    pub make: Option<String>,
    pub model: Option<String>,
}

/// `MediaInfo` with its texts in characters.
pub struct MediaInfoView {
    pub vid_width: Option<u32>,
    pub vid_height: Option<u32>,
    pub img_width: Option<u32>,
    pub img_height: Option<u32>,
    pub duration_bits: Option<u64>,
    pub created_at: Option<Seq<char>>,
    pub make: Option<Seq<char>>,
    pub model: Option<Seq<char>>,
}

impl View for MediaInfo {
    type V = MediaInfoView;

    open spec fn view(&self) -> MediaInfoView {
        MediaInfoView {
            vid_width: self.vid_width,
            vid_height: self.vid_height,
            img_width: self.img_width,
            img_height: self.img_height,
            duration_bits: self.duration_bits,
            created_at: text::option_view(self.created_at),
            make: text::option_view(self.make),
            model: text::option_view(self.model),
        }
    }
}

impl Default for MediaInfo {
    fn default() -> (r: Self)
        ensures
            r@ == nothing_known(),
    {
        MediaInfo {
            vid_width: None,
            vid_height: None,
            img_width: None,
            img_height: None,
            duration_bits: None,
            created_at: None,
            make: None,
            model: None,
        }
    }
}

/// What is told where nothing is known.
pub open spec fn nothing_known() -> MediaInfoView {
    MediaInfoView {
        vid_width: None,
        vid_height: None,
        img_width: None,
        img_height: None,
        duration_bits: None,
        created_at: None,
        make: None,
        model: None,
    }
}

/// What kind of file a description is of.
#[derive(Clone, Copy, PartialEq, Eq, Structural, Debug)]
pub enum MediaKind {
    Video,
    Image,
}

/// What is told of one file: the size of its first video stream, the duration of that stream and of
/// the whole, as they are written, and when and with what it was taken.
#[derive(PartialEq, Eq, Debug)]
pub struct Description {
    pub width: Option<u32>,
    pub height: Option<u32>,
    pub stream_duration: Option<String>,
    pub format_duration: Option<String>,
    pub created_at: Option<String>,
    pub make: Option<String>,
    pub model: Option<String>,
}

/// `Description` with its texts in characters.
pub struct DescriptionView {
    pub width: Option<u32>,
    pub height: Option<u32>,
    pub stream_duration: Option<Seq<char>>,
    pub format_duration: Option<Seq<char>>,
    pub created_at: Option<Seq<char>>,
    pub make: Option<Seq<char>>,
    pub model: Option<Seq<char>>,
}

impl View for Description {
    type V = DescriptionView;

    open spec fn view(&self) -> DescriptionView {
        DescriptionView {
            width: self.width,
            height: self.height,
            stream_duration: text::option_view(self.stream_duration),
            format_duration: text::option_view(self.format_duration),
            created_at: text::option_view(self.created_at),
            make: text::option_view(self.make),
            model: text::option_view(self.model),
        }
    }
}

/// The command that describes the file at `path`; none where there is no path.
pub fn probe_command(path: &str, system_exists: bool) -> (r: Option<Command>)
    ensures
        r is Some <==> path@.len() > 0,
        r matches Some(command) ==> {
            &&& system_exists ==> command.program@ == "/usr/bin/ffprobe"@
            &&& !system_exists ==> command.program@ == "ffprobe"@
            &&& text::strings_view(command.args@) == tools::ffprobe_arguments(path@)
        },
{
    if path.is_empty() {
        None
    } else {
        Some(Command { program: ffprobe_bin(system_exists), args: ffprobe_args(path) })
    }
}

/// The first of the keys under which `tags` holds a string gives that string.
pub open spec fn first_text(tags: Option<serde_json::Value>, keys: Seq<Seq<char>>) -> Option<
    Seq<char>,
>
    decreases keys.len(),
{
    if keys.len() == 0 {
        None
    } else {
        match json::text_member(tags, keys[0]) {
            Some(text) => Some(text),
            None => first_text(tags, keys.drop_first()),
        }
    }
}

proof fn lemma_no_text_in_null(value: serde_json::Value, keys: Seq<Seq<char>>)
    requires
        json::json_null(value),
    ensures
        first_text(Some(value), keys) is None,
        first_text(None, keys) is None,
    decreases keys.len(),
{
    if keys.len() > 0 {
        lemma_no_text_in_null(value, keys.drop_first());
    }
}

/// The first of the keys under which `tags` holds a string gives that string.
pub fn first_tag(tags: &serde_json::Value, keys: &[&str]) -> (r: Option<String>)
    ensures
        text::option_view(r) == first_text(Some(*tags), text::texts_view(keys@)),
{
    let mut i: usize = 0;
    let ghost all = text::texts_view(keys@);
    assert(all.skip(0) == all);
    while i < keys.len()
        invariant
            i <= keys.len(),
            all == text::texts_view(keys@),
            first_text(Some(*tags), all) == first_text(Some(*tags), all.skip(i as int)),
        decreases keys.len() - i,
    {
        assert(all.skip(i as int)[0] == keys@[i as int]@);
        assert(all.skip(i as int).drop_first() == all.skip(i + 1));
        if let Some(text) = json_member(tags, keys[i]).as_str() {
            return Some(text.to_owned());
        }
        i += 1;
    }
    None
}

/// The keys of the time at which a file was made, the most telling first.
pub open spec fn created_keys(kind: MediaKind) -> Seq<Seq<char>> {
    match kind {
        MediaKind::Video => seq![
            "creation_time"@,
            "date_time_original"@,
            "DateTimeOriginal"@,
            "com.apple.quicktime.creationdate"@,
        ],
        MediaKind::Image => seq!["creation_time"@, "DateTimeOriginal"@, "date"@],
    }
}

/// The keys of the maker of the camera, the most telling first.
pub open spec fn make_keys(kind: MediaKind) -> Seq<Seq<char>> {
    match kind {
        MediaKind::Video => seq!["com.apple.quicktime.make"@, "make"@, "Make"@],
        MediaKind::Image => seq!["make"@, "Make"@],
    }
}

/// The keys of the model of the camera, the most telling first.
pub open spec fn model_keys(kind: MediaKind) -> Seq<Seq<char>> {
    match kind {
        MediaKind::Video => seq!["com.apple.quicktime.model"@, "model"@, "Model"@],
        MediaKind::Image => seq!["model"@, "Model"@],
    }
}

fn created_tag(tags: &serde_json::Value, kind: MediaKind) -> (r: Option<String>)
    ensures
        text::option_view(r) == first_text(Some(*tags), created_keys(kind)),
{
    match kind {
        MediaKind::Video => {
            let keys = [
                "creation_time",
                "date_time_original",
                "DateTimeOriginal",
                "com.apple.quicktime.creationdate",
            ];
            assert(text::texts_view(keys@) == created_keys(kind));
            first_tag(tags, &keys)
        },
        MediaKind::Image => {
            let keys = ["creation_time", "DateTimeOriginal", "date"];
            assert(text::texts_view(keys@) == created_keys(kind));
            first_tag(tags, &keys)
        },
    }
}

fn make_tag(tags: &serde_json::Value, kind: MediaKind) -> (r: Option<String>)
    ensures
        text::option_view(r) == first_text(Some(*tags), make_keys(kind)),
{
    match kind {
        MediaKind::Video => {
            let keys = ["com.apple.quicktime.make", "make", "Make"];
            assert(text::texts_view(keys@) == make_keys(kind));
            first_tag(tags, &keys)
        },
        MediaKind::Image => {
            let keys = ["make", "Make"];
            assert(text::texts_view(keys@) == make_keys(kind));
            first_tag(tags, &keys)
        },
    }
}

fn model_tag(tags: &serde_json::Value, kind: MediaKind) -> (r: Option<String>)
    ensures
        text::option_view(r) == first_text(Some(*tags), model_keys(kind)),
{
    match kind {
        MediaKind::Video => {
            let keys = ["com.apple.quicktime.model", "model", "Model"];
            assert(text::texts_view(keys@) == model_keys(kind));
            first_tag(tags, &keys)
        },
        MediaKind::Image => {
            let keys = ["model", "Model"];
            assert(text::texts_view(keys@) == model_keys(kind));
            first_tag(tags, &keys)
        },
    }
}

/// The first of the streams whose type is `video`.
pub open spec fn first_video(streams: Seq<serde_json::Value>) -> Option<serde_json::Value>
    decreases streams.len(),
{
    if streams.len() == 0 {
        None
    } else if json::text_member(Some(streams[0]), "codec_type"@) == Some("video"@) {
        Some(streams[0])
    } else {
        first_video(streams.drop_first())
    }
}

/// The first video stream that a document describes.
pub open spec fn video_stream(document: serde_json::Value) -> Option<serde_json::Value> {
    match json::member_of(Some(document), "streams"@) {
        Some(streams) => match json::json_items(streams) {
            Some(streams) => first_video(streams),
            None => None,
        },
        None => None,
    }
}

/// The low 32 bits of a number.
pub open spec fn low_half(n: Option<u64>) -> Option<u32> {
    match n {
        Some(n) => Some((n % 0x1_0000_0000) as u32),
        None => None,
    }
}

/// What a document tells of a file.
pub open spec fn description(document: serde_json::Value, kind: MediaKind) -> DescriptionView {
    let stream = video_stream(document);
    let format = json::member_of(Some(document), "format"@);
    let tags = json::member_of(format, "tags"@);
    DescriptionView {
        width: low_half(json::unsigned_member(stream, "width"@)),
        height: low_half(json::unsigned_member(stream, "height"@)),
        stream_duration: json::text_member(stream, "duration"@),
        format_duration: json::text_member(format, "duration"@),
        created_at: first_text(tags, created_keys(kind)),
        make: first_text(tags, make_keys(kind)),
        model: first_text(tags, model_keys(kind)),
    }
}

fn find_video_stream<'a>(document: &'a serde_json::Value) -> (r: Option<&'a serde_json::Value>)
    ensures
        r is Some <==> video_stream(*document) is Some,
        r matches Some(stream) ==> video_stream(*document) == Some(*stream),
{
    let streams = match json_member(document, "streams").as_array() {
        Some(streams) => streams,
        None => {
            return None;
        },
    };
    let mut i: usize = 0;
    assert(streams@.skip(0) == streams@);
    while i < streams.len()
        invariant
            i <= streams.len(),
            first_video(streams@) == first_video(streams@.skip(i as int)),
            video_stream(*document) == first_video(streams@),
        decreases streams.len() - i,
    {
        assert(streams@.skip(i as int).drop_first() == streams@.skip(i + 1));
        if let Some(codec_type) = json_member(&streams[i], "codec_type").as_str() {
            if text::is_text(chars_of(codec_type).as_slice(), "video") {
                return Some(&streams[i]);
            }
        }
        i += 1;
    }
    None
}

fn low_32(n: Option<u64>) -> (r: Option<u32>)
    ensures
        r == low_half(n),
{
    match n {
        Some(n) => {
            assert(n as u32 == (n % 0x1_0000_0000) as u32) by (bit_vector);
            Some(#[verifier::truncate] (n as u32))
        },
        None => None,
    }
}

fn owned(s: Option<&str>) -> (r: Option<String>)
    ensures
        r is Some <==> s is Some,
        r matches Some(t) ==> t@ == s->0@,
{
    match s {
        Some(s) => Some(s.to_owned()),
        None => None,
    }
}

/// What a document tells of a file.
pub fn describe(document: &serde_json::Value, kind: MediaKind) -> (r: Description)
    ensures
        r@ == description(*document, kind),
{
    let (width, height, stream_duration): (Option<u64>, Option<u64>, Option<String>) =
        match find_video_stream(document) {
        Some(stream) => (
            json_member(stream, "width").as_u64(),
            json_member(stream, "height").as_u64(),
            owned(json_member(stream, "duration").as_str()),
        ),
        None => (None, None, None),
    };
    let format = json_member(document, "format");
    let tags = json_member(format, "tags");
    proof {
        if json::json_null(*tags) {
            lemma_no_text_in_null(*tags, created_keys(kind));
            lemma_no_text_in_null(*tags, make_keys(kind));
            lemma_no_text_in_null(*tags, model_keys(kind));
        }
    }
    Description {
        width: low_32(width),
        height: low_32(height),
        stream_duration,
        format_duration: owned(json_member(format, "duration").as_str()),
        created_at: created_tag(tags, kind),
        make: make_tag(tags, kind),
        model: model_tag(tags, kind),
    }
}

/// What the output of `ffprobe` tells of a file; nothing where the output is no JSON document.
pub fn ffprobe_json(output: &[u8], kind: MediaKind) -> (r: Option<Description>)
    ensures
        r is Some <==> json::json_document(output@) is Some,
        r matches Some(told) ==> told@ == description(json::json_document(output@)->0, kind),
{
    match parse_document(output) {
        Ok(document) => Some(describe(&document, kind)),
        Err(_) => None,
    }
}

/// A text from the description of the video, or else from that of the image.
pub open spec fn either(
    video: Option<DescriptionView>,
    image: Option<DescriptionView>,
    part: spec_fn(DescriptionView) -> Option<Seq<char>>,
) -> Option<Seq<char>> {
    let first = match video {
        Some(video) => part(video),
        None => None,
    };
    match first {
        Some(text) => Some(text),
        None => match image {
            Some(image) => part(image),
            None => None,
        },
    }
}

/// What is told of an image and its video, from the descriptions of the two. `stream_secs` and
/// `format_secs` are the durations in the description of the video, read as numbers.
pub open spec fn media_info(
    video: Option<DescriptionView>,
    stream_secs: Option<u64>,
    format_secs: Option<u64>,
    image: Option<DescriptionView>,
) -> MediaInfoView {
    MediaInfoView {
        vid_width: match video {
            Some(video) => video.width,
            None => None,
        },
        vid_height: match video {
            Some(video) => video.height,
            None => None,
        },
        img_width: match image {
            Some(image) => image.width,
            None => None,
        },
        img_height: match image {
            Some(image) => image.height,
            None => None,
        },
        duration_bits: if video is None {
            None
        } else if stream_secs is Some {
            stream_secs
        } else {
            format_secs
        },
        created_at: either(video, image, |d: DescriptionView| d.created_at),
        make: either(video, image, |d: DescriptionView| d.make),
        model: either(video, image, |d: DescriptionView| d.model),
    }
}

/// A description that may be missing, with its texts in characters.
pub open spec fn description_view(d: Option<Description>) -> Option<DescriptionView> {
    match d {
        Some(d) => Some(d@),
        None => None,
    }
}

/// What is told of an image and its video, from the descriptions of the two. `stream_secs` and
/// `format_secs` are the durations in the description of the video, read as numbers, where they can
/// be read.
pub fn get_media_info(
    video: Option<Description>,
    stream_secs: Option<u64>,
    format_secs: Option<u64>,
    image: Option<Description>,
) -> (r: MediaInfo)
    ensures
        r@ == media_info(
            description_view(video),
            stream_secs,
            format_secs,
            description_view(image),
        ),
{
    let mut info = MediaInfo::default();
    if let Some(video) = video {
        info.vid_width = video.width;
        info.vid_height = video.height;
        info.duration_bits = if stream_secs.is_some() {
            stream_secs
        } else {
            format_secs
        };
        info.created_at = video.created_at;
        info.make = video.make;
        info.model = video.model;
    }
    if let Some(image) = image {
        info.img_width = image.width;
        info.img_height = image.height;
        if info.created_at.is_none() {
            info.created_at = image.created_at;
        }
        if info.make.is_none() {
            info.make = image.make;
        }
        if info.model.is_none() {
            info.model = image.model;
        }
    }
    info
}

/// A text is given for tags exactly where one of the keys holds a string, and it is that of the
/// first such key.
pub proof fn law_first_tag_wins(
    tags: Option<serde_json::Value>,
    keys: Seq<Seq<char>>,
    at: int,
)
    requires
        0 <= at <= keys.len(),
        forall|i: int| 0 <= i < at ==> json::text_member(tags, #[trigger] keys[i]) is None,
        at < keys.len() ==> json::text_member(tags, keys[at]) is Some,
    ensures
        first_text(tags, keys) == (if at < keys.len() {
            json::text_member(tags, keys[at])
        } else {
            None
        }),
    decreases keys.len(),
{
    if keys.len() > 0 && at > 0 {
        assert(json::text_member(tags, keys[0]) is None);
        let rest = keys.drop_first();
        assert forall|i: int| 0 <= i < at - 1 implies json::text_member(
            tags,
            #[trigger] rest[i],
        ) is None by {
            assert(rest[i] == keys[i + 1]);
        }
        law_first_tag_wins(tags, rest, at - 1);
    }
}

/// Streams in front of the first video stream, such as those with sound, do not change what is told
/// of the video.
pub proof fn law_first_video_stream_counts(streams: Seq<serde_json::Value>, at: int)
    requires
        0 <= at < streams.len(),
        forall|i: int|
            0 <= i < at ==> json::text_member(Some(#[trigger] streams[i]), "codec_type"@) != Some(
                "video"@,
            ),
        json::text_member(Some(streams[at]), "codec_type"@) == Some("video"@),
    ensures
        first_video(streams) == Some(streams[at]),
    decreases streams.len(),
{
    if at > 0 {
        assert(json::text_member(Some(streams[0]), "codec_type"@) != Some("video"@));
        let rest = streams.drop_first();
        assert forall|i: int| 0 <= i < at - 1 implies json::text_member(
            Some(#[trigger] rest[i]),
            "codec_type"@,
        ) != Some("video"@) by {
            assert(rest[i] == streams[i + 1]);
        }
        law_first_video_stream_counts(rest, at - 1);
    }
}

/// What the video tells is not overridden by what the image tells.
pub proof fn law_video_comes_first(
    video: DescriptionView,
    stream_secs: Option<u64>,
    format_secs: Option<u64>,
    image: Option<DescriptionView>,
)
    ensures
        ({
            let info = media_info(Some(video), stream_secs, format_secs, image);
            &&& video.created_at is Some ==> info.created_at == video.created_at
            &&& video.make is Some ==> info.make == video.make
            &&& video.model is Some ==> info.model == video.model
            &&& info.vid_width == video.width && info.vid_height == video.height
        }),
{
}

/// Without a description nothing is told.
pub proof fn law_nothing_of_nothing(stream_secs: Option<u64>, format_secs: Option<u64>)
    ensures
        media_info(None, stream_secs, format_secs, None) == nothing_known(),
{
}

/// The tags of a document are those under `tags` in its `format`. For the time at which a file was
/// made, for the maker and for the model of the camera, the first of these keys that holds a string
/// gives what is told; videos and images have keys of their own.
pub proof fn law_tags_by_key(
    document: serde_json::Value,
    format: serde_json::Value,
    tags: serde_json::Value,
)
    requires
        json::json_members(document).contains_key("format"@),
        json::json_members(document)["format"@] == format,
        json::json_members(format).contains_key("tags"@),
        json::json_members(format)["tags"@] == tags,
    ensures
        ({
            let held = |key: Seq<char>|
                if json::json_members(tags).contains_key(key) {
                    json::json_text(json::json_members(tags)[key])
                } else {
                    None
                };
            let video = description(document, MediaKind::Video);
            let image = description(document, MediaKind::Image);
            &&& video.created_at == (if held("creation_time"@) is Some {
                held("creation_time"@)
            } else if held("date_time_original"@) is Some {
                held("date_time_original"@)
            } else if held("DateTimeOriginal"@) is Some {
                held("DateTimeOriginal"@)
            } else {
                held("com.apple.quicktime.creationdate"@)
            })
            &&& video.make == (if held("com.apple.quicktime.make"@) is Some {
                held("com.apple.quicktime.make"@)
            } else if held("make"@) is Some {
                held("make"@)
            } else {
                held("Make"@)
            })
            &&& video.model == (if held("com.apple.quicktime.model"@) is Some {
                held("com.apple.quicktime.model"@)
            } else if held("model"@) is Some {
                held("model"@)
            } else {
                held("Model"@)
            })
            &&& image.created_at == (if held("creation_time"@) is Some {
                held("creation_time"@)
            } else if held("DateTimeOriginal"@) is Some {
                held("DateTimeOriginal"@)
            } else {
                held("date"@)
            })
            &&& image.make == (if held("make"@) is Some {
                held("make"@)
            } else {
                held("Make"@)
            })
            &&& image.model == (if held("model"@) is Some {
                held("model"@)
            } else {
                held("Model"@)
            })
        }),
{
    reveal_with_fuel(first_text, 5);
    let video = MediaKind::Video;
    let image = MediaKind::Image;
    assert(created_keys(video).drop_first() =~= seq![
        "date_time_original"@,
        "DateTimeOriginal"@,
        "com.apple.quicktime.creationdate"@,
    ]);
    assert(make_keys(video).drop_first() =~= seq!["make"@, "Make"@]);
    assert(model_keys(video).drop_first() =~= seq!["model"@, "Model"@]);
    assert(created_keys(image).drop_first() =~= seq!["DateTimeOriginal"@, "date"@]);
}

proof fn lemma_no_text_without_tags(keys: Seq<Seq<char>>)
    ensures
        first_text(None, keys) is None,
    decreases keys.len(),
{
    if keys.len() > 0 {
        lemma_no_text_without_tags(keys.drop_first());
    }
}

/// A document without a `format`, or whose `format` has no `tags`, tells nothing of the time, the
/// maker and the model. The duration of the whole is the string under `duration` in its `format`.
pub proof fn law_format_is_read(document: serde_json::Value, kind: MediaKind)
    ensures
        ({
            let told = description(document, kind);
            let members = json::json_members(document);
            let format = json::json_members(members["format"@]);
            &&& !members.contains_key("format"@) ==> told.format_duration is None
            &&& members.contains_key("format"@) && !format.contains_key("duration"@)
                ==> told.format_duration is None
            &&& members.contains_key("format"@) && format.contains_key("duration"@)
                ==> told.format_duration == json::json_text(format["duration"@])
            &&& !members.contains_key("format"@) || !format.contains_key("tags"@)
                ==> told.created_at is None && told.make is None && told.model is None
        }),
{
    lemma_no_text_without_tags(created_keys(kind));
    lemma_no_text_without_tags(make_keys(kind));
    lemma_no_text_without_tags(model_keys(kind));
}

/// The width, the height and the duration are those of the first of the `streams` whose `codec_type`
/// is `video`. Of the two sizes the low 32 bits are told.
pub proof fn law_video_stream_is_read(
    document: serde_json::Value,
    streams: Seq<serde_json::Value>,
    at: int,
    kind: MediaKind,
)
    requires
        json::json_members(document).contains_key("streams"@),
        json::json_items(json::json_members(document)["streams"@]) == Some(streams),
        0 <= at < streams.len(),
        forall|i: int|
            0 <= i < at ==> !(json::json_members(#[trigger] streams[i]).contains_key("codec_type"@)
                && json::json_text(json::json_members(streams[i])["codec_type"@]) == Some("video"@)),
        json::json_members(streams[at]).contains_key("codec_type"@),
        json::json_text(json::json_members(streams[at])["codec_type"@]) == Some("video"@),
    ensures
        ({
            let told = description(document, kind);
            let members = json::json_members(streams[at]);
            let number = |key: Seq<char>|
                if members.contains_key(key) {
                    json::json_unsigned(members[key])
                } else {
                    None
                };
            let (width, height) = (number("width"@), number("height"@));
            &&& told.width is Some <==> width is Some
            &&& told.height is Some <==> height is Some
            &&& width is Some ==> told.width->0 as int == width->0 as int % 4294967296
            &&& height is Some ==> told.height->0 as int == height->0 as int % 4294967296
            &&& told.stream_duration == (if members.contains_key("duration"@) {
                json::json_text(members["duration"@])
            } else {
                None
            })
        }),
{
    law_first_video_stream_counts(streams, at);
}

proof fn lemma_no_video(streams: Seq<serde_json::Value>)
    requires
        forall|i: int|
            0 <= i < streams.len() ==> json::text_member(
                Some(#[trigger] streams[i]),
                "codec_type"@,
            ) != Some("video"@),
    ensures
        first_video(streams) is None,
    decreases streams.len(),
{
    if streams.len() > 0 {
        assert(json::text_member(Some(streams[0]), "codec_type"@) != Some("video"@));
        let rest = streams.drop_first();
        assert forall|i: int| 0 <= i < rest.len() implies json::text_member(
            Some(#[trigger] rest[i]),
            "codec_type"@,
        ) != Some("video"@) by {
            assert(rest[i] == streams[i + 1]);
        }
        lemma_no_video(rest);
    }
}

/// Where no stream is a video, or there are no streams, no size and no duration of a stream is told.
pub proof fn law_no_video_stream(document: serde_json::Value, kind: MediaKind)
    requires
        json::json_members(document).contains_key("streams"@) ==> (json::json_items(
            json::json_members(document)["streams"@],
        ) matches Some(streams) ==> forall|i: int|
            0 <= i < streams.len() ==> !(json::json_members(
                #[trigger] streams[i],
            ).contains_key("codec_type"@) && json::json_text(
                json::json_members(streams[i])["codec_type"@],
            ) == Some("video"@))),
    ensures
        description(document, kind).width is None,
        description(document, kind).height is None,
        description(document, kind).stream_duration is None,
{
    let members = json::json_members(document);
    if members.contains_key("streams"@) && json::json_items(members["streams"@]) is Some {
        lemma_no_video(json::json_items(members["streams"@])->0);
    }
}

/// The sizes come from the two files, the duration from the video alone, that of its stream before
/// that of the whole, and each of the other three from the video, or else from the image.
pub proof fn law_each_detail_has_its_source(
    video: DescriptionView,
    image: DescriptionView,
    stream_secs: Option<u64>,
    format_secs: Option<u64>,
)
    ensures
        ({
            let both = media_info(Some(video), stream_secs, format_secs, Some(image));
            let no_image = media_info(Some(video), stream_secs, format_secs, None);
            let no_video = media_info(None, stream_secs, format_secs, Some(image));
            let or = |a: Option<Seq<char>>, b: Option<Seq<char>>|
                if a is Some {
                    a
                } else {
                    b
                };
            &&& both.vid_width == video.width && both.vid_height == video.height
            &&& both.img_width == image.width && both.img_height == image.height
            &&& stream_secs is Some ==> both.duration_bits == stream_secs
            &&& stream_secs is None ==> both.duration_bits == format_secs
            &&& both.created_at == or(video.created_at, image.created_at)
            &&& both.make == or(video.make, image.make)
            &&& both.model == or(video.model, image.model)
            &&& no_image.vid_width == video.width && no_image.vid_height == video.height
            &&& no_image.img_width is None && no_image.img_height is None
            &&& no_image.duration_bits == both.duration_bits
            &&& no_image.created_at == video.created_at
            &&& no_image.make == video.make && no_image.model == video.model
            &&& no_video.img_width == image.width && no_video.img_height == image.height
            &&& no_video.vid_width is None && no_video.vid_height is None
            &&& no_video.duration_bits is None
            &&& no_video.created_at == image.created_at
            &&& no_video.make == image.make && no_video.model == image.model
        }),
{
}

} // verus!
