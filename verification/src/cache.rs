//! Names in the cache, and when a cached video can be used again.

use std::collections::hash_map::DefaultHasher;
use std::hash::{Hash, Hasher};

use vstd::prelude::*;
use vstd::std_specs::hash::DefaultHasherAdditionalSpecFns;

use crate::number;
use crate::number::{push_decimal, push_hex};

verus! {

broadcast use vstd::string::group_string_axioms;

/// The name of the file that a video taken from a photo has in its cache directory.
pub const EMBEDDED_VIDEO: &'static str = "embedded.mp4";

/// The name of the file that the thumbnail of an image has in its cache directory.
pub const THUMBNAIL: &'static str = "thumbnail.jpg";

/// What `<str as Hash>::hash` feeds to a hasher for a text: a sequence of pieces of bytes that
/// depends on the text alone.
pub uninterp spec fn text_hash_input(s: Seq<char>) -> Seq<Seq<u8>>;

/// Calls `<str as Hash>::hash`, which feeds the text to the hasher behind what was fed to it
/// before.
#[verifier::external_body]
fn feed_text(s: &str, hasher: &mut DefaultHasher)
    ensures
        final(hasher)@ == old(hasher)@ + text_hash_input(s@),
{
    s.hash(hasher);
}

/// The hash of a path, with the hasher that `DefaultHasher::new` gives.
pub open spec fn path_hash_value(path: Seq<char>) -> u64 {
    DefaultHasher::spec_finish(text_hash_input(path))
}

/// The hash of a path. It is the same for the same path.
pub fn path_hash(s: &str) -> (r: u64)
    ensures
        r == path_hash_value(s@),
{
    let mut h = DefaultHasher::new();
    feed_text(s, &mut h);
    assert(h@ == text_hash_input(s@));
    h.finish()
}

/// The name of the cache directory for a path with this hash.
pub open spec fn dir_name(hash: u64) -> Seq<char> {
    "livephoto_"@ + number::hex(hash as nat, 16)
}

/// The name of the cache directory for a path with this hash.
pub fn cache_dir_of_hash(hash: u64) -> (r: String)
    ensures
        r@ == dir_name(hash),
{
    let mut out = "livephoto_".to_owned();
    push_hex(&mut out, hash, 16);
    out
}

/// The name of the cache directory for what belongs to the file at `path`.
pub fn cache_dir_name(path: &str) -> (r: String)
    ensures
        r@ == dir_name(path_hash_value(path@)),
{
    cache_dir_of_hash(path_hash(path))
}

/// Paths with different hashes have different cache directories.
pub proof fn law_cache_dirs_differ(a: u64, b: u64)
    requires
        dir_name(a) == dir_name(b),
    ensures
        a == b,
{
    let n = "livephoto_"@.len() as int;
    assert(dir_name(a).skip(n) == number::hex(a as nat, 16));
    assert(dir_name(b).skip(n) == number::hex(b as nat, 16));
    number::law_hex_tells_apart(a, b);
}

/// The video that an earlier extraction left in the cache: its length, and when it and the photo
/// that it was taken from were last changed, in nanoseconds, as far as that is known.
#[derive(Clone, Copy, PartialEq, Eq, Structural, Debug)]
pub struct CachedVideo {
    pub len: u64,
    pub photo_changed: Option<i128>,
    pub video_changed: Option<i128>,
}

/// The photo was changed after the video was taken from it.
pub open spec fn photo_is_newer(cached: CachedVideo) -> bool {
    match (cached.photo_changed, cached.video_changed) {
        (Some(photo), Some(video)) => photo > video,
        _ => false,
    }
}

/// The cached video can be used again: it is not empty, and not older than the photo.
pub open spec fn reusable(cached: CachedVideo) -> bool {
    cached.len > 0 && !photo_is_newer(cached)
}

/// What happened in extracting a video.
#[derive(PartialEq, Eq, Debug)]
pub enum ExtractEvent {
    /// The cache was looked at; it holds this video, or none.
    Looked(Option<CachedVideo>),
    /// The cache directory is there, and the photo has this many bytes.
    Prepared(u64),
    /// The bytes were copied.
    Copied,
    /// Copying failed, with this message.
    CopyFailed(String),
    /// Anything else failed, with this message.
    Failed(String),
}

/// What to do in extracting a video.
#[derive(PartialEq, Eq, Debug)]
pub enum ExtractAction {
    /// Give the path of the video in the cache.
    Use,
    /// Remove the video that is in the cache, where `remove` is set, make the cache directory and
    /// take the size of the photo.
    Prepare { remove: bool },
    /// Copy `count` bytes of the photo, from byte `from` on, to the cache.
    Copy { from: u64, count: u64 },
    /// Remove what was copied and fail with this message.
    RemoveAndFail(String),
    /// Fail with this message.
    Fail(String),
}

/// `ExtractEvent` with its texts in characters.
pub enum ExtractEventView {
    Looked(Option<CachedVideo>),
    Prepared(u64),
    Copied,
    CopyFailed(Seq<char>),
    Failed(Seq<char>),
}

impl View for ExtractEvent {
    type V = ExtractEventView;

    open spec fn view(&self) -> ExtractEventView {
        match self {
            ExtractEvent::Looked(cached) => ExtractEventView::Looked(*cached),
            ExtractEvent::Prepared(file_size) => ExtractEventView::Prepared(*file_size),
            ExtractEvent::Copied => ExtractEventView::Copied,
            ExtractEvent::CopyFailed(message) => ExtractEventView::CopyFailed(message@),
            ExtractEvent::Failed(message) => ExtractEventView::Failed(message@),
        }
    }
}

/// `ExtractAction` with its texts in characters.
pub enum ExtractActionView {
    Use,
    Prepare { remove: bool },
    Copy { from: u64, count: u64 },
    RemoveAndFail(Seq<char>),
    Fail(Seq<char>),
}

impl View for ExtractAction {
    type V = ExtractActionView;

    open spec fn view(&self) -> ExtractActionView {
        match self {
            ExtractAction::Use => ExtractActionView::Use,
            ExtractAction::Prepare { remove } => ExtractActionView::Prepare { remove: *remove },
            ExtractAction::Copy { from, count } => ExtractActionView::Copy {
                from: *from,
                count: *count,
            },
            ExtractAction::RemoveAndFail(message) => ExtractActionView::RemoveAndFail(message@),
            ExtractAction::Fail(message) => ExtractActionView::Fail(message@),
        }
    }
}

/// The message about a video that would begin at or behind the end of the file.
pub open spec fn invalid_offset(video_start: u64, file_size: u64) -> Seq<char> {
    "invalid video offset "@ + number::decimal(video_start as nat) + " >= file size "@
        + number::decimal(file_size as nat)
}

/// The action that follows when `event` happens in extracting the video that begins at
/// `video_start`.
pub open spec fn extract_step(video_start: u64, event: ExtractEventView) -> ExtractActionView {
    match event {
        ExtractEventView::Looked(None) => ExtractActionView::Prepare { remove: false },
        ExtractEventView::Looked(Some(cached)) => if reusable(cached) {
            ExtractActionView::Use
        } else {
            ExtractActionView::Prepare { remove: true }
        },
        ExtractEventView::Prepared(file_size) => if video_start >= file_size {
            ExtractActionView::Fail(invalid_offset(video_start, file_size))
        } else {
            ExtractActionView::Copy { from: video_start, count: (file_size - video_start) as u64 }
        },
        ExtractEventView::Copied => ExtractActionView::Use,
        ExtractEventView::CopyFailed(message) => ExtractActionView::RemoveAndFail(message),
        ExtractEventView::Failed(message) => ExtractActionView::Fail(message),
    }
}

fn is_reusable(cached: CachedVideo) -> (r: bool)
    ensures
        r == reusable(cached),
{
    let newer = match (cached.photo_changed, cached.video_changed) {
        (Some(photo), Some(video)) => photo > video,
        _ => false,
    };
    cached.len > 0 && !newer
}

/// One step in extracting the video that begins at byte `video_start` of a photo: what to do when
/// `event` happens.
pub fn extract_embedded_video(video_start: u64, event: ExtractEvent) -> (r: ExtractAction)
    ensures
        r@ == extract_step(video_start, event@),
{
    match event {
        ExtractEvent::Looked(None) => ExtractAction::Prepare { remove: false },
        ExtractEvent::Looked(Some(cached)) => {
            if is_reusable(cached) {
                ExtractAction::Use
            } else {
                ExtractAction::Prepare { remove: true }
            }
        },
        ExtractEvent::Prepared(file_size) => {
            let count = file_size.saturating_sub(video_start);
            if count == 0 {
                let mut message = "invalid video offset ".to_owned();
                push_decimal(&mut message, video_start);
                message.append(" >= file size ");
                push_decimal(&mut message, file_size);
                ExtractAction::Fail(message)
            } else {
                ExtractAction::Copy { from: video_start, count }
            }
        },
        ExtractEvent::Copied => ExtractAction::Use,
        ExtractEvent::CopyFailed(message) => ExtractAction::RemoveAndFail(message),
        ExtractEvent::Failed(message) => ExtractAction::Fail(message),
    }
}

/// An empty cached video, or one that is older than its photo, is removed and taken from the photo
/// anew; any other is used again.
pub proof fn law_stale_videos_are_replaced(video_start: u64, cached: CachedVideo)
    ensures
        extract_step(video_start, ExtractEventView::Looked(Some(cached))) == (if cached.len == 0
            || photo_is_newer(cached) {
            ExtractActionView::Prepare { remove: true }
        } else {
            ExtractActionView::Use
        }),
{
}

/// A video that begins inside the photo is copied exactly to the end of the photo; no other is.
pub proof fn law_video_reaches_to_the_end(video_start: u64, file_size: u64)
    ensures
        ({
            let action = extract_step(video_start, ExtractEventView::Prepared(file_size));
            &&& action is Copy <==> video_start < file_size
            &&& action matches ExtractActionView::Copy { from, count } ==> from == video_start
                && from + count == file_size
            &&& action !is Copy ==> action == ExtractActionView::Fail(
                invalid_offset(video_start, file_size),
            )
        }),
{
}

/// The action at the end of an extraction, from `action` on, in at most `steps` steps: preparing
/// gives the size of the photo or a message, and copying gives `copied`.
pub open spec fn run(
    video_start: u64,
    action: ExtractActionView,
    prepared: Result<u64, Seq<char>>,
    copied: ExtractEventView,
    steps: nat,
) -> ExtractActionView
    decreases steps,
{
    if steps == 0 {
        action
    } else {
        let event = match action {
            ExtractActionView::Prepare { .. } => match prepared {
                Ok(file_size) => Some(ExtractEventView::Prepared(file_size)),
                Err(message) => Some(ExtractEventView::Failed(message)),
            },
            ExtractActionView::Copy { .. } => Some(copied),
            _ => None,
        };
        match event {
            Some(event) => run(
                video_start,
                extract_step(video_start, event),
                prepared,
                copied,
                (steps - 1) as nat,
            ),
            None => action,
        }
    }
}

/// An extraction ends with a video to use exactly where the cached one can be used again, or the
/// video lies in the photo and was copied. What a copy that failed leaves behind is removed.
pub proof fn law_failed_copies_are_removed(
    video_start: u64,
    cached: Option<CachedVideo>,
    prepared: Result<u64, Seq<char>>,
    copied: ExtractEventView,
)
    requires
        copied is Copied || copied is CopyFailed || copied is Failed,
    ensures
        ({
            let end = run(
                video_start,
                extract_step(video_start, ExtractEventView::Looked(cached)),
                prepared,
                copied,
                2,
            );
            let reused = cached is Some && reusable(cached->0);
            let begun = !reused && prepared is Ok && video_start < prepared->Ok_0;
            &&& end is Use <==> reused || (begun && copied is Copied)
            &&& end is RemoveAndFail <==> begun && copied is CopyFailed
            &&& end is Use || end is Fail || end is RemoveAndFail
        }),
{
    reveal_with_fuel(run, 3);
}

/// A cached video that is not empty and was changed at or after the time at which the photo was
/// changed is used again, as is one where one of the times is not known. One that is empty, or was
/// changed before the photo was, is removed and taken from the photo anew.
pub proof fn law_cached_videos_count_by_time(
    video_start: u64,
    len: u64,
    photo_changed: i128,
    video_changed: i128,
)
    ensures
        ({
            let looked = |photo: Option<i128>, video: Option<i128>|
                extract_step(
                    video_start,
                    ExtractEventView::Looked(
                        Some(CachedVideo { len, photo_changed: photo, video_changed: video }),
                    ),
                );
            let (photo, video) = (Some(photo_changed), Some(video_changed));
            let again = ExtractActionView::Prepare { remove: true };
            &&& len > 0 && photo_changed <= video_changed ==> looked(photo, video) == ExtractActionView::Use
            &&& photo_changed > video_changed ==> looked(photo, video) == again
            &&& len == 0 ==> looked(photo, video) == again && looked(None, video) == again && looked(
                photo,
                None,
            ) == again && looked(None, None) == again
            &&& len > 0 ==> looked(None, video) == ExtractActionView::Use && looked(photo, None)
                == ExtractActionView::Use && looked(None, None) == ExtractActionView::Use
        }),
{
}

/// Where no video is in the cache there is nothing to remove. A copy that succeeded is used, one that
/// failed is removed, and every failure keeps its message.
pub proof fn law_extraction_keeps_messages(video_start: u64, file_size: u64, message: Seq<char>)
    ensures
        extract_step(video_start, ExtractEventView::Looked(None)) == (ExtractActionView::Prepare {
            remove: false,
        }),
        extract_step(video_start, ExtractEventView::Copied) == ExtractActionView::Use,
        extract_step(video_start, ExtractEventView::CopyFailed(message))
            == ExtractActionView::RemoveAndFail(message),
        extract_step(video_start, ExtractEventView::Failed(message)) == ExtractActionView::Fail(
            message,
        ),
        file_size <= video_start ==> extract_step(
            video_start,
            ExtractEventView::Prepared(file_size),
        ) == ExtractActionView::Fail(
            "invalid video offset "@ + number::decimal(video_start as nat) + " >= file size "@
                + number::decimal(file_size as nat),
        ),
        video_start < file_size ==> extract_step(video_start, ExtractEventView::Prepared(file_size))
            == (ExtractActionView::Copy {
            from: video_start,
            count: (file_size - video_start) as u64,
        }),
{
}

/// The name of a cache directory is the name of the program and the sixteen hexadecimal digits of the
/// hash.
pub proof fn law_cache_dirs_are_named_by_the_hash(hash: u64)
    ensures
        dir_name(hash) == "livephoto_"@ + number::hex(hash as nat, 16),
        dir_name(hash).len() == 26,
{
    reveal_strlit("livephoto_");
    number::lemma_hex_len(hash as nat, 16);
}

/// The hash of a path is what the hasher gives for the path and nothing else, so that the same path
/// has the same directory.
pub proof fn law_hash_is_of_the_path(path: Seq<char>)
    ensures
        path_hash_value(path) == DefaultHasher::spec_finish(text_hash_input(path)),
{
}

} // verus!
