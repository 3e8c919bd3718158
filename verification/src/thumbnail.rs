//! Thumbnails: which images need one, and how it comes to be.

use vstd::prelude::*;

use crate::lowercase;
use crate::lowercase::small_extension;
use crate::text;
use crate::text::{chars_of, is_text};
use crate::tools;
use crate::tools::ffmpeg_thumbnail_args;

verus! {

broadcast use vstd::string::group_string_axioms;

/// An image with the extension `ext`, in small letters, is of a kind that browsers do not show.
pub open spec fn needs_thumbnail(ext: Seq<char>) -> bool {
    ext == "heic"@ || ext == "heif"@
}

/// Whether an image with the extension `ext`, in small letters, is a HEIC or HEIF image.
pub fn is_heic(ext: &str) -> (r: bool)
    ensures
        r == needs_thumbnail(ext@),
{
    let cs = chars_of(ext);
    is_text(cs.as_slice(), "heic") || is_text(cs.as_slice(), "heif")
}

/// What happened in making a thumbnail.
#[derive(PartialEq, Eq, Debug)]
pub enum ThumbnailEvent {
    /// A thumbnail is asked for; the image has this extension, if any.
    Asked(Option<String>),
    /// The cache was looked at; whether a thumbnail is there, and how many bytes it has.
    Looked { exists: bool, len: u64 },
    /// The cache directory was made.
    DirMade,
    /// `ffmpeg` ran; whether a thumbnail is there, and how many bytes it has.
    Ran { exists: bool, len: u64 },
    /// Making the directory, or starting `ffmpeg`, failed with this message.
    Failed(String),
}

/// What to do in making a thumbnail.
#[derive(PartialEq, Eq, Debug)]
pub enum ThumbnailAction {
    /// Give this path.
    Give(String),
    /// Look for a thumbnail in the cache.
    Look,
    /// Make the cache directory.
    MakeDir,
    /// Run `ffmpeg` with these arguments.
    RunFfmpeg(Vec<String>),
    /// Fail with this message.
    Fail(String),
}

/// `ThumbnailEvent` with its texts in characters.
pub enum ThumbnailEventView {
    Asked(Option<Seq<char>>),
    Looked { exists: bool, len: u64 },
    DirMade,
    Ran { exists: bool, len: u64 },
    Failed(Seq<char>),
}

impl View for ThumbnailEvent {
    type V = ThumbnailEventView;

    open spec fn view(&self) -> ThumbnailEventView {
        match self {
            ThumbnailEvent::Asked(ext) => ThumbnailEventView::Asked(text::option_view(*ext)),
            ThumbnailEvent::Looked { exists, len } => ThumbnailEventView::Looked {
                exists: *exists,
                len: *len,
            },
            ThumbnailEvent::DirMade => ThumbnailEventView::DirMade,
            ThumbnailEvent::Ran { exists, len } => ThumbnailEventView::Ran {
                exists: *exists,
                len: *len,
            },
            ThumbnailEvent::Failed(message) => ThumbnailEventView::Failed(message@),
        }
    }
}

/// `ThumbnailAction` with its texts in characters.
pub enum ThumbnailActionView {
    Give(Seq<char>),
    Look,
    MakeDir,
    RunFfmpeg(Seq<Seq<char>>),
    Fail(Seq<char>),
}

impl View for ThumbnailAction {
    type V = ThumbnailActionView;

    open spec fn view(&self) -> ThumbnailActionView {
        match self {
            ThumbnailAction::Give(path) => ThumbnailActionView::Give(path@),
            ThumbnailAction::Look => ThumbnailActionView::Look,
            ThumbnailAction::MakeDir => ThumbnailActionView::MakeDir,
            ThumbnailAction::RunFfmpeg(args) => ThumbnailActionView::RunFfmpeg(
                text::strings_view(args@),
            ),
            ThumbnailAction::Fail(message) => ThumbnailActionView::Fail(message@),
        }
    }
}

/// The message about an image that no thumbnail could be made of.
pub open spec fn conversion_failed(image_path: Seq<char>) -> Seq<char> {
    "HEIC thumbnail conversion failed for '"@ + image_path + "'"@
}

/// The action that follows when `event` happens in making the thumbnail at `thumbnail_path` of the
/// image at `image_path`.
pub open spec fn thumbnail_step(
    image_path: Seq<char>,
    thumbnail_path: Seq<char>,
    event: ThumbnailEventView,
) -> ThumbnailActionView {
    match event {
        ThumbnailEventView::Asked(ext) => if needs_thumbnail(
            lowercase::lower_extension(ext),
        ) {
            ThumbnailActionView::Look
        } else {
            ThumbnailActionView::Give(image_path)
        },
        ThumbnailEventView::Looked { exists, len } => if exists && len > 0 {
            ThumbnailActionView::Give(thumbnail_path)
        } else {
            ThumbnailActionView::MakeDir
        },
        ThumbnailEventView::DirMade => ThumbnailActionView::RunFfmpeg(
            tools::ffmpeg_thumbnail_arguments(image_path, thumbnail_path),
        ),
        ThumbnailEventView::Ran { exists, len } => if exists && len > 0 {
            ThumbnailActionView::Give(thumbnail_path)
        } else {
            ThumbnailActionView::Fail(conversion_failed(image_path))
        },
        ThumbnailEventView::Failed(message) => ThumbnailActionView::Fail(message),
    }
}

/// One step in making the thumbnail at `thumbnail_path` of the image at `image_path`: what to do
/// when `event` happens.
pub fn get_thumbnail(image_path: &str, thumbnail_path: &str, event: ThumbnailEvent) -> (r:
    ThumbnailAction)
    ensures
        r@ == thumbnail_step(image_path@, thumbnail_path@, event@),
{
    match event {
        ThumbnailEvent::Asked(ext) => {
            if is_heic(small_extension(&ext).as_str()) {
                ThumbnailAction::Look
            } else {
                ThumbnailAction::Give(image_path.to_owned())
            }
        },
        ThumbnailEvent::Looked { exists, len } => {
            if exists && len > 0 {
                ThumbnailAction::Give(thumbnail_path.to_owned())
            } else {
                ThumbnailAction::MakeDir
            }
        },
        ThumbnailEvent::DirMade => ThumbnailAction::RunFfmpeg(
            ffmpeg_thumbnail_args(image_path, thumbnail_path),
        ),
        ThumbnailEvent::Ran { exists, len } => {
            if exists && len > 0 {
                ThumbnailAction::Give(thumbnail_path.to_owned())
            } else {
                let mut out = "HEIC thumbnail conversion failed for '".to_owned();
                out.append(image_path);
                out.append("'");
                ThumbnailAction::Fail(out)
            }
        },
        ThumbnailEvent::Failed(message) => ThumbnailAction::Fail(message),
    }
}

/// The path of an image that browsers show is given as it is.
pub proof fn law_shown_images_stay(
    image_path: Seq<char>,
    thumbnail_path: Seq<char>,
    ext: Option<Seq<char>>,
)
    requires
        !needs_thumbnail(lowercase::lower_extension(ext)),
    ensures
        thumbnail_step(
            image_path,
            thumbnail_path,
            ThumbnailEventView::Asked(ext),
        ) == ThumbnailActionView::Give(image_path),
{
}

/// A path other than that of the image is given only when a thumbnail is there that is not empty.
pub proof fn law_thumbnails_are_not_empty(
    image_path: Seq<char>,
    thumbnail_path: Seq<char>,
    event: ThumbnailEventView,
)
    ensures
        thumbnail_step(image_path, thumbnail_path, event) matches ThumbnailActionView::Give(path)
            ==> {
            ||| path == image_path && event is Asked
            ||| path == thumbnail_path && (event matches ThumbnailEventView::Looked { exists, len }
                && exists && len > 0)
            ||| path == thumbnail_path && (event matches ThumbnailEventView::Ran { exists, len }
                && exists && len > 0)
        },
{
}

/// What the attempts to come by a thumbnail give: the length of the thumbnail in the cache, where
/// there is one, the message of a failure to make the cache directory, and the length of the
/// thumbnail that `ffmpeg` leaves, where it leaves one, or the message of a failure to start it.
pub struct Attempts {
    pub cached: Option<u64>,
    pub dir_error: Option<Seq<char>>,
    pub made: Result<Option<u64>, Seq<char>>,
}

/// What happens when an action is performed.
pub open spec fn outcome(action: ThumbnailActionView, attempts: Attempts) -> ThumbnailEventView {
    match action {
        ThumbnailActionView::Look => ThumbnailEventView::Looked {
            exists: attempts.cached is Some,
            len: attempts.cached.unwrap_or(0),
        },
        ThumbnailActionView::MakeDir => match attempts.dir_error {
            Some(message) => ThumbnailEventView::Failed(message),
            None => ThumbnailEventView::DirMade,
        },
        _ => match attempts.made {
            Ok(len) => ThumbnailEventView::Ran { exists: len is Some, len: len.unwrap_or(0) },
            Err(message) => ThumbnailEventView::Failed(message),
        },
    }
}

/// The action at the end of performing actions from `action` on, at most `steps`.
pub open spec fn run(
    image_path: Seq<char>,
    thumbnail_path: Seq<char>,
    action: ThumbnailActionView,
    attempts: Attempts,
    steps: nat,
) -> ThumbnailActionView
    decreases steps,
{
    if action is Give || action is Fail || steps == 0 {
        action
    } else {
        run(
            image_path,
            thumbnail_path,
            thumbnail_step(image_path, thumbnail_path, outcome(action, attempts)),
            attempts,
            (steps - 1) as nat,
        )
    }
}

/// A thumbnail in the cache is given at once; where there is none, or an empty one, the one that
/// `ffmpeg` leaves is given; where that is missing or empty too, the conversion has failed. A
/// failure to make the directory or to start `ffmpeg` ends with its message.
pub proof fn law_thumbnail_is_made_once(
    image_path: Seq<char>,
    thumbnail_path: Seq<char>,
    ext: Option<Seq<char>>,
    attempts: Attempts,
)
    requires
        needs_thumbnail(lowercase::lower_extension(ext)),
    ensures
        run(
            image_path,
            thumbnail_path,
            thumbnail_step(image_path, thumbnail_path, ThumbnailEventView::Asked(ext)),
            attempts,
            3,
        ) == (if attempts.cached is Some && attempts.cached->0 > 0 {
            ThumbnailActionView::Give(thumbnail_path)
        } else if attempts.dir_error is Some {
            ThumbnailActionView::Fail(attempts.dir_error->0)
        } else {
            match attempts.made {
                Err(message) => ThumbnailActionView::Fail(message),
                Ok(len) => if len is Some && len->0 > 0 {
                    ThumbnailActionView::Give(thumbnail_path)
                } else {
                    ThumbnailActionView::Fail(conversion_failed(image_path))
                },
            }
        }),
{
    reveal_with_fuel(run, 4);
}

/// A thumbnail is looked for where the extension of an image, in small letters, is `heic` or `heif`,
/// and for no other image.
pub proof fn law_heic_images_need_thumbnails(
    image_path: Seq<char>,
    thumbnail_path: Seq<char>,
    ext: Seq<char>,
)
    ensures
        ({
            let small = lowercase::unicode_lowercase(ext);
            let step = thumbnail_step(
                image_path,
                thumbnail_path,
                ThumbnailEventView::Asked(Some(ext)),
            );
            if small == "heic"@ || small == "heif"@ {
                step == ThumbnailActionView::Look
            } else {
                step == ThumbnailActionView::Give(image_path)
            }
        }),
        thumbnail_step(image_path, thumbnail_path, ThumbnailEventView::Asked(None))
            == ThumbnailActionView::Give(image_path),
{
    reveal_strlit("heic");
    reveal_strlit("heif");
    assert(lowercase::lower_extension(None).len() == 0);
    assert("heic"@.len() > 0 && "heif"@.len() > 0);
}

/// The one that is in the cache or that `ffmpeg` left counts where it is there and not empty;
/// otherwise one is made, or the conversion has failed. The program is told to read the image and to
/// write the thumbnail.
pub proof fn law_thumbnail_steps(
    image_path: Seq<char>,
    thumbnail_path: Seq<char>,
    exists: bool,
    len: u64,
    message: Seq<char>,
)
    ensures
        ({
            let step = |event: ThumbnailEventView|
                thumbnail_step(image_path, thumbnail_path, event);
            &&& step(ThumbnailEventView::Looked { exists, len }) == (if exists && len >= 1 {
                ThumbnailActionView::Give(thumbnail_path)
            } else {
                ThumbnailActionView::MakeDir
            })
            &&& step(ThumbnailEventView::Ran { exists, len }) == (if exists && len >= 1 {
                ThumbnailActionView::Give(thumbnail_path)
            } else {
                ThumbnailActionView::Fail(
                    "HEIC thumbnail conversion failed for '"@ + image_path + "'"@,
                )
            })
            &&& step(ThumbnailEventView::Failed(message)) == ThumbnailActionView::Fail(message)
            &&& step(ThumbnailEventView::DirMade) == ThumbnailActionView::RunFfmpeg(
                seq![
                    "-y"@,
                    "-i"@,
                    image_path,
                    "-vframes"@,
                    "1"@,
                    "-q:v"@,
                    "3"@,
                    thumbnail_path,
                ],
            )
        }),
{
}

} // verus!
