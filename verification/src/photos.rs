//! Live photos: which images are, and how they are listed.

use vstd::prelude::*;

use crate::lowercase;
use crate::lowercase::small_extension;
use crate::text;
use crate::text::{chars_of, is_text, joined};
use crate::thumbnail;
use crate::thumbnail::is_heic;

verus! {

broadcast use vstd::string::group_string_axioms;

/// An image with its video.
///
/// The type of the photo is one of
/// - `live`: an image with a `.mov` file;
/// - `huawei`: a HEIC image with an `.mp4` file, or a JPEG file with an MP4 file appended;
/// - `motion`: an image with an `.mp4` or `.m4v` file;
/// - `samsung`: an image with a `_motion.mp4` file, or a JPEG file with a Samsung video in it;
/// - `google`, `xiaomi`, `oppo`: a JPEG file with a video of that vendor in it.
#[derive(PartialEq, Eq, Debug)]
pub struct LivePhoto {
    pub name: String,
    pub display_name: String,
    pub image_path: String,
    pub video_path: String,
    pub file_size: u64,
    pub photo_type: String,
}

impl Clone for LivePhoto {
    fn clone(&self) -> (r: Self)
        ensures
            r == *self,
    {
        LivePhoto {
            name: self.name.clone(),
            display_name: self.display_name.clone(),
            image_path: self.image_path.clone(),
            video_path: self.video_path.clone(),
            file_size: self.file_size,
            photo_type: self.photo_type.clone(),
        }
    }
}

/// `LivePhoto` with its texts in characters.
pub struct LivePhotoView {
    pub name: Seq<char>,
    pub display_name: Seq<char>,
    pub image_path: Seq<char>,
    pub video_path: Seq<char>,
    pub file_size: u64,
    pub photo_type: Seq<char>,
}

impl View for LivePhoto {
    type V = LivePhotoView;

    open spec fn view(&self) -> LivePhotoView {
        LivePhotoView {
            name: self.name@,
            display_name: self.display_name@,
            image_path: self.image_path@,
            video_path: self.video_path@,
            file_size: self.file_size,
            photo_type: self.photo_type@,
        }
    }
}

/// Each of the photos with its texts in characters.
pub open spec fn photos_view(photos: Seq<LivePhoto>) -> Seq<LivePhotoView> {
    photos.map_values(|p: LivePhoto| p@)
}

/// An image file: its name without the extension, its extension, its path and its size.
#[derive(PartialEq, Eq, Debug)]
pub struct ImageFile {
    pub stem: String,
    pub extension: Option<String>,
    pub path: String,
    pub size: u64,
}

/// `ImageFile` with its texts in characters.
pub struct ImageFileView {
    pub stem: Seq<char>,
    pub extension: Option<Seq<char>>,
    pub path: Seq<char>,
    pub size: u64,
}

impl View for ImageFile {
    type V = ImageFileView;

    open spec fn view(&self) -> ImageFileView {
        ImageFileView {
            stem: self.stem@,
            extension: text::option_view(self.extension),
            path: self.path@,
            size: self.size,
        }
    }
}

/// Files with the extension `ext`, in small letters, are images.
pub open spec fn image_extension(ext: Seq<char>) -> bool {
    ext == "jpg"@ || ext == "jpeg"@ || ext == "heic"@ || ext == "heif"@ || ext == "png"@
}

/// Files with the extension `ext`, in small letters, are JPEG images.
pub open spec fn jpeg_extension(ext: Seq<char>) -> bool {
    ext == "jpg"@ || ext == "jpeg"@
}

/// Whether files with the extension `ext`, in small letters, are images.
pub fn is_image_extension(ext: &str) -> (r: bool)
    ensures
        r == image_extension(ext@),
{
    let cs = chars_of(ext);
    let cs = cs.as_slice();
    is_text(cs, "jpg") || is_text(cs, "jpeg") || is_text(cs, "heic") || is_text(cs, "heif")
        || is_text(cs, "png")
}

pub(crate) fn is_jpeg_extension(ext: &str) -> (r: bool)
    ensures
        r == jpeg_extension(ext@),
{
    let cs = chars_of(ext);
    is_text(cs.as_slice(), "jpg") || is_text(cs.as_slice(), "jpeg")
}

/// What to do with an entry of a directory.
#[derive(Clone, Copy, PartialEq, Eq, Structural, Debug)]
pub enum EntryAction {
    /// Go through the directory.
    Descend,
    /// Take the image file.
    Take,
    /// Pass the entry over.
    Skip,
}

/// What to do with an entry: directories are gone through where that is asked for, and files are
/// taken that have the extension of an image.
pub open spec fn entry_action(
    is_dir: bool,
    is_file: bool,
    ext: Option<Seq<char>>,
    recursive: bool,
) -> EntryAction {
    if is_dir && recursive {
        EntryAction::Descend
    } else if is_file && image_extension(lowercase::lower_extension(ext)) {
        EntryAction::Take
    } else {
        EntryAction::Skip
    }
}

/// One step in collecting the image files of a directory: what to do with an entry.
pub fn collect_image_files(
    is_dir: bool,
    is_file: bool,
    extension: &Option<String>,
    recursive: bool,
) -> (r: EntryAction)
    ensures
        r == entry_action(is_dir, is_file, text::option_view(*extension), recursive),
{
    if is_dir && recursive {
        EntryAction::Descend
    } else if is_file && is_image_extension(small_extension(extension).as_str()) {
        EntryAction::Take
    } else {
        EntryAction::Skip
    }
}

/// The message about a path that is no directory.
pub fn not_a_directory(dir: &str) -> (r: String)
    ensures
        r@ == "'"@ + dir@ + "' is not a valid directory"@,
{
    let mut out = "'".to_owned();
    out.append(dir);
    out.append("' is not a valid directory");
    out
}

/// A name for the eye: with spaces for underscores and hyphens.
pub open spec fn displayed(name: Seq<char>) -> Seq<char> {
    name.map_values(
        |c: char|
            if c == '_' || c == '-' {
                ' '
            } else {
                c
            },
    )
}

/// A name for the eye: with spaces for underscores and hyphens.
pub fn display_name(name: &str) -> (r: String)
    ensures
        r@ == displayed(name@),
{
    let cs = chars_of(name);
    let mut out = String::new();
    let mut i: usize = 0;
    while i < cs.len()
        invariant
            i <= cs.len(),
            out@ == displayed(cs@.take(i as int)),
        decreases cs.len() - i,
    {
        let c = if cs[i] == '_' || cs[i] == '-' {
            ' '
        } else {
            cs[i]
        };
        out.push(c);
        i += 1;
        assert(displayed(cs@.take(i as int)) == displayed(cs@.take(i - 1)).push(c));
    }
    assert(cs@.take(i as int) == cs@);
    out
}

/// The photo made of an image and a video.
pub open spec fn photo_of(
    image: ImageFileView,
    video_path: Seq<char>,
    photo_type: Seq<char>,
) -> LivePhotoView {
    LivePhotoView {
        name: image.stem,
        display_name: displayed(image.stem),
        image_path: image.path,
        video_path,
        file_size: image.size,
        photo_type,
    }
}

pub(crate) fn make_photo(image: ImageFile, video_path: String, photo_type: &str) -> (r: LivePhoto)
    ensures
        r@ == photo_of(image@, video_path@, photo_type@),
{
    LivePhoto {
        display_name: display_name(image.stem.as_str()),
        name: image.stem,
        image_path: image.path,
        video_path,
        file_size: image.size,
        photo_type: photo_type.to_owned(),
    }
}

/// The file that would be the video of an image.
#[derive(PartialEq, Eq, Debug)]
pub enum Companion {
    /// The image's path with this extension in place of its own.
    Extension(&'static str),
    /// The file of this name in the image's directory.
    FileName(String),
}

/// `Companion` with its texts in characters.
pub enum CompanionView {
    Extension(Seq<char>),
    FileName(Seq<char>),
}

impl View for Companion {
    type V = CompanionView;

    open spec fn view(&self) -> CompanionView {
        match self {
            Companion::Extension(ext) => CompanionView::Extension(ext@),
            Companion::FileName(name) => CompanionView::FileName(name@),
        }
    }
}

/// The companion file with the extension `ext`, and the type of photo that it makes.
pub open spec fn by_extension(ext: Seq<char>, photo_type: Seq<char>) -> (CompanionView, Seq<char>) {
    (CompanionView::Extension(ext), photo_type)
}

/// The files that would be the video of an image, in the order in which they are looked for, each
/// with the type of photo that it makes. `ext` is the extension of the image, in small letters.
pub open spec fn candidates(stem: Seq<char>, ext: Seq<char>) -> Seq<(CompanionView, Seq<char>)> {
    seq![by_extension("mov"@, "live"@), by_extension("MOV"@, "live"@)]
        + (if thumbnail::needs_thumbnail(ext) {
        seq![by_extension("mp4"@, "huawei"@), by_extension("MP4"@, "huawei"@)]
    } else {
        seq![]
    }) + seq![
        by_extension("mp4"@, "motion"@),
        by_extension("MP4"@, "motion"@),
        by_extension("m4v"@, "motion"@),
        by_extension("M4V"@, "motion"@),
        (CompanionView::FileName(stem + "_motion.mp4"@), "samsung"@),
        (CompanionView::FileName(stem + "_motion.MP4"@), "samsung"@),
    ]
}

/// The candidate number `index` for the video of an image, with the type of photo that it makes.
pub fn candidate(stem: &str, ext: &str, index: usize) -> (r: Option<(Companion, &'static str)>)
    ensures
        r is Some <==> index < candidates(stem@, ext@).len(),
        r matches Some((companion, photo_type)) ==> (companion@, photo_type@) == candidates(
            stem@,
            ext@,
        )[index as int],
{
    if index == 0 {
        return Some((Companion::Extension("mov"), "live"));
    }
    if index == 1 {
        return Some((Companion::Extension("MOV"), "live"));
    }
    let heic = is_heic(ext);
    if heic && index == 2 {
        return Some((Companion::Extension("mp4"), "huawei"));
    }
    if heic && index == 3 {
        return Some((Companion::Extension("MP4"), "huawei"));
    }
    let rest: usize = if heic {
        index - 4
    } else {
        index - 2
    };
    if rest == 0 {
        Some((Companion::Extension("mp4"), "motion"))
    } else if rest == 1 {
        Some((Companion::Extension("MP4"), "motion"))
    } else if rest == 2 {
        Some((Companion::Extension("m4v"), "motion"))
    } else if rest == 3 {
        Some((Companion::Extension("M4V"), "motion"))
    } else if rest == 4 {
        Some((Companion::FileName(joined(stem, "_motion.mp4")), "samsung"))
    } else if rest == 5 {
        Some((Companion::FileName(joined(stem, "_motion.MP4")), "samsung"))
    } else {
        None
    }
}

/// Directories are gone through where that is asked for. Of the files those are taken whose
/// extension, in small letters, is one of the five of images; everything else is passed over.
pub proof fn law_entries_by_extension(is_dir: bool, is_file: bool, ext: Seq<char>, recursive: bool)
    ensures
        ({
            let small = lowercase::unicode_lowercase(ext);
            let image = small == "jpg"@ || small == "jpeg"@ || small == "heic"@ || small == "heif"@
                || small == "png"@;
            &&& entry_action(is_dir, is_file, Some(ext), recursive) == (if is_dir && recursive {
                EntryAction::Descend
            } else if is_file && image {
                EntryAction::Take
            } else {
                EntryAction::Skip
            })
            &&& entry_action(is_dir, is_file, None, recursive) == (if is_dir && recursive {
                EntryAction::Descend
            } else {
                EntryAction::Skip
            })
        }),
{
    reveal_strlit("jpg");
    reveal_strlit("jpeg");
    reveal_strlit("heic");
    reveal_strlit("heif");
    reveal_strlit("png");
    assert(lowercase::lower_extension(None).len() == 0);
    assert("jpg"@.len() > 0 && "jpeg"@.len() > 0 && "heic"@.len() > 0 && "heif"@.len() > 0
        && "png"@.len() > 0);
}

/// A shown name has a space for each underscore and each hyphen, and is otherwise the name.
pub proof fn law_shown_names(name: Seq<char>)
    ensures
        displayed(name).len() == name.len(),
        forall|i: int|
            0 <= i < name.len() ==> #[trigger] displayed(name)[i] == (if name[i] == '_' || name[i]
                == '-' {
                ' '
            } else {
                name[i]
            }),
{
}

/// A photo keeps the name, the path and the size of its image and the path of its video.
pub proof fn law_photo_keeps_its_files(
    image: ImageFileView,
    video_path: Seq<char>,
    photo_type: Seq<char>,
)
    ensures
        ({
            let photo = photo_of(image, video_path, photo_type);
            &&& photo.name == image.stem
            &&& photo.display_name == displayed(image.stem)
            &&& photo.image_path == image.path
            &&& photo.video_path == video_path
            &&& photo.file_size == image.size
            &&& photo.photo_type == photo_type
        }),
{
}

/// The companion files of an image are looked for in this order, each with this type.
pub proof fn law_companions_in_order(stem: Seq<char>, ext: Seq<char>)
    ensures
        ({
            let heic = ext == "heic"@ || ext == "heif"@;
            let all = candidates(stem, ext);
            let rest = all.skip(
                if heic {
                    4
                } else {
                    2
                },
            );
            &&& all.len() == (if heic {
                10int
            } else {
                8
            })
            &&& all[0] == (CompanionView::Extension("mov"@), "live"@)
            &&& all[1] == (CompanionView::Extension("MOV"@), "live"@)
            &&& heic ==> all[2] == (CompanionView::Extension("mp4"@), "huawei"@)
            &&& heic ==> all[3] == (CompanionView::Extension("MP4"@), "huawei"@)
            &&& rest[0] == (CompanionView::Extension("mp4"@), "motion"@)
            &&& rest[1] == (CompanionView::Extension("MP4"@), "motion"@)
            &&& rest[2] == (CompanionView::Extension("m4v"@), "motion"@)
            &&& rest[3] == (CompanionView::Extension("M4V"@), "motion"@)
            &&& rest[4] == (CompanionView::FileName(stem + "_motion.mp4"@), "samsung"@)
            &&& rest[5] == (CompanionView::FileName(stem + "_motion.MP4"@), "samsung"@)
        }),
{
}

} // verus!
