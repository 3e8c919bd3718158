//! Listing the live photos among image files, one step at a time.

use vstd::prelude::*;

use crate::lowercase;
use crate::lowercase::small_extension;
use crate::order;
use crate::photos;
use crate::photos::{
    candidate,
    is_image_extension,
    is_jpeg_extension,
    make_photo,
    not_a_directory,
    Companion,
    CompanionView,
    ImageFile,
    ImageFileView,
    LivePhoto,
    LivePhotoView,
};
use crate::walk;
use crate::xmp;

verus! {

broadcast use vstd::string::group_string_axioms;

/// How far the handling of an image has come.
#[derive(PartialEq, Eq, Debug)]
pub enum ListStage {
    /// An image is to come.
    Idle,
    /// The candidate number `index` for the video of `image` is looked for. `ext` is the
    /// extension of the image, in small letters.
    Probing { image: ImageFile, ext: String, index: usize },
    /// A video is looked for in the image file itself.
    Detecting(ImageFile),
    /// The video in the image file is extracted.
    Extracting { image: ImageFile, photo_type: &'static str },
}

/// The photos found so far, and how far the handling of the next image has come.
#[derive(PartialEq, Eq, Debug)]
pub struct Listing {
    pub photos: Vec<LivePhoto>,
    pub stage: ListStage,
}

/// What happened.
#[derive(PartialEq, Eq, Debug)]
pub enum ListEvent {
    /// This image file is next.
    Image(ImageFile),
    /// The companion file was looked for; it is at this path, or there is none.
    Probed(Option<String>),
    /// The image file was searched; a video of this type begins at this byte, or there is none.
    Detected(Option<(u64, &'static str)>),
    /// The video was extracted to this path.
    Extracted(String),
    /// The video could not be extracted, with this message.
    ExtractFailed(String),
}

/// What to do.
#[derive(PartialEq, Eq, Debug)]
pub enum ListAction {
    /// Take the next image file, or end the listing where there is none.
    NextImage,
    /// Look for this companion file of the image.
    Probe(Companion),
    /// Look for a video in the image file itself.
    Detect,
    /// Extract the video that begins at this byte of the image file.
    Extract(u64),
    /// Report this message, then take the next image file.
    Report(String),
}

/// `ListStage` with its texts in characters.
pub enum ListStageView {
    Idle,
    Probing { image: ImageFileView, ext: Seq<char>, index: nat },
    Detecting(ImageFileView),
    Extracting { image: ImageFileView, photo_type: Seq<char> },
}

impl View for ListStage {
    type V = ListStageView;

    open spec fn view(&self) -> ListStageView {
        match self {
            ListStage::Idle => ListStageView::Idle,
            ListStage::Probing { image, ext, index } => ListStageView::Probing {
                image: image@,
                ext: ext@,
                index: *index as nat,
            },
            ListStage::Detecting(image) => ListStageView::Detecting(image@),
            ListStage::Extracting { image, photo_type } => ListStageView::Extracting {
                image: image@,
                photo_type: photo_type@,
            },
        }
    }
}

/// `Listing` with its texts in characters.
pub struct ListingView {
    pub photos: Seq<LivePhotoView>,
    pub stage: ListStageView,
}

impl View for Listing {
    type V = ListingView;

    open spec fn view(&self) -> ListingView {
        ListingView { photos: photos::photos_view(self.photos@), stage: self.stage@ }
    }
}

/// `ListEvent` with its texts in characters.
pub enum ListEventView {
    Image(ImageFileView),
    Probed(Option<Seq<char>>),
    Detected(Option<(u64, Seq<char>)>),
    Extracted(Seq<char>),
    ExtractFailed(Seq<char>),
}

impl View for ListEvent {
    type V = ListEventView;

    open spec fn view(&self) -> ListEventView {
        match self {
            ListEvent::Image(image) => ListEventView::Image(image@),
            ListEvent::Probed(found) => ListEventView::Probed(crate::text::option_view(*found)),
            ListEvent::Detected(found) => ListEventView::Detected(xmp::offset_view(*found)),
            ListEvent::Extracted(path) => ListEventView::Extracted(path@),
            ListEvent::ExtractFailed(message) => ListEventView::ExtractFailed(message@),
        }
    }
}

/// `ListAction` with its texts in characters.
pub enum ListActionView {
    NextImage,
    Probe(CompanionView),
    Detect,
    Extract(u64),
    Report(Seq<char>),
}

impl View for ListAction {
    type V = ListActionView;

    open spec fn view(&self) -> ListActionView {
        match self {
            ListAction::NextImage => ListActionView::NextImage,
            ListAction::Probe(companion) => ListActionView::Probe(companion@),
            ListAction::Detect => ListActionView::Detect,
            ListAction::Extract(offset) => ListActionView::Extract(*offset),
            ListAction::Report(message) => ListActionView::Report(message@),
        }
    }
}

/// The listing with one more photo, ready for the next image.
pub open spec fn with_photo(photos: Seq<LivePhotoView>, photo: LivePhotoView) -> (
    ListingView,
    ListActionView,
) {
    (
        ListingView { photos: photos.push(photo), stage: ListStageView::Idle },
        ListActionView::NextImage,
    )
}

/// The listing as it is, ready for the next image.
pub open spec fn without_photo(photos: Seq<LivePhotoView>, action: ListActionView) -> (
    ListingView,
    ListActionView,
) {
    (ListingView { photos, stage: ListStageView::Idle }, action)
}

/// The message about a video that could not be extracted.
pub open spec fn extraction_failed(stem: Seq<char>, message: Seq<char>) -> Seq<char> {
    "[motion-photo] failed to extract '"@ + stem + "': "@ + message
}

/// What follows when the companion file number `index` is to be looked for. Behind the last of
/// them a JPEG file is searched itself.
pub open spec fn probe_from(
    photos: Seq<LivePhotoView>,
    image: ImageFileView,
    ext: Seq<char>,
    index: nat,
) -> (ListingView, ListActionView) {
    if index < photos::candidates(image.stem, ext).len() {
        (
            ListingView { photos, stage: ListStageView::Probing { image, ext, index } },
            ListActionView::Probe(photos::candidates(image.stem, ext)[index as int].0),
        )
    } else if photos::jpeg_extension(ext) {
        (ListingView { photos, stage: ListStageView::Detecting(image) }, ListActionView::Detect)
    } else {
        without_photo(photos, ListActionView::NextImage)
    }
}

/// The listing and the action that follow when `event` happens.
pub open spec fn list_step(listing: ListingView, event: ListEventView) -> (
    ListingView,
    ListActionView,
) {
    let photos = listing.photos;
    match (listing.stage, event) {
        (ListStageView::Idle, ListEventView::Image(image)) => {
            let ext = lowercase::lower_extension(image.extension);
            if photos::image_extension(ext) {
                probe_from(photos, image, ext, 0)
            } else {
                without_photo(photos, ListActionView::NextImage)
            }
        },
        (
            ListStageView::Probing { image, ext, index },
            ListEventView::Probed(Some(video_path)),
        ) => with_photo(
            photos,
            photos::photo_of(
                image,
                video_path,
                photos::candidates(image.stem, ext)[index as int].1,
            ),
        ),
        (ListStageView::Probing { image, ext, index }, ListEventView::Probed(None)) => probe_from(
            photos,
            image,
            ext,
            index + 1,
        ),
        (
            ListStageView::Detecting(image),
            ListEventView::Detected(Some((offset, photo_type))),
        ) => (
            ListingView { photos, stage: ListStageView::Extracting { image, photo_type } },
            ListActionView::Extract(offset),
        ),
        (
            ListStageView::Extracting { image, photo_type },
            ListEventView::Extracted(video_path),
        ) => with_photo(photos, photos::photo_of(image, video_path, photo_type)),
        (
            ListStageView::Extracting { image, photo_type },
            ListEventView::ExtractFailed(message),
        ) => without_photo(
            photos,
            ListActionView::Report(extraction_failed(image.stem, message)),
        ),
        _ => without_photo(photos, ListActionView::NextImage),
    }
}

/// `event` can happen when `listing` has come this far.
pub open spec fn list_ready(listing: ListingView, event: ListEventView) -> bool {
    match listing.stage {
        ListStageView::Idle => event is Image,
        ListStageView::Probing { image, ext, index } => event is Probed && index
            < photos::candidates(image.stem, ext).len(),
        ListStageView::Detecting(_) => event is Detected,
        ListStageView::Extracting { image, photo_type } => event is Extracted
            || event is ExtractFailed,
    }
}

impl Listing {
    /// The start of a listing.
    pub fn new() -> (r: Listing)
        ensures
            r.photos@ == Seq::<LivePhoto>::empty(),
            r.stage@ == ListStageView::Idle,
    {
        Listing { photos: Vec::new(), stage: ListStage::Idle }
    }
}

/// The start of listing the photos in the directory `dir`, where it is one, or the message that it
/// is none.
pub fn start_listing(dir: &str, is_dir: bool) -> (r: Result<Listing, String>)
    ensures
        r is Err <==> !is_dir,
        r matches Err(message) ==> message@ == "'"@ + dir@ + "' is not a valid directory"@,
        r matches Ok(listing) ==> listing@ == (ListingView {
            photos: seq![],
            stage: ListStageView::Idle,
        }),
{
    if is_dir {
        let listing = Listing::new();
        assert(photos::photos_view(listing.photos@) == Seq::<LivePhotoView>::empty());
        Ok(listing)
    } else {
        Err(not_a_directory(dir))
    }
}

fn push_photo(photos: Vec<LivePhoto>, photo: LivePhoto) -> (r: Vec<LivePhoto>)
    ensures
        photos::photos_view(r@) == photos::photos_view(photos@).push(photo@),
{
    let mut out = photos;
    out.push(photo);
    assert(photos::photos_view(out@) == photos::photos_view(photos@).push(photo@));
    out
}

fn probe_at(photos: Vec<LivePhoto>, image: ImageFile, ext: String, index: usize) -> (r: (
    Listing,
    ListAction,
))
    ensures
        (r.0@, r.1@) == probe_from(photos::photos_view(photos@), image@, ext@, index as nat),
{
    match candidate(image.stem.as_str(), ext.as_str(), index) {
        Some((companion, _)) => (
            Listing { photos, stage: ListStage::Probing { image, ext, index } },
            ListAction::Probe(companion),
        ),
        None => {
            if is_jpeg_extension(ext.as_str()) {
                (Listing { photos, stage: ListStage::Detecting(image) }, ListAction::Detect)
            } else {
                (Listing { photos, stage: ListStage::Idle }, ListAction::NextImage)
            }
        },
    }
}

/// One step in listing live photos: what to do when `event` happens.
pub fn list_live_photos(listing: Listing, event: ListEvent) -> (r: (Listing, ListAction))
    requires
        list_ready(listing@, event@),
    ensures
        (r.0@, r.1@) == list_step(listing@, event@),
{
    let photos = listing.photos;
    match (listing.stage, event) {
        (ListStage::Idle, ListEvent::Image(image)) => {
            let ext = small_extension(&image.extension);
            if is_image_extension(ext.as_str()) {
                probe_at(photos, image, ext, 0)
            } else {
                (Listing { photos, stage: ListStage::Idle }, ListAction::NextImage)
            }
        },
        (ListStage::Probing { image, ext, index }, ListEvent::Probed(Some(video_path))) => {
            let photo_type = match candidate(image.stem.as_str(), ext.as_str(), index) {
                Some((_, photo_type)) => photo_type,
                None => "",
            };
            let photo = make_photo(image, video_path, photo_type);
            (
                Listing { photos: push_photo(photos, photo), stage: ListStage::Idle },
                ListAction::NextImage,
            )
        },
        (ListStage::Probing { image, ext, index }, ListEvent::Probed(None)) => {
            proof {
                assert(photos::candidates(image.stem@, ext@).len() <= 10);
            }
            probe_at(photos, image, ext, index + 1)
        },
        (ListStage::Detecting(image), ListEvent::Detected(Some((offset, photo_type)))) => (
            Listing { photos, stage: ListStage::Extracting { image, photo_type } },
            ListAction::Extract(offset),
        ),
        (ListStage::Extracting { image, photo_type }, ListEvent::Extracted(video_path)) => {
            let photo = make_photo(image, video_path, photo_type);
            (
                Listing { photos: push_photo(photos, photo), stage: ListStage::Idle },
                ListAction::NextImage,
            )
        },
        (ListStage::Extracting { image, photo_type: _ }, ListEvent::ExtractFailed(message)) => {
            let mut report = "[motion-photo] failed to extract '".to_owned();
            report.append(image.stem.as_str());
            report.append("': ");
            report.append(message.as_str());
            (Listing { photos, stage: ListStage::Idle }, ListAction::Report(report))
        },
        _ => (Listing { photos, stage: ListStage::Idle }, ListAction::NextImage),
    }
}

/// `event` can come of performing `action`.
pub open spec fn comes_of(action: ListActionView, event: ListEventView) -> bool {
    match action {
        ListActionView::NextImage | ListActionView::Report(_) => event is Image,
        ListActionView::Probe(_) => event is Probed,
        ListActionView::Detect => event is Detected,
        ListActionView::Extract(_) => event is Extracted || event is ExtractFailed,
    }
}

/// Whatever comes of an action, the listing can go on with it.
pub proof fn law_listing_goes_on(listing: ListingView, event: ListEventView, next: ListEventView)
    requires
        list_ready(listing, event),
        comes_of(list_step(listing, event).1, next),
    ensures
        list_ready(list_step(listing, event).0, next),
{
}

/// What there is to find for an image: where each companion file is, what the search of the image
/// file itself gives, and what extracting the video that begins at a byte gives, a path or a message.
pub struct Findings {
    pub companion: spec_fn(CompanionView) -> Option<Seq<char>>,
    pub embedded: Option<(u64, Seq<char>)>,
    pub extracted: spec_fn(u64) -> Result<Seq<char>, Seq<char>>,
}

/// The first of the candidates from number `index` on that is there: its path, and the type of
/// photo that it makes.
pub open spec fn first_there(
    candidates: Seq<(CompanionView, Seq<char>)>,
    findings: Findings,
    index: int,
) -> Option<(Seq<char>, Seq<char>)>
    decreases candidates.len() - index,
{
    if index < 0 || index >= candidates.len() {
        None
    } else {
        match (findings.companion)(candidates[index].0) {
            Some(path) => Some((path, candidates[index].1)),
            None => first_there(candidates, findings, index + 1),
        }
    }
}

/// The photo that an image with the extension `ext` makes when no companion file before number
/// `index` is there: with the first that is there, or else, for a JPEG file, with the video in it.
pub open spec fn photo_from(
    image: ImageFileView,
    ext: Seq<char>,
    findings: Findings,
    index: int,
) -> Option<LivePhotoView> {
    match first_there(photos::candidates(image.stem, ext), findings, index) {
        Some((path, photo_type)) => Some(photos::photo_of(image, path, photo_type)),
        None => match findings.embedded {
            Some((offset, photo_type)) => match (findings.extracted)(offset) {
                Ok(path) => if photos::jpeg_extension(ext) {
                    Some(photos::photo_of(image, path, photo_type))
                } else {
                    None
                },
                Err(_) => None,
            },
            None => None,
        },
    }
}

/// The photo that an image makes, if it makes one.
pub open spec fn photo_made(image: ImageFileView, findings: Findings) -> Option<LivePhotoView> {
    let ext = lowercase::lower_extension(image.extension);
    if photos::image_extension(ext) {
        photo_from(image, ext, findings, 0)
    } else {
        None
    }
}

/// What happens when an action is performed.
pub open spec fn outcome(action: ListActionView, findings: Findings) -> ListEventView {
    match action {
        ListActionView::Probe(companion) => ListEventView::Probed(
            (findings.companion)(companion),
        ),
        ListActionView::Extract(offset) => match (findings.extracted)(offset) {
            Ok(path) => ListEventView::Extracted(path),
            Err(message) => ListEventView::ExtractFailed(message),
        },
        _ => ListEventView::Detected(findings.embedded),
    }
}

/// The listing and the action after performing actions up to the next image, at most `steps`.
pub open spec fn run(
    at: (ListingView, ListActionView),
    findings: Findings,
    steps: nat,
) -> (ListingView, ListActionView)
    decreases steps,
{
    match at.1 {
        ListActionView::NextImage => at,
        ListActionView::Report(_) => at,
        _ => if steps == 0 {
            at
        } else {
            run(list_step(at.0, outcome(at.1, findings)), findings, (steps - 1) as nat)
        },
    }
}

/// The photos with one more, where there is one more.
pub open spec fn extended(photos: Seq<LivePhotoView>, photo: Option<LivePhotoView>) -> Seq<
    LivePhotoView,
> {
    match photo {
        Some(photo) => photos.push(photo),
        None => photos,
    }
}

proof fn lemma_run_from(
    photos: Seq<LivePhotoView>,
    image: ImageFileView,
    ext: Seq<char>,
    index: nat,
    findings: Findings,
    steps: nat,
)
    requires
        index <= photos::candidates(image.stem, ext).len(),
        steps >= photos::candidates(image.stem, ext).len() - index + 2,
    ensures
        ({
            let end = run(probe_from(photos, image, ext, index), findings, steps);
            &&& end.0 == ListingView {
                photos: extended(photos, photo_from(image, ext, findings, index as int)),
                stage: ListStageView::Idle,
            }
            &&& end.1 is NextImage || end.1 is Report
        }),
    decreases photos::candidates(image.stem, ext).len() - index,
{
    let candidates = photos::candidates(image.stem, ext);
    reveal_with_fuel(run, 3);
    if index < candidates.len() {
        if (findings.companion)(candidates[index as int].0) is None {
            lemma_run_from(photos, image, ext, index + 1, findings, (steps - 1) as nat);
        }
    }
}

/// An image adds to the listing the photo that it makes and nothing else, and the listing is then
/// ready for the next image.
pub proof fn law_image_adds_its_photo(
    photos: Seq<LivePhotoView>,
    image: ImageFileView,
    findings: Findings,
)
    ensures
        ({
            let start = ListingView { photos, stage: ListStageView::Idle };
            let end = run(list_step(start, ListEventView::Image(image)), findings, 12);
            &&& end.0 == ListingView {
                photos: extended(photos, photo_made(image, findings)),
                stage: ListStageView::Idle,
            }
            &&& end.1 is NextImage || end.1 is Report
        }),
{
    let ext = lowercase::lower_extension(image.extension);
    if photos::image_extension(ext) {
        lemma_run_from(photos, image, ext, 0, findings, 12);
    }
}

/// The extensions of the video files that are paired with an image of the same name.
pub open spec fn video_extension(ext: Seq<char>) -> bool {
    ext == "mov"@ || ext == "MOV"@ || ext == "mp4"@ || ext == "MP4"@ || ext == "m4v"@ || ext
        == "M4V"@
}

proof fn lemma_there(
    candidates: Seq<(CompanionView, Seq<char>)>,
    findings: Findings,
    index: int,
    at: int,
)
    requires
        0 <= index <= at < candidates.len(),
        (findings.companion)(candidates[at].0) is Some,
    ensures
        exists|k: int|
            index <= k <= at && first_there(candidates, findings, index) == Some(
                (
                    (findings.companion)((#[trigger] candidates[k]).0)->0,
                    candidates[k].1,
                ),
            ) && (findings.companion)(candidates[k].0) is Some,
    decreases at - index,
{
    if (findings.companion)(candidates[index].0) is None {
        lemma_there(candidates, findings, index + 1, at);
    }
}

/// An image makes a live photo when a video file of the same name is in the same directory; the
/// video of the photo is such a file.
pub proof fn law_same_name_makes_a_photo(
    image: ImageFileView,
    video: Seq<char>,
    findings: Findings,
)
    requires
        photos::image_extension(lowercase::lower_extension(image.extension)),
        video_extension(video),
        (findings.companion)(CompanionView::Extension(video)) is Some,
    ensures
        photo_made(image, findings) is Some,
        photo_made(image, findings)->0.name == image.stem,
        photo_made(image, findings)->0.image_path == image.path,
        exists|ext: Seq<char>|
            video_extension(ext) && (#[trigger] (findings.companion)(CompanionView::Extension(ext)))
                == Some(photo_made(image, findings)->0.video_path),
{
    let ext = lowercase::lower_extension(image.extension);
    let candidates = photos::candidates(image.stem, ext);
    let base: int = if crate::thumbnail::needs_thumbnail(ext) {
        4
    } else {
        2
    };
    let at: int = if video == "mov"@ {
        0
    } else if video == "MOV"@ {
        1
    } else if video == "mp4"@ {
        base
    } else if video == "MP4"@ {
        base + 1
    } else if video == "m4v"@ {
        base + 2
    } else {
        base + 3
    };
    assert(candidates[at].0 == CompanionView::Extension(video));
    lemma_there(candidates, findings, 0, at);
    let k = choose|k: int|
        0 <= k <= at && first_there(candidates, findings, 0) == Some(
            ((findings.companion)((#[trigger] candidates[k]).0)->0, candidates[k].1),
        ) && (findings.companion)(candidates[k].0) is Some;
    let ext_k = candidates[k].0->Extension_0;
    assert(candidates[k].0 == CompanionView::Extension(ext_k) && video_extension(ext_k));
}

/// A `.mov` file makes a photo of the type `live`, whatever other videos there are.
pub proof fn law_mov_comes_first(image: ImageFileView, findings: Findings)
    requires
        photos::image_extension(lowercase::lower_extension(image.extension)),
        (findings.companion)(CompanionView::Extension("mov"@)) is Some,
    ensures
        photo_made(image, findings) == Some(
            photos::photo_of(
                image,
                (findings.companion)(CompanionView::Extension("mov"@))->0,
                "live"@,
            ),
        ),
{
    let ext = lowercase::lower_extension(image.extension);
    assert(photos::candidates(image.stem, ext)[0] == photos::by_extension("mov"@, "live"@));
}

/// Only a JPEG file can make a photo without a companion file.
pub proof fn law_only_jpeg_files_hold_videos(image: ImageFileView, findings: Findings)
    requires
        forall|companion: CompanionView| (#[trigger] (findings.companion)(companion)) is None,
        photo_made(image, findings) is Some,
    ensures
        photos::jpeg_extension(lowercase::lower_extension(image.extension)),
        findings.embedded is Some,
        findings.embedded matches Some((offset, _)) ==> (findings.extracted)(offset) is Ok,
{
    let ext = lowercase::lower_extension(image.extension);
    lemma_none_there(photos::candidates(image.stem, ext), findings, 0);
}

proof fn lemma_none_there(
    candidates: Seq<(CompanionView, Seq<char>)>,
    findings: Findings,
    index: int,
)
    requires
        forall|companion: CompanionView| (#[trigger] (findings.companion)(companion)) is None,
    ensures
        first_there(candidates, findings, index) is None,
    decreases candidates.len() - index,
{
    if 0 <= index < candidates.len() {
        lemma_none_there(candidates, findings, index + 1);
    }
}

/// The photos that images make, in the order of the images. Each image comes with what there is to
/// find for it.
pub open spec fn photos_made(images: Seq<(ImageFileView, Findings)>) -> Seq<LivePhotoView>
    decreases images.len(),
{
    if images.len() == 0 {
        seq![]
    } else {
        extended(
            photos_made(images.drop_last()),
            photo_made(images.last().0, images.last().1),
        )
    }
}

/// The listing after handling images one after the other.
pub open spec fn listed(images: Seq<(ImageFileView, Findings)>) -> ListingView
    decreases images.len(),
{
    if images.len() == 0 {
        ListingView { photos: seq![], stage: ListStageView::Idle }
    } else {
        run(
            list_step(listed(images.drop_last()), ListEventView::Image(images.last().0)),
            images.last().1,
            12,
        ).0
    }
}

/// A listing holds the photos that the images make, one for each image that makes one, in the order
/// of the images.
pub proof fn law_every_image_is_listed(images: Seq<(ImageFileView, Findings)>)
    ensures
        listed(images) == (ListingView { photos: photos_made(images), stage: ListStageView::Idle }),
    decreases images.len(),
{
    if images.len() > 0 {
        law_every_image_is_listed(images.drop_last());
        law_image_adds_its_photo(
            photos_made(images.drop_last()),
            images.last().0,
            images.last().1,
        );
    }
}

/// The image files that are collected from a directory, each with what there is to find for it.
pub open spec fn found_in(
    entries: Seq<walk::Entry>,
    recursive: bool,
    findings: spec_fn(ImageFileView) -> Findings,
) -> Seq<(ImageFileView, Findings)> {
    walk::walk(entries, recursive).map_values(|image: ImageFileView| (image, findings(image)))
}

/// The image at `position` makes the photo `photo`.
pub open spec fn makes_photo(
    entries: Seq<walk::Entry>,
    position: Seq<int>,
    findings: spec_fn(ImageFileView) -> Findings,
    photo: LivePhotoView,
) -> bool {
    match walk::file_at(entries, position) {
        Some(image) => photo_made(image, findings(image)) == Some(photo),
        None => false,
    }
}

proof fn lemma_made_by(images: Seq<(ImageFileView, Findings)>, photo: LivePhotoView)
    ensures
        photos_made(images).contains(photo) <==> exists|k: int|
            0 <= k < images.len() && photo_made((#[trigger] images[k]).0, images[k].1) == Some(
                photo,
            ),
    decreases images.len(),
{
    if images.len() > 0 {
        let before = images.drop_last();
        let n = images.len() - 1;
        lemma_made_by(before, photo);
        let earlier = photos_made(before);
        let all = photos_made(images);
        if earlier.contains(photo) {
            let k = choose|k: int|
                0 <= k < before.len() && photo_made((#[trigger] before[k]).0, before[k].1) == Some(
                    photo,
                );
            assert(images[k] == before[k]);
            let j = choose|j: int| 0 <= j < earlier.len() && earlier[j] == photo;
            assert(all[j] == photo);
        }
        if photo_made(images[n].0, images[n].1) == Some(photo) {
            assert(all[earlier.len() as int] == photo);
        }
        if all.contains(photo) && !earlier.contains(photo) {
            let j = choose|j: int| 0 <= j < all.len() && all[j] == photo;
            if j < earlier.len() {
                assert(earlier[j] == photo);
            }
            assert(photo_made(images[n].0, images[n].1) == Some(photo));
        }
        if exists|k: int|
            0 <= k < images.len() && photo_made((#[trigger] images[k]).0, images[k].1) == Some(
                photo,
            ) {
            let k = choose|k: int|
                0 <= k < images.len() && photo_made((#[trigger] images[k]).0, images[k].1) == Some(
                    photo,
                );
            if k < n {
                assert(before[k] == images[k]);
            }
        }
    }
}

/// The answer for a directory, which is what sorting gives of the listing of its image files, holds
/// the photos that the images in it make, those of the images directly in it or, where asked for,
/// at any depth, and no others, in the order of their names. Where no image makes a photo the
/// answer is empty.
pub proof fn law_directory_is_answered(
    entries: Seq<walk::Entry>,
    recursive: bool,
    findings: spec_fn(ImageFileView) -> Findings,
    answer: Seq<LivePhotoView>,
)
    requires
        order::in_name_order(listed(found_in(entries, recursive, findings)).photos, answer),
    ensures
        answer.to_multiset() == photos_made(found_in(entries, recursive, findings)).to_multiset(),
        forall|photo: LivePhotoView| #[trigger]
            answer.contains(photo) <==> exists|position: Seq<int>| #[trigger]
                walk::wanted_at(entries, recursive, position) && makes_photo(
                    entries,
                    position,
                    findings,
                    photo,
                ),
        forall|i: int, j: int|
            0 <= i < j < answer.len() ==> !order::comes_before(
                lowercase::unicode_lowercase((#[trigger] answer[j]).name),
                lowercase::unicode_lowercase((#[trigger] answer[i]).name),
            ),
{
    broadcast use vstd::seq_lib::group_to_multiset_ensures;

    let images = found_in(entries, recursive, findings);
    let files = walk::walk(entries, recursive);
    law_every_image_is_listed(images);
    order::law_sorting_keeps_photos(photos_made(images), answer);
    walk::law_every_image_is_collected(entries, recursive);
    let positions = choose|positions: Seq<Seq<int>>|
        walk::stand_at(entries, recursive, files, positions);
    assert forall|photo: LivePhotoView| #[trigger]
        answer.contains(photo) <==> exists|position: Seq<int>| #[trigger]
            walk::wanted_at(entries, recursive, position) && makes_photo(
                entries,
                position,
                findings,
                photo,
            ) by {
        lemma_made_by(images, photo);
        assert(answer.contains(photo) <==> answer.to_multiset().count(photo) > 0);
        assert(photos_made(images).contains(photo) <==> photos_made(images).to_multiset().count(
            photo,
        ) > 0);
        if answer.contains(photo) {
            let k = choose|k: int|
                0 <= k < images.len() && photo_made((#[trigger] images[k]).0, images[k].1) == Some(
                    photo,
                );
            assert(images[k].0 == files[k]);
            assert(positions.contains(positions[k]));
            assert(walk::wanted_at(entries, recursive, positions[k]));
            assert(makes_photo(entries, positions[k], findings, photo));
        }
        if exists|position: Seq<int>| #[trigger]
            walk::wanted_at(entries, recursive, position) && makes_photo(
                entries,
                position,
                findings,
                photo,
            ) {
            let position = choose|position: Seq<int>| #[trigger]
                walk::wanted_at(entries, recursive, position) && makes_photo(
                    entries,
                    position,
                    findings,
                    photo,
                );
            assert(positions.contains(position));
            let k = choose|k: int| 0 <= k < positions.len() && positions[k] == position;
            assert(walk::file_at(entries, positions[k]) == Some(files[k]));
            assert(images[k].0 == files[k]);
        }
    }
}

/// Where the search of an image file gives that a video begins at some byte, the extraction of the
/// video that begins at exactly that byte is asked for, and the photo that comes of it has the type
/// that the search gave and the path that the extraction gave.
pub proof fn law_video_is_cut_where_it_begins(
    photos: Seq<LivePhotoView>,
    image: ImageFileView,
    start: u64,
    photo_type: Seq<char>,
    video_path: Seq<char>,
)
    ensures
        ({
            let searching = ListingView { photos, stage: ListStageView::Detecting(image) };
            let (cutting, action) = list_step(
                searching,
                ListEventView::Detected(Some((start, photo_type))),
            );
            let (done, last) = list_step(cutting, ListEventView::Extracted(video_path));
            &&& action == ListActionView::Extract(start)
            &&& cutting.photos == photos
            &&& last == ListActionView::NextImage
            &&& done.photos.drop_last() == photos
            &&& done.photos.last().name == image.stem
            &&& done.photos.last().image_path == image.path
            &&& done.photos.last().video_path == video_path
            &&& done.photos.last().file_size == image.size
            &&& done.photos.last().photo_type == photo_type
        }),
{
    let searching = ListingView { photos, stage: ListStageView::Detecting(image) };
    let (cutting, action) = list_step(searching, ListEventView::Detected(Some((start, photo_type))));
    let (done, last) = list_step(cutting, ListEventView::Extracted(video_path));
    assert(done.photos.drop_last() =~= photos);
}

/// A search that finds nothing and an extraction that fails leave the photos as they are; the failure
/// is reported with the name of the image and the message.
pub proof fn law_failures_add_no_photo(
    photos: Seq<LivePhotoView>,
    image: ImageFileView,
    photo_type: Seq<char>,
    message: Seq<char>,
)
    ensures
        list_step(
            ListingView { photos, stage: ListStageView::Detecting(image) },
            ListEventView::Detected(None),
        ) == (
            ListingView { photos, stage: ListStageView::Idle },
            ListActionView::NextImage,
        ),
        list_step(
            ListingView { photos, stage: ListStageView::Extracting { image, photo_type } },
            ListEventView::ExtractFailed(message),
        ) == (
            ListingView { photos, stage: ListStageView::Idle },
            ListActionView::Report(
                "[motion-photo] failed to extract '"@ + image.stem + "': "@ + message,
            ),
        ),
{
}

/// The video of an image is the first that is there of: a `.mov` file, for a HEIC image an `.mp4`
/// file, an `.mp4` or `.m4v` file, a file with `_motion` behind the name, and for a JPEG file the
/// video in it. The type of the photo says which it is. Other files than images make no photo.
pub proof fn law_pairing_order(image: ImageFileView, ext: Seq<char>, findings: Findings)
    requires
        image.extension == Some(ext),
    ensures
        ({
            let small = lowercase::unicode_lowercase(ext);
            let beside = |e: Seq<char>| (findings.companion)(CompanionView::Extension(e));
            let named = |e: Seq<char>| (findings.companion)(CompanionView::FileName(image.stem + e));
            let heic = small == "heic"@ || small == "heif"@;
            let jpeg = small == "jpg"@ || small == "jpeg"@;
            let (start, vendor) = findings.embedded->0;
            let with = |path: Option<Seq<char>>, photo_type: Seq<char>|
                Some(
                    LivePhotoView {
                        name: image.stem,
                        display_name: photos::displayed(image.stem),
                        image_path: image.path,
                        video_path: path->0,
                        file_size: image.size,
                        photo_type,
                    },
                );
            photo_made(image, findings) == (if !(jpeg || heic || small == "png"@) {
                None
            } else if beside("mov"@) is Some {
                with(beside("mov"@), "live"@)
            } else if beside("MOV"@) is Some {
                with(beside("MOV"@), "live"@)
            } else if heic && beside("mp4"@) is Some {
                with(beside("mp4"@), "huawei"@)
            } else if heic && beside("MP4"@) is Some {
                with(beside("MP4"@), "huawei"@)
            } else if beside("mp4"@) is Some {
                with(beside("mp4"@), "motion"@)
            } else if beside("MP4"@) is Some {
                with(beside("MP4"@), "motion"@)
            } else if beside("m4v"@) is Some {
                with(beside("m4v"@), "motion"@)
            } else if beside("M4V"@) is Some {
                with(beside("M4V"@), "motion"@)
            } else if named("_motion.mp4"@) is Some {
                with(named("_motion.mp4"@), "samsung"@)
            } else if named("_motion.MP4"@) is Some {
                with(named("_motion.MP4"@), "samsung"@)
            } else if jpeg && findings.embedded is Some && (findings.extracted)(start) is Ok {
                with(Some((findings.extracted)(start)->Ok_0), vendor)
            } else {
                None
            })
        }),
{
    reveal_with_fuel(first_there, 11);
}

/// An image without an extension makes no photo.
pub proof fn law_no_extension_no_photo(image: ImageFileView, findings: Findings)
    requires
        image.extension is None,
    ensures
        photo_made(image, findings) is None,
{
    reveal_strlit("jpg");
    reveal_strlit("jpeg");
    reveal_strlit("heic");
    reveal_strlit("heif");
    reveal_strlit("png");
    let ext = lowercase::lower_extension(image.extension);
    assert(ext.len() == 0);
    assert("jpg"@.len() > 0 && "jpeg"@.len() > 0 && "heic"@.len() > 0 && "heif"@.len() > 0
        && "png"@.len() > 0);
}

/// A listing that waits for an image takes an image, one that looks for a companion file takes the
/// outcome of that, and so on; nothing else.
pub proof fn law_what_a_listing_takes(
    photos: Seq<LivePhotoView>,
    image: ImageFileView,
    ext: Seq<char>,
    index: nat,
    photo_type: Seq<char>,
    event: ListEventView,
)
    ensures
        ({
            let ready = |stage: ListStageView| list_ready(ListingView { photos, stage }, event);
            let count = if ext == "heic"@ || ext == "heif"@ {
                10nat
            } else {
                8nat
            };
            &&& ready(ListStageView::Idle) <==> event is Image
            &&& ready(ListStageView::Probing { image, ext, index }) <==> event is Probed && index
                < count
            &&& ready(ListStageView::Detecting(image)) <==> event is Detected
            &&& ready(ListStageView::Extracting { image, photo_type }) <==> event is Extracted
                || event is ExtractFailed
        }),
{
}

} // verus!
