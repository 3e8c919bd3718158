//! Preview frames of a video: which files hold them, and how they come to be.

use vstd::prelude::*;

use crate::number;
use crate::number::push_padded_decimal;
use crate::text;
use crate::tools;
use crate::tools::{ffmpeg_frame_args, gst_frame_args};

verus! {

broadcast use vstd::string::group_string_axioms;

/// The pattern by which the decoders name the files of frames.
pub const FRAME_PATTERN: &'static str = "f%05d.jpg";

/// The name of the file with the frame number `i`.
pub open spec fn frame_name(i: nat) -> Seq<char> {
    "f"@ + number::padded_decimal(i, 5) + ".jpg"@
}

/// The name of the file with the frame number `i`.
pub fn frame_file_name(i: u64) -> (r: String)
    ensures
        r@ == frame_name(i as nat),
{
    let mut out = "f".to_owned();
    push_padded_decimal(&mut out, i, 5);
    out.append(".jpg");
    out
}

/// A search for the frames of a video among numbered files.
#[derive(PartialEq, Eq, Debug)]
pub struct FrameScan {
    /// How many frames are wanted.
    pub max: u32,
    /// The number of the file to look for next.
    pub next: u64,
    /// The paths of the frames found so far.
    pub frames: Vec<String>,
}

impl FrameScan {
    /// The search has taken no more frames than wanted, and has looked at no more numbers than
    /// four for each of them.
    pub open spec fn wf(&self) -> bool {
        &&& self.frames@.len() <= self.max
        &&& self.frames@.len() <= self.next <= 4 * self.max
    }

    /// The search is not at its end: more frames are wanted, and there are numbers to look at.
    pub open spec fn goes_on(&self) -> bool {
        self.next < 4 * self.max && self.frames@.len() < self.max
    }

    /// The start of a search for `max` frames.
    pub fn new(max: u32) -> (r: FrameScan)
        ensures
            r.wf(),
            r.max == max,
            r.next == 0,
            r.frames@ == Seq::<String>::empty(),
    {
        FrameScan { max, next: 0, frames: Vec::new() }
    }

    /// The name of the file to look for next; none at the end of the search.
    pub fn file_name(&self) -> (r: Option<String>)
        requires
            self.wf(),
        ensures
            r is Some <==> self.goes_on(),
            r matches Some(name) ==> name@ == frame_name(self.next as nat),
    {
        if self.next < 4 * self.max as u64 && self.frames.len() < self.max as usize {
            Some(frame_file_name(self.next))
        } else {
            None
        }
    }
}

/// One step in the search for frames: the file that was looked for is at `found`, or there is none.
pub fn collect_frames(scan: FrameScan, found: Option<String>) -> (r: FrameScan)
    requires
        scan.wf(),
        scan.goes_on(),
    ensures
        r.wf(),
        r.max == scan.max,
        r.next == scan.next + 1,
        r.frames@ == (match found {
            Some(path) => scan.frames@.push(path),
            None => scan.frames@,
        }),
{
    let mut scan = scan;
    scan.next = scan.next + 1;
    if let Some(path) = found {
        scan.frames.push(path);
    }
    scan
}

/// The paths among the outcomes of looking for files.
pub open spec fn found_among(outcomes: Seq<Option<String>>) -> Seq<String>
    decreases outcomes.len(),
{
    if outcomes.len() == 0 {
        seq![]
    } else {
        match outcomes.last() {
            Some(path) => found_among(outcomes.drop_last()).push(path),
            None => found_among(outcomes.drop_last()),
        }
    }
}

/// `scans` are the states of a search for `max` frames, from the first on, in which looking for the
/// files gave `outcomes`.
pub open spec fn search(max: u32, scans: Seq<FrameScan>, outcomes: Seq<Option<String>>) -> bool {
    &&& scans.len() == outcomes.len() + 1
    &&& scans[0].max == max && scans[0].next == 0 && scans[0].frames@ == Seq::<String>::empty()
    &&& forall|i: int|
        0 <= i < outcomes.len() ==> {
            &&& (#[trigger] scans[i]).goes_on()
            &&& scans[i + 1].max == scans[i].max
            &&& scans[i + 1].next == scans[i].next + 1
            &&& scans[i + 1].frames@ == (match outcomes[i] {
                Some(path) => scans[i].frames@.push(path),
                None => scans[i].frames@,
            })
        }
}

/// A search gives the frames that are there, in the order of their numbers and no more than are
/// wanted, and ends when enough are found or four numbers for each have been looked at.
pub proof fn law_frames_in_order(
    max: u32,
    scans: Seq<FrameScan>,
    outcomes: Seq<Option<String>>,
)
    requires
        search(max, scans, outcomes),
    ensures
        scans.last().max == max,
        scans.last().frames@ == found_among(outcomes),
        scans.last().next == outcomes.len(),
        found_among(outcomes).len() <= max,
        outcomes.len() <= 4 * max,
        !scans.last().goes_on() <==> found_among(outcomes).len() == max || outcomes.len() == 4
            * max,
    decreases outcomes.len(),
{
    if outcomes.len() > 0 {
        let n = outcomes.len() - 1;
        let before = scans.take(n + 1);
        assert(scans[n].goes_on());
        assert(search(max, before, outcomes.drop_last())) by {
            assert forall|i: int| 0 <= i < n implies {
                &&& (#[trigger] before[i]).goes_on()
                &&& before[i + 1].max == before[i].max
                &&& before[i + 1].next == before[i].next + 1
                &&& before[i + 1].frames@ == (match outcomes.drop_last()[i] {
                    Some(path) => before[i].frames@.push(path),
                    None => before[i].frames@,
                })
            } by {
                assert(scans[i].goes_on());
            }
        }
        law_frames_in_order(max, before, outcomes.drop_last());
        assert(before.last() == scans[n]);
    }
}

/// What happened in extracting frames.
#[derive(PartialEq, Eq, Debug)]
pub enum FramesEvent {
    /// The cache was searched; these frames are in it.
    Cached(Vec<String>),
    /// The cache directory was made.
    DirMade,
    /// The cache directory could not be made, with this message.
    DirFailed(String),
    /// `ffmpeg` ran; these frames are in the cache.
    FfmpegRan(Vec<String>),
    /// `ffmpeg` could not be started.
    FfmpegFailed,
    /// `gst-launch-1.0` ran and ended with this status and this error output; these frames are in
    /// the cache.
    GstRan { frames: Vec<String>, status: String, stderr: String },
    /// `gst-launch-1.0` could not be started, with this message.
    GstFailed(String),
}

/// What to do in extracting frames.
#[derive(PartialEq, Eq, Debug)]
pub enum FramesAction {
    /// Give these frames.
    Give(Vec<String>),
    /// Make the cache directory.
    MakeDir,
    /// Run `ffmpeg` with these arguments.
    RunFfmpeg(Vec<String>),
    /// Run `gst-launch-1.0` with these arguments.
    RunGst(Vec<String>),
    /// Fail with this message.
    Fail(String),
}

/// `FramesEvent` with its texts in characters.
pub enum FramesEventView {
    Cached(Seq<Seq<char>>),
    DirMade,
    DirFailed(Seq<char>),
    FfmpegRan(Seq<Seq<char>>),
    FfmpegFailed,
    GstRan { frames: Seq<Seq<char>>, status: Seq<char>, stderr: Seq<char> },
    GstFailed(Seq<char>),
}

impl View for FramesEvent {
    type V = FramesEventView;

    open spec fn view(&self) -> FramesEventView {
        match self {
            FramesEvent::Cached(frames) => FramesEventView::Cached(text::strings_view(frames@)),
            FramesEvent::DirMade => FramesEventView::DirMade,
            FramesEvent::DirFailed(message) => FramesEventView::DirFailed(message@),
            FramesEvent::FfmpegRan(frames) => FramesEventView::FfmpegRan(
                text::strings_view(frames@),
            ),
            FramesEvent::FfmpegFailed => FramesEventView::FfmpegFailed,
            FramesEvent::GstRan { frames, status, stderr } => FramesEventView::GstRan {
                frames: text::strings_view(frames@),
                status: status@,
                stderr: stderr@,
            },
            FramesEvent::GstFailed(message) => FramesEventView::GstFailed(message@),
        }
    }
}

/// `FramesAction` with its texts in characters.
pub enum FramesActionView {
    Give(Seq<Seq<char>>),
    MakeDir,
    RunFfmpeg(Seq<Seq<char>>),
    RunGst(Seq<Seq<char>>),
    Fail(Seq<char>),
}

impl View for FramesAction {
    type V = FramesActionView;

    open spec fn view(&self) -> FramesActionView {
        match self {
            FramesAction::Give(frames) => FramesActionView::Give(text::strings_view(frames@)),
            FramesAction::MakeDir => FramesActionView::MakeDir,
            FramesAction::RunFfmpeg(args) => FramesActionView::RunFfmpeg(text::strings_view(args@)),
            FramesAction::RunGst(args) => FramesActionView::RunGst(text::strings_view(args@)),
            FramesAction::Fail(message) => FramesActionView::Fail(message@),
        }
    }
}

/// How many bytes of an error output are reported: no more than 500.
pub open spec fn snippet_len(stderr: Seq<char>) -> int {
    let len = vstd::utf8::encode_utf8(stderr).len() as int;
    if len < 500 {
        len
    } else {
        500
    }
}

/// The part of an error output that is reported.
pub open spec fn snippet(stderr: Seq<char>) -> Seq<char> {
    vstd::utf8::decode_utf8(vstd::utf8::encode_utf8(stderr).take(snippet_len(stderr)))
}

/// The message about a decoder that ran and left no frames.
pub open spec fn no_frames(status: Seq<char>, stderr: Seq<char>) -> Seq<char> {
    "exit="@ + status + " stderr="@ + snippet(stderr)
}

/// The message about a decoder that could not be started.
pub open spec fn no_decoder(message: Seq<char>) -> Seq<char> {
    "No decoder available (ffmpeg/gst-launch-1.0 not found): "@ + message
}

/// The action that follows when `event` happens in extracting frames of the video at `video_path`
/// to files named by `pattern`.
pub open spec fn frames_step(
    video_path: Seq<char>,
    pattern: Seq<char>,
    event: FramesEventView,
) -> FramesActionView {
    match event {
        FramesEventView::Cached(frames) => if frames.len() > 0 {
            FramesActionView::Give(frames)
        } else {
            FramesActionView::MakeDir
        },
        FramesEventView::DirMade => FramesActionView::RunFfmpeg(
            tools::ffmpeg_frame_arguments(video_path, pattern),
        ),
        FramesEventView::DirFailed(message) => FramesActionView::Fail(message),
        FramesEventView::FfmpegRan(frames) => if frames.len() > 0 {
            FramesActionView::Give(frames)
        } else {
            FramesActionView::RunGst(tools::gst_frame_arguments(video_path, pattern))
        },
        FramesEventView::FfmpegFailed => FramesActionView::RunGst(
            tools::gst_frame_arguments(video_path, pattern),
        ),
        FramesEventView::GstRan { frames, status, stderr } => if frames.len() > 0 {
            FramesActionView::Give(frames)
        } else {
            FramesActionView::Fail(no_frames(status, stderr))
        },
        FramesEventView::GstFailed(message) => FramesActionView::Fail(no_decoder(message)),
    }
}

/// Where an error output is to be reported, no character begins in the part that is reported and
/// ends behind it.
pub open spec fn frames_ready(event: FramesEventView) -> bool {
    event matches FramesEventView::GstRan { frames, status, stderr } ==> frames.len() == 0
        ==> vstd::utf8::is_char_boundary(vstd::utf8::encode_utf8(stderr), snippet_len(stderr))
}

/// Whether `extract_video_frames` can take this step.
pub fn can_extract(event: &FramesEvent) -> (r: bool)
    ensures
        r == frames_ready(event@),
{
    match event {
        FramesEvent::GstRan { frames, status: _, stderr } => {
            let len = stderr.as_str().as_bytes().len();
            frames.len() > 0 || stderr.as_str().is_char_boundary(
                if len < 500 {
                    len
                } else {
                    500
                },
            )
        },
        _ => true,
    }
}

fn report(status: &str, stderr: &str) -> (r: String)
    requires
        vstd::utf8::is_char_boundary(vstd::utf8::encode_utf8(stderr@), snippet_len(stderr@)),
    ensures
        r@ == no_frames(status@, stderr@),
{
    let len = stderr.as_bytes().len();
    let cut: usize = if len < 500 {
        len
    } else {
        500
    };
    let (shown, _) = stderr.split_at(cut);
    proof {
        let bytes = vstd::utf8::encode_utf8(stderr@);
        assert(bytes.subrange(0, cut as int) == bytes.take(cut as int));
        vstd::utf8::encode_utf8_decode_utf8(shown@);
    }
    let mut out = "exit=".to_owned();
    out.append(status);
    out.append(" stderr=");
    out.append(shown);
    out
}

/// One step in extracting frames of the video at `video_path` to files named by `pattern`: what to
/// do when `event` happens.
pub fn extract_video_frames(video_path: &str, pattern: &str, event: FramesEvent) -> (r:
    FramesAction)
    requires
        frames_ready(event@),
    ensures
        r@ == frames_step(video_path@, pattern@, event@),
{
    match event {
        FramesEvent::Cached(frames) => {
            if frames.len() > 0 {
                FramesAction::Give(frames)
            } else {
                FramesAction::MakeDir
            }
        },
        FramesEvent::DirMade => FramesAction::RunFfmpeg(ffmpeg_frame_args(video_path, pattern)),
        FramesEvent::DirFailed(message) => FramesAction::Fail(message),
        FramesEvent::FfmpegRan(frames) => {
            if frames.len() > 0 {
                FramesAction::Give(frames)
            } else {
                FramesAction::RunGst(gst_frame_args(video_path, pattern))
            }
        },
        FramesEvent::FfmpegFailed => FramesAction::RunGst(gst_frame_args(video_path, pattern)),
        FramesEvent::GstRan { frames, status, stderr } => {
            if frames.len() > 0 {
                FramesAction::Give(frames)
            } else {
                FramesAction::Fail(report(status.as_str(), stderr.as_str()))
            }
        },
        FramesEvent::GstFailed(message) => {
            let mut out = "No decoder available (ffmpeg/gst-launch-1.0 not found): ".to_owned();
            out.append(message.as_str());
            FramesAction::Fail(out)
        },
    }
}

/// Frames that are in the cache are given at once, without a decoder.
pub proof fn law_cached_frames_are_given(
    video_path: Seq<char>,
    pattern: Seq<char>,
    frames: Seq<Seq<char>>,
)
    requires
        frames.len() > 0,
    ensures
        frames_step(video_path, pattern, FramesEventView::Cached(frames)) == FramesActionView::Give(
            frames,
        ),
{
}

/// No step gives an empty list of frames.
pub proof fn law_no_empty_answer(
    video_path: Seq<char>,
    pattern: Seq<char>,
    event: FramesEventView,
)
    ensures
        frames_step(video_path, pattern, event) matches FramesActionView::Give(frames)
            ==> frames.len() > 0,
{
}

/// What the attempts to come by frames give: the frames in the cache, the message of a failure to
/// make the cache directory, the frames that `ffmpeg` leaves where it can be started, and the
/// frames, the status and the error output of `gst-launch-1.0` or the message of a failure to start
/// it.
pub struct Attempts {
    pub cached: Seq<Seq<char>>,
    pub dir_error: Option<Seq<char>>,
    pub ffmpeg: Option<Seq<Seq<char>>>,
    pub gst: Result<(Seq<Seq<char>>, Seq<char>, Seq<char>), Seq<char>>,
}

/// What happens when an action is performed.
pub open spec fn outcome(action: FramesActionView, attempts: Attempts) -> FramesEventView {
    match action {
        FramesActionView::MakeDir => match attempts.dir_error {
            Some(message) => FramesEventView::DirFailed(message),
            None => FramesEventView::DirMade,
        },
        FramesActionView::RunFfmpeg(_) => match attempts.ffmpeg {
            Some(frames) => FramesEventView::FfmpegRan(frames),
            None => FramesEventView::FfmpegFailed,
        },
        _ => match attempts.gst {
            Ok((frames, status, stderr)) => FramesEventView::GstRan { frames, status, stderr },
            Err(message) => FramesEventView::GstFailed(message),
        },
    }
}

/// The action at the end of performing actions from `action` on, at most `steps`.
pub open spec fn run(
    video_path: Seq<char>,
    pattern: Seq<char>,
    action: FramesActionView,
    attempts: Attempts,
    steps: nat,
) -> FramesActionView
    decreases steps,
{
    if action is Give || action is Fail || steps == 0 {
        action
    } else {
        run(
            video_path,
            pattern,
            frames_step(video_path, pattern, outcome(action, attempts)),
            attempts,
            (steps - 1) as nat,
        )
    }
}

/// Frames come from the cache, or else from `ffmpeg`, or else from `gst-launch-1.0`. Where none of
/// them gives any, the message is about the last.
pub proof fn law_ffmpeg_comes_first(
    video_path: Seq<char>,
    pattern: Seq<char>,
    attempts: Attempts,
)
    ensures
        run(
            video_path,
            pattern,
            frames_step(video_path, pattern, FramesEventView::Cached(attempts.cached)),
            attempts,
            3,
        ) == (if attempts.cached.len() > 0 {
            FramesActionView::Give(attempts.cached)
        } else if attempts.dir_error is Some {
            FramesActionView::Fail(attempts.dir_error->0)
        } else if attempts.ffmpeg is Some && attempts.ffmpeg->0.len() > 0 {
            FramesActionView::Give(attempts.ffmpeg->0)
        } else {
            match attempts.gst {
                Ok((frames, status, stderr)) => if frames.len() > 0 {
                    FramesActionView::Give(frames)
                } else {
                    FramesActionView::Fail(no_frames(status, stderr))
                },
                Err(message) => FramesActionView::Fail(no_decoder(message)),
            }
        }),
{
    reveal_with_fuel(run, 4);
}

/// The name of a frame holds its number: five digits, or as many as it takes, that are read as the
/// number.
pub proof fn law_frame_names_hold_the_number(i: u64)
    ensures
        ({
            let name = frame_name(i as nat);
            let digits = name.subrange(1, name.len() - 4);
            &&& name == "f"@ + digits + ".jpg"@
            &&& number::unsigned_value(digits) == Some(i)
            &&& digits.len() >= 5
            &&& digits.len() > 5 ==> digits == number::decimal(i as nat)
        }),
{
    reveal_strlit("f");
    reveal_strlit(".jpg");
    let padded = number::padded_decimal(i as nat, 5);
    let name = frame_name(i as nat);
    assert(name.subrange(1, name.len() - 4) =~= padded);
    number::law_padded_number_reads_back(i, 5);
    number::law_padding_is_zeros(i as nat, 5);
    if padded.len() > 5 {
        assert(padded.skip(0) =~= padded);
    }
}

/// Each frame has a name of its own.
pub proof fn law_frames_have_their_own_names(i: u64, j: u64)
    requires
        frame_name(i as nat) == frame_name(j as nat),
    ensures
        i == j,
{
    law_frame_names_hold_the_number(i);
    law_frame_names_hold_the_number(j);
}

/// Of the error output of a decoder the first 500 bytes are reported, or all of them where there are
/// no more.
pub proof fn law_report_is_cut(stderr: Seq<char>)
    requires
        ({
            let bytes = vstd::utf8::encode_utf8(stderr);
            bytes.len() > 500 ==> vstd::utf8::is_char_boundary(bytes, 500)
        }),
    ensures
        ({
            let bytes = vstd::utf8::encode_utf8(stderr);
            let shown = vstd::utf8::encode_utf8(snippet(stderr));
            &&& bytes.len() <= 500 ==> snippet(stderr) == stderr
            &&& bytes.len() >= 500 ==> shown.len() == 500
            &&& shown.is_prefix_of(bytes)
        }),
{
    let bytes = vstd::utf8::encode_utf8(stderr);
    vstd::utf8::encode_utf8_valid_utf8(stderr);
    if bytes.len() <= 500 {
        assert(bytes.take(snippet_len(stderr)) =~= bytes);
        vstd::utf8::encode_utf8_decode_utf8(stderr);
        assert(bytes.subrange(0, bytes.len() as int) =~= bytes);
    } else {
        vstd::utf8::valid_utf8_split(bytes, 500);
        assert(bytes.subrange(0, 500) =~= bytes.take(500));
        vstd::utf8::decode_utf8_encode_utf8(bytes.take(500));
    }
}

/// `ffmpeg` is told to write three frames per second, numbered from zero, and `gst-launch-1.0` to do
/// the same where `ffmpeg` left nothing or could not be started. A failure of the second is reported
/// with its status and its error output, or with the message that it could not be started.
pub proof fn law_decoders_are_told(
    video_path: Seq<char>,
    pattern: Seq<char>,
    status: Seq<char>,
    stderr: Seq<char>,
    message: Seq<char>,
)
    ensures
        ({
            let step = |event: FramesEventView| frames_step(video_path, pattern, event);
            let none = Seq::<Seq<char>>::empty();
            let gst = FramesActionView::RunGst(
                seq![
                    "-e"@,
                    "filesrc"@,
                    "location="@ + video_path,
                    "!"@,
                    "decodebin"@,
                    "!"@,
                    "videorate"@,
                    "!"@,
                    "video/x-raw,framerate=3/1"@,
                    "!"@,
                    "videoconvert"@,
                    "!"@,
                    "jpegenc"@,
                    "quality=80"@,
                    "!"@,
                    "multifilesink"@,
                    "location="@ + pattern,
                ],
            );
            &&& step(FramesEventView::Cached(none)) == FramesActionView::MakeDir
            &&& step(FramesEventView::DirFailed(message)) == FramesActionView::Fail(message)
            &&& step(FramesEventView::DirMade) == FramesActionView::RunFfmpeg(
                seq![
                    "-y"@,
                    "-i"@,
                    video_path,
                    "-vf"@,
                    "fps=3"@,
                    "-q:v"@,
                    "3"@,
                    "-start_number"@,
                    "0"@,
                    pattern,
                ],
            )
            &&& step(FramesEventView::FfmpegRan(none)) == gst
            &&& step(FramesEventView::FfmpegFailed) == gst
            &&& step(FramesEventView::GstRan { frames: none, status, stderr })
                == FramesActionView::Fail("exit="@ + status + " stderr="@ + snippet(stderr))
            &&& step(FramesEventView::GstFailed(message)) == FramesActionView::Fail(
                "No decoder available (ffmpeg/gst-launch-1.0 not found): "@ + message,
            )
        }),
{
}

/// Frames that are there are given, all of them and as they are, wherever they come from.
pub proof fn law_frames_are_given_as_they_are(
    video_path: Seq<char>,
    pattern: Seq<char>,
    frames: Seq<Seq<char>>,
    status: Seq<char>,
    stderr: Seq<char>,
)
    requires
        frames.len() > 0,
    ensures
        ({
            let step = |event: FramesEventView| frames_step(video_path, pattern, event);
            &&& step(FramesEventView::Cached(frames)) == FramesActionView::Give(frames)
            &&& step(FramesEventView::FfmpegRan(frames)) == FramesActionView::Give(frames)
            &&& step(FramesEventView::GstRan { frames, status, stderr }) == FramesActionView::Give(
                frames,
            )
        }),
{
}

/// Every event can be handled but a report that would cut a character in two.
pub proof fn law_only_cut_reports_have_no_answer(
    event: FramesEventView,
    frames: Seq<Seq<char>>,
    status: Seq<char>,
    stderr: Seq<char>,
)
    ensures
        !(event is GstRan) ==> frames_ready(event),
        ({
            let bytes = vstd::utf8::encode_utf8(stderr);
            frames_ready(FramesEventView::GstRan { frames, status, stderr }) <==> frames.len() > 0
                || bytes.len() <= 500 || vstd::utf8::is_char_boundary(bytes, 500)
        }),
{
    let bytes = vstd::utf8::encode_utf8(stderr);
    vstd::utf8::encode_utf8_valid_utf8(stderr);
    vstd::utf8::is_char_boundary_start_end_of_seq(bytes);
}

} // verus!
