//! The outside programs: where they are and what they are told.

use vstd::prelude::*;

use crate::text;
use crate::text::{joined, strings_of};

verus! {

broadcast use vstd::string::group_string_axioms;

/// The operating systems that have a command for opening a file.
#[derive(Clone, Copy, PartialEq, Eq, Structural, Debug)]
pub enum Platform {
    Linux,
    MacOs,
    Windows,
    Other,
}

/// A program with its arguments.
#[derive(PartialEq, Eq, Debug)]
pub struct Command {
    pub program: &'static str,
    pub args: Vec<String>,
}

impl View for Command {
    type V = (Seq<char>, Seq<Seq<char>>);

    open spec fn view(&self) -> (Seq<char>, Seq<Seq<char>>) {
        (self.program@, text::strings_view(self.args@))
    }
}

/// The program that converts media: the system's own where it exists, or else the one found by
/// name.
pub fn ffmpeg_bin(system_exists: bool) -> (r: &'static str)
    ensures
        system_exists ==> r@ == "/usr/bin/ffmpeg"@,
        !system_exists ==> r@ == "ffmpeg"@,
{
    if system_exists {
        "/usr/bin/ffmpeg"
    } else {
        "ffmpeg"
    }
}

/// The program that describes media: the system's own where it exists, or else the one found by
/// name.
pub fn ffprobe_bin(system_exists: bool) -> (r: &'static str)
    ensures
        system_exists ==> r@ == "/usr/bin/ffprobe"@,
        !system_exists ==> r@ == "ffprobe"@,
{
    if system_exists {
        "/usr/bin/ffprobe"
    } else {
        "ffprobe"
    }
}

/// The program that decodes video where `ffmpeg` does not: the system's own where it exists, or
/// else the one found by name.
pub fn gst_bin(system_exists: bool) -> (r: &'static str)
    ensures
        system_exists ==> r@ == "/usr/bin/gst-launch-1.0"@,
        !system_exists ==> r@ == "gst-launch-1.0"@,
{
    if system_exists {
        "/usr/bin/gst-launch-1.0"
    } else {
        "gst-launch-1.0"
    }
}

/// What `ffmpeg` is told for three frames per second of a video, as files numbered from zero.
pub open spec fn ffmpeg_frame_arguments(video_path: Seq<char>, pattern: Seq<char>) -> Seq<Seq<char>> {
    seq![
        "-y"@,
        "-i"@,
        video_path,
        "-vf"@,
        "fps=3"@,
        "-q:v"@,
        "3"@,
        "-start_number"@,
        "0"@,
        pattern,
    ]
}

/// What `ffmpeg` is told for three frames per second of a video, as files numbered from zero.
pub fn ffmpeg_frame_args(video_path: &str, pattern: &str) -> (r: Vec<String>)
    ensures
        text::strings_view(r@) == ffmpeg_frame_arguments(video_path@, pattern@),
{
    let args = [
        "-y",
        "-i",
        video_path,
        "-vf",
        "fps=3",
        "-q:v",
        "3",
        "-start_number",
        "0",
        pattern,
    ];
    let r = strings_of(&args);
    assert(text::texts_view(args@) == ffmpeg_frame_arguments(video_path@, pattern@));
    r
}

/// What `ffmpeg` is told for one image as a JPEG file.
pub open spec fn ffmpeg_thumbnail_arguments(image_path: Seq<char>, thumbnail_path: Seq<char>) -> Seq<Seq<char>> {
    seq![
        "-y"@,
        "-i"@,
        image_path,
        "-vframes"@,
        "1"@,
        "-q:v"@,
        "3"@,
        thumbnail_path,
    ]
}

/// What `ffmpeg` is told for one image as a JPEG file.
pub fn ffmpeg_thumbnail_args(image_path: &str, thumbnail_path: &str) -> (r: Vec<String>)
    ensures
        text::strings_view(r@) == ffmpeg_thumbnail_arguments(image_path@, thumbnail_path@),
{
    let args = [
        "-y",
        "-i",
        image_path,
        "-vframes",
        "1",
        "-q:v",
        "3",
        thumbnail_path,
    ];
    let r = strings_of(&args);
    assert(text::texts_view(args@) == ffmpeg_thumbnail_arguments(image_path@, thumbnail_path@));
    r
}

/// What `ffprobe` is told for a description of a file as JSON.
pub open spec fn ffprobe_arguments(path: Seq<char>) -> Seq<Seq<char>> {
    seq![
        "-v"@,
        "quiet"@,
        "-print_format"@,
        "json"@,
        "-show_format"@,
        "-show_streams"@,
        path,
    ]
}

/// What `ffprobe` is told for a description of a file as JSON.
pub fn ffprobe_args(path: &str) -> (r: Vec<String>)
    ensures
        text::strings_view(r@) == ffprobe_arguments(path@),
{
    let args = [
        "-v",
        "quiet",
        "-print_format",
        "json",
        "-show_format",
        "-show_streams",
        path,
    ];
    let r = strings_of(&args);
    assert(text::texts_view(args@) == ffprobe_arguments(path@));
    r
}

/// What `gst-launch-1.0` is told for three frames per second of a video, as numbered files.
pub open spec fn gst_frame_arguments(video_path: Seq<char>, pattern: Seq<char>) -> Seq<Seq<char>> {
    seq![
        "-e"@,
        "filesrc"@,
        "location="@ + video_path,
        "!"@,
        "decodebin"@,
        "!"@,
        "videorate"@,
        "!"@,
        "video/x-raw,framerate=3/1"@,
        "!"@,
        "videoconvert"@,
        "!"@,
        "jpegenc"@,
        "quality=80"@,
        "!"@,
        "multifilesink"@,
        "location="@ + pattern,
    ]
}

/// What `gst-launch-1.0` is told for three frames per second of a video, as numbered files.
pub fn gst_frame_args(video_path: &str, pattern: &str) -> (r: Vec<String>)
    ensures
        text::strings_view(r@) == gst_frame_arguments(video_path@, pattern@),
{
    let source = joined("location=", video_path);
    let sink = joined("location=", pattern);
    let args = [
        "-e",
        "filesrc",
        source.as_str(),
        "!",
        "decodebin",
        "!",
        "videorate",
        "!",
        "video/x-raw,framerate=3/1",
        "!",
        "videoconvert",
        "!",
        "jpegenc",
        "quality=80",
        "!",
        "multifilesink",
        sink.as_str(),
    ];
    let r = strings_of(&args);
    assert(text::texts_view(args@) == gst_frame_arguments(video_path@, pattern@));
    r
}

/// The program and the arguments that open the file at `path` with the program that the system has
/// for it. There are none on an unknown system.
pub open spec fn player_command(platform: Platform, path: Seq<char>) -> Option<
    (Seq<char>, Seq<Seq<char>>),
> {
    match platform {
        Platform::Linux => Some(("xdg-open"@, seq![path])),
        Platform::MacOs => Some(("open"@, seq![path])),
        Platform::Windows => Some(("cmd"@, seq!["/c"@, "start"@, ""@, path])),
        Platform::Other => None,
    }
}

/// The command that opens the file at `path` with the program that the system has for it. There is
/// none on an unknown system.
pub fn open_with_system_player(platform: Platform, path: &str) -> (r: Option<Command>)
    ensures
        r is Some <==> player_command(platform, path@) is Some,
        r matches Some(command) ==> player_command(platform, path@) == Some(command@),
{
    match platform {
        Platform::Linux => {
            let args = [path];
            assert(text::texts_view(args@) == seq![path@]);
            Some(Command { program: "xdg-open", args: strings_of(&args) })
        },
        Platform::MacOs => {
            let args = [path];
            assert(text::texts_view(args@) == seq![path@]);
            Some(Command { program: "open", args: strings_of(&args) })
        },
        Platform::Windows => {
            let args = ["/c", "start", "", path];
            assert(text::texts_view(args@) == seq!["/c"@, "start"@, ""@, path@]);
            Some(Command { program: "cmd", args: strings_of(&args) })
        },
        Platform::Other => None,
    }
}

/// What the programs are told: the file that they read, the file that they write, and how.
pub proof fn law_programs_are_told(source: Seq<char>, target: Seq<char>)
    ensures
        ffmpeg_frame_arguments(source, target) == seq![
            "-y"@,
            "-i"@,
            source,
            "-vf"@,
            "fps=3"@,
            "-q:v"@,
            "3"@,
            "-start_number"@,
            "0"@,
            target,
        ],
        ffmpeg_thumbnail_arguments(source, target) == seq![
            "-y"@,
            "-i"@,
            source,
            "-vframes"@,
            "1"@,
            "-q:v"@,
            "3"@,
            target,
        ],
        ffprobe_arguments(source) == seq![
            "-v"@,
            "quiet"@,
            "-print_format"@,
            "json"@,
            "-show_format"@,
            "-show_streams"@,
            source,
        ],
        gst_frame_arguments(source, target) == seq![
            "-e"@,
            "filesrc"@,
            "location="@ + source,
            "!"@,
            "decodebin"@,
            "!"@,
            "videorate"@,
            "!"@,
            "video/x-raw,framerate=3/1"@,
            "!"@,
            "videoconvert"@,
            "!"@,
            "jpegenc"@,
            "quality=80"@,
            "!"@,
            "multifilesink"@,
            "location="@ + target,
        ],
{
}

/// Each known system opens a file with its own program, which gets the path of the file last.
pub proof fn law_system_opens_files(platform: Platform, path: Seq<char>)
    ensures
        player_command(platform, path) is None <==> platform is Other,
        player_command(platform, path) matches Some((program, args)) ==> {
            &&& args.last() == path
            &&& platform is Linux ==> program == "xdg-open"@ && args.len() == 1
            &&& platform is MacOs ==> program == "open"@ && args.len() == 1
            &&& platform is Windows ==> program == "cmd"@ && args.len() == 4 && args[0] == "/c"@
                && args[1] == "start"@ && args[2] == ""@
        },
{
}

} // verus!
