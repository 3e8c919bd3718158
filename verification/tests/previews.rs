use livephoto::cache::{
    cache_dir_name, cache_dir_of_hash, extract_embedded_video, path_hash, CachedVideo,
    ExtractAction, ExtractEvent, EMBEDDED_VIDEO, THUMBNAIL,
};
use livephoto::frames::{
    can_extract, collect_frames, extract_video_frames, frame_file_name, FrameScan, FramesAction,
    FramesEvent, FRAME_PATTERN,
};
use livephoto::thumbnail::{get_thumbnail, is_heic, ThumbnailAction, ThumbnailEvent};
use livephoto::tools::{
    ffmpeg_bin, ffmpeg_frame_args, ffmpeg_thumbnail_args, ffprobe_args, ffprobe_bin, gst_bin,
    gst_frame_args, open_with_system_player, Platform,
};
use std::collections::hash_map::DefaultHasher;
use std::hash::{Hash, Hasher};

fn text(s: &str) -> String {
    s.to_string()
}

fn frame_paths(existing: &[u64], max: u32) -> Vec<String> {
    let mut scan = FrameScan::new(max);
    while let Some(name) = scan.file_name() {
        let there = existing.iter().any(|&i| name == format!("f{i:05}.jpg"));
        scan = collect_frames(scan, if there { Some(format!("/c/{name}")) } else { None });
    }
    assert!(scan.next <= 4 * max as u64);
    scan.frames
}

#[test]
fn paths_are_hashed_by_the_default_hasher() {
    for path in ["", "/a.jpg", "/photos/\u{e9}t\u{e9}.heic"] {
        let mut h = DefaultHasher::new();
        path.hash(&mut h);
        assert_eq!(path_hash(path), h.finish());
        assert_eq!(cache_dir_name(path), format!("livephoto_{:016x}", h.finish()));
    }
    assert_ne!(path_hash("/a.jpg"), path_hash("/b.jpg"));
}

#[test]
fn cache_directories_are_named_by_the_hash() {
    assert_eq!(cache_dir_of_hash(0), "livephoto_0000000000000000");
    assert_eq!(cache_dir_of_hash(0xabc), "livephoto_0000000000000abc");
    assert_ne!(cache_dir_of_hash(1), cache_dir_of_hash(2));
    assert_eq!(EMBEDDED_VIDEO, "embedded.mp4");
    assert_eq!(THUMBNAIL, "thumbnail.jpg");
}

#[test]
fn a_fresh_cached_video_is_used_again() {
    let mut cached = CachedVideo { len: 10, photo_changed: Some(5), video_changed: Some(5) };
    let looked = |c: CachedVideo| extract_embedded_video(7, ExtractEvent::Looked(Some(c)));
    assert_eq!(looked(cached), ExtractAction::Use);
    cached.photo_changed = Some(6);
    assert_eq!(looked(cached), ExtractAction::Prepare { remove: true });
    cached.video_changed = None;
    assert_eq!(looked(cached), ExtractAction::Use);
    cached.len = 0;
    assert_eq!(looked(cached), ExtractAction::Prepare { remove: true });
    assert_eq!(
        extract_embedded_video(7, ExtractEvent::Looked(None)),
        ExtractAction::Prepare { remove: false }
    );
}

#[test]
fn the_video_is_copied_to_the_end_of_the_photo() {
    assert_eq!(
        extract_embedded_video(700, ExtractEvent::Prepared(1000)),
        ExtractAction::Copy { from: 700, count: 300 }
    );
    assert_eq!(extract_embedded_video(700, ExtractEvent::Copied), ExtractAction::Use);
}

#[test]
fn a_video_that_begins_behind_the_photo_is_an_error() {
    assert_eq!(
        extract_embedded_video(1000, ExtractEvent::Prepared(1000)),
        ExtractAction::Fail(text("invalid video offset 1000 >= file size 1000"))
    );
    assert_eq!(
        extract_embedded_video(12, ExtractEvent::Prepared(0)),
        ExtractAction::Fail(text("invalid video offset 12 >= file size 0"))
    );
}

#[test]
fn a_failed_copy_is_removed() {
    assert_eq!(
        extract_embedded_video(1, ExtractEvent::CopyFailed(text("disk full"))),
        ExtractAction::RemoveAndFail(text("disk full"))
    );
    assert_eq!(
        extract_embedded_video(1, ExtractEvent::Failed(text("denied"))),
        ExtractAction::Fail(text("denied"))
    );
}

#[test]
fn frame_files_are_numbered() {
    assert_eq!(frame_file_name(0), "f00000.jpg");
    assert_eq!(frame_file_name(42), "f00042.jpg");
    assert_eq!(frame_file_name(123456), "f123456.jpg");
    assert_eq!(FRAME_PATTERN, "f%05d.jpg");
}

#[test]
fn frames_are_collected_in_order() {
    assert_eq!(frame_paths(&[2, 0, 1], 3), vec!["/c/f00000.jpg", "/c/f00001.jpg", "/c/f00002.jpg"]);
    assert_eq!(frame_paths(&[5, 1, 11], 3), vec!["/c/f00001.jpg", "/c/f00005.jpg", "/c/f00011.jpg"]);
}

#[test]
fn no_more_frames_are_collected_than_wanted() {
    assert_eq!(frame_paths(&[0, 1, 2, 3, 4], 2), vec!["/c/f00000.jpg", "/c/f00001.jpg"]);
    assert!(frame_paths(&[0, 1], 0).is_empty());
}

#[test]
fn frames_beyond_four_numbers_for_each_are_not_looked_for() {
    assert_eq!(frame_paths(&[3, 4], 1), vec!["/c/f00003.jpg"]);
    assert!(frame_paths(&[4], 1).is_empty());
    assert!(frame_paths(&[], 6).is_empty());
}

#[test]
fn cached_frames_are_given_at_once() {
    let frames = vec![text("/c/f00000.jpg")];
    assert_eq!(
        extract_video_frames("/v", "/c/p", FramesEvent::Cached(vec![text("/c/f00000.jpg")])),
        FramesAction::Give(frames)
    );
    assert_eq!(
        extract_video_frames("/v", "/c/p", FramesEvent::Cached(vec![])),
        FramesAction::MakeDir
    );
}

#[test]
fn ffmpeg_is_asked_first_and_gst_next() {
    assert_eq!(
        extract_video_frames("/v", "/c/p", FramesEvent::DirMade),
        FramesAction::RunFfmpeg(ffmpeg_frame_args("/v", "/c/p"))
    );
    assert_eq!(
        extract_video_frames("/v", "/c/p", FramesEvent::FfmpegRan(vec![text("/f")])),
        FramesAction::Give(vec![text("/f")])
    );
    for event in [FramesEvent::FfmpegRan(vec![]), FramesEvent::FfmpegFailed] {
        assert_eq!(
            extract_video_frames("/v", "/c/p", event),
            FramesAction::RunGst(gst_frame_args("/v", "/c/p"))
        );
    }
    let ran = FramesEvent::GstRan {
        frames: vec![text("/f")],
        status: text("exit status: 0"),
        stderr: String::new(),
    };
    assert_eq!(extract_video_frames("/v", "/c/p", ran), FramesAction::Give(vec![text("/f")]));
}

#[test]
fn failures_to_extract_frames_are_reported() {
    assert_eq!(
        extract_video_frames("/v", "/c/p", FramesEvent::DirFailed(text("denied"))),
        FramesAction::Fail(text("denied"))
    );
    assert_eq!(
        extract_video_frames("/v", "/c/p", FramesEvent::GstFailed(text("no such file"))),
        FramesAction::Fail(text(
            "No decoder available (ffmpeg/gst-launch-1.0 not found): no such file"
        ))
    );
    let ran = |stderr: String| FramesEvent::GstRan {
        frames: vec![],
        status: text("exit status: 1"),
        stderr,
    };
    assert_eq!(
        extract_video_frames("/v", "/c/p", ran(text("broken pipe"))),
        FramesAction::Fail(text("exit=exit status: 1 stderr=broken pipe"))
    );
    let long = "x".repeat(499) + "yz";
    assert_eq!(
        extract_video_frames("/v", "/c/p", ran(long.clone())),
        FramesAction::Fail(format!("exit=exit status: 1 stderr={}", &long[..500]))
    );
}

#[test]
fn a_report_that_cuts_a_character_is_told() {
    let ran = |frames: Vec<String>, stderr: String| FramesEvent::GstRan {
        frames,
        status: text("1"),
        stderr,
    };
    assert!(can_extract(&ran(vec![], "x".repeat(600))));
    assert!(!can_extract(&ran(vec![], "x".repeat(499) + "\u{e9}")));
    assert!(can_extract(&ran(vec![], "x".repeat(498) + "\u{e9}")));
    assert!(can_extract(&ran(vec![text("/f")], "x".repeat(499) + "\u{e9}")));
    assert!(can_extract(&FramesEvent::DirMade));
}

#[test]
fn heic_images_need_a_thumbnail() {
    assert!(is_heic("heic"));
    assert!(is_heic("heif"));
    assert!(!is_heic("HEIC"));
    assert!(!is_heic("jpg"));
}

#[test]
fn shown_images_stand_for_themselves() {
    for ext in [Some(text("JPG")), Some(text("png")), None] {
        assert_eq!(
            get_thumbnail("/i", "/t", ThumbnailEvent::Asked(ext)),
            ThumbnailAction::Give(text("/i"))
        );
    }
}

#[test]
fn thumbnails_are_made_once() {
    let step = |event: ThumbnailEvent| get_thumbnail("/i.heic", "/t.jpg", event);
    for ext in ["heic", "HEIF", "HeIc"] {
        assert_eq!(step(ThumbnailEvent::Asked(Some(text(ext)))), ThumbnailAction::Look);
    }
    assert_eq!(
        step(ThumbnailEvent::Looked { exists: true, len: 1 }),
        ThumbnailAction::Give(text("/t.jpg"))
    );
    assert_eq!(step(ThumbnailEvent::Looked { exists: true, len: 0 }), ThumbnailAction::MakeDir);
    assert_eq!(step(ThumbnailEvent::Looked { exists: false, len: 0 }), ThumbnailAction::MakeDir);
    assert_eq!(
        step(ThumbnailEvent::DirMade),
        ThumbnailAction::RunFfmpeg(ffmpeg_thumbnail_args("/i.heic", "/t.jpg"))
    );
    assert_eq!(
        step(ThumbnailEvent::Ran { exists: true, len: 9 }),
        ThumbnailAction::Give(text("/t.jpg"))
    );
}

#[test]
fn failures_to_make_a_thumbnail_are_reported() {
    for event in [
        ThumbnailEvent::Ran { exists: false, len: 0 },
        ThumbnailEvent::Ran { exists: true, len: 0 },
    ] {
        assert_eq!(
            get_thumbnail("/i.heic", "/t", event),
            ThumbnailAction::Fail(text("HEIC thumbnail conversion failed for '/i.heic'"))
        );
    }
    assert_eq!(
        get_thumbnail("/i.heic", "/t", ThumbnailEvent::Failed(text("no ffmpeg"))),
        ThumbnailAction::Fail(text("no ffmpeg"))
    );
}

#[test]
fn programs_are_those_of_the_system_or_found_by_name() {
    assert_eq!(ffmpeg_bin(true), "/usr/bin/ffmpeg");
    assert_eq!(ffmpeg_bin(false), "ffmpeg");
    assert_eq!(ffprobe_bin(true), "/usr/bin/ffprobe");
    assert_eq!(ffprobe_bin(false), "ffprobe");
    assert_eq!(gst_bin(true), "/usr/bin/gst-launch-1.0");
    assert_eq!(gst_bin(false), "gst-launch-1.0");
}

#[test]
fn programs_get_their_arguments() {
    assert_eq!(
        ffmpeg_frame_args("/v.mov", "/c/f%05d.jpg"),
        vec![
            "-y", "-i", "/v.mov", "-vf", "fps=3", "-q:v", "3", "-start_number", "0", "/c/f%05d.jpg"
        ]
    );
    assert_eq!(
        ffmpeg_thumbnail_args("/i.heic", "/t.jpg"),
        vec!["-y", "-i", "/i.heic", "-vframes", "1", "-q:v", "3", "/t.jpg"]
    );
    assert_eq!(
        ffprobe_args("/v"),
        vec!["-v", "quiet", "-print_format", "json", "-show_format", "-show_streams", "/v"]
    );
    assert_eq!(
        gst_frame_args("/v", "/p"),
        vec![
            "-e", "filesrc", "location=/v", "!", "decodebin", "!", "videorate", "!",
            "video/x-raw,framerate=3/1", "!", "videoconvert", "!", "jpegenc", "quality=80", "!",
            "multifilesink", "location=/p",
        ]
    );
}

#[test]
fn files_are_opened_by_the_system() {
    let linux = open_with_system_player(Platform::Linux, "/a b").unwrap();
    assert_eq!((linux.program, linux.args), ("xdg-open", vec![text("/a b")]));
    let mac = open_with_system_player(Platform::MacOs, "/a").unwrap();
    assert_eq!((mac.program, mac.args), ("open", vec![text("/a")]));
    let windows = open_with_system_player(Platform::Windows, "C:/a").unwrap();
    assert_eq!(windows.program, "cmd");
    assert_eq!(windows.args, vec!["/c", "start", "", "C:/a"]);
    assert!(open_with_system_player(Platform::Other, "/a").is_none());
}
