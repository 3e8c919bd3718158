use livephoto::media::{
    describe, ffprobe_json, first_tag, get_media_info, probe_command, Description, MediaInfo,
    MediaKind,
};

const VIDEO: &str = r#"{
    "streams": [
        {"codec_type": "audio", "duration": "9.0", "width": 1},
        {"codec_type": "video", "width": 1920, "height": 1080, "duration": "2.5"},
        {"codec_type": "video", "width": 7, "height": 7}
    ],
    "format": {
        "duration": "2.6",
        "tags": {
            "DateTimeOriginal": "later",
            "creation_time": "2024-05-01T10:00:00Z",
            "make": "Plain",
            "com.apple.quicktime.make": "Apple",
            "Model": "Phone"
        }
    }
}"#;

const IMAGE: &str = r#"{
    "streams": [{"codec_type": "video", "width": 4032, "height": 3024}],
    "format": {"tags": {"date": "2023", "Make": "Camera", "model": "X100",
        "com.apple.quicktime.model": "unused"}}
}"#;

fn text(s: &str) -> String {
    s.to_string()
}

fn value(s: &str) -> serde_json::Value {
    serde_json::from_str(s).unwrap()
}

fn blank() -> Description {
    Description {
        width: None,
        height: None,
        stream_duration: None,
        format_duration: None,
        created_at: None,
        make: None,
        model: None,
    }
}

#[test]
fn a_file_is_described_where_there_is_one() {
    let command = probe_command("/v.mov", true).unwrap();
    assert_eq!(command.program, "/usr/bin/ffprobe");
    assert_eq!(
        command.args,
        vec!["-v", "quiet", "-print_format", "json", "-show_format", "-show_streams", "/v.mov"]
    );
    assert_eq!(probe_command("/v.mov", false).unwrap().program, "ffprobe");
    assert!(probe_command("", true).is_none());
}

#[test]
fn the_first_tag_that_is_there_counts() {
    let tags = value(r#"{"b": "two", "c": "three", "n": 5}"#);
    assert_eq!(first_tag(&tags, &["a", "b", "c"]), Some(text("two")));
    assert_eq!(first_tag(&tags, &["c", "b"]), Some(text("three")));
    assert_eq!(first_tag(&tags, &["n", "c"]), Some(text("three")));
    assert_eq!(first_tag(&tags, &["a", "n"]), None);
    assert_eq!(first_tag(&tags, &[]), None);
    assert_eq!(first_tag(&value("null"), &["a"]), None);
    assert_eq!(first_tag(&value("[\"a\"]"), &["a"]), None);
}

#[test]
fn a_video_is_described() {
    assert_eq!(
        ffprobe_json(VIDEO.as_bytes(), MediaKind::Video),
        Some(Description {
            width: Some(1920),
            height: Some(1080),
            stream_duration: Some(text("2.5")),
            format_duration: Some(text("2.6")),
            created_at: Some(text("2024-05-01T10:00:00Z")),
            make: Some(text("Apple")),
            model: Some(text("Phone")),
        })
    );
}

#[test]
fn an_image_is_described() {
    assert_eq!(
        ffprobe_json(IMAGE.as_bytes(), MediaKind::Image),
        Some(Description {
            width: Some(4032),
            height: Some(3024),
            created_at: Some(text("2023")),
            make: Some(text("Camera")),
            model: Some(text("X100")),
            ..blank()
        })
    );
}

#[test]
fn each_kind_has_its_own_tags() {
    let document = value(
        r#"{"format": {"tags": {"date": "d", "com.apple.quicktime.creationdate": "q",
            "com.apple.quicktime.make": "Apple", "date_time_original": "o"}}}"#,
    );
    let video = describe(&document, MediaKind::Video);
    assert_eq!(video.created_at, Some(text("o")));
    assert_eq!(video.make, Some(text("Apple")));
    let image = describe(&document, MediaKind::Image);
    assert_eq!(image.created_at, Some(text("d")));
    assert_eq!(image.make, None);
}

#[test]
fn what_is_missing_is_not_told() {
    for document in [
        "null",
        "[]",
        "5",
        "{}",
        r#"{"streams": {}, "format": []}"#,
        r#"{"streams": [], "format": {"duration": 5, "tags": "x"}}"#,
        r#"{"streams": [{"codec_type": "audio", "width": 5}, null, "video"]}"#,
        r#"{"streams": [{"codec_type": "video", "width": "5", "height": -1, "duration": 2.5}]}"#,
    ] {
        assert_eq!(describe(&value(document), MediaKind::Video), blank(), "{document}");
    }
}

#[test]
fn sizes_keep_their_low_bits() {
    let document = value(
        r#"{"streams": [{"codec_type": "video", "width": 4294967297, "height": 4294967295}]}"#,
    );
    let told = describe(&document, MediaKind::Image);
    assert_eq!(told.width, Some(1));
    assert_eq!(told.height, Some(4294967295));
}

#[test]
fn what_is_no_document_tells_nothing() {
    assert_eq!(ffprobe_json(b"", MediaKind::Video), None);
    assert_eq!(ffprobe_json(b"{", MediaKind::Video), None);
    assert_eq!(ffprobe_json(b"{} x", MediaKind::Image), None);
    assert_eq!(ffprobe_json(b"\"\xFF\"", MediaKind::Image), None);
    assert_eq!(ffprobe_json(b"{}", MediaKind::Video), Some(blank()));
}

#[test]
fn the_video_comes_before_the_image() {
    let bits = |secs: f64| Some(secs.to_bits());
    let info = get_media_info(
        ffprobe_json(VIDEO.as_bytes(), MediaKind::Video),
        bits(2.5),
        bits(2.6),
        ffprobe_json(IMAGE.as_bytes(), MediaKind::Image),
    );
    assert_eq!(
        info,
        MediaInfo {
            vid_width: Some(1920),
            vid_height: Some(1080),
            img_width: Some(4032),
            img_height: Some(3024),
            duration_bits: bits(2.5),
            created_at: Some(text("2024-05-01T10:00:00Z")),
            make: Some(text("Apple")),
            model: Some(text("Phone")),
        }
    );
}

#[test]
fn the_image_fills_in_what_is_missing() {
    let video = Description { make: Some(text("Apple")), ..blank() };
    let info = get_media_info(
        Some(video),
        None,
        Some(2.6f64.to_bits()),
        ffprobe_json(IMAGE.as_bytes(), MediaKind::Image),
    );
    assert_eq!(info.created_at, Some(text("2023")));
    assert_eq!(info.make, Some(text("Apple")));
    assert_eq!(info.model, Some(text("X100")));
    assert_eq!(info.duration_bits, Some(2.6f64.to_bits()));
    assert_eq!(info.vid_width, None);
    assert_eq!(info.img_width, Some(4032));
}

#[test]
fn nothing_is_told_of_nothing() {
    assert_eq!(get_media_info(None, None, None, None), MediaInfo::default());
    assert_eq!(get_media_info(None, Some(1), Some(2), None), MediaInfo::default());
}
