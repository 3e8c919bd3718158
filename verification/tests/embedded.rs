use livephoto::motion::{
    find_ftyp_video_start, find_samsung_marker, find_xmp_packets, is_known_mp4_brand,
    jpeg_motion_photo_offset, motion_step_in_range, MotionStage, MotionStep,
};

fn segment(marker: u8, data: &[u8]) -> Vec<u8> {
    let len = (data.len() + 2) as u16;
    let mut out = vec![0xFF, marker];
    out.extend_from_slice(&len.to_be_bytes());
    out.extend_from_slice(data);
    out
}

fn xmp_segment(packet: &[u8]) -> Vec<u8> {
    let mut data = b"http://ns.adobe.com/xap/1.0/\0".to_vec();
    data.extend_from_slice(packet);
    segment(0xE1, &data)
}

fn jpeg(segments: &[Vec<u8>]) -> Vec<u8> {
    let mut out = vec![0xFF, 0xD8];
    for s in segments {
        out.extend_from_slice(s);
    }
    out.extend_from_slice(&[0xFF, 0xDA, 0, 2, 1, 2, 3]);
    out
}

fn with_box(at: usize, size: u32, brand: &[u8]) -> Vec<u8> {
    let mut out = vec![0u8; at];
    out.extend_from_slice(&size.to_be_bytes());
    out.extend_from_slice(b"ftyp");
    out.extend_from_slice(brand);
    out.extend_from_slice(&[0u8; 16]);
    out
}

fn search(file: &[u8]) -> Option<(u64, &'static str)> {
    let size = file.len() as u64;
    let mut step = jpeg_motion_photo_offset(size, MotionStage::Start, None);
    loop {
        match step {
            MotionStep::Found(offset, photo_type) => return Some((offset, photo_type)),
            MotionStep::Nothing => return None,
            MotionStep::Read(stage, count) => {
                let bytes = &file[..count as usize];
                assert!(motion_step_in_range(size, stage, Some(bytes)));
                step = jpeg_motion_photo_offset(size, stage, Some(bytes));
            }
        }
    }
}

#[test]
fn brands_are_known() {
    for brand in [
        "mp41", "mp42", "isom", "iso2", "iso4", "iso5", "iso6", "M4V ", "M4A ", "avc1", "qt  ",
        "MSNV", "f4v ", "3gp4", "3gp5", "3gp6", "mmp4", "hvc1", "HEVC", "heic", "mif1",
    ] {
        assert!(is_known_mp4_brand(brand.as_bytes()), "{brand}");
    }
    for brand in ["iso3", "MP42", "qt", "", "isom1", "jpeg"] {
        assert!(!is_known_mp4_brand(brand.as_bytes()), "{brand}");
    }
}

#[test]
fn packets_of_all_segments_are_found() {
    let head = jpeg(&[
        segment(0xE0, b"JFIF"),
        xmp_segment(b"one"),
        vec![0xFF, 0xD0],
        segment(0xE1, b"Exif\0\0data"),
        xmp_segment("zw\u{e9}i".as_bytes()),
    ]);
    assert_eq!(find_xmp_packets(&head), vec!["one", "zw\u{e9}i"]);
}

#[test]
fn packets_behind_the_image_data_are_not_read() {
    let mut head = jpeg(&[xmp_segment(b"one")]);
    head.extend_from_slice(&xmp_segment(b"two"));
    assert_eq!(find_xmp_packets(&head), vec!["one"]);
    let mut head = vec![0xFF, 0xD8, 0xFF, 0xD9];
    head.extend_from_slice(&xmp_segment(b"two"));
    assert!(find_xmp_packets(&head).is_empty());
    let mut head = vec![0xFF, 0xD8, 0x00];
    head.extend_from_slice(&xmp_segment(b"two"));
    assert!(find_xmp_packets(&head).is_empty());
    let mut head = vec![0xFF, 0xD8, 0xFF, 0xE0, 0, 1];
    head.extend_from_slice(&xmp_segment(b"two"));
    assert!(find_xmp_packets(&head).is_empty());
}

#[test]
fn a_packet_that_is_not_utf8_counts_as_empty() {
    let head = jpeg(&[xmp_segment(&[0xFF, 0xFE, b'x'])]);
    assert_eq!(find_xmp_packets(&head), vec![""]);
}

#[test]
fn a_cut_segment_is_read_as_far_as_it_goes() {
    let mut head = vec![0xFF, 0xD8];
    head.extend_from_slice(&xmp_segment(b"a long packet"));
    head.truncate(head.len() - 4);
    assert_eq!(find_xmp_packets(&head), vec!["a long pa"]);
    let signature_only = jpeg(&[xmp_segment(b"")]);
    assert!(find_xmp_packets(&signature_only).is_empty());
    assert!(find_xmp_packets(&[]).is_empty());
    assert!(find_xmp_packets(&[0xFF, 0xD8, 0xFF]).is_empty());
}

#[test]
fn the_marker_needs_a_box_behind_it() {
    let mut buf = b"....MotionPhoto_Datano box".to_vec();
    assert_eq!(find_samsung_marker(&buf), None);
    let first = buf.len();
    buf.extend_from_slice(b"MotionPhoto_Data\0\0\0\x18ftypmp42");
    assert_eq!(find_samsung_marker(&buf), Some((first as u64 + 16, "samsung")));
    assert_eq!(
        find_samsung_marker(b"MotionPhoto_Data\0\0\0\x08mdat"),
        Some((16, "samsung"))
    );
    assert_eq!(find_samsung_marker(b"MotionPhoto_Data\0\0\0\x08mda"), None);
    assert_eq!(find_samsung_marker(b"MotionPhoto_Data\0\0\0\x08moov"), None);
    assert_eq!(find_samsung_marker(b""), None);
}

#[test]
fn what_the_marker_search_finds_is_a_box() {
    let buf = b"xxMotionPhoto_Data....mdatxxxxMotionPhoto_Data....ftyp";
    let (offset, _) = find_samsung_marker(buf).unwrap();
    let at = offset as usize;
    assert_eq!(&buf[at - 16..at], b"MotionPhoto_Data");
    assert_eq!(&buf[at + 4..at + 8], b"mdat");
}

#[test]
fn boxes_of_known_brands_are_found() {
    let buf = with_box(40000, 24, b"mp42");
    assert_eq!(find_ftyp_video_start(&buf, 65536), Some((40000, "huawei")));
    assert_eq!(find_ftyp_video_start(&buf, 65535), None);
    let buf = with_box(32768, 12, b"isom");
    assert_eq!(find_ftyp_video_start(&buf, 70000), Some((32768, "huawei")));
    let buf = with_box(32768, 64, b"qt  ");
    assert_eq!(find_ftyp_video_start(&buf, 70000), Some((32768, "huawei")));
}

#[test]
fn other_boxes_are_passed_over() {
    assert_eq!(find_ftyp_video_start(&with_box(32767, 24, b"mp42"), 70000), None);
    assert_eq!(find_ftyp_video_start(&with_box(40000, 11, b"mp42"), 70000), None);
    assert_eq!(find_ftyp_video_start(&with_box(40000, 65, b"mp42"), 70000), None);
    assert_eq!(find_ftyp_video_start(&with_box(40000, 24, b"mp43"), 70000), None);
    assert_eq!(find_ftyp_video_start(&[], 70000), None);
    let mut buf = with_box(33000, 24, b"zzzz");
    let second = buf.len() as u64;
    buf.extend_from_slice(&with_box(0, 24, b"mp41"));
    assert_eq!(find_ftyp_video_start(&buf, 70000), Some((second, "huawei")));
}

#[test]
fn a_box_that_ends_the_bytes_is_not_found() {
    let mut buf = with_box(40000, 24, b"mp42");
    buf.truncate(40012);
    assert_eq!(find_ftyp_video_start(&buf, 70000), None);
    buf.push(0);
    assert_eq!(find_ftyp_video_start(&buf, 70000), Some((40000, "huawei")));
}

#[test]
fn the_steps_of_the_search() {
    assert_eq!(jpeg_motion_photo_offset(3, MotionStage::Start, None), MotionStep::Nothing);
    assert_eq!(
        jpeg_motion_photo_offset(4, MotionStage::Start, None),
        MotionStep::Read(MotionStage::Head, 4)
    );
    assert_eq!(
        jpeg_motion_photo_offset(1 << 30, MotionStage::Start, None),
        MotionStep::Read(MotionStage::Head, 65536)
    );
    assert_eq!(jpeg_motion_photo_offset(100, MotionStage::Head, None), MotionStep::Nothing);
    assert_eq!(
        jpeg_motion_photo_offset(100, MotionStage::Head, Some(b"\x89PNG")),
        MotionStep::Nothing
    );
    assert_eq!(
        jpeg_motion_photo_offset(1 << 30, MotionStage::Head, Some(&[0xFF, 0xD8])),
        MotionStep::Read(MotionStage::Marker, 20 * 1024 * 1024)
    );
    assert_eq!(
        jpeg_motion_photo_offset(1 << 30, MotionStage::Marker, None),
        MotionStep::Read(MotionStage::Boxes, 20 * 1024 * 1024)
    );
    assert_eq!(
        jpeg_motion_photo_offset(65535, MotionStage::Marker, Some(&[])),
        MotionStep::Nothing
    );
    assert_eq!(jpeg_motion_photo_offset(70000, MotionStage::Boxes, None), MotionStep::Nothing);
}

#[test]
fn the_packets_decide_before_the_marker_and_the_boxes() {
    let mut file = jpeg(&[xmp_segment(b"MicroVideo=\"1\" MicroVideoOffset=\"100\"")]);
    file.resize(40000, 0);
    file.extend_from_slice(&with_box(0, 24, b"mp42"));
    file.extend_from_slice(b"MotionPhoto_Data\0\0\0\x18ftypmp42");
    file.resize(80000, 0);
    assert_eq!(search(&file), Some((79900, "google")));
}

#[test]
fn the_marker_decides_before_the_boxes() {
    let mut file = jpeg(&[xmp_segment(b"MotionPhoto=\"1\"")]);
    file.resize(40000, 0);
    file.extend_from_slice(&with_box(0, 24, b"mp42"));
    let marker = file.len() as u64;
    file.extend_from_slice(b"MotionPhoto_Data\0\0\0\x18ftypmp42");
    file.resize(80000, 0);
    assert_eq!(search(&file), Some((marker + 16, "samsung")));
}

#[test]
fn the_boxes_decide_last() {
    let mut file = jpeg(&[xmp_segment(b"MotionPhoto=\"1\"")]);
    file.resize(40000, 0);
    file.extend_from_slice(&with_box(0, 24, b"mp42"));
    file.resize(80000, 0);
    assert_eq!(search(&file), Some((40000, "huawei")));
    file[40004] = b'x';
    assert_eq!(search(&file), None);
}

#[test]
fn a_later_packet_counts_where_an_earlier_one_says_nothing() {
    let file = jpeg(&[
        xmp_segment(b"MotionPhoto=\"1\""),
        xmp_segment(b"MotionPhoto=\"1\" MotionPhotoOffset=\"10\""),
    ]);
    assert_eq!(search(&file), Some((file.len() as u64 - 10, "google")));
}

#[test]
fn videos_begin_inside_the_file() {
    let file = jpeg(&[xmp_segment(b"MicroVideo=\"1\" MicroVideoOffset=\"99999999\"")]);
    let (offset, _) = search(&file).unwrap();
    assert!(offset <= file.len() as u64);
    assert_eq!(offset, 0);
}

#[test]
fn offsets_out_of_range_are_told() {
    let packet = "MotionPhoto=\"1\" <Container:Item Item:Mime=\"video/mp4\" \
        Item:Length=\"18446744073709551615\" Item:Padding=\"1\"/>";
    let file = jpeg(&[xmp_segment(packet.as_bytes())]);
    let size = file.len() as u64;
    assert!(!motion_step_in_range(size, MotionStage::Head, Some(&file)));
    assert!(motion_step_in_range(size, MotionStage::Marker, Some(&file)));
    assert!(motion_step_in_range(size, MotionStage::Head, None));
    let file = jpeg(&[
        xmp_segment(b"MicroVideo=\"1\" MicroVideoOffset=\"5\""),
        xmp_segment(packet.as_bytes()),
    ]);
    assert!(motion_step_in_range(file.len() as u64, MotionStage::Head, Some(&file)));
}
