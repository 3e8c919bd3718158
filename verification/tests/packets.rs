use livephoto::xmp::{
    extract_xmp_u64, find_container_video_item, parse_xmp_motion, xmp_extent_in_range,
};

#[test]
fn attributes_are_read_in_either_quotes() {
    assert_eq!(extract_xmp_u64("a N=\"12345\" b", "N"), Some(12345));
    assert_eq!(extract_xmp_u64("a N='12345' b", "N"), Some(12345));
    assert_eq!(extract_xmp_u64("N=\" 7 \"", "N"), Some(7));
    assert_eq!(extract_xmp_u64("N=\"+7\"", "N"), Some(7));
    assert_eq!(extract_xmp_u64("N=\"18446744073709551615\"", "N"), Some(u64::MAX));
}

#[test]
fn attributes_without_a_number_are_not_read() {
    assert_eq!(extract_xmp_u64("", "N"), None);
    assert_eq!(extract_xmp_u64("N=\"\"", "N"), None);
    assert_eq!(extract_xmp_u64("N=\"x\"", "N"), None);
    assert_eq!(extract_xmp_u64("N=\"1", "N"), None);
    assert_eq!(extract_xmp_u64("N = \"1\"", "N"), None);
    assert_eq!(extract_xmp_u64("N=\"-1\"", "N"), None);
    assert_eq!(extract_xmp_u64("N=\"18446744073709551616\"", "N"), None);
}

#[test]
fn double_quotes_come_first_and_single_ones_fill_in() {
    assert_eq!(extract_xmp_u64("N='1' N=\"2\"", "N"), Some(2));
    assert_eq!(extract_xmp_u64("N='1' N=\"x\"", "N"), Some(1));
    assert_eq!(extract_xmp_u64("N=\"x\" N=\"2\"", "N"), None);
}

#[test]
fn the_video_item_is_found() {
    let xmp = "<Container:Item Item:Mime=\"video/mp4\" Item:Length=\"400\" Item:Padding=\"24\"/>";
    assert_eq!(find_container_video_item(xmp), Some((400, 24)));
    let xmp = "<Container:Item Item:Mime='video/mp4' Item:Length='400'>";
    assert_eq!(find_container_video_item(xmp), Some((400, 0)));
}

#[test]
fn an_image_item_does_not_hide_the_video_item() {
    let xmp = "<x><Container:Item Item:Mime=\"image/jpeg\" Item:Length=\"0\" Item:Padding=\"8\"/>\
        <Container:Item Item:Mime=\"video/mp4\" Item:Length=\"1234\"/></x>";
    assert_eq!(find_container_video_item(xmp), Some((1234, 0)));
    let at = xmp.find("/>").unwrap() + 2;
    assert_eq!(find_container_video_item(&xmp[at..]), find_container_video_item(xmp));
}

#[test]
fn an_item_with_an_end_tag_does_not_hide_the_video_item() {
    let video = "<Container:Item Item:Mime=\"video/mp4\" Item:Length=\"9\"/>";
    let image = "<Container:Item Item:Mime=\"image/jpeg\" Item:Length=\"5\"></Container:Item>";
    assert_eq!(find_container_video_item(&format!("{image}{video}")), Some((9, 0)));
    let image = "<Container:Item Item:Mime='image/jpeg' Item:Length='5'> x/> </Container:Item>";
    assert_eq!(find_container_video_item(&format!("{image}{video}")), Some((9, 0)));
    let video = "<Container:Item Item:Mime='video/mp4' Item:Length='9'></Container:Item>";
    let other = "<Container:Item Item:Mime='image/jpeg' Item:Padding='7'/>";
    assert_eq!(find_container_video_item(&format!("{image}{video}{other}")), Some((9, 0)));
}

#[test]
fn a_quoted_bracket_does_not_end_a_tag() {
    let xmp = "<Container:Item Note=\"a>b\" Item:Mime=\"video/mp4\" Item:Length=\"8\"/>";
    assert_eq!(find_container_video_item(xmp), Some((8, 0)));
    let xmp = "<Container:Item Note='\"/>' Item:Mime=\"video/mp4\" Item:Length=\"8\">";
    assert_eq!(find_container_video_item(xmp), Some((8, 0)));
}

#[test]
fn a_tag_with_an_open_quote_ends_at_its_bracket() {
    let xmp = "<Container:Item Item:Mime=\"video/mp4\" Item:Length=\"9\" x=\"/>";
    assert_eq!(find_container_video_item(xmp), Some((9, 0)));
    let xmp = "<Container:Item Item:Mime=\"video/mp4\" Item:Length=\"9\" x=\">";
    assert_eq!(find_container_video_item(xmp), Some((9, 0)));
    let xmp = "<Container:Item Note=\"a Item:Mime='video/mp4' Item:Length='8'/>";
    assert_eq!(find_container_video_item(xmp), Some((8, 0)));
    let xmp = "<Container:Item x=\" Item:Mime=\"video/mp4\" Item:Length=\"9\"/>";
    assert_eq!(find_container_video_item(xmp), Some((9, 0)));
    let xmp = "<Container:Item Item:Length=\"9\" Item:Mime=\"video/mp4/>";
    assert_eq!(find_container_video_item(xmp), Some((9, 0)));
    let image = "<Container:Item Item:Mime=\"image/jpeg\" Item:Length=\"5\" x=\"/>";
    let video = "<Container:Item Item:Mime=\"video/mp4\" Item:Length=\"9\"/>";
    assert_eq!(find_container_video_item(&format!("{image}{video}")), Some((9, 0)));
}

#[test]
fn the_type_of_an_item_is_read_in_any_spelling() {
    for mime in [
        "Item:Mime = \"video/mp4\"",
        "Item:Mime= 'video/mp4'",
        "Item:Mime\n=\t\"video/mp4; codecs=x\"",
        "Mime=\"video/mp4\"",
        "GContainerItem:Mime='video/mp4'",
        "Item:Mime=video/mp4",
        "Item:Mime=\"image/jpeg\" Other:Mime=\"video/mp4\"",
    ] {
        let xmp = format!("<Container:Item {mime} Item:Length=\"9\"/>");
        assert_eq!(find_container_video_item(&xmp), Some((9, 0)), "{mime}");
    }
    for mime in [
        "Item:MimeType=\"video/mp4\"",
        "Item:XMime=\"video/mp4\"",
        "Item:Mime \"video/mp4\"",
        "Note='Item:Mime=\"video/mp4\"' Item:Mime=\"image/jpeg\"",
    ] {
        let xmp = format!("<Container:Item {mime} Item:Length=\"9\"/>");
        assert_eq!(find_container_video_item(&xmp), None, "{mime}");
    }
}

#[test]
fn only_the_type_of_an_item_counts() {
    let xmp = "<Container:Item Item:Mime=\"image/jpeg\" Note=\"video/mp4\" Item:Length=\"5\"/>\
        <Container:Item Item:Length=\"6\" Note='video/mp4'/>\
        <Container:Item Item:Mime=\"x-video/mp4; y\" Item:Length=\"7\"/>";
    assert_eq!(find_container_video_item(xmp), Some((7, 0)));
}

#[test]
fn an_incomplete_video_item_is_none() {
    assert_eq!(find_container_video_item(""), None);
    assert_eq!(find_container_video_item("<Container:Item Item:Mime=\"video/mp4\"/>"), None);
    assert_eq!(find_container_video_item("<Container:Item Item:Mime=\"image/jpeg\"/>"), None);
    assert_eq!(
        find_container_video_item("<Container:Item Item:Mime=\"video/mp4\" Item:Length=\"5\""),
        None
    );
    assert_eq!(
        find_container_video_item(
            "<Container:Item Item:Mime='video/mp4'/>\
            <Container:Item Item:Mime='video/mp4' Item:Length=\"5\"/>"
        ),
        None
    );
}

#[test]
fn micro_videos_are_found_from_the_end() {
    let xmp = "GCamera:MicroVideo=\"1\" GCamera:MicroVideoOffset=\"3000\"";
    assert_eq!(parse_xmp_motion(xmp, 10000), Some((7000, "google")));
    let xmp = "xmlns=\"http://ns.xiaomi.com/photos\" MicroVideo='1' MicroVideoOffset='1'";
    assert_eq!(parse_xmp_motion(xmp, 10000), Some((9999, "xiaomi")));
}

#[test]
fn motion_photos_are_found_from_the_end() {
    let item = "<Container:Item Item:Mime=\"video/mp4\" Item:Length=\"400\" Item:Padding=\"24\"/>";
    for (owner, expected) in [
        ("", "google"),
        ("http://ns.oplus.com/photos/1.0/camera/", "oppo"),
        ("http://ns.samsung.com/", "samsung"),
        ("http://ns.xiaomi.com/", "xiaomi"),
        ("xiaomi.com samsung.com oplus.com", "oppo"),
        ("xiaomi.com samsung.com", "samsung"),
    ] {
        let xmp = format!("GCamera:MotionPhoto=\"1\" {owner} {item}");
        assert_eq!(parse_xmp_motion(&xmp, 1000), Some((576, expected)));
    }
}

#[test]
fn the_offset_attribute_fills_in_for_the_item() {
    let xmp = "MotionPhoto='1' MotionPhotoOffset=\"250\"";
    assert_eq!(parse_xmp_motion(xmp, 1000), Some((750, "google")));
    let xmp = "MicroVideo=\"1\" MotionPhoto=\"1\" MotionPhotoOffset=\"250\"";
    assert_eq!(parse_xmp_motion(xmp, 1000), Some((750, "google")));
}

#[test]
fn a_packet_without_a_mark_or_an_offset_says_nothing() {
    assert_eq!(parse_xmp_motion("", 1000), None);
    assert_eq!(parse_xmp_motion("MicroVideo=\"0\" MicroVideoOffset=\"5\"", 1000), None);
    assert_eq!(parse_xmp_motion("MotionPhoto=\"1\"", 1000), None);
    assert_eq!(parse_xmp_motion("MotionPhotoOffset=\"5\"", 1000), None);
}

#[test]
fn an_offset_beyond_the_file_is_its_start() {
    assert_eq!(
        parse_xmp_motion("MicroVideo=\"1\" MicroVideoOffset=\"5000\"", 1000),
        Some((0, "google"))
    );
    assert_eq!(
        parse_xmp_motion("MicroVideo=\"1\" MicroVideoOffset=\"0\"", 1000),
        Some((1000, "google"))
    );
}

#[test]
fn extents_out_of_range_are_told() {
    let item = "<Container:Item Item:Mime=\"video/mp4\" \
        Item:Length=\"18446744073709551615\" Item:Padding=\"1\"/>";
    assert!(!xmp_extent_in_range(&format!("MotionPhoto=\"1\" {item}")));
    assert!(xmp_extent_in_range(item));
    let micro = format!("MicroVideo=\"1\" MicroVideoOffset=\"5\" MotionPhoto=\"1\" {item}");
    assert!(xmp_extent_in_range(&micro));
    assert_eq!(parse_xmp_motion(&micro, 1000), Some((995, "google")));
    let item = "<Container:Item Item:Mime=\"video/mp4\" Item:Length=\"18446744073709551615\"/>";
    assert!(xmp_extent_in_range(&format!("MotionPhoto=\"1\" {item}")));
}
