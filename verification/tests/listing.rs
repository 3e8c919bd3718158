use livephoto::listing::{
    list_live_photos, start_listing, ListAction, ListEvent, ListStage, Listing,
};
use livephoto::order::{order_by_keys, sort_by_keys, sort_photos};
use livephoto::photos::{
    candidate, collect_image_files, display_name, is_image_extension, not_a_directory, Companion,
    EntryAction, ImageFile, LivePhoto,
};

fn text(s: &str) -> String {
    s.to_string()
}

fn image(stem: &str, ext: &str) -> ImageFile {
    ImageFile {
        stem: text(stem),
        extension: Some(text(ext)),
        path: format!("/d/{stem}.{ext}"),
        size: 1000,
    }
}

fn photo(name: &str, size: u64) -> LivePhoto {
    LivePhoto {
        name: text(name),
        display_name: display_name(name),
        image_path: String::new(),
        video_path: String::new(),
        file_size: size,
        photo_type: text("live"),
    }
}

// Handles an image in a directory that holds `files`, whose own file holds `embedded`.
fn handle(
    listing: Listing,
    file: ImageFile,
    files: &[&str],
    embedded: Option<(u64, &'static str)>,
    extracted: Result<&str, &str>,
) -> (Listing, ListAction, Vec<String>) {
    let stem = file.stem.clone();
    let mut probed = Vec::new();
    let (mut listing, mut action) = list_live_photos(listing, ListEvent::Image(file));
    loop {
        let event = match &action {
            ListAction::NextImage | ListAction::Report(_) => return (listing, action, probed),
            ListAction::Probe(companion) => {
                let name = match companion {
                    Companion::Extension(ext) => format!("{stem}.{ext}"),
                    Companion::FileName(name) => name.clone(),
                };
                let there = files.contains(&name.as_str());
                probed.push(name.clone());
                ListEvent::Probed(if there { Some(format!("/d/{name}")) } else { None })
            }
            ListAction::Detect => ListEvent::Detected(embedded),
            ListAction::Extract(_) => match extracted {
                Ok(path) => ListEvent::Extracted(text(path)),
                Err(message) => ListEvent::ExtractFailed(text(message)),
            },
        };
        let next = list_live_photos(listing, event);
        listing = next.0;
        action = next.1;
    }
}

fn only_photo(file: ImageFile, files: &[&str]) -> Option<LivePhoto> {
    let (listing, action, _) = handle(Listing::new(), file, files, None, Err("none"));
    assert_eq!(action, ListAction::NextImage);
    assert_eq!(listing.stage, ListStage::Idle);
    assert!(listing.photos.len() <= 1);
    listing.photos.into_iter().next()
}

#[test]
fn images_are_known_by_their_extension() {
    for ext in ["jpg", "jpeg", "heic", "heif", "png"] {
        assert!(is_image_extension(ext));
    }
    for ext in ["JPG", "gif", "mov", ""] {
        assert!(!is_image_extension(ext));
    }
}

#[test]
fn entries_are_taken_passed_over_or_gone_through() {
    let jpg = Some(text("JPG"));
    assert_eq!(collect_image_files(false, true, &jpg, false), EntryAction::Take);
    assert_eq!(collect_image_files(false, true, &Some(text("mov")), true), EntryAction::Skip);
    assert_eq!(collect_image_files(false, true, &None, true), EntryAction::Skip);
    assert_eq!(collect_image_files(true, false, &None, true), EntryAction::Descend);
    assert_eq!(collect_image_files(true, false, &jpg, true), EntryAction::Descend);
    assert_eq!(collect_image_files(true, false, &jpg, false), EntryAction::Skip);
    assert_eq!(collect_image_files(false, false, &jpg, true), EntryAction::Skip);
}

#[test]
fn a_path_that_is_no_directory_is_reported() {
    assert_eq!(not_a_directory("/x"), "'/x' is not a valid directory");
}

#[test]
fn a_listing_starts_in_a_directory_only() {
    assert_eq!(start_listing("/d", true), Ok(Listing::new()));
    assert_eq!(start_listing("/d", false), Err(text("'/d' is not a valid directory")));
    assert_eq!(start_listing("", false), Err(text("'' is not a valid directory")));
    let empty = start_listing("/d", true).unwrap();
    assert!(sort_photos(empty.photos).is_empty());
}

// A directory with its entries, or a file.
enum Entry {
    Dir(Vec<Entry>),
    File(&'static str, &'static str),
}

fn walk(entries: &[Entry], recursive: bool) -> Vec<ImageFile> {
    let mut out = Vec::new();
    for entry in entries {
        let (is_dir, ext) = match entry {
            Entry::Dir(_) => (true, None),
            Entry::File(_, ext) => (false, Some(text(ext))),
        };
        match (collect_image_files(is_dir, !is_dir, &ext, recursive), entry) {
            (EntryAction::Descend, Entry::Dir(inner)) => out.extend(walk(inner, true)),
            (EntryAction::Take, Entry::File(stem, ext)) => out.push(image(stem, ext)),
            _ => {}
        }
    }
    out
}

#[test]
fn a_directory_is_answered_with_its_photos_in_order() {
    let deep = Entry::Dir(vec![Entry::File("B", "HEIC"), Entry::File("n", "txt")]);
    let entries = vec![
        Entry::File("c", "jpg"),
        Entry::Dir(vec![Entry::File("x", "png"), deep]),
        Entry::File("a", "jpeg"),
        Entry::File("a", "mov"),
    ];
    let stems = |recursive: bool| -> Vec<String> {
        walk(&entries, recursive).into_iter().map(|i| i.stem).collect()
    };
    assert_eq!(stems(false), vec!["c", "a"]);
    assert_eq!(stems(true), vec!["c", "x", "B", "a"]);
    let mut listing = start_listing("/d", true).unwrap();
    for file in walk(&entries, true) {
        listing = handle(listing, file, &["a.mov", "B.mp4", "c.m4v"], None, Err("")).0;
    }
    let names: Vec<String> = sort_photos(listing.photos).into_iter().map(|p| p.name).collect();
    assert_eq!(names, vec!["a", "B", "c"]);
}

#[test]
fn names_are_shown_with_spaces() {
    assert_eq!(display_name("IMG_2024-05-01 a"), "IMG 2024 05 01 a");
    assert_eq!(display_name(""), "");
}

#[test]
fn companions_are_looked_for_in_order() {
    let (_, _, probed) = handle(Listing::new(), image("a", "png"), &[], None, Err(""));
    assert_eq!(
        probed,
        vec!["a.mov", "a.MOV", "a.mp4", "a.MP4", "a.m4v", "a.M4V", "a_motion.mp4", "a_motion.MP4"]
    );
    let (_, _, probed) = handle(Listing::new(), image("a", "HEIC"), &[], None, Err(""));
    assert_eq!(
        probed,
        vec![
            "a.mov", "a.MOV", "a.mp4", "a.MP4", "a.mp4", "a.MP4", "a.m4v", "a.M4V", "a_motion.mp4",
            "a_motion.MP4",
        ]
    );
    assert_eq!(candidate("a", "jpg", 0), Some((Companion::Extension("mov"), "live")));
    assert_eq!(
        candidate("a", "jpg", 7),
        Some((Companion::FileName(text("a_motion.MP4")), "samsung"))
    );
    assert_eq!(candidate("a", "jpg", 8), None);
    assert_eq!(candidate("a", "heif", 10), None);
    assert_eq!(candidate("a", "jpg", usize::MAX), None);
}

#[test]
fn a_video_of_the_same_name_makes_a_photo() {
    for ext in ["jpg", "JPEG", "heic", "HEIF", "png"] {
        for video in ["mov", "MOV", "mp4", "MP4", "m4v", "M4V"] {
            let made = only_photo(image("IMG_1", ext), &[&format!("IMG_1.{video}")]).unwrap();
            let heic = ext == "heic" || ext == "HEIF";
            let photo_type = match video {
                "mov" | "MOV" => "live",
                "mp4" | "MP4" if heic => "huawei",
                _ => "motion",
            };
            assert_eq!(
                made,
                LivePhoto {
                    name: text("IMG_1"),
                    display_name: text("IMG 1"),
                    image_path: format!("/d/IMG_1.{ext}"),
                    video_path: format!("/d/IMG_1.{video}"),
                    file_size: 1000,
                    photo_type: text(photo_type),
                }
            );
        }
    }
}

#[test]
fn a_mov_file_comes_first() {
    let made = only_photo(image("a", "heic"), &["a.mp4", "a_motion.mp4", "a.mov"]).unwrap();
    assert_eq!(made.photo_type, "live");
    assert_eq!(made.video_path, "/d/a.mov");
}

#[test]
fn a_samsung_pair_is_found() {
    let made = only_photo(image("a", "jpg"), &["a_motion.MP4"]).unwrap();
    assert_eq!(made.photo_type, "samsung");
    assert_eq!(made.video_path, "/d/a_motion.MP4");
}

#[test]
fn images_without_a_video_make_no_photo() {
    assert_eq!(only_photo(image("a", "jpg"), &["b.mov"]), None);
    assert_eq!(only_photo(image("a", "gif"), &["a.mov"]), None);
    let bare = ImageFile { stem: text("a"), extension: None, path: text("/d/a"), size: 1 };
    assert_eq!(only_photo(bare, &["a.mov"]), None);
}

#[test]
fn an_embedded_video_makes_a_photo() {
    let (listing, action, _) =
        handle(Listing::new(), image("a", "JPG"), &[], Some((7, "google")), Ok("/c/v.mp4"));
    assert_eq!(action, ListAction::NextImage);
    assert_eq!(listing.photos.len(), 1);
    assert_eq!(listing.photos[0].photo_type, "google");
    assert_eq!(listing.photos[0].video_path, "/c/v.mp4");
    assert_eq!(listing.photos[0].image_path, "/d/a.JPG");
}

#[test]
fn only_jpeg_files_are_searched_themselves() {
    for ext in ["png", "heic", "heif"] {
        let (listing, _, _) =
            handle(Listing::new(), image("a", ext), &[], Some((7, "google")), Ok("/c/v.mp4"));
        assert!(listing.photos.is_empty());
    }
}

#[test]
fn a_failed_extraction_is_reported() {
    let (listing, action, _) =
        handle(Listing::new(), image("a", "jpeg"), &[], Some((7, "google")), Err("disk full"));
    assert!(listing.photos.is_empty());
    assert_eq!(
        action,
        ListAction::Report(text("[motion-photo] failed to extract 'a': disk full"))
    );
}

#[test]
fn every_image_is_listed_in_turn() {
    let files = ["a.mov", "c.mp4"];
    let mut listing = Listing::new();
    for stem in ["c", "b", "a"] {
        listing = handle(listing, image(stem, "jpg"), &files, None, Err("")).0;
    }
    let names: Vec<&str> = listing.photos.iter().map(|p| p.name.as_str()).collect();
    assert_eq!(names, vec!["c", "a"]);
}

#[test]
fn photos_are_sorted_by_name_in_any_letter_case() {
    let names = ["b", "A", "C", "a", "\u{c9}", "\u{e8}", "B", "", "a1", "A0"];
    let photos: Vec<LivePhoto> =
        names.iter().enumerate().map(|(i, n)| photo(n, i as u64)).collect();
    let mut expected = photos.clone();
    expected.sort_by(|a, b| a.name.to_lowercase().cmp(&b.name.to_lowercase()));
    assert_eq!(sort_photos(photos), expected);
}

#[test]
fn photos_of_the_same_name_stay_in_order() {
    let sorted = sort_photos(vec![photo("x", 1), photo("X", 2), photo("a", 3), photo("x", 4)]);
    let sizes: Vec<u64> = sorted.iter().map(|p| p.file_size).collect();
    assert_eq!(sizes, vec![3, 1, 2, 4]);
}

#[test]
fn photos_are_sorted_by_given_keys() {
    let sorted = sort_by_keys(
        vec![photo("a", 1), photo("b", 2), photo("c", 3)],
        &vec![text("z"), text("y"), text("ya")],
    );
    let sizes: Vec<u64> = sorted.iter().map(|p| p.file_size).collect();
    assert_eq!(sizes, vec![2, 3, 1]);
}

#[test]
fn keys_have_one_order() {
    let keys = |texts: &[&str]| -> Vec<Vec<char>> {
        texts.iter().map(|t| t.chars().collect()).collect()
    };
    assert_eq!(order_by_keys(&keys(&["b", "a", "b", "aa", ""])), vec![4, 1, 3, 0, 2]);
    assert!(order_by_keys(&keys(&[])).is_empty());
}

#[test]
fn a_cloned_photo_is_the_same() {
    let p = photo("a", 1);
    assert_eq!(p.clone(), p);
}
