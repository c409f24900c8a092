use vidthumb::digits::decimal_string;
use vidthumb::error::{ErrorKind, VideoError};
use vidthumb::file::{effective_file_type, get_media_path, sort_folders_first, FileInfo,
    FileMetadata};

#[test]
fn decimal_strings() {
    assert_eq!(decimal_string(0), "0");
    assert_eq!(decimal_string(7), "7");
    assert_eq!(decimal_string(10), "10");
    assert_eq!(decimal_string(12345), "12345");
    assert_eq!(decimal_string(u64::MAX), "18446744073709551615");
}

#[test]
fn media_path_joins_root() {
    assert_eq!(get_media_path(&String::from("clips/a.mp4")), "media/clips/a.mp4");
    assert_eq!(get_media_path(&String::from("")), "media/");
}

#[test]
fn metadata_from_duration() {
    assert_eq!(FileMetadata::from_duration(Some(1234)).duration_ms, 1234);
    assert_eq!(FileMetadata::from_duration(None).duration_ms, 0);
}

#[test]
fn effective_type_unwraps_application() {
    assert_eq!(effective_file_type(&String::from("application"), &String::from("json")), "json");
    assert_eq!(effective_file_type(&String::from("video"), &String::from("mp4")), "video");
}

#[test]
fn folder_entries_link_to_folder_api() {
    let info = FileInfo::folder_entry(&String::from("shows/s1"), &String::from("s1"));
    assert_eq!(info.api_href, "/api/folder/shows/s1");
    assert_eq!(info.file_type, "folder");
    assert_eq!(info.href, "/shows/s1");
    assert!(info.is_folder);
    assert_eq!(info.name, "s1");
    assert_eq!(info.mime, "application/json");
}

#[test]
fn video_entries_link_to_thumbnail_api() {
    let info = FileInfo::file_entry(
        &String::from("clips/a.mp4"),
        &String::from("a.mp4"),
        &String::from("video"),
        &String::from("video/mp4"),
    );
    assert_eq!(info.api_href, "/api/thumbnail/clips/a.mp4");
    assert!(!info.is_folder);
    assert_eq!(info.mime, "video/mp4");
}

#[test]
fn other_entries_link_to_file_serving() {
    let info = FileInfo::file_entry(
        &String::from("notes.txt"),
        &String::from("notes.txt"),
        &String::from("text"),
        &String::from("text/plain"),
    );
    assert_eq!(info.api_href, "/file/notes.txt");
    assert_eq!(info.file_type, "text");
}

#[test]
fn default_entry_is_unknown() {
    let d = FileInfo::default();
    assert_eq!(d.file_type, "unknown");
    assert_eq!(d.name, "unknown");
    assert_eq!(d.mime, "text/plain");
    assert!(!d.is_folder);
    assert_eq!(d.api_href, "");
    assert_eq!(d.href, "");
}

#[test]
fn listing_puts_folders_first_in_order() {
    let f1 = FileInfo::file_entry(
        &String::from("a.mp4"),
        &String::from("a.mp4"),
        &String::from("video"),
        &String::from("video/mp4"),
    );
    let d1 = FileInfo::folder_entry(&String::from("x"), &String::from("x"));
    let f2 = FileInfo::file_entry(
        &String::from("b.txt"),
        &String::from("b.txt"),
        &String::from("text"),
        &String::from("text/plain"),
    );
    let d2 = FileInfo::folder_entry(&String::from("y"), &String::from("y"));
    let sorted = sort_folders_first(vec![f1, d1, f2, d2]);
    let names: Vec<&str> = sorted.iter().map(|e| e.name.as_str()).collect();
    assert_eq!(names, vec!["x", "y", "a.mp4", "b.txt"]);
    assert!(sorted[0].is_folder && sorted[1].is_folder);
    assert!(!sorted[2].is_folder && !sorted[3].is_folder);
}

#[test]
fn video_error_carries_kind_and_message() {
    let e = VideoError::new(ErrorKind::SeekFailure, String::from("could not seek"));
    assert_eq!(e.kind, ErrorKind::SeekFailure);
    assert_eq!(e.message().as_str(), "could not seek");
}
